//! Grouping the physical lines of one source into records ("chunks").
//!
//! With merging on, a line that starts with whitespace, or is empty, continues
//! the record before it; otherwise every line starts a record of its own. A
//! record longer than the length limit is dropped when it is handed out.

use vstd::prelude::*;
use crate::freq::within_limit;
use crate::scan::{append_bytes, is_ascii_ws, is_ws};

verus! {

/// Whether `line` continues the record before it.
pub open spec fn is_continuation(line: Seq<u8>, merge_lines: bool) -> bool {
    merge_lines && (line.len() == 0 || is_ws(line[0]))
}

/// The record that leaves the accumulator when `pending` is flushed: it, when
/// there is one and it is within the limit.
pub open spec fn flushed(pending: Option<Seq<u8>>, max_line_length: usize) -> Option<Seq<u8>> {
    match pending {
        Some(c) => if within_limit(c.len(), max_line_length) {
            Some(c)
        } else {
            None
        },
        None => None,
    }
}

/// The record being built after `line` arrives.
pub open spec fn next_pending(pending: Option<Seq<u8>>, line: Seq<u8>, merge_lines: bool) -> Option<
    Seq<u8>,
> {
    if is_continuation(line, merge_lines) {
        match pending {
            Some(c) => Some(c + line),
            None => Some(line),
        }
    } else {
        Some(line)
    }
}

/// The record handed out when `line` arrives: none for a continuation, else
/// the flushed earlier record.
pub open spec fn emitted(
    pending: Option<Seq<u8>>,
    line: Seq<u8>,
    merge_lines: bool,
    max_line_length: usize,
) -> Option<Seq<u8>> {
    if is_continuation(line, merge_lines) {
        None
    } else {
        flushed(pending, max_line_length)
    }
}

/// The records of an `Option` as a list of zero or one.
pub open spec fn opt_seq(o: Option<Seq<u8>>) -> Seq<Seq<u8>> {
    match o {
        Some(c) => seq![c],
        None => Seq::empty(),
    }
}

/// The record being built after `lines`, starting from nothing.
pub open spec fn pending_after(lines: Seq<Seq<u8>>, merge_lines: bool) -> Option<Seq<u8>>
    decreases lines.len(),
{
    if lines.len() == 0 {
        None
    } else {
        next_pending(pending_after(lines.drop_last(), merge_lines), lines.last(), merge_lines)
    }
}

/// The records handed out while `lines` arrive, starting from nothing.
pub open spec fn emitted_during(lines: Seq<Seq<u8>>, merge_lines: bool, max_line_length: usize) -> Seq<
    Seq<u8>,
>
    decreases lines.len(),
{
    if lines.len() == 0 {
        Seq::empty()
    } else {
        emitted_during(lines.drop_last(), merge_lines, max_line_length) + opt_seq(
            emitted(
                pending_after(lines.drop_last(), merge_lines),
                lines.last(),
                merge_lines,
                max_line_length,
            ),
        )
    }
}

/// The records of one source: those handed out line by line, then the last
/// one flushed at its end.
pub open spec fn source_chunks(lines: Seq<Seq<u8>>, merge_lines: bool, max_line_length: usize) -> Seq<
    Seq<u8>,
> {
    emitted_during(lines, merge_lines, max_line_length) + opt_seq(
        flushed(pending_after(lines, merge_lines), max_line_length),
    )
}

/// The records of a corpus, source after source.
pub open spec fn corpus_chunks(
    sources: Seq<Seq<Seq<u8>>>,
    merge_lines: bool,
    max_line_length: usize,
) -> Seq<Seq<u8>>
    decreases sources.len(),
{
    if sources.len() == 0 {
        Seq::empty()
    } else {
        corpus_chunks(sources.drop_last(), merge_lines, max_line_length) + source_chunks(
            sources.last(),
            merge_lines,
            max_line_length,
        )
    }
}

/// Builds the records of one source from its lines.
pub struct ChunkAccumulator {
    chunk: Vec<u8>,
    accumulating: bool,
    merge_lines: bool,
    max_line_length: usize,
}

impl ChunkAccumulator {
    /// The record being built, if any.
    pub closed spec fn pending(&self) -> Option<Seq<u8>> {
        if self.accumulating {
            Some(self.chunk@)
        } else {
            None
        }
    }

    /// Whether continuation lines are merged.
    pub closed spec fn merges(&self) -> bool {
        self.merge_lines
    }

    /// The length limit on records (0: none).
    pub closed spec fn limit(&self) -> usize {
        self.max_line_length
    }

    /// An accumulator that holds no record yet.
    pub fn new(merge_lines: bool, max_line_length: usize) -> (r: Self)
        ensures
            r.pending() == None::<Seq<u8>>,
            r.merges() == merge_lines,
            r.limit() == max_line_length,
    {
        ChunkAccumulator { chunk: Vec::new(), accumulating: false, merge_lines, max_line_length }
    }

    /// Hands out the record being built, if it is within the limit, and holds
    /// none afterwards.
    fn take_flushed(&mut self) -> (r: Option<Vec<u8>>)
        ensures
            final(self).pending() == None::<Seq<u8>>,
            final(self).merges() == old(self).merges(),
            final(self).limit() == old(self).limit(),
            match r {
                Some(c) => flushed(old(self).pending(), old(self).limit()) == Some(c@),
                None => flushed(old(self).pending(), old(self).limit()) == None::<Seq<u8>>,
            },
    {
        let was = self.accumulating;
        self.accumulating = false;
        let mut c: Vec<u8> = Vec::new();
        core::mem::swap(&mut c, &mut self.chunk);
        if !was {
            return None;
        }
        if self.max_line_length > 0 && c.len() > self.max_line_length {
            None
        } else {
            Some(c)
        }
    }

    /// Takes the next physical line. A continuation line is added to the
    /// record being built; any other line flushes that record, which is
    /// returned when it is within the limit, and starts a new one.
    pub fn push_line(&mut self, line: &[u8]) -> (r: Option<Vec<u8>>)
        ensures
            final(self).pending() == next_pending(old(self).pending(), line@, old(self).merges()),
            final(self).merges() == old(self).merges(),
            final(self).limit() == old(self).limit(),
            match r {
                Some(c) => emitted(
                    old(self).pending(),
                    line@,
                    old(self).merges(),
                    old(self).limit(),
                ) == Some(c@),
                None => emitted(old(self).pending(), line@, old(self).merges(), old(self).limit())
                    == None::<Seq<u8>>,
            },
    {
        let continues = line.len() == 0 || is_ascii_ws(line[0]);
        if self.merge_lines && continues {
            if !self.accumulating {
                self.chunk = Vec::new();
                self.accumulating = true;
            }
            append_bytes(&mut self.chunk, line);
            return None;
        }
        let out = self.take_flushed();
        let mut fresh: Vec<u8> = Vec::new();
        append_bytes(&mut fresh, line);
        proof {
            assert(fresh@ =~= line@);
        }
        self.chunk = fresh;
        self.accumulating = true;
        out
    }

    /// Ends the source: hands out the record being built, if it is within the
    /// limit, and holds none afterwards.
    pub fn finish(&mut self) -> (r: Option<Vec<u8>>)
        ensures
            final(self).pending() == None::<Seq<u8>>,
            final(self).merges() == old(self).merges(),
            final(self).limit() == old(self).limit(),
            match r {
                Some(c) => flushed(old(self).pending(), old(self).limit()) == Some(c@),
                None => flushed(old(self).pending(), old(self).limit()) == None::<Seq<u8>>,
            },
    {
        self.take_flushed()
    }
}


/// The lines of `lines` that are within the limit, in order.
pub open spec fn kept_lines(lines: Seq<Seq<u8>>, max_line_length: usize) -> Seq<Seq<u8>>
    decreases lines.len(),
{
    if lines.len() == 0 {
        Seq::empty()
    } else {
        kept_lines(lines.drop_last(), max_line_length) + opt_seq(
            flushed(Some(lines.last()), max_line_length),
        )
    }
}

/// With merging on, a line that starts with whitespace joins the record
/// before it, and nothing is handed out.
pub proof fn lemma_merge_appends(pending: Option<Seq<u8>>, line: Seq<u8>, max_line_length: usize)
    requires
        line.len() > 0,
        is_ws(line[0]),
    ensures
        next_pending(pending, line, true) == Some(
            match pending {
                Some(c) => c + line,
                None => line,
            },
        ),
        emitted(pending, line, true, max_line_length) == None::<Seq<u8>>,
{
}

/// With merging off, every line is a record of its own, whatever it starts
/// with: the records of a source are its lines within the limit.
pub proof fn lemma_no_merge_each_line(lines: Seq<Seq<u8>>, max_line_length: usize)
    ensures
        source_chunks(lines, false, max_line_length) == kept_lines(lines, max_line_length),
    decreases lines.len(),
{
    if lines.len() > 0 {
        let p = lines.drop_last();
        lemma_pending_no_merge(lines);
        if p.len() > 0 {
            lemma_no_merge_each_line(p, max_line_length);
            lemma_pending_no_merge(p);
        } else {
            assert(emitted_during(p, false, max_line_length) =~= Seq::<Seq<u8>>::empty());
            assert(kept_lines(p, max_line_length) =~= Seq::<Seq<u8>>::empty());
        }
    } else {
        assert(source_chunks(lines, false, max_line_length) =~= Seq::<Seq<u8>>::empty());
    }
}

/// With merging off, the record being built is the last line.
proof fn lemma_pending_no_merge(lines: Seq<Seq<u8>>)
    requires
        lines.len() > 0,
    ensures
        pending_after(lines, false) == Some(lines.last()),
{
}

/// Every record of a source is within the length limit.
proof fn lemma_source_chunks_within_limit(lines: Seq<Seq<u8>>, merge_lines: bool, max_line_length: usize)
    ensures
        forall|i: int|
            0 <= i < emitted_during(lines, merge_lines, max_line_length).len() ==> within_limit(
                #[trigger] emitted_during(lines, merge_lines, max_line_length)[i].len(),
                max_line_length,
            ),
        forall|i: int|
            0 <= i < source_chunks(lines, merge_lines, max_line_length).len() ==> within_limit(
                #[trigger] source_chunks(lines, merge_lines, max_line_length)[i].len(),
                max_line_length,
            ),
    decreases lines.len(),
{
    let e = emitted_during(lines, merge_lines, max_line_length);
    if lines.len() > 0 {
        let p = lines.drop_last();
        lemma_source_chunks_within_limit(p, merge_lines, max_line_length);
        let ep = emitted_during(p, merge_lines, max_line_length);
        let o = emitted(pending_after(p, merge_lines), lines.last(), merge_lines, max_line_length);
        assert forall|i: int| 0 <= i < e.len() implies within_limit(
            #[trigger] e[i].len(),
            max_line_length,
        ) by {
            if i < ep.len() {
                assert(e[i] == ep[i]);
            } else {
                assert(e[i] == opt_seq(o)[i - ep.len()]);
            }
        }
    }
    let s = source_chunks(lines, merge_lines, max_line_length);
    assert forall|i: int| 0 <= i < s.len() implies within_limit(
        #[trigger] s[i].len(),
        max_line_length,
    ) by {
        if i >= e.len() {
            assert(s[i] == opt_seq(flushed(pending_after(lines, merge_lines), max_line_length))[i
                - e.len()]);
        } else {
            assert(s[i] == e[i]);
        }
    }
}

/// Records over the length limit never reach the second pass: every record
/// of a corpus is within the limit.
pub proof fn lemma_chunks_within_limit(
    sources: Seq<Seq<Seq<u8>>>,
    merge_lines: bool,
    max_line_length: usize,
)
    ensures
        forall|i: int|
            0 <= i < corpus_chunks(sources, merge_lines, max_line_length).len() ==> within_limit(
                #[trigger] corpus_chunks(sources, merge_lines, max_line_length)[i].len(),
                max_line_length,
            ),
    decreases sources.len(),
{
    if sources.len() > 0 {
        lemma_chunks_within_limit(sources.drop_last(), merge_lines, max_line_length);
        lemma_source_chunks_within_limit(sources.last(), merge_lines, max_line_length);
        let a = corpus_chunks(sources.drop_last(), merge_lines, max_line_length);
        let b = source_chunks(sources.last(), merge_lines, max_line_length);
        let c = corpus_chunks(sources, merge_lines, max_line_length);
        assert forall|i: int| 0 <= i < c.len() implies within_limit(
            #[trigger] c[i].len(),
            max_line_length,
        ) by {
            if i < a.len() {
                assert(c[i] == a[i]);
            } else {
                assert(c[i] == b[i - a.len()]);
            }
        }
    }
}

} // verus!
