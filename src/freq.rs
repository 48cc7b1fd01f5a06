//! The first pass: counting how often each token digest occurs in a corpus.

use vstd::prelude::*;
use vstd::slice::slice_subrange;
use crate::digest::{digest, fnv1a};
use crate::scan::{get_whitespace, get_word, lemma_tokens_step, tokens};
use crate::tables::{
    new_word_count, word_count_get, word_count_insert, word_counts, WordCount,
};

verus! {

/// Whether a line or record of `len` bytes is kept under `max_line_length`
/// (0 keeps everything).
pub open spec fn within_limit(len: nat, max_line_length: usize) -> bool {
    max_line_length == 0 || len <= max_line_length
}

/// The tokens that a line contributes: none when it is over the limit.
pub open spec fn line_tokens(line: Seq<u8>, max_line_length: usize) -> Seq<Seq<u8>> {
    if within_limit(line.len(), max_line_length) {
        tokens(line)
    } else {
        Seq::empty()
    }
}

/// The tokens of every line of `lines` that is within the limit, in order.
pub open spec fn lines_tokens(lines: Seq<Seq<u8>>, max_line_length: usize) -> Seq<Seq<u8>>
    decreases lines.len(),
{
    if lines.len() == 0 {
        Seq::empty()
    } else {
        lines_tokens(lines.drop_last(), max_line_length)
            + line_tokens(lines.last(), max_line_length)
    }
}

/// The tokens of a whole corpus: its sources in order, each a list of lines.
pub open spec fn corpus_tokens(sources: Seq<Seq<Seq<u8>>>, max_line_length: usize) -> Seq<
    Seq<u8>,
>
    decreases sources.len(),
{
    if sources.len() == 0 {
        Seq::empty()
    } else {
        corpus_tokens(sources.drop_last(), max_line_length)
            + lines_tokens(sources.last(), max_line_length)
    }
}

/// How many of `toks` have digest `d`.
pub open spec fn digest_hits(toks: Seq<Seq<u8>>, d: u64) -> nat
    decreases toks.len(),
{
    if toks.len() == 0 {
        0
    } else {
        digest_hits(toks.drop_last(), d) + if digest(toks.last()) == d {
            1nat
        } else {
            0nat
        }
    }
}

/// How many of `toks` are exactly `t`.
pub open spec fn occurrences(toks: Seq<Seq<u8>>, t: Seq<u8>) -> nat
    decreases toks.len(),
{
    if toks.len() == 0 {
        0
    } else {
        occurrences(toks.drop_last(), t) + if toks.last() == t {
            1nat
        } else {
            0nat
        }
    }
}

/// A count as a table stores it: it stops growing at `u64::MAX`.
pub open spec fn capped(n: nat) -> u64 {
    if n < u64::MAX {
        n as u64
    } else {
        u64::MAX
    }
}

/// The word-frequency table of a token list: each digest that occurs, with
/// the number of tokens that have it.
pub open spec fn freq_table(toks: Seq<Seq<u8>>) -> Map<u64, u64> {
    Map::new(|d: u64| digest_hits(toks, d) > 0, |d: u64| capped(digest_hits(toks, d)))
}

/// The count that a table gives a key: its value, or 0 where it has none.
pub open spec fn count_in<K>(m: Map<K, u64>, k: K) -> u64 {
    if m.contains_key(k) {
        m[k]
    } else {
        0
    }
}

/// One more occurrence of `k`, stopping at `u64::MAX`.
pub open spec fn bump<K>(m: Map<K, u64>, k: K) -> Map<K, u64> {
    let c = count_in(m, k);
    m.insert(k, if c < u64::MAX { (c + 1) as u64 } else { c })
}

/// A table after counting `toks` into it from the first to the last.
pub open spec fn count_tokens(m: Map<u64, u64>, toks: Seq<Seq<u8>>) -> Map<u64, u64>
    decreases toks.len(),
{
    if toks.len() == 0 {
        m
    } else {
        count_tokens(bump(m, digest(toks[0])), toks.drop_first())
    }
}

/// Counts one token into the table.
fn count_token(word_freq: &mut WordCount, word: &[u8])
    ensures
        word_counts(*final(word_freq)) == bump(word_counts(*old(word_freq)), digest(word@)),
{
    let d = fnv1a(word);
    let c: u64 = match word_count_get(word_freq, d) {
        Some(c) => c,
        None => 0,
    };
    let n: u64 = if c < u64::MAX { c + 1 } else { c };
    word_count_insert(word_freq, d, n);
}

/// Counts the tokens of one line into the table. A line longer than
/// `max_line_length` bytes (when that is not 0) is skipped whole.
pub fn count_line(word_freq: &mut WordCount, line: &[u8], max_line_length: usize)
    ensures
        word_counts(*final(word_freq)) == count_tokens(
            word_counts(*old(word_freq)),
            line_tokens(line@, max_line_length),
        ),
{
    if max_line_length > 0 && line.len() > max_line_length {
        return;
    }
    let len = line.len();
    let mut pos: usize = 0;
    assert(line@.skip(0) =~= line@);
    while pos < len
        invariant
            len == line@.len(),
            pos <= len,
            count_tokens(word_counts(*old(word_freq)), tokens(line@)) == count_tokens(
                word_counts(*word_freq),
                tokens(line@.skip(pos as int)),
            ),
        ensures
            pos == len,
            count_tokens(word_counts(*old(word_freq)), tokens(line@)) == count_tokens(
                word_counts(*word_freq),
                tokens(line@.skip(pos as int)),
            ),
        decreases len - pos,
    {
        proof {
            lemma_tokens_step(line@, pos as int);
        }
        let tail = slice_subrange(line, pos, len);
        let ws = get_whitespace(tail);
        proof {
            assert(tail@ =~= line@.skip(pos as int));
        }
        pos = pos + ws.len();
        if pos == len {
            break;
        }
        let rest = slice_subrange(line, pos, len);
        let word = get_word(rest);
        proof {
            assert(rest@ =~= line@.skip(pos as int));
            let rest = tokens(line@.skip(pos + word@.len()));
            let all = seq![word@] + rest;
            assert(all[0] == word@);
            assert(all.drop_first() =~= rest);
        }
        count_token(word_freq, word);
        pos = pos + word.len();
    }
    proof {
        assert(line@.skip(len as int) =~= Seq::<u8>::empty());
        assert(tokens(Seq::<u8>::empty()) =~= Seq::<Seq<u8>>::empty());
    }
}

/// The lines of one source as byte sequences.
pub open spec fn lines_view(lines: Seq<Vec<u8>>) -> Seq<Seq<u8>> {
    lines.map_values(|l: Vec<u8>| l@)
}

/// The sources of a corpus as sequences of byte sequences.
pub open spec fn sources_view(sources: Seq<Vec<Vec<u8>>>) -> Seq<Seq<Seq<u8>>> {
    sources.map_values(|src: Vec<Vec<u8>>| lines_view(src@))
}

/// Counting one more token into the table of a token list gives the table of
/// the longer list.
pub proof fn lemma_bump_freq(prev: Seq<Seq<u8>>, t: Seq<u8>)
    ensures
        bump(freq_table(prev), digest(t)) == freq_table(prev.push(t)),
{
    assert(prev.push(t).drop_last() =~= prev);
    assert(bump(freq_table(prev), digest(t)) =~= freq_table(prev.push(t)));
}

/// Counting `toks` into the table of `prev` gives the table of `prev + toks`.
pub proof fn lemma_count_tokens_freq(prev: Seq<Seq<u8>>, toks: Seq<Seq<u8>>)
    ensures
        count_tokens(freq_table(prev), toks) == freq_table(prev + toks),
    decreases toks.len(),
{
    if toks.len() == 0 {
        assert(prev + toks =~= prev);
    } else {
        lemma_bump_freq(prev, toks[0]);
        lemma_count_tokens_freq(prev.push(toks[0]), toks.drop_first());
        assert(prev.push(toks[0]) + toks.drop_first() =~= prev + toks);
    }
}

/// Builds the word-frequency table of a corpus: every source, every line
/// within `max_line_length` bytes (0 keeps every line), every token.
pub fn calc_word_freq(sources: &Vec<Vec<Vec<u8>>>, max_line_length: usize) -> (r: WordCount)
    ensures
        word_counts(r) == freq_table(corpus_tokens(sources_view(sources@), max_line_length)),
{
    let ghost all = sources_view(sources@);
    let mut word_freq = new_word_count();
    proof {
        assert(word_counts(word_freq) =~= freq_table(Seq::<Seq<u8>>::empty()));
        assert(all.take(0) =~= Seq::<Seq<Seq<u8>>>::empty());
    }
    let mut i: usize = 0;
    while i < sources.len()
        invariant
            i <= sources@.len(),
            all == sources_view(sources@),
            word_counts(word_freq) == freq_table(corpus_tokens(all.take(i as int), max_line_length)),
        decreases sources@.len() - i,
    {
        let lines = &sources[i];
        let ghost before = corpus_tokens(all.take(i as int), max_line_length);
        let ghost src = all[i as int];
        proof {
            assert(src =~= lines_view(lines@));
            assert(src.take(0) =~= Seq::<Seq<u8>>::empty());
            assert(before + lines_tokens(src.take(0), max_line_length) =~= before);
        }
        let mut j: usize = 0;
        while j < lines.len()
            invariant
                j <= lines@.len(),
                src == lines_view(lines@),
                word_counts(word_freq) == freq_table(
                    before + lines_tokens(src.take(j as int), max_line_length),
                ),
            decreases lines@.len() - j,
        {
            let line = lines[j].as_slice();
            proof {
                let done = lines_tokens(src.take(j as int), max_line_length);
                let more = line_tokens(src[j as int], max_line_length);
                lemma_count_tokens_freq(before + done, more);
                assert(src.take(j + 1).drop_last() =~= src.take(j as int));
                assert(before + done + more =~= before + (done + more));
            }
            count_line(&mut word_freq, line, max_line_length);
            j = j + 1;
        }
        proof {
            assert(src.take(j as int) =~= src);
            assert(all.take(i + 1).drop_last() =~= all.take(i as int));
        }
        i = i + 1;
    }
    proof {
        assert(all.take(i as int) =~= all);
    }
    word_freq
}

/// Where no other token of `toks` shares the digest of `t`, the number of
/// tokens with that digest is the number of occurrences of `t`.
proof fn lemma_hits_are_occurrences(toks: Seq<Seq<u8>>, t: Seq<u8>)
    requires
        forall|i: int| 0 <= i < toks.len() && digest(#[trigger] toks[i]) == digest(t) ==> toks[i]
            == t,
    ensures
        digest_hits(toks, digest(t)) == occurrences(toks, t),
    decreases toks.len(),
{
    if toks.len() > 0 {
        let p = toks.drop_last();
        assert forall|i: int| 0 <= i < p.len() && digest(#[trigger] p[i]) == digest(t) implies p[i]
            == t by {
            assert(p[i] == toks[i]);
        }
        lemma_hits_are_occurrences(p, t);
        assert(toks.last() == toks[toks.len() - 1]);
    }
}

/// A token's entry in the word-frequency table of a corpus is the number of
/// its occurrences in the lines within the limit, provided no other token of
/// those lines has the same digest. The count stops at `u64::MAX`; below that
/// it is exact.
pub proof fn lemma_word_count_exact(
    sources: Seq<Seq<Seq<u8>>>,
    max_line_length: usize,
    t: Seq<u8>,
)
    requires
        forall|i: int|
            0 <= i < corpus_tokens(sources, max_line_length).len() && digest(
                #[trigger] corpus_tokens(sources, max_line_length)[i],
            ) == digest(t) ==> corpus_tokens(sources, max_line_length)[i] == t,
    ensures
        count_in(freq_table(corpus_tokens(sources, max_line_length)), digest(t)) == capped(
            occurrences(corpus_tokens(sources, max_line_length), t),
        ),
        occurrences(corpus_tokens(sources, max_line_length), t) < u64::MAX ==> count_in(
            freq_table(corpus_tokens(sources, max_line_length)),
            digest(t),
        ) == occurrences(corpus_tokens(sources, max_line_length), t),
{
    lemma_hits_are_occurrences(corpus_tokens(sources, max_line_length), t);
}


/// A line over the length limit adds no token to the first pass.
pub proof fn lemma_long_line_uncounted(lines: Seq<Seq<u8>>, line: Seq<u8>, max_line_length: usize)
    requires
        !within_limit(line.len(), max_line_length),
    ensures
        lines_tokens(lines.push(line), max_line_length) == lines_tokens(lines, max_line_length),
{
    assert(lines.push(line).drop_last() =~= lines);
    assert(lines_tokens(lines, max_line_length) + Seq::<Seq<u8>>::empty() =~= lines_tokens(
        lines,
        max_line_length,
    ));
}

} // verus!
