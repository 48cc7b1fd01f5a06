//! The second pass: counting the templates of a corpus's records.

use vstd::prelude::*;
use crate::chunk::{
    corpus_chunks, emitted, emitted_during, flushed, opt_seq, pending_after, source_chunks,
    ChunkAccumulator,
};
use crate::freq::{bump, lines_view, sources_view};
use crate::template::{clusterify, template};
use crate::tables::{
    clusters_get, clusters_insert, new_clusters, template_counts, word_counts, Clusters, WordCount,
};

verus! {

/// A template table after one more template: an empty template leaves it as
/// it is, any other counts once more.
pub open spec fn record(m: Map<Seq<u8>, u64>, tpl: Seq<u8>) -> Map<Seq<u8>, u64> {
    if tpl.len() == 0 {
        m
    } else {
        bump(m, tpl)
    }
}

/// The template table of a list of records, counted in order.
pub open spec fn cluster_table(
    chunks: Seq<Seq<u8>>,
    word_freq: Map<u64, u64>,
    word_threshold: u64,
) -> Map<Seq<u8>, u64>
    decreases chunks.len(),
{
    if chunks.len() == 0 {
        Map::empty()
    } else {
        record(
            cluster_table(chunks.drop_last(), word_freq, word_threshold),
            template(chunks.last(), word_freq, word_threshold),
        )
    }
}

/// Counts one template into the table; an empty one is not counted.
pub fn add_template(clusters: &mut Clusters, template: Vec<u8>)
    ensures
        template_counts(*final(clusters)) == record(template_counts(*old(clusters)), template@),
{
    if template.len() == 0 {
        return;
    }
    let c: u64 = match clusters_get(clusters, template.as_slice()) {
        Some(c) => c,
        None => 0,
    };
    let n: u64 = if c < u64::MAX { c + 1 } else { c };
    clusters_insert(clusters, template, n);
}

/// Rewrites a record into its template and counts that template.
pub fn add_chunk(clusters: &mut Clusters, chunk: &[u8], word_freq: &WordCount, word_threshold: u64)
    ensures
        template_counts(*final(clusters)) == record(
            template_counts(*old(clusters)),
            template(chunk@, word_counts(*word_freq), word_threshold),
        ),
{
    let t = clusterify(chunk, word_freq, word_threshold);
    add_template(clusters, t);
}

/// Counting one more record extends the table of the list.
proof fn lemma_cluster_table_more(
    done: Seq<Seq<u8>>,
    o: Option<Seq<u8>>,
    word_freq: Map<u64, u64>,
    word_threshold: u64,
)
    ensures
        cluster_table(done + opt_seq(o), word_freq, word_threshold) == match o {
            Some(c) => record(
                cluster_table(done, word_freq, word_threshold),
                template(c, word_freq, word_threshold),
            ),
            None => cluster_table(done, word_freq, word_threshold),
        },
{
    match o {
        Some(c) => {
            assert((done + opt_seq(o)).drop_last() =~= done);
        },
        None => {
            assert(done + opt_seq(o) =~= done);
        },
    }
}

/// Builds the template table of a corpus: the records of each source, as
/// `ChunkAccumulator` forms them, rewritten against `word_freq` and counted.
pub fn calc_clusters(
    sources: &Vec<Vec<Vec<u8>>>,
    word_freq: &WordCount,
    word_threshold: u64,
    max_line_length: usize,
    merge_lines: bool,
) -> (r: Clusters)
    ensures
        template_counts(r) == cluster_table(
            corpus_chunks(sources_view(sources@), merge_lines, max_line_length),
            word_counts(*word_freq),
            word_threshold,
        ),
{
    let ghost all = sources_view(sources@);
    let ghost wf = word_counts(*word_freq);
    let mut clusters = new_clusters();
    proof {
        assert(template_counts(clusters) =~= cluster_table(Seq::<Seq<u8>>::empty(), wf, word_threshold));
        assert(all.take(0) =~= Seq::<Seq<Seq<u8>>>::empty());
    }
    let mut i: usize = 0;
    while i < sources.len()
        invariant
            i <= sources@.len(),
            all == sources_view(sources@),
            wf == word_counts(*word_freq),
            template_counts(clusters) == cluster_table(
                corpus_chunks(all.take(i as int), merge_lines, max_line_length),
                wf,
                word_threshold,
            ),
        decreases sources@.len() - i,
    {
        let lines = &sources[i];
        let ghost before = corpus_chunks(all.take(i as int), merge_lines, max_line_length);
        let ghost src = all[i as int];
        let mut acc = ChunkAccumulator::new(merge_lines, max_line_length);
        proof {
            assert(src =~= lines_view(lines@));
            assert(src.take(0) =~= Seq::<Seq<u8>>::empty());
            assert(before + emitted_during(src.take(0), merge_lines, max_line_length) =~= before);
        }
        let mut j: usize = 0;
        while j < lines.len()
            invariant
                j <= lines@.len(),
                src == lines_view(lines@),
                wf == word_counts(*word_freq),
                acc.merges() == merge_lines,
                acc.limit() == max_line_length,
                acc.pending() == pending_after(src.take(j as int), merge_lines),
                template_counts(clusters) == cluster_table(
                    before + emitted_during(src.take(j as int), merge_lines, max_line_length),
                    wf,
                    word_threshold,
                ),
            decreases lines@.len() - j,
        {
            let line = lines[j].as_slice();
            let ghost done = before + emitted_during(src.take(j as int), merge_lines, max_line_length);
            let ghost o = emitted(acc.pending(), line@, merge_lines, max_line_length);
            let out = acc.push_line(line);
            match out {
                Some(c) => {
                    add_chunk(&mut clusters, c.as_slice(), word_freq, word_threshold);
                },
                None => {},
            }
            proof {
                lemma_cluster_table_more(done, o, wf, word_threshold);
                assert(src.take(j + 1).drop_last() =~= src.take(j as int));
                assert(src.take(j + 1).last() == line@);
                assert(before + emitted_during(src.take(j + 1), merge_lines, max_line_length)
                    =~= done + opt_seq(o));
            }
            j = j + 1;
        }
        let ghost done = before + emitted_during(src, merge_lines, max_line_length);
        let ghost o = flushed(acc.pending(), max_line_length);
        proof {
            assert(src.take(j as int) =~= src);
        }
        let out = acc.finish();
        match out {
            Some(c) => {
                add_chunk(&mut clusters, c.as_slice(), word_freq, word_threshold);
            },
            None => {},
        }
        proof {
            lemma_cluster_table_more(done, o, wf, word_threshold);
            assert(all.take(i + 1).drop_last() =~= all.take(i as int));
            assert(all.take(i + 1).last() == src);
            assert(before + source_chunks(src, merge_lines, max_line_length) =~= done + opt_seq(o));
        }
        i = i + 1;
    }
    proof {
        assert(all.take(i as int) =~= all);
    }
    clusters
}


/// Byte-identical records have the same template, and counting both adds to
/// one entry of the table: the table gains at most that one key, whose count
/// grows by two (stopping at `u64::MAX`).
pub proof fn lemma_identical_chunks_share_entry(
    m: Map<Seq<u8>, u64>,
    c1: Seq<u8>,
    c2: Seq<u8>,
    word_freq: Map<u64, u64>,
    word_threshold: u64,
)
    requires
        c1 == c2,
    ensures
        template(c1, word_freq, word_threshold) == template(c2, word_freq, word_threshold),
        ({
            let t = template(c1, word_freq, word_threshold);
            let after = record(record(m, t), template(c2, word_freq, word_threshold));
            &&& t.len() == 0 ==> after == m
            &&& t.len() > 0 ==> after.dom() == m.dom().insert(t)
            &&& t.len() > 0 ==> after == bump(bump(m, t), t)
        }),
{
    let t = template(c1, word_freq, word_threshold);
    if t.len() > 0 {
        assert(record(record(m, t), t).dom() =~= m.dom().insert(t));
    }
}

} // verus!
