//! The whole analysis: both passes over a corpus, then the ranking.

use vstd::prelude::*;
use crate::chunk::corpus_chunks;
use crate::cluster::{calc_clusters, cluster_table};
use crate::freq::{calc_word_freq, corpus_tokens, freq_table, sources_view};
use crate::rank::{rank_clusters, ranked_as};
use crate::tables::{clusters_len, template_counts, word_count_len, word_counts, Clusters, WordCount};

verus! {

/// The options of an analysis.
pub struct Options {
    /// Templates with at least this many occurrences are shown (at most this
    /// many with `show_rare`).
    pub cluster_threshold: u64,
    /// Tokens with fewer occurrences than this become the wildcard.
    pub word_threshold: u64,
    /// Lines and records longer than this many bytes are dropped; 0 keeps all.
    pub max_line_length: usize,
    /// Show the templates at or below the cluster threshold instead.
    pub show_rare: bool,
    /// A line that starts with whitespace continues the record before it.
    pub merge_lines: bool,
}

impl Options {
    /// The usual options: both thresholds and the length limit at 1000, no
    /// rare display, no merging.
    pub fn new() -> (r: Options)
        ensures
            r.cluster_threshold == 1000,
            r.word_threshold == 1000,
            r.max_line_length == 1000,
            !r.show_rare,
            !r.merge_lines,
    {
        Options {
            cluster_threshold: 1000,
            word_threshold: 1000,
            max_line_length: 1000,
            show_rare: false,
            merge_lines: false,
        }
    }
}

/// What an analysis finds.
pub struct Report {
    /// The number of distinct token digests.
    pub unique_words: usize,
    /// The number of distinct templates.
    pub cluster_count: usize,
    /// The templates shown, with their counts, from the highest count down.
    pub ranked: Vec<(Vec<u8>, u64)>,
}

/// The number of distinct digests in a word-frequency table.
pub fn unique_words(word_freq: &WordCount) -> (r: usize)
    ensures
        r == word_counts(*word_freq).len(),
{
    word_count_len(word_freq)
}

/// The number of distinct templates in a template table.
pub fn cluster_count(clusters: &Clusters) -> (r: usize)
    ensures
        r == template_counts(*clusters).len(),
{
    clusters_len(clusters)
}

/// Analyses a corpus, given as its sources in order, each a list of lines
/// without their line endings: counts the tokens, counts the templates of the
/// records, and ranks the templates as `opts` asks.
pub fn analyze(sources: &Vec<Vec<Vec<u8>>>, opts: &Options) -> (r: Report)
    ensures
        ({
            let wf = freq_table(corpus_tokens(sources_view(sources@), opts.max_line_length));
            let ct = cluster_table(
                corpus_chunks(sources_view(sources@), opts.merge_lines, opts.max_line_length),
                wf,
                opts.word_threshold,
            );
            &&& r.unique_words == wf.len()
            &&& r.cluster_count == ct.len()
            &&& ranked_as(r.ranked@, ct, opts.cluster_threshold, opts.show_rare)
        }),
{
    let word_freq = calc_word_freq(sources, opts.max_line_length);
    let unique = unique_words(&word_freq);
    let clusters = calc_clusters(
        sources,
        &word_freq,
        opts.word_threshold,
        opts.max_line_length,
        opts.merge_lines,
    );
    let count = cluster_count(&clusters);
    let ranked = rank_clusters(clusters, opts.cluster_threshold, opts.show_rare);
    Report { unique_words: unique, cluster_count: count, ranked }
}

} // verus!
