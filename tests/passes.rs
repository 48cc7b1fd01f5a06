use slct::chunk::ChunkAccumulator;
use slct::cluster::{add_chunk, add_template, calc_clusters};
use slct::digest::fnv1a;
use slct::engine::{analyze, cluster_count, unique_words, Options};
use slct::freq::{calc_word_freq, count_line};
use slct::rank::{is_selected, rank_clusters};
use slct::tables::{Clusters, WordCount};
use slct::template::clusterify;

fn lines(text: &[&str]) -> Vec<Vec<u8>> {
    text.iter().map(|l| l.as_bytes().to_vec()).collect()
}

fn repeated(line: &str, n: usize) -> Vec<Vec<u8>> {
    (0..n).map(|_| line.as_bytes().to_vec()).collect()
}

fn count_of(wf: &WordCount, token: &[u8]) -> u64 {
    wf.get(&fnv1a(token)).copied().unwrap_or(0)
}

fn options(word: u64, cluster: u64, max: usize, rare: bool, merge: bool) -> Options {
    let mut o = Options::new();
    o.word_threshold = word;
    o.cluster_threshold = cluster;
    o.max_line_length = max;
    o.show_rare = rare;
    o.merge_lines = merge;
    o
}

fn sorted(mut v: Vec<(Vec<u8>, u64)>) -> Vec<(Vec<u8>, u64)> {
    v.sort();
    v
}

#[test]
fn word_counts_are_exact_per_token() {
    let corpus = vec![
        lines(&["a b a", "  c\ta  "]),
        lines(&["b", ""]),
    ];
    let wf = calc_word_freq(&corpus, 0);
    assert_eq!(count_of(&wf, b"a"), 3);
    assert_eq!(count_of(&wf, b"b"), 2);
    assert_eq!(count_of(&wf, b"c"), 1);
    assert_eq!(count_of(&wf, b"d"), 0);
    assert_eq!(unique_words(&wf), 3);
}

#[test]
fn count_line_adds_to_existing_counts() {
    let mut wf: WordCount = WordCount::new();
    count_line(&mut wf, b"x y x", 0);
    count_line(&mut wf, b"x", 0);
    assert_eq!(count_of(&wf, b"x"), 3);
    assert_eq!(count_of(&wf, b"y"), 1);
}

#[test]
fn count_line_skips_long_lines() {
    let mut wf: WordCount = WordCount::new();
    count_line(&mut wf, b"0123456789a", 10);
    assert_eq!(unique_words(&wf), 0);
    count_line(&mut wf, b"0123 56789", 10);
    assert_eq!(count_of(&wf, b"0123"), 1);
    count_line(&mut wf, b"0123 56789 0123 56789", 0);
    assert_eq!(count_of(&wf, b"0123"), 3);
}

#[test]
fn clusterify_keeps_whitespace_exactly() {
    let mut wf: WordCount = WordCount::new();
    wf.insert(fnv1a(b"a"), 1);
    wf.insert(fnv1a(b"b"), 5);
    assert_eq!(clusterify(b"  a   b\t", &wf, 5), b"  *   b\t".to_vec());
    assert_eq!(clusterify(b"b\ta  a", &wf, 5), b"b\t*  *".to_vec());
    assert_eq!(clusterify(b"b\ta  a", &wf, 1), b"b\ta  a".to_vec());
}

#[test]
fn clusterify_unknown_token_is_rare() {
    let wf: WordCount = WordCount::new();
    assert_eq!(clusterify(b"zzz", &wf, 1), b"*".to_vec());
    assert_eq!(clusterify(b"zzz", &wf, 0), b"zzz".to_vec());
}

#[test]
fn clusterify_without_tokens_is_empty() {
    let wf: WordCount = WordCount::new();
    assert_eq!(clusterify(b"", &wf, 1), Vec::<u8>::new());
    assert_eq!(clusterify(b" \t  ", &wf, 1), Vec::<u8>::new());
}

#[test]
fn identical_chunks_share_one_entry() {
    let corpus = vec![lines(&["x 1", "x 1", "x 2"])];
    let wf = calc_word_freq(&corpus, 0);
    let clusters = calc_clusters(&corpus, &wf, 2, 0, false);
    assert_eq!(cluster_count(&clusters), 2);
    assert_eq!(clusters.get(b"x 1".as_slice()), Some(&2));
    assert_eq!(clusters.get(b"x *".as_slice()), Some(&1));
    assert_eq!(clusters.get(b"x 2".as_slice()), None);
}

#[test]
fn add_template_skips_empty_and_counts_repeats() {
    let mut clusters: Clusters = Clusters::new();
    add_template(&mut clusters, Vec::new());
    assert_eq!(cluster_count(&clusters), 0);
    add_template(&mut clusters, b"a *".to_vec());
    add_template(&mut clusters, b"a *".to_vec());
    add_template(&mut clusters, b"b".to_vec());
    assert_eq!(clusters.get(b"a *".as_slice()), Some(&2));
    assert_eq!(clusters.get(b"b".as_slice()), Some(&1));
    assert_eq!(cluster_count(&clusters), 2);
}

#[test]
fn add_chunk_counts_the_template() {
    let mut wf: WordCount = WordCount::new();
    wf.insert(fnv1a(b"keep"), 9);
    let mut clusters: Clusters = Clusters::new();
    add_chunk(&mut clusters, b"keep 17", &wf, 9);
    add_chunk(&mut clusters, b"keep 18", &wf, 9);
    add_chunk(&mut clusters, b"   ", &wf, 9);
    assert_eq!(clusters.get(b"keep *".as_slice()), Some(&2));
    assert_eq!(cluster_count(&clusters), 1);
}

#[test]
fn accumulator_merges_continuation_lines() {
    let mut acc = ChunkAccumulator::new(true, 0);
    assert_eq!(acc.push_line(b"start"), None);
    assert_eq!(acc.push_line(b"  more"), None);
    assert_eq!(acc.push_line(b""), None);
    assert_eq!(acc.push_line(b"next"), Some(b"start  more".to_vec()));
    assert_eq!(acc.finish(), Some(b"next".to_vec()));
    assert_eq!(acc.finish(), None);
}

#[test]
fn accumulator_without_merging_takes_every_line() {
    let mut acc = ChunkAccumulator::new(false, 0);
    assert_eq!(acc.push_line(b"start"), None);
    assert_eq!(acc.push_line(b"  more"), Some(b"start".to_vec()));
    assert_eq!(acc.push_line(b""), Some(b"  more".to_vec()));
    assert_eq!(acc.finish(), Some(Vec::new()));
}

#[test]
fn accumulator_leading_continuation_starts_a_chunk() {
    let mut acc = ChunkAccumulator::new(true, 0);
    assert_eq!(acc.push_line(b" lead"), None);
    assert_eq!(acc.push_line(b"x"), Some(b" lead".to_vec()));
}

#[test]
fn accumulator_drops_long_merged_chunk() {
    let mut acc = ChunkAccumulator::new(true, 10);
    assert_eq!(acc.push_line(b"123456"), None);
    assert_eq!(acc.push_line(b" 7890"), None);
    assert_eq!(acc.push_line(b"a"), None);
    assert_eq!(acc.push_line(b"b"), Some(b"a".to_vec()));
    assert_eq!(acc.push_line(b" 2345678901"), None);
    assert_eq!(acc.finish(), None);
}

#[test]
fn merge_lines_joins_records() {
    let corpus = vec![lines(&["job start", "  detail", "job end"])];
    let opts = options(0, 1, 0, false, true);
    let report = analyze(&corpus, &opts);
    assert_eq!(report.cluster_count, 2);
    let got = sorted(report.ranked);
    assert_eq!(got, vec![(b"job end".to_vec(), 1), (b"job start  detail".to_vec(), 1)]);
}

#[test]
fn no_merge_keeps_each_line() {
    let corpus = vec![lines(&["job start", "  detail", "job end"])];
    let opts = options(0, 1, 0, false, false);
    let report = analyze(&corpus, &opts);
    assert_eq!(report.cluster_count, 3);
    let got = sorted(report.ranked);
    assert_eq!(
        got,
        vec![(b"  detail".to_vec(), 1), (b"job end".to_vec(), 1), (b"job start".to_vec(), 1)]
    );
}

#[test]
fn merge_state_does_not_cross_sources() {
    let corpus = vec![lines(&["a"]), lines(&[" b"])];
    let opts = options(0, 1, 0, false, true);
    let report = analyze(&corpus, &opts);
    let got = sorted(report.ranked);
    assert_eq!(got, vec![(b" b".to_vec(), 1), (b"a".to_vec(), 1)]);
}

#[test]
fn wildcard_scenario_connect_lines() {
    let mut src = repeated("connect 1.2.3.4 ok", 950);
    src.extend(repeated("connect 5.6.7.8 ok", 950));
    let corpus = vec![src];
    let wf = calc_word_freq(&corpus, 1000);
    assert_eq!(count_of(&wf, b"1.2.3.4"), 950);
    assert_eq!(count_of(&wf, b"5.6.7.8"), 950);
    assert_eq!(count_of(&wf, b"connect"), 1900);
    assert_eq!(count_of(&wf, b"ok"), 1900);
    let report = analyze(&corpus, &Options::new());
    assert_eq!(report.unique_words, 4);
    assert_eq!(report.cluster_count, 1);
    assert_eq!(report.ranked, vec![(b"connect * ok".to_vec(), 1900)]);
}

#[test]
fn max_line_length_drops_from_both_passes() {
    let corpus = vec![lines(&["short one", "this is too long", "0123456789", "01234567890"])];
    let wf = calc_word_freq(&corpus, 10);
    assert_eq!(count_of(&wf, b"short"), 1);
    assert_eq!(count_of(&wf, b"0123456789"), 1);
    assert_eq!(count_of(&wf, b"this"), 0);
    assert_eq!(count_of(&wf, b"01234567890"), 0);
    assert_eq!(unique_words(&wf), 3);
    let report = analyze(&corpus, &options(1, 1, 10, false, false));
    assert_eq!(report.cluster_count, 2);
    let got = sorted(report.ranked);
    assert_eq!(got, vec![(b"0123456789".to_vec(), 1), (b"short one".to_vec(), 1)]);
}

#[test]
fn max_line_length_zero_keeps_everything() {
    let long = "x".repeat(5000);
    let corpus = vec![vec![long.as_bytes().to_vec()]];
    let report = analyze(&corpus, &options(1, 1, 0, false, false));
    assert_eq!(report.unique_words, 1);
    assert_eq!(report.ranked, vec![(long.as_bytes().to_vec(), 1)]);
}

#[test]
fn cluster_threshold_is_inclusive() {
    let mut src = repeated("alpha beta", 500);
    src.extend(repeated("gamma delta", 499));
    let corpus = vec![src];
    let report = analyze(&corpus, &options(1, 500, 1000, false, false));
    assert_eq!(report.cluster_count, 2);
    assert_eq!(report.ranked, vec![(b"alpha beta".to_vec(), 500)]);
}

#[test]
fn show_rare_is_inclusive_too() {
    let mut src = repeated("alpha beta", 500);
    src.extend(repeated("gamma delta", 499));
    src.extend(repeated("eps", 501));
    let corpus = vec![src];
    let report = analyze(&corpus, &options(1, 500, 1000, true, false));
    let got = sorted(report.ranked);
    assert_eq!(got, vec![(b"alpha beta".to_vec(), 500), (b"gamma delta".to_vec(), 499)]);
    let report = analyze(&corpus, &options(1, 500, 1000, false, false));
    assert_eq!(report.ranked, vec![(b"eps".to_vec(), 501), (b"alpha beta".to_vec(), 500)]);
}

#[test]
fn ranking_orders_by_count_descending() {
    let mut clusters: Clusters = Clusters::new();
    clusters.insert(b"a".to_vec(), 3);
    clusters.insert(b"b".to_vec(), 10);
    clusters.insert(b"c".to_vec(), 1);
    clusters.insert(b"d".to_vec(), 7);
    let r = rank_clusters(clusters, 2, false);
    assert_eq!(r, vec![(b"b".to_vec(), 10), (b"d".to_vec(), 7), (b"a".to_vec(), 3)]);
}

#[test]
fn ranking_empty_table() {
    let clusters: Clusters = Clusters::new();
    assert_eq!(rank_clusters(clusters, 0, true), Vec::new());
}

#[test]
fn default_options() {
    let o = Options::new();
    assert_eq!(o.cluster_threshold, 1000);
    assert_eq!(o.word_threshold, 1000);
    assert_eq!(o.max_line_length, 1000);
    assert!(!o.show_rare);
    assert!(!o.merge_lines);
}

#[test]
fn selection_modes_meet_at_threshold() {
    assert!(is_selected(500, 500, false));
    assert!(is_selected(500, 500, true));
    assert!(!is_selected(499, 500, false));
    assert!(is_selected(499, 500, true));
    assert!(is_selected(501, 500, false));
    assert!(!is_selected(501, 500, true));
}
