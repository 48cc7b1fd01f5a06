//! Selecting the templates to show and ordering them by count.

use vstd::prelude::*;
use vstd::seq_lib::to_multiset_contains;
use crate::tables::{clusters_into_entries, template_counts, Clusters};

verus! {

/// Whether a template with `count` occurrences is shown: at least
/// `cluster_threshold` of them normally, at most that many when rare ones are
/// asked for.
pub open spec fn selected(count: u64, cluster_threshold: u64, show_rare: bool) -> bool {
    if show_rare {
        count <= cluster_threshold
    } else {
        count >= cluster_threshold
    }
}

/// Whether a template with `count` occurrences is shown.
pub fn is_selected(count: u64, cluster_threshold: u64, show_rare: bool) -> (r: bool)
    ensures
        r == selected(count, cluster_threshold, show_rare),
{
    if show_rare {
        count <= cluster_threshold
    } else {
        count >= cluster_threshold
    }
}

/// The templates of a table that are shown.
pub open spec fn shown(m: Map<Seq<u8>, u64>, cluster_threshold: u64, show_rare: bool) -> Set<
    Seq<u8>,
> {
    m.dom().filter(|k: Seq<u8>| selected(m[k], cluster_threshold, show_rare))
}

/// `r` lists the templates of `m` that are shown, each once with its count,
/// from the highest count down.
pub open spec fn ranked_as(
    r: Seq<(Vec<u8>, u64)>,
    m: Map<Seq<u8>, u64>,
    cluster_threshold: u64,
    show_rare: bool,
) -> bool {
    &&& forall|i: int|
        #![trigger r[i]]
        0 <= i < r.len() ==> m.contains_key(r[i].0@) && m[r[i].0@] == r[i].1 && selected(
            r[i].1,
            cluster_threshold,
            show_rare,
        )
    &&& forall|k: Seq<u8>|
        #[trigger] shown(m, cluster_threshold, show_rare).contains(k) ==> exists|i: int|
            0 <= i < r.len() && r[i].0@ == k
    &&& forall|i: int, j: int| 0 <= i < j < r.len() ==> r[i].0@ != r[j].0@
    &&& forall|i: int, j: int| 0 <= i < j < r.len() ==> r[i].1 >= r[j].1
}

/// Relies on `slice::sort_by_key`: the same items, reordered so that their
/// counts do not fall.
#[verifier::external_body]
fn sort_by_count(v: &mut Vec<(Vec<u8>, u64)>)
    ensures
        final(v)@.len() == old(v)@.len(),
        final(v)@.to_multiset() == old(v)@.to_multiset(),
        forall|i: int, j: int|
            0 <= i < j < final(v)@.len() ==> #[trigger] final(v)@[i].1 <= #[trigger] final(v)@[j].1,
{
    v.sort_by_key(|e| e.1);
}

/// The entries of a table that `selected` keeps, with distinct templates.
#[verifier::rlimit(50)]
fn select_entries(clusters: Clusters, cluster_threshold: u64, show_rare: bool) -> (r: Vec<
    (Vec<u8>, u64),
>)
    ensures
        forall|a: int|
            #![trigger r@[a]]
            0 <= a < r@.len() ==> template_counts(clusters).contains_key(r@[a].0@)
                && template_counts(clusters)[r@[a].0@] == r@[a].1 && selected(
                r@[a].1,
                cluster_threshold,
                show_rare,
            ),
        forall|k: Seq<u8>|
            #[trigger] template_counts(clusters).contains_key(k) && selected(
                template_counts(clusters)[k],
                cluster_threshold,
                show_rare,
            ) ==> exists|a: int| 0 <= a < r@.len() && r@[a].0@ == k,
        forall|a: int, b: int| 0 <= a < b < r@.len() ==> r@[a].0@ != r@[b].0@,
{
    let ghost m = template_counts(clusters);
    let mut entries = clusters_into_entries(clusters);
    let ghost orig = entries@;
    let mut sel: Vec<(Vec<u8>, u64)> = Vec::new();
    while entries.len() > 0
        invariant
            entries@ == orig.take(entries@.len() as int),
            entries@.len() <= orig.len(),
            forall|i: int|
                #![trigger orig[i]]
                0 <= i < orig.len() ==> m.contains_key(orig[i].0@) && m[orig[i].0@] == orig[i].1,
            forall|i: int, j: int| 0 <= i < j < orig.len() ==> orig[i].0@ != orig[j].0@,
            forall|a: int|
                #![trigger sel@[a]]
                0 <= a < sel@.len() ==> exists|t: int|
                    entries@.len() <= t < orig.len() && sel@[a] == orig[t],
            forall|a: int|
                #![trigger sel@[a]]
                0 <= a < sel@.len() ==> m.contains_key(sel@[a].0@) && m[sel@[a].0@] == sel@[a].1
                    && selected(sel@[a].1, cluster_threshold, show_rare),
            forall|t: int|
                #![trigger orig[t]]
                entries@.len() <= t < orig.len() && selected(
                    orig[t].1,
                    cluster_threshold,
                    show_rare,
                ) ==> exists|a: int| 0 <= a < sel@.len() && sel@[a] == orig[t],
            forall|a: int, b: int| 0 <= a < b < sel@.len() ==> sel@[a].0@ != sel@[b].0@,
        decreases entries@.len(),
    {
        let ghost rem = entries@.len() - 1;
        match entries.pop() {
            Some(e) => {
                proof {
                    assert(e == orig[rem]);
                    assert(entries@ =~= orig.take(rem));
                }
                if is_selected(e.1, cluster_threshold, show_rare) {
                    let ghost old_sel = sel@;
                    proof {
                        assert forall|a: int| 0 <= a < old_sel.len() implies old_sel[a].0@ != e.0@ by {
                            let t = choose|t: int| rem + 1 <= t < orig.len() && old_sel[a] == orig[t];
                            assert(orig[rem].0@ != orig[t].0@);
                        }
                    }
                    sel.push(e);
                    proof {
                        assert(sel@[old_sel.len() as int] == orig[rem]);
                        assert forall|a: int| 0 <= a < sel@.len() implies exists|t: int|
                            entries@.len() <= t < orig.len() && #[trigger] sel@[a] == orig[t] by {
                            if a < old_sel.len() {
                                assert(sel@[a] == old_sel[a]);
                            } else {
                                assert(sel@[a] == orig[rem]);
                            }
                        }
                        assert forall|t: int|
                            entries@.len() <= t < orig.len() && selected(
                                #[trigger] orig[t].1,
                                cluster_threshold,
                                show_rare,
                            ) implies exists|a: int| 0 <= a < sel@.len() && sel@[a] == orig[t] by {
                            if t > rem {
                                let a = choose|a: int| 0 <= a < old_sel.len() && old_sel[a] == orig[t];
                                assert(sel@[a] == old_sel[a]);
                            } else {
                                assert(sel@[old_sel.len() as int] == orig[t]);
                            }
                        }
                    }
                }
            },
            None => {},
        }
    }
    proof {
        assert forall|k: Seq<u8>|
            #[trigger] m.contains_key(k) && selected(
                m[k],
                cluster_threshold,
                show_rare,
            ) implies exists|a: int| 0 <= a < sel@.len() && sel@[a].0@ == k by {
            let t = choose|t: int| 0 <= t < orig.len() && orig[t].0@ == k;
            assert(m[orig[t].0@] == orig[t].1);
            let a = choose|a: int| 0 <= a < sel@.len() && sel@[a] == orig[t];
        }
    }
    sel
}

/// The same entries, from the highest count down.
#[verifier::rlimit(50)]
fn descending(v: Vec<(Vec<u8>, u64)>) -> (r: Vec<(Vec<u8>, u64)>)
    ensures
        r@.len() == v@.len(),
        forall|a: int| 0 <= a < r@.len() ==> v@.contains(#[trigger] r@[a]),
        forall|b: int| 0 <= b < v@.len() ==> r@.contains(#[trigger] v@[b]),
        v@.no_duplicates() ==> r@.no_duplicates(),
        forall|i: int, j: int| 0 <= i < j < r@.len() ==> r@[i].1 >= r@[j].1,
{
    let ghost pre = v@;
    let mut sel = v;
    sort_by_count(&mut sel);
    let ghost s = sel@;
    let ghost n = s.len();
    proof {
        broadcast use to_multiset_contains;

        if pre.no_duplicates() {
            pre.lemma_multiset_has_no_duplicates();
            s.lemma_multiset_has_no_duplicates_conv();
        }
        assert forall|a: int| 0 <= a < n implies pre.contains(#[trigger] s[a]) by {
            assert(s.contains(s[a]));
            assert(s.to_multiset().count(s[a]) > 0);
            assert(pre.contains(s[a]));
        }
        assert forall|b: int| 0 <= b < pre.len() implies s.contains(#[trigger] pre[b]) by {
            assert(pre.contains(pre[b]));
            assert(pre.to_multiset().count(pre[b]) > 0);
            assert(s.contains(pre[b]));
        }
    }
    let mut out: Vec<(Vec<u8>, u64)> = Vec::new();
    while sel.len() > 0
        invariant
            sel@ == s.take(sel@.len() as int),
            sel@.len() <= n,
            n == s.len(),
            out@.len() == n - sel@.len(),
            forall|k: int| #![trigger out@[k]] 0 <= k < out@.len() ==> out@[k] == s[n - 1 - k],
        decreases sel@.len(),
    {
        let ghost rem = sel@.len() - 1;
        match sel.pop() {
            Some(e) => {
                proof {
                    assert(e == s[rem]);
                    assert(sel@ =~= s.take(rem));
                }
                out.push(e);
            },
            None => {},
        }
    }
    proof {
        assert forall|a: int| 0 <= a < out@.len() implies pre.contains(#[trigger] out@[a]) by {
            assert(out@[a] == s[n - 1 - a]);
            assert(pre.contains(s[n - 1 - a]));
        }
        assert forall|b: int| 0 <= b < pre.len() implies out@.contains(#[trigger] pre[b]) by {
            assert(s.contains(pre[b]));
            let a = choose|a: int| 0 <= a < n && s[a] == pre[b];
            assert(out@[n - 1 - a] == s[a]);
        }
        if s.no_duplicates() {
            assert forall|i: int, j: int| 0 <= i < out@.len() && 0 <= j < out@.len() && i != j
                implies out@[i] != out@[j] by {
                assert(out@[i] == s[n - 1 - i]);
                assert(out@[j] == s[n - 1 - j]);
            }
        }
        assert forall|i: int, j: int| 0 <= i < j < out@.len() implies out@[i].1 >= out@[j].1 by {
            assert(out@[i] == s[n - 1 - i]);
            assert(out@[j] == s[n - 1 - j]);
        }
    }
    out
}

/// The templates of a table that are shown, with their counts, from the
/// highest count down. Normally those with at least `cluster_threshold`
/// occurrences are shown; with `show_rare`, those with at most that many.
/// Among equal counts the order is not specified.
pub fn rank_clusters(clusters: Clusters, cluster_threshold: u64, show_rare: bool) -> (r: Vec<
    (Vec<u8>, u64),
>)
    ensures
        ranked_as(r@, template_counts(clusters), cluster_threshold, show_rare),
{
    let ghost m = template_counts(clusters);
    let sel = select_entries(clusters, cluster_threshold, show_rare);
    let ghost pre = sel@;
    proof {
        assert forall|a: int, b: int| 0 <= a < pre.len() && 0 <= b < pre.len() && a != b
            implies pre[a] != pre[b] by {
            if a < b {
                assert(pre[a].0@ != pre[b].0@);
            } else {
                assert(pre[b].0@ != pre[a].0@);
            }
        }
        assert(pre.no_duplicates());
    }
    let out = descending(sel);
    proof {
        assert forall|i: int|
            #![trigger out@[i]]
            0 <= i < out@.len() implies m.contains_key(out@[i].0@) && m[out@[i].0@] == out@[i].1
            && selected(out@[i].1, cluster_threshold, show_rare) by {
            assert(pre.contains(out@[i]));
            let b = choose|b: int| 0 <= b < pre.len() && pre[b] == out@[i];
            assert(pre[b] == out@[i]);
        }
        assert forall|k: Seq<u8>|
            #[trigger] shown(m, cluster_threshold, show_rare).contains(k) implies exists|i: int|
            0 <= i < out@.len() && out@[i].0@ == k by {
            assert(m.contains_key(k) && selected(m[k], cluster_threshold, show_rare));
            let b = choose|b: int| 0 <= b < pre.len() && pre[b].0@ == k;
            assert(out@.contains(pre[b]));
            let a = choose|a: int| 0 <= a < out@.len() && out@[a] == pre[b];
            assert(out@[a].0@ == k);
        }
        assert forall|i: int, j: int| 0 <= i < j < out@.len() implies out@[i].0@ != out@[j].0@ by {
            assert(pre.contains(out@[i]));
            assert(pre.contains(out@[j]));
            let a = choose|a: int| 0 <= a < pre.len() && pre[a] == out@[i];
            let b = choose|b: int| 0 <= b < pre.len() && pre[b] == out@[j];
            assert(out@[i] != out@[j]);
            if a < b {
                assert(pre[a].0@ != pre[b].0@);
            } else if b < a {
                assert(pre[b].0@ != pre[a].0@);
            }
        }
    }
    out
}


/// The two display modes: the normal one shows exactly the templates with at
/// least `cluster_threshold` occurrences, the rare one exactly those with at
/// most that many; a template is shown in both only when its count equals the
/// threshold, and every template is shown in one of them.
pub proof fn lemma_modes_meet_at_threshold(
    m: Map<Seq<u8>, u64>,
    cluster_threshold: u64,
    k: Seq<u8>,
)
    ensures
        shown(m, cluster_threshold, false).contains(k) <==> m.contains_key(k) && m[k]
            >= cluster_threshold,
        shown(m, cluster_threshold, true).contains(k) <==> m.contains_key(k) && m[k]
            <= cluster_threshold,
        shown(m, cluster_threshold, false).contains(k) && shown(m, cluster_threshold, true).contains(
            k,
        ) <==> m.contains_key(k) && m[k] == cluster_threshold,
        m.contains_key(k) ==> shown(m, cluster_threshold, false).contains(k) || shown(
            m,
            cluster_threshold,
            true,
        ).contains(k),
{
}

} // verus!
