//! The two count tables, held in `ahash::AHashMap`s.
//!
//! The word table maps a token digest to how often tokens with that digest
//! occurred; the template table maps a template's bytes to how often it was
//! produced. Their contents are named below and every operation that the
//! engine performs on them goes through one of the functions of this module.

use vstd::prelude::*;
use ahash::AHashMap;

verus! {

/// `ahash::AHashMap`, declared so that it can stand in signatures; its
/// contents are seen only through `word_counts` and `template_counts`.
#[verifier::external_type_specification]
#[verifier::external_body]
#[verifier::reject_recursive_types(K)]
#[verifier::reject_recursive_types(V)]
#[verifier::reject_recursive_types(S)]
pub struct ExAHashMap<K, V, S>(AHashMap<K, V, S>);

/// `ahash::RandomState`, the hasher builder of `AHashMap`; opaque.
#[verifier::external_type_specification]
#[verifier::external_body]
pub struct ExRandomState(ahash::RandomState);

/// The word-frequency table: token digest to occurrence count.
pub type WordCount = AHashMap<u64, u64>;

/// The template table: template bytes to occurrence count.
pub type Clusters = AHashMap<Vec<u8>, u64>;

/// What a word-frequency table holds.
pub uninterp spec fn word_counts(m: AHashMap<u64, u64>) -> Map<u64, u64>;

/// What a template table holds, keyed by the template's bytes.
pub uninterp spec fn template_counts(m: AHashMap<Vec<u8>, u64>) -> Map<Seq<u8>, u64>;

/// Relies on `AHashMap::new`: a new map is empty.
#[verifier::external_body]
pub(crate) fn new_word_count() -> (r: WordCount)
    ensures
        word_counts(r).dom() == Set::<u64>::empty(),
{
    AHashMap::new()
}

/// Relies on `AHashMap::get`: the value stored under `k`, if any.
#[verifier::external_body]
pub(crate) fn word_count_get(m: &WordCount, k: u64) -> (r: Option<u64>)
    ensures
        r == (if word_counts(*m).contains_key(k) {
            Some(word_counts(*m)[k])
        } else {
            None
        }),
{
    m.get(&k).copied()
}

/// Relies on `AHashMap::insert`: afterwards `k` maps to `v` and every other
/// key keeps its value.
#[verifier::external_body]
pub(crate) fn word_count_insert(m: &mut WordCount, k: u64, v: u64)
    ensures
        word_counts(*final(m)) == word_counts(*old(m)).insert(k, v),
{
    m.insert(k, v);
}

/// Relies on `HashMap::len` (through `AHashMap`'s `Deref`): the number of keys.
#[verifier::external_body]
pub(crate) fn word_count_len(m: &WordCount) -> (r: usize)
    ensures
        r == word_counts(*m).len(),
{
    m.len()
}

/// Relies on `AHashMap::new`: a new map is empty.
#[verifier::external_body]
pub(crate) fn new_clusters() -> (r: Clusters)
    ensures
        template_counts(r).dom() == Set::<Seq<u8>>::empty(),
{
    AHashMap::new()
}

/// Relies on `AHashMap::get`: the value stored under the key equal to `k`.
#[verifier::external_body]
pub(crate) fn clusters_get(m: &Clusters, k: &[u8]) -> (r: Option<u64>)
    ensures
        r == (if template_counts(*m).contains_key(k@) {
            Some(template_counts(*m)[k@])
        } else {
            None
        }),
{
    m.get(k).copied()
}

/// Relies on `AHashMap::insert`: afterwards `k` maps to `v` and every other
/// key keeps its value.
#[verifier::external_body]
pub(crate) fn clusters_insert(m: &mut Clusters, k: Vec<u8>, v: u64)
    ensures
        template_counts(*final(m)) == template_counts(*old(m)).insert(k@, v),
{
    m.insert(k, v);
}

/// Relies on `HashMap::len` (through `AHashMap`'s `Deref`): the number of keys.
#[verifier::external_body]
pub(crate) fn clusters_len(m: &Clusters) -> (r: usize)
    ensures
        r == template_counts(*m).len(),
{
    m.len()
}

/// Relies on `AHashMap`'s `IntoIterator`: every entry comes out once, in an
/// order that the map does not promise.
#[verifier::external_body]
pub(crate) fn clusters_into_entries(m: Clusters) -> (r: Vec<(Vec<u8>, u64)>)
    ensures
        r@.len() == template_counts(m).len(),
        forall|i: int| #![trigger r@[i]] 0 <= i < r@.len() ==>
            template_counts(m).contains_key(r@[i].0@)
            && template_counts(m)[r@[i].0@] == r@[i].1,
        forall|i: int, j: int| 0 <= i < j < r@.len() ==> r@[i].0@ != r@[j].0@,
        forall|k: Seq<u8>| #[trigger] template_counts(m).contains_key(k) ==>
            exists|i: int| 0 <= i < r@.len() && r@[i].0@ == k,
{
    m.into_iter().collect()
}

} // verus!
