//! Insertion-ordered maps (`indexmap::IndexMap`) as the tracker data and
//! the tallies use them, with the contents of each map kind named as a
//! sequence of entries in insertion order.
use vstd::prelude::*;
use indexmap::IndexMap;
use crate::tracker::{Era, Track};

verus! {

#[verifier::external_type_specification]
#[verifier::external_body]
#[verifier::reject_recursive_types(K)]
#[verifier::reject_recursive_types(V)]
#[verifier::reject_recursive_types(S)]
pub struct ExIndexMap<K, V, S>(IndexMap<K, V, S>);

// ---------------------------------------------------------------------------
// Entry sequences
// ---------------------------------------------------------------------------

/// The position of the first entry whose key is `k`, or -1.
pub open spec fn key_index<V>(e: Seq<(Seq<char>, V)>, k: Seq<char>) -> int
    decreases e.len(),
{
    if e.len() == 0 {
        -1
    } else {
        let j = key_index(e.drop_last(), k);
        if j >= 0 {
            j
        } else if e.last().0 == k {
            e.len() - 1
        } else {
            -1
        }
    }
}

/// The value stored under `k`, if any.
pub open spec fn value_of<V>(e: Seq<(Seq<char>, V)>, k: Seq<char>) -> Option<V> {
    let i = key_index(e, k);
    if i >= 0 {
        Some(e[i].1)
    } else {
        None
    }
}

/// The entries after storing `v` under `k`: an entry with key `k` keeps its
/// place and takes the new value; otherwise a new entry goes last.
pub open spec fn stored<V>(e: Seq<(Seq<char>, V)>, k: Seq<char>, v: V) -> Seq<(Seq<char>, V)> {
    let i = key_index(e, k);
    if i >= 0 {
        e.update(i, (k, v))
    } else {
        e.push((k, v))
    }
}

pub proof fn lemma_key_index_bounds<V>(e: Seq<(Seq<char>, V)>, k: Seq<char>)
    ensures
        -1 <= key_index(e, k) < e.len(),
        key_index(e, k) >= 0 ==> e[key_index(e, k)].0 == k,
        key_index(e, k) == -1 ==> forall|i: int| 0 <= i < e.len() ==> (#[trigger] e[i]).0 != k,
        forall|i: int| 0 <= i < key_index(e, k) ==> (#[trigger] e[i]).0 != k,
    decreases e.len(),
{
    if e.len() > 0 {
        let d = e.drop_last();
        lemma_key_index_bounds(d, k);
        let j = key_index(d, k);
        assert forall|i: int| 0 <= i < e.len() - 1 implies #[trigger] e[i] == d[i] by {}
        if j >= 0 {
            assert forall|i: int| 0 <= i < key_index(e, k) implies (#[trigger] e[i]).0 != k by {
                assert(e[i] == d[i]);
            }
        } else if e.last().0 == k {
            assert forall|i: int| 0 <= i < key_index(e, k) implies (#[trigger] e[i]).0 != k by {
                assert(e[i] == d[i]);
            }
        } else {
            assert forall|i: int| 0 <= i < e.len() implies (#[trigger] e[i]).0 != k by {
                if i < e.len() - 1 {
                    assert(e[i] == d[i]);
                }
            }
        }
    }
}

/// A key whose entry is first at `i` is found at `i`.
pub proof fn lemma_key_index_at<V>(e: Seq<(Seq<char>, V)>, i: int)
    requires
        0 <= i < e.len(),
        forall|j: int| 0 <= j < i ==> (#[trigger] e[j]).0 != e[i].0,
    ensures
        key_index(e, e[i].0) == i,
    decreases e.len(),
{
    if i < e.len() - 1 {
        lemma_key_index_at(e.drop_last(), i);
    } else {
        lemma_key_index_bounds(e.drop_last(), e[i].0);
        if key_index(e.drop_last(), e[i].0) >= 0 {
            let j = key_index(e.drop_last(), e[i].0);
            assert(e[j] == e.drop_last()[j]);
        }
    }
}

/// Replacing a value keeps every key's position.
pub proof fn lemma_key_index_update<V>(e: Seq<(Seq<char>, V)>, i: int, v: V, k: Seq<char>)
    requires
        0 <= i < e.len(),
    ensures
        key_index(e.update(i, (e[i].0, v)), k) == key_index(e, k),
    decreases e.len(),
{
    let u = e.update(i, (e[i].0, v));
    if i < e.len() - 1 {
        assert(u.drop_last() == e.drop_last().update(i, (e.drop_last()[i].0, v)));
        lemma_key_index_update(e.drop_last(), i, v, k);
    } else {
        assert(u.drop_last() == e.drop_last());
    }
}

/// Adding an entry last leaves the positions of the existing keys alone.
pub proof fn lemma_key_index_push<V>(e: Seq<(Seq<char>, V)>, kv: (Seq<char>, V), k: Seq<char>)
    ensures
        key_index(e.push(kv), k) == (if key_index(e, k) >= 0 {
            key_index(e, k)
        } else if kv.0 == k {
            e.len() as int
        } else {
            -1
        }),
{
    assert(e.push(kv).drop_last() == e);
}

// ---------------------------------------------------------------------------
// Eras of a tracker
// ---------------------------------------------------------------------------

/// The eras of a tracker, keyed by era key, in the order the tracker lists them.
pub uninterp spec fn era_entries(m: IndexMap<String, Era>) -> Seq<(Seq<char>, Era)>;

/// `IndexMap::len`: the number of eras.
#[verifier::external_body]
pub(crate) fn era_count(m: &IndexMap<String, Era>) -> (n: usize)
    ensures
        n == era_entries(*m).len(),
{
    m.len()
}

/// `IndexMap::get_index`: the key and era at position `i`.
#[verifier::external_body]
pub(crate) fn era_at(m: &IndexMap<String, Era>, i: usize) -> (r: (&String, &Era))
    requires
        i < era_entries(*m).len(),
    ensures
        (r.0@, *r.1) == era_entries(*m)[i as int],
{
    m.get_index(i).unwrap()
}

/// `IndexMap::get`: the era stored under `key`, if any.
#[verifier::external_body]
pub(crate) fn era_lookup<'a>(m: &'a IndexMap<String, Era>, key: &str) -> (r: Option<&'a Era>)
    ensures
        match r {
            Some(e) => value_of(era_entries(*m), key@) == Some(*e),
            None => value_of(era_entries(*m), key@) is None,
        },
{
    m.get(key)
}

// ---------------------------------------------------------------------------
// Categories of an era
// ---------------------------------------------------------------------------

/// The categories of an era with their tracks, in the order the tracker
/// lists them.
pub uninterp spec fn category_entries(m: IndexMap<String, Vec<Track>>) -> Seq<(Seq<char>, Vec<Track>)>;

/// `IndexMap::len`: the number of categories.
#[verifier::external_body]
pub(crate) fn category_count(m: &IndexMap<String, Vec<Track>>) -> (n: usize)
    ensures
        n == category_entries(*m).len(),
{
    m.len()
}

/// `IndexMap::get_index`: the name and tracks of the category at position `i`.
#[verifier::external_body]
pub(crate) fn category_at(m: &IndexMap<String, Vec<Track>>, i: usize) -> (r: (&String, &Vec<Track>))
    requires
        i < category_entries(*m).len(),
    ensures
        (r.0@, *r.1) == category_entries(*m)[i as int],
{
    m.get_index(i).unwrap()
}

// ---------------------------------------------------------------------------
// Tallies: a count per name
// ---------------------------------------------------------------------------

/// The entries of a tally, in the order their names were first counted.
pub uninterp spec fn tally_entries(m: IndexMap<String, usize>) -> Seq<(Seq<char>, usize)>;

/// `IndexMap::new`: an empty tally.
#[verifier::external_body]
pub(crate) fn tally_new() -> (m: IndexMap<String, usize>)
    ensures
        tally_entries(m) == Seq::<(Seq<char>, usize)>::empty(),
{
    IndexMap::new()
}

/// `IndexMap::len`: the number of names counted.
#[verifier::external_body]
pub(crate) fn tally_len(m: &IndexMap<String, usize>) -> (n: usize)
    ensures
        n == tally_entries(*m).len(),
{
    m.len()
}

/// `IndexMap::get_index`: the name and count at position `i`.
#[verifier::external_body]
pub(crate) fn tally_at(m: &IndexMap<String, usize>, i: usize) -> (r: (&String, &usize))
    requires
        i < tally_entries(*m).len(),
    ensures
        (r.0@, *r.1) == tally_entries(*m)[i as int],
{
    m.get_index(i).unwrap()
}

/// `IndexMap::get`: the count stored under `key`, if any.
#[verifier::external_body]
pub(crate) fn tally_get(m: &IndexMap<String, usize>, key: &str) -> (r: Option<usize>)
    ensures
        r == value_of(tally_entries(*m), key@),
{
    m.get(key).copied()
}

/// `IndexMap::insert`: stores `value` under `key`; an existing key keeps its
/// place, a new one goes last.
#[verifier::external_body]
pub(crate) fn tally_insert(m: &mut IndexMap<String, usize>, key: String, value: usize)
    ensures
        tally_entries(*final(m)) == stored(tally_entries(*old(m)), key@, value),
{
    m.insert(key, value);
}

// ---------------------------------------------------------------------------
// Per-host results: (completed, failed, skipped) per host
// ---------------------------------------------------------------------------

/// The entries of a per-host result table, in the order the hosts first
/// appeared.
pub uninterp spec fn host_result_entries(m: IndexMap<String, (usize, usize, usize)>) -> Seq<
    (Seq<char>, (usize, usize, usize)),
>;

/// `IndexMap::new`: an empty table.
#[verifier::external_body]
pub(crate) fn host_results_new() -> (m: IndexMap<String, (usize, usize, usize)>)
    ensures
        host_result_entries(m) == Seq::<(Seq<char>, (usize, usize, usize))>::empty(),
{
    IndexMap::new()
}

/// `IndexMap::get`: the results stored under `key`, if any.
#[verifier::external_body]
pub(crate) fn host_results_get(m: &IndexMap<String, (usize, usize, usize)>, key: &str) -> (r: Option<
    (usize, usize, usize),
>)
    ensures
        r == value_of(host_result_entries(*m), key@),
{
    m.get(key).copied()
}

/// `IndexMap::insert`: stores `value` under `key`; an existing key keeps its
/// place, a new one goes last.
#[verifier::external_body]
pub(crate) fn host_results_insert(
    m: &mut IndexMap<String, (usize, usize, usize)>,
    key: String,
    value: (usize, usize, usize),
)
    ensures
        host_result_entries(*final(m)) == stored(host_result_entries(*old(m)), key@, value),
{
    m.insert(key, value);
}

} // verus!
