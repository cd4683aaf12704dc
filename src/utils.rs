use std::collections::HashMap;
use std::hash::Hash;

use vstd::prelude::*;
use vstd::std_specs::cmp::PartialEqSpec;
use vstd::std_specs::hash::obeys_key_model;

verus! {

broadcast use vstd::std_specs::hash::group_hash_axioms;

/// Whether `subtract` maps `k` to a value equal to `v`.
pub open spec fn holds_equal<K, V: PartialEq>(subtract: Map<K, V>, k: K, v: V) -> bool {
    subtract.contains_key(k) && subtract[k].eq_spec(&v)
}

/// Returns the entries of `source` that `subtract` does not hold with an equal value
/// (an entry whose key `subtract` maps to another value is kept). Used to find the
/// items of a mapping that were updated.
pub fn subtract_mappings<K, V>(source: &HashMap<K, V>, subtract: &HashMap<K, V>) -> (r: HashMap<K, V>) where
    K: Copy + Eq + Hash,
    V: Copy + PartialEq,

    requires
        obeys_key_model::<K>(),
        V::obeys_eq_spec(),
    ensures
        forall|k: K| #[trigger] r@.contains_key(k) <==> (source@.contains_key(k) && !holds_equal(subtract@, k, source@[k])),
        forall|k: K| #[trigger] r@.contains_key(k) ==> r@[k] == source@[k],
{
    let mut r: HashMap<K, V> = HashMap::new();
    for entry in it: source.iter()
        invariant
            obeys_key_model::<K>(),
            V::obeys_eq_spec(),
            it.seq().len() == source@.dom().len(),
            forall|i: int| 0 <= i < it.seq().len() ==> #[trigger] source@.contains_key(*it.seq()[i].0) && source@[*it.seq()[i].0] == *it.seq()[i].1,
            forall|k: K| #[trigger] source@.contains_key(k) ==> it.seq().contains((&k, &source@[k])),
            forall|k: K| #[trigger] r@.contains_key(k) <==> (exists|i: int| 0 <= i < it.index() && *it.seq()[i].0 == k) && source@.contains_key(k) && !holds_equal(subtract@, k, source@[k]),
            forall|k: K| #[trigger] r@.contains_key(k) ==> r@[k] == source@[k],
    {
        let (k, v) = entry;
        let keep = match subtract.get(k) {
            Some(w) => !w.eq(v),
            None => true,
        };
        if keep {
            r.insert(*k, *v);
        }
    }
    r
}

/// Returns the entries of `source` whose value differs from the one `subtract` holds
/// under the same key. Every key of `source` must be a key of `subtract`.
pub fn strict_subtract_mappings<K, V>(source: &HashMap<K, V>, subtract: &HashMap<K, V>) -> (r: HashMap<K, V>) where
    K: Copy + Eq + Hash,
    V: Copy + PartialEq,

    requires
        obeys_key_model::<K>(),
        V::obeys_eq_spec(),
        forall|k: K| #[trigger] source@.contains_key(k) ==> subtract@.contains_key(k),
    ensures
        forall|k: K| #[trigger] r@.contains_key(k) <==> (source@.contains_key(k) && !subtract@[k].eq_spec(&source@[k])),
        forall|k: K| #[trigger] r@.contains_key(k) ==> r@[k] == source@[k],
{
    let mut r: HashMap<K, V> = HashMap::new();
    for entry in it: source.iter()
        invariant
            obeys_key_model::<K>(),
            V::obeys_eq_spec(),
            forall|k: K| #[trigger] source@.contains_key(k) ==> subtract@.contains_key(k),
            it.seq().len() == source@.dom().len(),
            forall|i: int| 0 <= i < it.seq().len() ==> #[trigger] source@.contains_key(*it.seq()[i].0) && source@[*it.seq()[i].0] == *it.seq()[i].1,
            forall|k: K| #[trigger] source@.contains_key(k) ==> it.seq().contains((&k, &source@[k])),
            forall|k: K| #[trigger] r@.contains_key(k) <==> (exists|i: int| 0 <= i < it.index() && *it.seq()[i].0 == k) && source@.contains_key(k) && !subtract@[k].eq_spec(&source@[k]),
            forall|k: K| #[trigger] r@.contains_key(k) ==> r@[k] == source@[k],
    {
        let (k, v) = entry;
        let changed = match subtract.get(k) {
            Some(w) => !w.eq(v),
            None => true,
        };
        if changed {
            r.insert(*k, *v);
        }
    }
    r
}

#[derive(Clone, Copy, Debug, PartialEq, Eq, Structural)]
pub enum NumericConversionError {
    U64ToUsizeError(u64),
}

/// The larger of two values.
pub fn const_max(a: u128, b: u128) -> (r: u128)
    ensures
        r == if a < b { b } else { a },
{
    if a < b {
        b
    } else {
        a
    }
}

/// Converts a `u64` to a `usize`; an error where the value does not fit.
pub fn usize_from_u64(val: u64) -> (r: Result<usize, NumericConversionError>)
    ensures
        val <= usize::MAX ==> r == Ok::<usize, NumericConversionError>(val as usize),
        val > usize::MAX ==> r == Err::<usize, NumericConversionError>(NumericConversionError::U64ToUsizeError(val)),
{
    if val as u128 <= usize::MAX as u128 {
        Ok(val as usize)
    } else {
        Err(NumericConversionError::U64ToUsizeError(val))
    }
}

/// Converts a `usize` to a `u64`, which holds every `usize` of the platforms
/// that this library runs on.
pub fn u64_from_usize(val: usize) -> (r: u64)
    requires
        val <= u64::MAX,
    ensures
        r == val,
{
    val as u64
}

} // verus!
