use vstd::prelude::*;

verus! {

/// A field element, held as its high and low 128-bit halves.
#[derive(Clone, Copy, Debug, PartialEq, Eq, Structural, Hash)]
pub struct Felt {
    pub high: u128,
    pub low: u128,
}

pub type BlockHash = Felt;

pub type ClassHash = Felt;

pub type CompiledClassHash = Felt;

pub type ContractAddress = Felt;

pub type Nonce = Felt;

pub type StorageKey = Felt;

pub type TransactionHash = Felt;

impl Felt {
    /// The order of field elements: the order of their numeric values.
    pub open spec fn spec_lt(self, other: Felt) -> bool {
        self.high < other.high || (self.high == other.high && self.low < other.low)
    }

    pub fn from_u128(v: u128) -> (r: Felt)
        ensures
            r.high == 0,
            r.low == v,
    {
        Felt { high: 0, low: v }
    }

    pub fn less_than(&self, other: &Felt) -> (r: bool)
        ensures
            r == self.spec_lt(*other),
    {
        self.high < other.high || (self.high == other.high && self.low < other.low)
    }
}

/// Strictly ascending, hence free of repetitions.
pub open spec fn strictly_ascending(s: Seq<Felt>) -> bool {
    forall|i: int, j: int| 0 <= i < j < s.len() ==> (#[trigger] s[i]).spec_lt(#[trigger] s[j])
}

/// A sequence of key/value pairs in which no key occurs twice.
pub open spec fn keys_unique<V>(s: Seq<(Felt, V)>) -> bool {
    forall|i: int, j: int| 0 <= i < s.len() && 0 <= j < s.len() && i != j ==> (#[trigger] s[i]).0 != (#[trigger] s[j]).0
}

pub open spec fn has_key<V>(s: Seq<(Felt, V)>, k: Felt) -> bool {
    exists|i: int| 0 <= i < s.len() && (#[trigger] s[i]).0 == k
}

/// The value stored under key `k`, if any (the first such pair).
pub open spec fn lookup<V>(s: Seq<(Felt, V)>, k: Felt) -> Option<V> {
    if has_key(s, k) {
        Some(s[choose|i: int| 0 <= i < s.len() && (#[trigger] s[i]).0 == k].1)
    } else {
        None
    }
}

/// In a sequence with unique keys, the pair at an index holding `k` is the one that
/// `lookup` reads.
pub proof fn lemma_lookup_at<V>(s: Seq<(Felt, V)>, k: Felt, i: int)
    requires
        keys_unique(s),
        0 <= i < s.len(),
        s[i].0 == k,
    ensures
        lookup(s, k) == Some(s[i].1),
{
    assert(has_key(s, k));
    let j = choose|j: int| 0 <= j < s.len() && (#[trigger] s[j]).0 == k;
    assert(j == i);
}

/// Index of the pair whose key is `k`.
pub fn find_key<V>(v: &Vec<(Felt, V)>, k: &Felt) -> (r: Option<usize>)
    ensures
        match r {
            Some(i) => i < v@.len() && v@[i as int].0 == *k,
            None => !has_key(v@, *k),
        },
{
    let mut i: usize = 0;
    while i < v.len()
        invariant
            i <= v@.len(),
            forall|j: int| 0 <= j < i ==> (#[trigger] v@[j]).0 != *k,
        decreases v@.len() - i,
    {
        if v[i].0 == *k {
            return Some(i);
        }
        i = i + 1;
    }
    None
}

/// Whether no key occurs twice among the pairs of `v`.
pub fn has_unique_keys<V>(v: &Vec<(Felt, V)>) -> (r: bool)
    ensures
        r == keys_unique(v@),
{
    let n = v.len();
    let mut i: usize = 0;
    while i < n
        invariant
            n == v@.len(),
            i <= n,
            forall|a: int, b: int| 0 <= a < i && a < b < n ==> (#[trigger] v@[a]).0 != (#[trigger] v@[b]).0,
        decreases n - i,
    {
        let mut j: usize = i + 1;
        while j < n
            invariant
                n == v@.len(),
                i < n,
                i + 1 <= j <= n,
                forall|a: int, b: int| 0 <= a < i && a < b < n ==> (#[trigger] v@[a]).0 != (#[trigger] v@[b]).0,
                forall|b: int| i < b < j ==> v@[i as int].0 != (#[trigger] v@[b]).0,
            decreases n - j,
        {
            if v[i].0 == v[j].0 {
                return false;
            }
            j = j + 1;
        }
        i = i + 1;
    }
    assert forall|a: int, b: int| 0 <= a < v@.len() && 0 <= b < v@.len() && a != b implies (#[trigger] v@[a]).0 != (#[trigger] v@[b]).0 by {
        if b < a {
            assert(v@[b].0 != v@[a].0);
        }
    }
    true
}

} // verus!
