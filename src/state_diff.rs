use vstd::prelude::*;

use crate::felt::{
    find_key,
    has_key,
    has_unique_keys,
    keys_unique,
    lemma_lookup_at,
    lookup,
    strictly_ascending,
    ClassHash,
    CompiledClassHash,
    ContractAddress,
    Felt,
    Nonce,
    StorageKey,
};

verus! {

/// The changes that one block makes to the state, in its thin form: class bodies
/// are not included, only their hashes.
///
/// Each map is a sequence of key/value pairs in insertion order.
#[derive(Clone, Debug, PartialEq, Eq)]
pub struct ThinStateDiff {
    pub deployed_contracts: Vec<(ContractAddress, ClassHash)>,
    pub storage_diffs: Vec<(ContractAddress, Vec<(StorageKey, Felt)>)>,
    pub declared_classes: Vec<(ClassHash, CompiledClassHash)>,
    pub deprecated_declared_classes: Vec<ClassHash>,
    pub nonces: Vec<(ContractAddress, Nonce)>,
}

impl ThinStateDiff {
    /// Each map holds a key at most once.
    pub open spec fn well_formed(&self) -> bool {
        &&& keys_unique(self.deployed_contracts@)
        &&& keys_unique(self.storage_diffs@)
        &&& keys_unique(self.declared_classes@)
        &&& keys_unique(self.nonces@)
    }

    /// The number of entries of the diff: deployed contracts, declared and
    /// deprecated declared classes, nonces, and storage entries of all contracts.
    pub open spec fn spec_len(&self) -> int {
        self.deployed_contracts@.len() + self.declared_classes@.len() + self.deprecated_declared_classes@.len()
            + self.nonces@.len() + storage_entry_count(self.storage_diffs@)
    }

    /// The number of entries of the diff; `None` where it does not fit a `usize`.
    pub fn checked_len(&self) -> (r: Option<usize>)
        ensures
            r == if self.spec_len() <= usize::MAX {
                Some(self.spec_len() as usize)
            } else {
                None::<usize>
            },
    {
        proof {
            lemma_storage_entry_count_prefix(self.storage_diffs@, 0);
            assert(self.storage_diffs@.take(0).len() == 0);
        }
        let mut total: usize = self.deployed_contracts.len();
        total = match total.checked_add(self.declared_classes.len()) {
            Some(t) => t,
            None => return None,
        };
        total = match total.checked_add(self.deprecated_declared_classes.len()) {
            Some(t) => t,
            None => return None,
        };
        total = match total.checked_add(self.nonces.len()) {
            Some(t) => t,
            None => return None,
        };
        let ghost base = total as int;
        let mut i: usize = 0;
        while i < self.storage_diffs.len()
            invariant
                i <= self.storage_diffs@.len(),
                base + storage_entry_count(self.storage_diffs@.take(i as int)) == total,
                base == self.deployed_contracts@.len() + self.declared_classes@.len()
                    + self.deprecated_declared_classes@.len() + self.nonces@.len(),
            decreases self.storage_diffs@.len() - i,
        {
            assert(self.storage_diffs@.take(i + 1).drop_last() =~= self.storage_diffs@.take(i as int));
            total = match total.checked_add(self.storage_diffs[i].1.len()) {
                Some(t) => t,
                None => {
                    proof {
                        lemma_storage_entry_count_prefix(self.storage_diffs@, i + 1);
                    }
                    return None;
                },
            };
            i = i + 1;
        }
        assert(self.storage_diffs@.take(i as int) =~= self.storage_diffs@);
        Some(total)
    }

    /// Whether each map holds a key at most once.
    pub fn is_well_formed(&self) -> (r: bool)
        ensures
            r == self.well_formed(),
    {
        has_unique_keys(&self.deployed_contracts) && has_unique_keys(&self.storage_diffs) && has_unique_keys(
            &self.declared_classes,
        ) && has_unique_keys(&self.nonces)
    }

    /// The contract at `a` is deployed, given a nonce or has its storage changed.
    pub open spec fn touches(&self, a: ContractAddress) -> bool {
        has_key(self.deployed_contracts@, a) || has_key(self.nonces@, a) || has_key(
            self.storage_diffs@,
            a,
        )
    }

    /// The storage changes of the contract at `a`; none when it has no entry.
    pub open spec fn storage_of(&self, a: ContractAddress) -> Seq<(StorageKey, Felt)> {
        match lookup(self.storage_diffs@, a) {
            Some(v) => v@,
            None => Seq::empty(),
        }
    }
}

/// The number of storage entries over all contracts of `s`.
pub open spec fn storage_entry_count(s: Seq<(ContractAddress, Vec<(StorageKey, Felt)>)>) -> int
    decreases s.len(),
{
    if s.len() == 0 {
        0
    } else {
        storage_entry_count(s.drop_last()) + s.last().1@.len()
    }
}

/// Counting more contracts never gives fewer entries.
proof fn lemma_storage_entry_count_prefix(s: Seq<(ContractAddress, Vec<(StorageKey, Felt)>)>, n: int)
    requires
        0 <= n <= s.len(),
    ensures
        storage_entry_count(s.take(n)) <= storage_entry_count(s),
    decreases s.len() - n,
{
    if n < s.len() {
        lemma_storage_entry_count_prefix(s, n + 1);
        assert(s.take(n + 1).drop_last() =~= s.take(n));
    } else {
        assert(s.take(n) =~= s);
    }
}

/// Everything that one block changes for one contract.
#[derive(Clone, Debug, PartialEq, Eq)]
pub struct ContractDiff {
    pub contract_address: ContractAddress,
    pub class_hash: Option<ClassHash>,
    pub nonce: Option<Nonce>,
    pub storage_diffs: Vec<(StorageKey, Felt)>,
}

#[derive(Clone, Copy, Debug, PartialEq, Eq, Structural)]
pub struct DeclaredClass {
    pub class_hash: ClassHash,
    pub compiled_class_hash: CompiledClassHash,
}

#[derive(Clone, Copy, Debug, PartialEq, Eq, Structural)]
pub struct DeprecatedDeclaredClass {
    pub class_hash: ClassHash,
}

/// One record of a state-diff response.
#[derive(Clone, Debug, PartialEq, Eq)]
pub enum StateDiffChunk {
    ContractDiff(ContractDiff),
    DeclaredClass(DeclaredClass),
    DeprecatedDeclaredClass(DeprecatedDeclaredClass),
}

pub struct ContractDiffView {
    pub contract_address: ContractAddress,
    pub class_hash: Option<ClassHash>,
    pub nonce: Option<Nonce>,
    pub storage_diffs: Seq<(StorageKey, Felt)>,
}

pub enum StateDiffChunkView {
    ContractDiff(ContractDiffView),
    DeclaredClass(DeclaredClass),
    DeprecatedDeclaredClass(DeprecatedDeclaredClass),
}

impl View for ContractDiff {
    type V = ContractDiffView;

    open spec fn view(&self) -> ContractDiffView {
        ContractDiffView {
            contract_address: self.contract_address,
            class_hash: self.class_hash,
            nonce: self.nonce,
            storage_diffs: self.storage_diffs@,
        }
    }
}

impl View for StateDiffChunk {
    type V = StateDiffChunkView;

    open spec fn view(&self) -> StateDiffChunkView {
        match self {
            StateDiffChunk::ContractDiff(c) => StateDiffChunkView::ContractDiff(c@),
            StateDiffChunk::DeclaredClass(c) => StateDiffChunkView::DeclaredClass(*c),
            StateDiffChunk::DeprecatedDeclaredClass(c) => StateDiffChunkView::DeprecatedDeclaredClass(*c),
        }
    }
}

pub open spec fn chunks_view(v: Seq<StateDiffChunk>) -> Seq<StateDiffChunkView> {
    v.map_values(|c: StateDiffChunk| c@)
}

/// The record that gathers what `d` changes for the contract at `a`.
pub open spec fn contract_diff_of(d: ThinStateDiff, a: ContractAddress) -> StateDiffChunkView {
    StateDiffChunkView::ContractDiff(
        ContractDiffView {
            contract_address: a,
            class_hash: lookup(d.deployed_contracts@, a),
            nonce: lookup(d.nonces@, a),
            storage_diffs: d.storage_of(a),
        },
    )
}

pub open spec fn declared_chunk(p: (ClassHash, CompiledClassHash)) -> StateDiffChunkView {
    StateDiffChunkView::DeclaredClass(DeclaredClass { class_hash: p.0, compiled_class_hash: p.1 })
}

pub open spec fn deprecated_chunk(h: ClassHash) -> StateDiffChunkView {
    StateDiffChunkView::DeprecatedDeclaredClass(DeprecatedDeclaredClass { class_hash: h })
}

/// `r` splits `d` with the touched contracts taken in the order of `addresses`: one
/// contract record per address, then the declared classes, then the deprecated
/// declared classes, each in the diff's own order.
pub open spec fn split_along(d: ThinStateDiff, addresses: Seq<ContractAddress>, r: Seq<StateDiffChunkView>) -> bool {
    &&& forall|a: ContractAddress| addresses.contains(a) <==> d.touches(a)
    &&& r == addresses.map_values(|a: ContractAddress| contract_diff_of(d, a)) + d.declared_classes@.map_values(
        |p: (ClassHash, CompiledClassHash)| declared_chunk(p),
    ) + d.deprecated_declared_classes@.map_values(|h: ClassHash| deprecated_chunk(h))
}

/// `r` is the split of `d`, its contracts in ascending address order.
pub open spec fn is_split_of(d: ThinStateDiff, r: Seq<StateDiffChunkView>) -> bool {
    exists|addresses: Seq<ContractAddress>| strictly_ascending(addresses) && #[trigger] split_along(d, addresses, r)
}

/// Puts `a` into an ascending sequence of addresses, unless it is there already.
fn insert_address(addresses: &mut Vec<ContractAddress>, a: ContractAddress)
    requires
        strictly_ascending(old(addresses)@),
    ensures
        strictly_ascending(final(addresses)@),
        forall|x: ContractAddress| final(addresses)@.contains(x) <==> (old(addresses)@.contains(x) || x == a),
{
    let mut i: usize = 0;
    while i < addresses.len() && addresses[i].less_than(&a)
        invariant
            i <= addresses@.len(),
            forall|j: int| 0 <= j < i ==> (#[trigger] addresses@[j]).spec_lt(a),
        decreases addresses@.len() - i,
    {
        i = i + 1;
    }
    if i < addresses.len() && addresses[i] == a {
        return;
    }
    let ghost before = addresses@;
    addresses.insert(i, a);
    assert(addresses@ == before.insert(i as int, a));
    assert(addresses@[i as int] == a);
    assert forall|x: ContractAddress| addresses@.contains(x) <==> (before.contains(x) || x == a) by {
        if before.contains(x) {
            let j = choose|j: int| 0 <= j < before.len() && before[j] == x;
            if j < i {
                assert(addresses@[j] == x);
            } else {
                assert(addresses@[j + 1] == x);
            }
        }
        if addresses@.contains(x) {
            let j = choose|j: int| 0 <= j < addresses@.len() && addresses@[j] == x;
            if j < i {
                assert(before[j] == x);
            } else if j > i {
                assert(before[j - 1] == x);
            }
        }
    }
}

/// Adds every key of `v` to an ascending sequence of addresses.
fn insert_keys<V>(addresses: &mut Vec<ContractAddress>, v: &Vec<(ContractAddress, V)>)
    requires
        strictly_ascending(old(addresses)@),
    ensures
        strictly_ascending(final(addresses)@),
        forall|x: ContractAddress| final(addresses)@.contains(x) <==> (old(addresses)@.contains(x) || has_key(v@, x)),
{
    let ghost start = addresses@;
    let mut i: usize = 0;
    while i < v.len()
        invariant
            i <= v@.len(),
            strictly_ascending(addresses@),
            forall|x: ContractAddress| addresses@.contains(x) <==> (start.contains(x) || exists|j: int| 0 <= j < i && (#[trigger] v@[j]).0 == x),
        decreases v@.len() - i,
    {
        let ghost before = addresses@;
        let ghost prev = i as int;
        assert forall|x: ContractAddress| before.contains(x) <==> (start.contains(x) || exists|j: int| 0 <= j < prev && (#[trigger] v@[j]).0 == x) by {}
        insert_address(addresses, v[i].0);
        i = i + 1;
        assert forall|x: ContractAddress| addresses@.contains(x) <==> (start.contains(x) || exists|j: int| 0 <= j < i && (#[trigger] v@[j]).0 == x) by {
            if exists|j: int| 0 <= j < i && (#[trigger] v@[j]).0 == x {
                let j = choose|j: int| 0 <= j < i && (#[trigger] v@[j]).0 == x;
                if j < prev {
                    assert(0 <= j < prev && v@[j].0 == x);
                    assert(before.contains(x));
                }
                assert(addresses@.contains(x));
            }
            if addresses@.contains(x) && !start.contains(x) {
                if x == v@[prev].0 {
                    assert(0 <= prev < i && v@[prev].0 == x);
                } else {
                    assert(before.contains(x));
                    let j = choose|j: int| 0 <= j < prev && (#[trigger] v@[j]).0 == x;
                    assert(0 <= j < i && v@[j].0 == x);
                }
            }
        }
    }
}

/// Splits a state diff into the records of a state-diff response: one
/// `ContractDiff` for each touched contract, in ascending address order, then one
/// `DeclaredClass` per declared class and one `DeprecatedDeclaredClass` per
/// deprecated declared class, each in the diff's own order.
pub fn split_thin_state_diff(thin_state_diff: ThinStateDiff) -> (r: Vec<StateDiffChunk>)
    requires
        thin_state_diff.well_formed(),
    ensures
        is_split_of(thin_state_diff, chunks_view(r@)),
{
    let ghost d = thin_state_diff;
    let ThinStateDiff {
        deployed_contracts,
        mut storage_diffs,
        declared_classes,
        deprecated_declared_classes,
        nonces,
    } = thin_state_diff;
    let mut addresses: Vec<ContractAddress> = Vec::new();
    insert_keys(&mut addresses, &deployed_contracts);
    insert_keys(&mut addresses, &nonces);
    insert_keys(&mut addresses, &storage_diffs);

    let mut chunks: Vec<StateDiffChunk> = Vec::new();
    let mut k: usize = 0;
    while k < addresses.len()
        invariant
            d.well_formed(),
            strictly_ascending(addresses@),
            deployed_contracts@ == d.deployed_contracts@,
            nonces@ == d.nonces@,
            storage_diffs@.len() == d.storage_diffs@.len(),
            forall|j: int| 0 <= j < storage_diffs@.len() ==> (#[trigger] storage_diffs@[j]).0 == d.storage_diffs@[j].0,
            forall|j: int| 0 <= j < storage_diffs@.len() && !addresses@.take(k as int).contains(storage_diffs@[j].0)
                ==> (#[trigger] storage_diffs@[j]).1 == d.storage_diffs@[j].1,
            k <= addresses@.len(),
            chunks_view(chunks@) == addresses@.take(k as int).map_values(|a: ContractAddress| contract_diff_of(d, a)),
        decreases addresses@.len() - k,
    {
        let a = addresses[k];
        let class_hash = match find_key(&deployed_contracts, &a) {
            Some(i) => {
                proof { lemma_lookup_at(d.deployed_contracts@, a, i as int); }
                Some(deployed_contracts[i].1)
            },
            None => None,
        };
        let nonce = match find_key(&nonces, &a) {
            Some(i) => {
                proof { lemma_lookup_at(d.nonces@, a, i as int); }
                Some(nonces[i].1)
            },
            None => None,
        };
        let mut taken: (ContractAddress, Vec<(StorageKey, Felt)>) = (a, Vec::new());
        let ghost old_storage = storage_diffs@;
        let ghost mut swapped: int = -1;
        match find_key(&storage_diffs, &a) {
            Some(j) => {
                proof {
                    lemma_lookup_at(d.storage_diffs@, a, j as int);
                    assert(!addresses@.take(k as int).contains(a)) by {
                        if addresses@.take(k as int).contains(a) {
                            let m = choose|m: int| 0 <= m < k && addresses@.take(k as int)[m] == a;
                            assert(addresses@[m].spec_lt(addresses@[k as int]));
                        }
                    }
                    assert(storage_diffs@[j as int].1 == d.storage_diffs@[j as int].1);
                    swapped = j as int;
                }
                storage_diffs.set_and_swap(j, &mut taken);
            },
            None => {
                proof {
                    assert(!has_key(d.storage_diffs@, a)) by {
                        if has_key(d.storage_diffs@, a) {
                            let j = choose|j: int| 0 <= j < d.storage_diffs@.len() && (#[trigger] d.storage_diffs@[j]).0 == a;
                            assert(storage_diffs@[j].0 == a);
                        }
                    }
                }
            },
        }
        let ghost prev = chunks@;
        chunks.push(StateDiffChunk::ContractDiff(ContractDiff {
            contract_address: a,
            class_hash,
            nonce,
            storage_diffs: taken.1,
        }));
        proof {
            assert(taken.1@ == d.storage_of(a));
            assert(chunks@.last()@ == contract_diff_of(d, a));
            assert(addresses@.take(k + 1) =~= addresses@.take(k as int).push(a));
            assert(chunks_view(chunks@) =~= chunks_view(prev).push(chunks@.last()@));
            assert(addresses@.take(k + 1).map_values(|a: ContractAddress| contract_diff_of(d, a)) =~= addresses@.take(
                k as int,
            ).map_values(|a: ContractAddress| contract_diff_of(d, a)).push(contract_diff_of(d, a)));
            assert forall|j: int| 0 <= j < storage_diffs@.len() && !addresses@.take(k + 1).contains(storage_diffs@[j].0)
                implies (#[trigger] storage_diffs@[j]).1 == d.storage_diffs@[j].1 by {
                if j == swapped {
                    assert(addresses@.take(k + 1)[k as int] == a);
                } else {
                    assert(storage_diffs@[j] == old_storage[j]);
                }
                assert(!addresses@.take(k as int).contains(storage_diffs@[j].0)) by {
                    if addresses@.take(k as int).contains(storage_diffs@[j].0) {
                        let m = choose|m: int| 0 <= m < k && addresses@.take(k as int)[m] == storage_diffs@[j].0;
                        assert(addresses@.take(k + 1)[m] == storage_diffs@[j].0);
                    }
                }
            }
        }
        k = k + 1;
    }
    let ghost contract_part = chunks@;
    let mut i: usize = 0;
    while i < declared_classes.len()
        invariant
            i <= declared_classes@.len(),
            chunks_view(chunks@) == chunks_view(contract_part) + declared_classes@.take(i as int).map_values(
                |p: (ClassHash, CompiledClassHash)| declared_chunk(p),
            ),
        decreases declared_classes@.len() - i,
    {
        let (class_hash, compiled_class_hash) = declared_classes[i];
        let ghost prev = chunks@;
        chunks.push(StateDiffChunk::DeclaredClass(DeclaredClass { class_hash, compiled_class_hash }));
        proof {
            assert(chunks_view(chunks@) =~= chunks_view(prev).push(declared_chunk(declared_classes@[i as int])));
            assert(declared_classes@.take(i + 1) =~= declared_classes@.take(i as int).push(declared_classes@[i as int]));
            assert(declared_classes@.take(i + 1).map_values(|p: (ClassHash, CompiledClassHash)| declared_chunk(p))
                =~= declared_classes@.take(i as int).map_values(|p: (ClassHash, CompiledClassHash)| declared_chunk(p)).push(
                declared_chunk(declared_classes@[i as int]),
            ));
        }
        i = i + 1;
    }
    let ghost declared_part = chunks@;
    let mut i: usize = 0;
    while i < deprecated_declared_classes.len()
        invariant
            i <= deprecated_declared_classes@.len(),
            chunks_view(chunks@) == chunks_view(declared_part) + deprecated_declared_classes@.take(i as int).map_values(
                |h: ClassHash| deprecated_chunk(h),
            ),
        decreases deprecated_declared_classes@.len() - i,
    {
        let class_hash = deprecated_declared_classes[i];
        let ghost prev = chunks@;
        chunks.push(StateDiffChunk::DeprecatedDeclaredClass(DeprecatedDeclaredClass { class_hash }));
        proof {
            assert(chunks_view(chunks@) =~= chunks_view(prev).push(deprecated_chunk(class_hash)));
            assert(deprecated_declared_classes@.take(i + 1) =~= deprecated_declared_classes@.take(i as int).push(
                deprecated_declared_classes@[i as int],
            ));
            assert(deprecated_declared_classes@.take(i + 1).map_values(|h: ClassHash| deprecated_chunk(h))
                =~= deprecated_declared_classes@.take(i as int).map_values(|h: ClassHash| deprecated_chunk(h)).push(
                deprecated_chunk(class_hash),
            ));
        }
        i = i + 1;
    }
    proof {
        assert(addresses@.take(addresses@.len() as int) == addresses@);
        assert(declared_classes@.take(declared_classes@.len() as int) == declared_classes@);
        assert(deprecated_declared_classes@.take(deprecated_declared_classes@.len() as int) == deprecated_declared_classes@);
        assert(split_along(d, addresses@, chunks_view(chunks@)));
    }
    chunks
}

/// The record `c` is the contract record of the contract at `a`.
pub open spec fn is_contract_diff_for(c: StateDiffChunkView, a: ContractAddress) -> bool {
    match c {
        StateDiffChunkView::ContractDiff(v) => v.contract_address == a,
        _ => false,
    }
}

/// Two strictly ascending sequences with the same members are equal.
pub proof fn lemma_ascending_unique(s1: Seq<Felt>, s2: Seq<Felt>)
    requires
        strictly_ascending(s1),
        strictly_ascending(s2),
        forall|x: Felt| s1.contains(x) <==> s2.contains(x),
    ensures
        s1 == s2,
    decreases s1.len(),
{
    if s1.len() == 0 {
        if s2.len() > 0 {
            assert(s2.contains(s2[0]));
        }
        assert(s1 =~= s2);
    } else {
        assert(s1.contains(s1[0]));
        assert(s2.len() > 0);
        assert(s2.contains(s2[0]));
        let m = choose|m: int| 0 <= m < s1.len() && s1[m] == s2[0];
        let n = choose|n: int| 0 <= n < s2.len() && s2[n] == s1[0];
        if n > 0 {
            assert(s2[0].spec_lt(s2[n]));
            if m > 0 {
                assert(s1[0].spec_lt(s1[m]));
            }
        }
        assert(s1[0] == s2[0]);
        let t1 = s1.drop_first();
        let t2 = s2.drop_first();
        assert forall|x: Felt| t1.contains(x) <==> t2.contains(x) by {
            if t1.contains(x) {
                let i = choose|i: int| 0 <= i < t1.len() && t1[i] == x;
                assert(s1[0].spec_lt(s1[i + 1]));
                assert(s1.contains(x));
                let j = choose|j: int| 0 <= j < s2.len() && s2[j] == x;
                assert(j != 0);
                assert(t2[j - 1] == x);
            }
            if t2.contains(x) {
                let i = choose|i: int| 0 <= i < t2.len() && t2[i] == x;
                assert(s2[0].spec_lt(s2[i + 1]));
                assert(s2.contains(x));
                let j = choose|j: int| 0 <= j < s1.len() && s1[j] == x;
                assert(j != 0);
                assert(t1[j - 1] == x);
            }
        }
        lemma_ascending_unique(t1, t2);
        assert(s1 =~= seq![s1[0]] + t1);
        assert(s2 =~= seq![s2[0]] + t2);
    }
}

/// Splitting is deterministic: any two splits of the same state diff are the same
/// sequence of records, the contract records included, in the same order.
pub proof fn lemma_split_deterministic(d: ThinStateDiff, r1: Seq<StateDiffChunkView>, r2: Seq<StateDiffChunkView>)
    requires
        is_split_of(d, r1),
        is_split_of(d, r2),
    ensures
        r1 == r2,
{
    let a1 = choose|a: Seq<ContractAddress>| strictly_ascending(a) && #[trigger] split_along(d, a, r1);
    let a2 = choose|a: Seq<ContractAddress>| strictly_ascending(a) && #[trigger] split_along(d, a, r2);
    lemma_ascending_unique(a1, a2);
}

/// Every touched contract gets exactly one contract record, and no other address
/// gets one.
pub proof fn lemma_one_contract_diff_per_address(d: ThinStateDiff, r: Seq<StateDiffChunkView>, a: ContractAddress)
    requires
        is_split_of(d, r),
    ensures
        d.touches(a) ==> exists|i: int| 0 <= i < r.len() && is_contract_diff_for(#[trigger] r[i], a)
            && forall|j: int| 0 <= j < r.len() && j != i ==> !is_contract_diff_for(#[trigger] r[j], a),
        !d.touches(a) ==> forall|j: int| 0 <= j < r.len() ==> !is_contract_diff_for(#[trigger] r[j], a),
{
    let addresses = choose|s: Seq<ContractAddress>| strictly_ascending(s) && #[trigger] split_along(d, s, r);
    let n = addresses.len();
    let contracts = addresses.map_values(|x: ContractAddress| contract_diff_of(d, x));
    let declared = d.declared_classes@.map_values(|p: (ClassHash, CompiledClassHash)| declared_chunk(p));
    let deprecated = d.deprecated_declared_classes@.map_values(|h: ClassHash| deprecated_chunk(h));
    assert(r == contracts + declared + deprecated);
    assert forall|j: int| 0 <= j < r.len() && #[trigger] is_contract_diff_for(r[j], a) implies j < n && addresses[j] == a by {
        if j >= n + declared.len() {
            assert(r[j] == deprecated[j - n - declared.len()]);
        } else if j >= n {
            assert(r[j] == declared[j - n]);
        } else {
            assert(r[j] == contracts[j]);
        }
    }
    if d.touches(a) {
        assert(addresses.contains(a));
        let i = choose|i: int| 0 <= i < n && addresses[i] == a;
        assert(r[i] == contracts[i]);
        assert(is_contract_diff_for(r[i], a));
        assert forall|j: int| 0 <= j < r.len() && j != i implies !is_contract_diff_for(#[trigger] r[j], a) by {
            if is_contract_diff_for(r[j], a) {
                if j < i {
                    assert(addresses[j].spec_lt(addresses[i]));
                } else {
                    assert(addresses[i].spec_lt(addresses[j]));
                }
            }
        }
    } else {
        assert forall|j: int| 0 <= j < r.len() implies !is_contract_diff_for(#[trigger] r[j], a) by {
            if is_contract_diff_for(r[j], a) {
                assert(addresses.contains(a));
            }
        }
    }
}

} // verus!
