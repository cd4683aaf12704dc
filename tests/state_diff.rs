use apollo_p2p_sync::felt::Felt;
use apollo_p2p_sync::state_diff::{
    split_thin_state_diff,
    ContractDiff,
    DeclaredClass,
    DeprecatedDeclaredClass,
    StateDiffChunk,
    ThinStateDiff,
};

fn felt(v: u128) -> Felt {
    Felt::from_u128(v)
}

fn empty_diff() -> ThinStateDiff {
    ThinStateDiff {
        deployed_contracts: vec![],
        storage_diffs: vec![],
        declared_classes: vec![],
        deprecated_declared_classes: vec![],
        nonces: vec![],
    }
}

fn sample_diff() -> ThinStateDiff {
    ThinStateDiff {
        deployed_contracts: vec![(felt(30), felt(300)), (felt(10), felt(100))],
        storage_diffs: vec![(felt(20), vec![(felt(1), felt(2)), (felt(3), felt(4))]), (felt(10), vec![(felt(5), felt(6))])],
        declared_classes: vec![(felt(7), felt(70)), (felt(8), felt(80))],
        deprecated_declared_classes: vec![felt(9), felt(6)],
        nonces: vec![(felt(40), felt(1)), (felt(30), felt(2))],
    }
}

#[test]
fn empty_state_diff_has_no_chunks() {
    assert!(split_thin_state_diff(empty_diff()).is_empty());
}

#[test]
fn contract_diffs_come_in_address_order_then_classes() {
    let chunks = split_thin_state_diff(sample_diff());
    let expected = vec![
        StateDiffChunk::ContractDiff(ContractDiff {
            contract_address: felt(10),
            class_hash: Some(felt(100)),
            nonce: None,
            storage_diffs: vec![(felt(5), felt(6))],
        }),
        StateDiffChunk::ContractDiff(ContractDiff {
            contract_address: felt(20),
            class_hash: None,
            nonce: None,
            storage_diffs: vec![(felt(1), felt(2)), (felt(3), felt(4))],
        }),
        StateDiffChunk::ContractDiff(ContractDiff {
            contract_address: felt(30),
            class_hash: Some(felt(300)),
            nonce: Some(felt(2)),
            storage_diffs: vec![],
        }),
        StateDiffChunk::ContractDiff(ContractDiff {
            contract_address: felt(40),
            class_hash: None,
            nonce: Some(felt(1)),
            storage_diffs: vec![],
        }),
        StateDiffChunk::DeclaredClass(DeclaredClass { class_hash: felt(7), compiled_class_hash: felt(70) }),
        StateDiffChunk::DeclaredClass(DeclaredClass { class_hash: felt(8), compiled_class_hash: felt(80) }),
        StateDiffChunk::DeprecatedDeclaredClass(DeprecatedDeclaredClass { class_hash: felt(9) }),
        StateDiffChunk::DeprecatedDeclaredClass(DeprecatedDeclaredClass { class_hash: felt(6) }),
    ];
    assert_eq!(chunks, expected);
}

#[test]
fn splitting_twice_gives_the_same_chunks() {
    let first = split_thin_state_diff(sample_diff());
    let second = split_thin_state_diff(sample_diff());
    assert_eq!(first, second);
}

#[test]
fn each_touched_address_gets_exactly_one_contract_diff() {
    let chunks = split_thin_state_diff(sample_diff());
    for address in [10u128, 20, 30, 40] {
        let count = chunks
            .iter()
            .filter(|c| matches!(c, StateDiffChunk::ContractDiff(d) if d.contract_address == felt(address)))
            .count();
        assert_eq!(count, 1);
    }
    for untouched in [7u128, 8, 9, 6, 100] {
        assert!(!chunks
            .iter()
            .any(|c| matches!(c, StateDiffChunk::ContractDiff(d) if d.contract_address == felt(untouched))));
    }
}

#[test]
fn addresses_are_ordered_by_high_half_first() {
    let mut diff = empty_diff();
    diff.nonces = vec![(Felt { high: 1, low: 0 }, felt(1)), (Felt { high: 0, low: u128::MAX }, felt(2))];
    let chunks = split_thin_state_diff(diff);
    let addresses: Vec<Felt> = chunks
        .iter()
        .map(|c| match c {
            StateDiffChunk::ContractDiff(d) => d.contract_address,
            _ => panic!("only contract diffs expected"),
        })
        .collect();
    assert_eq!(addresses, vec![Felt { high: 0, low: u128::MAX }, Felt { high: 1, low: 0 }]);
}

#[test]
fn felt_order_and_construction() {
    assert!(felt(1).less_than(&felt(2)));
    assert!(!felt(2).less_than(&felt(2)));
    assert!(felt(u128::MAX).less_than(&Felt { high: 1, low: 0 }));
    assert_eq!(felt(5), Felt { high: 0, low: 5 });
}

#[test]
fn repeated_keys_are_not_well_formed() {
    assert!(sample_diff().is_well_formed());
    assert!(empty_diff().is_well_formed());
    let mut diff = sample_diff();
    diff.nonces.push((felt(40), felt(9)));
    assert!(!diff.is_well_formed());
    let mut diff = sample_diff();
    diff.declared_classes.insert(0, (felt(8), felt(1)));
    assert!(!diff.is_well_formed());
}

#[test]
fn length_counts_every_entry() {
    assert_eq!(empty_diff().checked_len(), Some(0));
    // 2 deployed, 3 storage entries, 2 declared, 2 deprecated, 2 nonces.
    assert_eq!(sample_diff().checked_len(), Some(11));
}
