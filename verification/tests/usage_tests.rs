use contract_usage::aggregate::map_contract_usage;
use contract_usage::records::{BlockData, CallRecord, ContractUsage, StoreSnapshot, TxRecord};

fn call(to: &[u8], from: &[u8]) -> CallRecord {
    CallRecord {
        to: to.to_vec(),
        from: from.to_vec(),
        input: vec![0u8; 8],
        success: true,
    }
}

fn block(number: u64, timestamp: u64, calls: Vec<CallRecord>) -> BlockData {
    BlockData { number, timestamp, transactions: Vec::new(), calls }
}

fn empty_snapshot() -> StoreSnapshot {
    StoreSnapshot::new()
}

fn no_allowlist() -> Vec<String> {
    Vec::new()
}

#[test]
fn fresh_contract_three_calls_two_wallets() {
    // Block 500: contract 0xaa called by 0x01, 0x02, and 0x01 again.
    let b = block(
        500,
        1_000_000,
        vec![call(&[0xaa], &[0x01]), call(&[0xaa], &[0x02]), call(&[0xaa], &[0x01])],
    );
    let out = map_contract_usage(&b, &no_allowlist(), &empty_snapshot());
    assert_eq!(out.contracts.len(), 1);
    let r = &out.contracts[0];
    assert_eq!(r.address, "aa");
    assert_eq!(r.total_calls, 3);
    assert_eq!(r.unique_wallets, 2);
    assert_eq!(r.interacting_wallets, vec!["01".to_string(), "02".to_string()]);
    assert_eq!(r.first_interaction_block, 500);
    assert_eq!(r.last_interaction_block, 500);
    assert!(r.is_new_contract);
    assert_eq!(r.day_timestamp, (1_000_000 / 86400) * 86400);
}

#[test]
fn window_expires_on_later_touch() {
    // Prior record first seen at 500; touched again at 1600: 1100 >= 1000.
    let prior = ContractUsage {
        address: "aa".to_string(),
        first_interaction_block: 500,
        last_interaction_block: 500,
        total_calls: 3,
        unique_wallets: 2,
        interacting_wallets: vec!["01".to_string(), "02".to_string()],
        is_new_contract: true,
        day_timestamp: 950_400,
    };
    let snap = StoreSnapshot { records: vec![prior] };
    let b = block(1600, 2_000_000, vec![call(&[0xaa], &[0x03])]);
    let out = map_contract_usage(&b, &no_allowlist(), &snap);
    assert_eq!(out.contracts.len(), 1);
    let r = &out.contracts[0];
    assert_eq!(r.first_interaction_block, 500);
    assert_eq!(r.last_interaction_block, 1600);
    assert_eq!(r.total_calls, 4);
    assert_eq!(r.unique_wallets, 3);
    assert!(!r.is_new_contract);
}

#[test]
fn window_still_open_on_near_touch() {
    let prior = ContractUsage {
        address: "aa".to_string(),
        first_interaction_block: 500,
        last_interaction_block: 900,
        total_calls: 1,
        unique_wallets: 1,
        interacting_wallets: vec!["01".to_string()],
        is_new_contract: true,
        day_timestamp: 0,
    };
    let snap = StoreSnapshot { records: vec![prior] };
    let b = block(1499, 0, vec![call(&[0xaa], &[0x01])]);
    let out = map_contract_usage(&b, &no_allowlist(), &snap);
    assert!(out.contracts[0].is_new_contract);
    assert_eq!(out.contracts[0].total_calls, 2);
    assert_eq!(out.contracts[0].unique_wallets, 1);
}

#[test]
fn wallet_cap_holds_at_hundred_and_first() {
    // A prior record already holding one hundred sampled wallets: the
    // 101st distinct caller still raises the exact count, the sample stays
    // at one hundred, and nothing is evicted.
    let wallets: Vec<String> = (0..100u32).map(|i| format!("{:02x}", i)).collect();
    let prior = ContractUsage {
        address: "aa".to_string(),
        first_interaction_block: 1,
        last_interaction_block: 50,
        total_calls: 100,
        unique_wallets: 100,
        interacting_wallets: wallets.clone(),
        is_new_contract: true,
        day_timestamp: 0,
    };
    let snap = StoreSnapshot { records: vec![prior] };
    let b = block(60, 0, vec![call(&[0xaa], &[0xff])]);
    let out = map_contract_usage(&b, &no_allowlist(), &snap);
    let r = &out.contracts[0];
    assert_eq!(r.unique_wallets, 101);
    assert_eq!(r.interacting_wallets.len(), 100);
    assert_eq!(r.interacting_wallets, wallets);
    assert!(!r.interacting_wallets.contains(&"ff".to_string()));
    assert_eq!(r.total_calls, 101);
}

#[test]
fn processing_is_deterministic() {
    let b = block(
        1000,
        123_456_789,
        vec![call(&[0xaa], &[0x01]), call(&[0xbb], &[0x02]), call(&[0xaa], &[0x03])],
    );
    let out1 = map_contract_usage(&b, &no_allowlist(), &empty_snapshot());
    let out2 = map_contract_usage(&b, &no_allowlist(), &empty_snapshot());
    assert_eq!(out1, out2);
}

#[test]
fn reprocessing_without_rollback_double_counts() {
    // Re-entry against the records the first run produced, instead of the
    // rolled-back snapshot, inflates the counters: rollback first is a
    // precondition of idempotent re-processing.
    let b = block(1000, 0, vec![call(&[0xaa], &[0x01]), call(&[0xaa], &[0x02])]);
    let out1 = map_contract_usage(&b, &no_allowlist(), &empty_snapshot());
    assert_eq!(out1.contracts[0].total_calls, 2);
    let snap2 = StoreSnapshot { records: out1.contracts.clone() };
    let out2 = map_contract_usage(&b, &no_allowlist(), &snap2);
    assert_eq!(out2.contracts[0].total_calls, 4);
}

#[test]
fn plain_transfers_are_excluded() {
    // Short input (a bare selector or less), no prior record, no creation
    // in the block: a plain value transfer produces no record.
    let mut c = call(&[0xaa], &[0x01]);
    c.input = vec![0u8; 4];
    let b = block(10, 0, vec![c]);
    let out = map_contract_usage(&b, &no_allowlist(), &empty_snapshot());
    assert_eq!(out.contracts.len(), 0);
}

#[test]
fn failed_calls_are_excluded() {
    let mut c = call(&[0xaa], &[0x01]);
    c.success = false;
    let b = block(10, 0, vec![c]);
    let out = map_contract_usage(&b, &no_allowlist(), &empty_snapshot());
    assert_eq!(out.contracts.len(), 0);
}

#[test]
fn creation_receipt_makes_address_qualify() {
    // The destination was deployed in this very block: even a bare
    // transfer to it counts as a contract interaction.
    let tx = TxRecord { to: Vec::new(), status: 1, receipt_contract_address: vec![0xaa] };
    let mut c = call(&[0xaa], &[0x01]);
    c.input = Vec::new();
    let b = BlockData { number: 7, timestamp: 0, transactions: vec![tx], calls: vec![c] };
    let out = map_contract_usage(&b, &no_allowlist(), &empty_snapshot());
    assert_eq!(out.contracts.len(), 1);
    assert_eq!(out.contracts[0].address, "aa");
}

#[test]
fn failed_creation_does_not_qualify() {
    let tx = TxRecord { to: Vec::new(), status: 0, receipt_contract_address: vec![0xaa] };
    let mut c = call(&[0xaa], &[0x01]);
    c.input = Vec::new();
    let b = BlockData { number: 7, timestamp: 0, transactions: vec![tx], calls: vec![c] };
    let out = map_contract_usage(&b, &no_allowlist(), &empty_snapshot());
    assert_eq!(out.contracts.len(), 0);
}

#[test]
fn prior_record_makes_address_qualify() {
    // Prior classification persists: a bare transfer to an address with a
    // stored record still counts.
    let prior = ContractUsage {
        address: "aa".to_string(),
        first_interaction_block: 1,
        last_interaction_block: 1,
        total_calls: 1,
        unique_wallets: 1,
        interacting_wallets: vec!["01".to_string()],
        is_new_contract: true,
        day_timestamp: 0,
    };
    let snap = StoreSnapshot { records: vec![prior] };
    let mut c = call(&[0xaa], &[0x02]);
    c.input = Vec::new();
    let b = block(5, 0, vec![c]);
    let out = map_contract_usage(&b, &no_allowlist(), &snap);
    assert_eq!(out.contracts.len(), 1);
    assert_eq!(out.contracts[0].total_calls, 2);
}

#[test]
fn addresses_are_lowercase_hex() {
    let b = block(1, 0, vec![call(&[0x01, 0x23, 0xab, 0xef], &[0xc0, 0xde])]);
    let out = map_contract_usage(&b, &no_allowlist(), &empty_snapshot());
    assert_eq!(out.contracts[0].address, "0123abef");
    assert_eq!(out.contracts[0].interacting_wallets, vec!["c0de".to_string()]);
}

#[test]
fn two_contracts_in_one_block() {
    let b = block(
        20,
        86_400,
        vec![call(&[0xaa], &[0x01]), call(&[0xbb], &[0x01]), call(&[0xbb], &[0x02])],
    );
    let out = map_contract_usage(&b, &no_allowlist(), &empty_snapshot());
    assert_eq!(out.contracts.len(), 2);
    assert_eq!(out.contracts[0].address, "aa");
    assert_eq!(out.contracts[0].total_calls, 1);
    assert_eq!(out.contracts[1].address, "bb");
    assert_eq!(out.contracts[1].total_calls, 2);
    assert_eq!(out.contracts[1].unique_wallets, 2);
}
