use contract_usage::classify::{classify_call, known_contracts};
use contract_usage::records::{contains_string, find_by_address, BlockData, CallRecord,
    ContractUsage, StoreSnapshot, TxRecord};

fn plain_call(to: &[u8], from: &[u8], input_len: usize, success: bool) -> CallRecord {
    CallRecord {
        to: to.to_vec(),
        from: from.to_vec(),
        input: vec![0u8; input_len],
        success,
    }
}

fn snapshot_with(address: &str) -> StoreSnapshot {
    StoreSnapshot {
        records: vec![ContractUsage {
            address: address.to_string(),
            first_interaction_block: 1,
            last_interaction_block: 1,
            total_calls: 1,
            unique_wallets: 1,
            interacting_wallets: vec!["01".to_string()],
            is_new_contract: true,
            day_timestamp: 0,
        }],
    }
}

#[test]
fn known_contracts_lists_successful_creations() {
    let b = BlockData {
        number: 3,
        timestamp: 0,
        transactions: vec![
            TxRecord { to: Vec::new(), status: 1, receipt_contract_address: vec![0xaa] },
            TxRecord { to: Vec::new(), status: 0, receipt_contract_address: vec![0xbb] },
            TxRecord { to: vec![0x01], status: 1, receipt_contract_address: vec![0xcc] },
            TxRecord { to: Vec::new(), status: 1, receipt_contract_address: Vec::new() },
            TxRecord { to: Vec::new(), status: 1, receipt_contract_address: vec![0xdd, 0xee] },
        ],
        calls: Vec::new(),
    };
    let known = known_contracts(&b);
    assert_eq!(known, vec!["aa".to_string(), "ddee".to_string()]);
}

#[test]
fn classifier_accepts_payload_with_success() {
    let known: Vec<String> = Vec::new();
    let allow: Vec<String> = Vec::new();
    let snap = StoreSnapshot::new();
    assert!(classify_call(&plain_call(&[0xaa], &[0x01], 5, true), &known, &allow, &snap));
    assert!(!classify_call(&plain_call(&[0xaa], &[0x01], 5, false), &known, &allow, &snap));
    assert!(!classify_call(&plain_call(&[0xaa], &[0x01], 4, true), &known, &allow, &snap));
}

#[test]
fn classifier_accepts_known_or_stored_addresses() {
    let known = vec!["aa".to_string()];
    let allow: Vec<String> = Vec::new();
    let snap = StoreSnapshot::new();
    assert!(classify_call(&plain_call(&[0xaa], &[0x01], 0, false), &known, &allow, &snap));
    assert!(!classify_call(&plain_call(&[0xbb], &[0x01], 0, false), &known, &allow, &snap));
    let none: Vec<String> = Vec::new();
    let stored = snapshot_with("bb");
    assert!(classify_call(&plain_call(&[0xbb], &[0x01], 0, false), &none, &allow, &stored));
}

#[test]
fn classifier_accepts_allow_listed_addresses() {
    let known: Vec<String> = Vec::new();
    let allow = vec!["ee".to_string()];
    let snap = StoreSnapshot::new();
    assert!(classify_call(&plain_call(&[0xee], &[0x01], 0, false), &known, &allow, &snap));
    assert!(!classify_call(&plain_call(&[0xdd], &[0x01], 0, false), &known, &allow, &snap));
}

#[test]
fn allow_listed_address_is_counted_by_the_block_pass() {
    let allow = vec!["ee".to_string()];
    let b = BlockData {
        number: 40,
        timestamp: 0,
        transactions: Vec::new(),
        calls: vec![plain_call(&[0xee], &[0x01], 0, false)],
    };
    let out = contract_usage::aggregate::map_contract_usage(&b, &allow, &StoreSnapshot::new());
    assert_eq!(out.contracts.len(), 1);
    assert_eq!(out.contracts[0].address, "ee");
}

#[test]
fn classifier_rejects_missing_destination() {
    let known = vec!["aa".to_string()];
    let allow: Vec<String> = Vec::new();
    let snap = snapshot_with("aa");
    let no_to = plain_call(&[], &[0x01], 9, true);
    assert!(!classify_call(&no_to, &known, &allow, &snap));
}

#[test]
fn lookup_helpers_find_first_match() {
    let snap = snapshot_with("aa");
    assert_eq!(find_by_address(&snap.records, &"aa".to_string()), Some(0));
    assert_eq!(find_by_address(&snap.records, &"bb".to_string()), None);
    let items = vec!["x".to_string(), "y".to_string()];
    assert!(contains_string(&items, &"y".to_string()));
    assert!(!contains_string(&items, &"z".to_string()));
}

#[test]
fn empty_snapshot_has_no_records() {
    let s = StoreSnapshot::new();
    assert_eq!(s.records.len(), 0);
}
