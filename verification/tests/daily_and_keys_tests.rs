use contract_usage::aggregate::map_contract_usage;
use contract_usage::daily::{aggregate_daily_stats, merge_daily};
use contract_usage::day_of;
use contract_usage::keys::{contract_key, daily_key};
use contract_usage::records::{BlockData, CallRecord, ContractUsage, ContractUsages,
    DailyContractStats, StoreSnapshot};

fn usage(address: &str, day: u64, total: u64, unique: u64, is_new: bool) -> ContractUsage {
    ContractUsage {
        address: address.to_string(),
        first_interaction_block: 1,
        last_interaction_block: 2,
        total_calls: total,
        unique_wallets: unique,
        interacting_wallets: Vec::new(),
        is_new_contract: is_new,
        day_timestamp: day,
    }
}

#[test]
fn fresh_contract_block_rolls_up_exactly() {
    // Three qualifying calls from distinct wallets to one never-seen
    // contract at height 1000: the record carries the exact counts and the
    // day bucket gains exactly one active and one new contract.
    let calls = vec![
        CallRecord {
            to: vec![0xcc],
            from: vec![0x01],
            input: vec![0u8; 9],
            success: true,
        },
        CallRecord {
            to: vec![0xcc],
            from: vec![0x02],
            input: vec![0u8; 9],
            success: true,
        },
        CallRecord {
            to: vec![0xcc],
            from: vec![0x03],
            input: vec![0u8; 9],
            success: true,
        },
    ];
    let b = BlockData { number: 1000, timestamp: 200_000, transactions: Vec::new(), calls };
    let out = map_contract_usage(&b, &Vec::new(), &StoreSnapshot::new());
    assert_eq!(out.contracts.len(), 1);
    let r = &out.contracts[0];
    assert_eq!(r.total_calls, 3);
    assert_eq!(r.unique_wallets, 3);
    assert!(r.is_new_contract);
    let daily = aggregate_daily_stats(&out);
    assert_eq!(daily.len(), 1);
    assert_eq!(daily[0].day_timestamp, (200_000 / 86400) * 86400);
    assert_eq!(daily[0].active_contracts, 1);
    assert_eq!(daily[0].new_contracts, 1);
    assert_eq!(daily[0].total_calls, 3);
    assert_eq!(daily[0].unique_wallets, 3);
}

#[test]
fn rollup_groups_by_day() {
    let records = ContractUsages {
        contracts: vec![
            usage("aa", 0, 5, 2, true),
            usage("bb", 0, 7, 3, false),
            usage("cc", 86_400, 1, 1, true),
        ],
    };
    let daily = aggregate_daily_stats(&records);
    assert_eq!(daily.len(), 2);
    assert_eq!(daily[0].day_timestamp, 0);
    assert_eq!(daily[0].active_contracts, 2);
    assert_eq!(daily[0].new_contracts, 1);
    assert_eq!(daily[0].total_calls, 12);
    assert_eq!(daily[0].unique_wallets, 5);
    assert_eq!(daily[1].day_timestamp, 86_400);
    assert_eq!(daily[1].active_contracts, 1);
    assert_eq!(daily[1].new_contracts, 1);
    assert_eq!(daily[1].total_calls, 1);
    assert_eq!(daily[1].unique_wallets, 1);
}

#[test]
fn rollup_of_no_records_is_empty() {
    let records = ContractUsages { contracts: Vec::new() };
    assert_eq!(aggregate_daily_stats(&records).len(), 0);
}

#[test]
fn merge_daily_adds_fields() {
    let prior = DailyContractStats {
        day_timestamp: 86_400,
        active_contracts: 10,
        new_contracts: 2,
        total_calls: 500,
        unique_wallets: 40,
    };
    let delta = DailyContractStats {
        day_timestamp: 86_400,
        active_contracts: 3,
        new_contracts: 1,
        total_calls: 7,
        unique_wallets: 5,
    };
    let merged = merge_daily(&prior, &delta);
    assert_eq!(merged.day_timestamp, 86_400);
    assert_eq!(merged.active_contracts, 13);
    assert_eq!(merged.new_contracts, 3);
    assert_eq!(merged.total_calls, 507);
    assert_eq!(merged.unique_wallets, 45);
}

#[test]
fn day_buckets_truncate_to_day_boundaries() {
    assert_eq!(day_of(0), 0);
    assert_eq!(day_of(86_399), 0);
    assert_eq!(day_of(86_400), 86_400);
    assert_eq!(day_of(1_000_000), 950_400);
}

#[test]
fn store_keys_have_their_namespaces() {
    assert_eq!(contract_key(&"aa12".to_string()), "contract:aa12");
    assert_eq!(contract_key(&String::new()), "contract:");
    assert_eq!(daily_key(86_400), "daily:86400");
    assert_eq!(daily_key(0), "daily:0");
    assert_eq!(daily_key(u64::MAX), "daily:18446744073709551615");
}

#[test]
fn hex_addresses_match_reference_encoder() {
    let b = BlockData {
        number: 1,
        timestamp: 0,
        transactions: Vec::new(),
        calls: vec![
            CallRecord {
                to: vec![0x00, 0xff, 0x10],
                from: vec![0x9a],
                input: vec![0u8; 5],
                success: true,
            },
        ],
    };
    let out = map_contract_usage(&b, &Vec::new(), &StoreSnapshot::new());
    assert_eq!(out.contracts[0].address, hex::encode([0x00u8, 0xff, 0x10]));
    assert_eq!(out.contracts[0].address, "00ff10");
}
