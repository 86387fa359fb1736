//! The per-block aggregation pass: classify each call trace, and fold the
//! qualifying ones into cumulative per-contract records against the prior
//! store snapshot.
use vstd::prelude::*;

use crate::classify::{classify_call, known_contracts};
use crate::day_of;
use crate::day_of_spec;
use crate::hexenc::{encode_hex, hex_of};
use crate::model::{call_qualifies, find_usage, fold_entry_ok, fresh_usage,
    lemma_process_calls_ok, lemma_process_calls_step, process_block, process_calls, seed_usage,
    snapshot_before, touch_usage, UsageV};
use crate::records::{contains_str, contains_string, find_by_address, BlockData, ContractUsage,
    ContractUsages, StoreSnapshot};
use crate::MAX_WALLETS_PER_CONTRACT;
use crate::NEW_CONTRACT_WINDOW;
use vstd::pervasive::VecAdditionalExecFns;

verus! {

/// One observed call folded into a record, as `touch_usage` describes: the
/// call counter grows, an unseen caller grows the distinct count and (below
/// the cap) the sample list, and the block bookkeeping is refreshed.
pub fn touch_applied(u: &ContractUsage, from: String, number: u64) -> (r: ContractUsage)
    requires
        u@.total_calls < u64::MAX,
        u@.unique_wallets < u64::MAX,
        u@.first_interaction_block <= number,
    ensures
        r@ == touch_usage(u@, from@, number),
{
    let ghost fromv = from@;
    let known = contains_string(&u.interacting_wallets, &from);
    let mut wallets = u.interacting_wallets.clone();
    proof {
        assert(wallets.deep_view() =~= u.interacting_wallets.deep_view());
    }
    let mut unique = u.unique_wallets;
    if !known {
        unique = unique + 1;
        if wallets.len() < MAX_WALLETS_PER_CONTRACT {
            let ghost prev = wallets.deep_view();
            wallets.push(from);
            proof {
                assert(wallets.deep_view() =~= prev.push(fromv));
            }
        }
    }
    let r = ContractUsage {
        address: u.address.clone(),
        first_interaction_block: u.first_interaction_block,
        last_interaction_block: number,
        total_calls: u.total_calls + 1,
        unique_wallets: unique,
        interacting_wallets: wallets,
        is_new_contract: number - u.first_interaction_block < NEW_CONTRACT_WINDOW,
        day_timestamp: u.day_timestamp,
    };
    proof {
        assert(r@ =~= touch_usage(u@, fromv, number));
    }
    r
}

/// The persisted record carried into the current block, before its first
/// call of the block is folded in: counters kept, bookkeeping moved to the
/// block.
fn seed_from_prior(p: &ContractUsage, number: u64, day: u64) -> (r: ContractUsage)
    ensures
        r@ == (UsageV {
            last_interaction_block: number,
            is_new_contract: false,
            day_timestamp: day,
            ..p@
        }),
{
    let r = ContractUsage {
        address: p.address.clone(),
        first_interaction_block: p.first_interaction_block,
        last_interaction_block: number,
        total_calls: p.total_calls,
        unique_wallets: p.unique_wallets,
        interacting_wallets: p.interacting_wallets.clone(),
        is_new_contract: false,
        day_timestamp: day,
    };
    proof {
        assert(r@ =~= (UsageV {
            last_interaction_block: number,
            is_new_contract: false,
            day_timestamp: day,
            ..p@
        }));
    }
    r
}

/// The zero record for an address first seen in the current block.
fn fresh_record(address: String, number: u64, day: u64) -> (r: ContractUsage)
    ensures
        r@ == (UsageV {
            address: address@,
            first_interaction_block: number,
            last_interaction_block: number,
            total_calls: 0,
            unique_wallets: 0,
            interacting_wallets: Seq::empty(),
            is_new_contract: true,
            day_timestamp: day,
        }),
{
    let ghost av = address@;
    let r = ContractUsage {
        address,
        first_interaction_block: number,
        last_interaction_block: number,
        total_calls: 0,
        unique_wallets: 0,
        interacting_wallets: Vec::new(),
        is_new_contract: true,
        day_timestamp: day,
    };
    proof {
        assert(r@.interacting_wallets =~= Seq::<Seq<char>>::empty());
        assert(r@ =~= (UsageV {
            address: av,
            first_interaction_block: number,
            last_interaction_block: number,
            total_calls: 0,
            unique_wallets: 0,
            interacting_wallets: Seq::empty(),
            is_new_contract: true,
            day_timestamp: day,
        }));
    }
    r
}

/// Processes one block against the snapshot of previously persisted records
/// read before the block, under the configured allow-list of well-known
/// contract addresses: exactly the records `process_block` describes, in
/// order of first touch within the block.
pub fn map_contract_usage(
    block: &BlockData,
    allowlist: &Vec<String>,
    prior: &StoreSnapshot,
) -> (result: ContractUsages)
    requires
        snapshot_before(prior@, block@),
    ensures
        result@ == process_block(block@, allowlist.deep_view(), prior@),
{
    let day = day_of(block.timestamp);
    let known = known_contracts(block);
    let mut contracts: Vec<ContractUsage> = Vec::new();
    proof {
        assert(block@.calls.take(0) =~= Seq::<crate::model::CallV>::empty());
        assert(contracts.deep_view() =~= Seq::<UsageV>::empty());
    }
    let n = block.calls.len();
    let mut i: usize = 0;
    while i < n
        invariant
            i <= n,
            n == block.calls.len(),
            day == day_of_spec(block@.timestamp),
            snapshot_before(prior@, block@),
            contracts.deep_view() == process_calls(
                block@.calls.take(i as int),
                block@,
                allowlist.deep_view(),
                prior@,
            ),
            forall|a: Seq<char>| #[trigger] contains_str(known.deep_view(), a)
                == crate::model::created_in_block(block@.transactions, a),
        decreases n - i,
    {
        let ghost st = contracts.deep_view();
        let ghost bv = block@;
        let c = &block.calls[i];
        proof {
            assert(bv.calls[i as int] == c@);
        }
        let qualifies = classify_call(c, &known, allowlist, prior);
        proof {
            assert(contains_str(known.deep_view(), hex_of(c@.to)) == crate::model::created_in_block(
                bv.transactions,
                hex_of(c@.to),
            ));
            assert(qualifies == call_qualifies(
                bv.calls[i as int],
                bv.transactions,
                allowlist.deep_view(),
                prior@,
            ));
            lemma_process_calls_step(bv.calls, i as int, bv, allowlist.deep_view(), prior@);
            lemma_process_calls_ok(bv.calls.take(i as int), bv, allowlist.deep_view(), prior@);
            assert(bv.calls.take(i as int).len() == i as int);
        }
        if qualifies {
            let addr = encode_hex(&c.to);
            let from = encode_hex(&c.from);
            match find_by_address(&contracts, &addr) {
                Some(j) => {
                    proof {
                        assert(fold_entry_ok(st[j as int], prior@, i as int, bv));
                        crate::records::lemma_find_usage_range(prior@, st[j as int].address);
                        let p = find_usage(prior@, st[j as int].address);
                        if p >= 0 {
                            assert(prior@[p].total_calls + bv.calls.len() <= u64::MAX);
                            assert(prior@[p].unique_wallets + bv.calls.len() <= u64::MAX);
                        }
                        assert(st[j as int].total_calls < u64::MAX);
                        assert(st[j as int].unique_wallets < u64::MAX);
                    }
                    let t = touch_applied(&contracts[j], from, block.number);
                    contracts.set(j, t);
                    proof {
                        assert(contracts.deep_view() =~= st.update(
                            j as int,
                            touch_usage(st[j as int], hex_of(c@.from), bv.number),
                        ));
                    }
                }
                None => {
                    let base = match find_by_address(&prior.records, &addr) {
                        Some(p) => {
                            proof {
                                assert(prior@[p as int].total_calls + bv.calls.len() <= u64::MAX);
                                assert(prior@[p as int].unique_wallets + bv.calls.len()
                                    <= u64::MAX);
                                assert(prior@[p as int].first_interaction_block
                                    <= prior@[p as int].last_interaction_block <= bv.number);
                            }
                            let b = seed_from_prior(&prior.records[p], block.number, day);
                            proof {
                                assert(b@ =~= seed_usage(prior@[p as int], bv));
                            }
                            b
                        },
                        None => {
                            let b = fresh_record(addr, block.number, day);
                            proof {
                                assert(b@ =~= fresh_usage(hex_of(c@.to), bv));
                            }
                            b
                        },
                    };
                    let t = touch_applied(&base, from, block.number);
                    contracts.push(t);
                    proof {
                        assert(contracts.deep_view() =~= st.push(
                            touch_usage(base@, hex_of(c@.from), bv.number),
                        ));
                    }
                },
            }
        }
        proof {
            assert(contracts.deep_view() == process_calls(
                bv.calls.take(i as int + 1),
                bv,
                allowlist.deep_view(),
                prior@,
            ));
        }
        i += 1;
    }
    proof {
        assert(block@.calls.take(n as int) =~= block@.calls);
    }
    ContractUsages { contracts }
}

} // verus!
