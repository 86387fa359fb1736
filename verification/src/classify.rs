//! The classifier: which call traces count as probable contract
//! interactions.
//!
//! A call qualifies when it has a destination and any one signal holds:
//! the destination was deployed earlier in the same block, it stands on
//! the configured allow-list of well-known contracts, the store already
//! has a cumulative record for it, or the call carried more than a bare
//! four-byte selector and succeeded.
use vstd::prelude::*;

use crate::hexenc::{encode_hex, hex_of};
use crate::model::{created_in_block, find_usage, tx_is_creation};
use crate::records::{contains_str, contains_string, find_by_address, BlockData, CallRecord,
    StoreSnapshot};

verus! {

/// The lowercase hex addresses of contracts successfully created in this
/// block, in transaction order: membership is exactly `created_in_block`.
pub fn known_contracts(block: &BlockData) -> (known: Vec<String>)
    ensures
        forall|a: Seq<char>| #[trigger] contains_str(known.deep_view(), a) == created_in_block(
            block@.transactions,
            a,
        ),
{
    let txs = &block.transactions;
    let mut known: Vec<String> = Vec::new();
    let mut i: usize = 0;
    while i < txs.len()
        invariant
            i <= txs.len(),
            forall|k: int|
                0 <= k < known.deep_view().len() ==> created_in_block(
                    txs.deep_view(),
                    #[trigger] known.deep_view()[k],
                ),
            forall|t: int|
                0 <= t < i && tx_is_creation(#[trigger] txs.deep_view()[t]) ==> contains_str(
                    known.deep_view(),
                    hex_of(txs.deep_view()[t].receipt_contract_address),
                ),
        decreases txs.len() - i,
    {
        let tx = &txs[i];
        if tx.to.len() == 0 && tx.status == 1 && tx.receipt_contract_address.len() > 0 {
            let addr = encode_hex(&tx.receipt_contract_address);
            let ghost addrv = addr@;
            let ghost prev = known.deep_view();
            known.push(addr);
            proof {
                assert(known.deep_view() =~= prev.push(addrv));
                assert(tx_is_creation(txs.deep_view()[i as int]));
                assert(known.deep_view()[prev.len() as int] == addrv);
                assert(contains_str(known.deep_view(), addrv));
                assert forall|x: Seq<char>| contains_str(prev, x) implies contains_str(
                    known.deep_view(),
                    x,
                ) by {
                    let k = choose|k: int| 0 <= k < prev.len() && prev[k] == x;
                    assert(known.deep_view()[k] == x);
                }
            }
        } else {
            proof {
                assert(txs.deep_view()[i as int] == txs@[i as int]@);
                assert(!tx_is_creation(txs.deep_view()[i as int]));
            }
        }
        i += 1;
    }
    proof {
        assert forall|a: Seq<char>| #[trigger] contains_str(known.deep_view(), a)
            == created_in_block(block@.transactions, a) by {
            if contains_str(known.deep_view(), a) {
                let k = choose|k: int|
                    0 <= k < known.deep_view().len() && known.deep_view()[k] == a;
                assert(created_in_block(txs.deep_view(), known.deep_view()[k]));
            }
            if created_in_block(block@.transactions, a) {
                let t = choose|t: int|
                    0 <= t < txs.deep_view().len() && tx_is_creation(txs.deep_view()[t]) && hex_of(
                        txs.deep_view()[t].receipt_contract_address,
                    ) == a;
                assert(contains_str(
                    known.deep_view(),
                    hex_of(txs.deep_view()[t].receipt_contract_address),
                ));
            }
        }
    }
    known
}

/// Classifies one call trace against the block's creations, the configured
/// allow-list of well-known contract addresses, and the prior store
/// snapshot. With `known` as produced by `known_contracts` for the same
/// block, the result is exactly `call_qualifies`.
pub fn classify_call(
    call: &CallRecord,
    known: &Vec<String>,
    allowlist: &Vec<String>,
    prior: &StoreSnapshot,
) -> (b: bool)
    ensures
        b == (call@.to.len() > 0 && (contains_str(known.deep_view(), hex_of(call@.to))
            || contains_str(allowlist.deep_view(), hex_of(call@.to)) || find_usage(
            prior@,
            hex_of(call@.to),
        ) >= 0 || (call@.input.len() > 4 && call@.success))),
{
    if call.to.len() == 0 {
        return false;
    }
    let addr = encode_hex(&call.to);
    if contains_string(known, &addr) {
        return true;
    }
    if contains_string(allowlist, &addr) {
        return true;
    }
    if find_by_address(&prior.records, &addr).is_some() {
        return true;
    }
    call.input.len() > 4 && call.success
}

} // verus!
