//! The stated guarantees of the aggregation engine, proved over the model:
//! determinism, the wallet cap, monotonicity of the cumulative counters,
//! the exactness of the new-contract window, the double-counting that
//! re-processing without a store rollback causes, and the exact counts for
//! a block of distinct callers of one fresh contract.
use vstd::prelude::*;

use crate::hexenc::hex_of;
use crate::model::{add_to_daily, call_qualifies, daily_rollup, find_daily, find_usage,
    fold_entry_ok, fresh_daily, fresh_usage, lemma_process_calls_ok, lemma_process_calls_step,
    process_block, process_calls, qualifying_callers, qualifying_count, seed_usage, snapshot_wf,
    touch_usage, usage_wf, BlockV, CallV, UsageV};
use crate::records::{lemma_find_usage_absent, lemma_find_usage_first, lemma_find_usage_range};
use crate::day_of_spec;
use crate::MAX_WALLETS_PER_CONTRACT;
use crate::NEW_CONTRACT_WINDOW;

verus! {

/// A snapshot that may lawfully be handed to a block: well formed, and
/// written no later than the block.
pub open spec fn snapshot_at(prior: Seq<UsageV>, b: BlockV) -> bool {
    &&& snapshot_wf(prior)
    &&& forall|i: int|
        0 <= i < prior.len() ==> (#[trigger] prior[i]).last_interaction_block <= b.number
}

/// Determinism: the records a block produces are a function of the block
/// and the prior snapshot alone, so processing the same block twice against
/// the same snapshot yields identical records.
pub proof fn lemma_determinism(
    b: BlockV,
    allow: Seq<Seq<char>>,
    prior: Seq<UsageV>,
    r1: Seq<UsageV>,
    r2: Seq<UsageV>,
)
    requires
        r1 == process_block(b, allow, prior),
        r2 == process_block(b, allow, prior),
    ensures
        r1 == r2,
{
}

/// Wallet cap: every record a block produces keeps its stored sample within
/// the cap, without duplicates, and its exact distinct-wallet count never
/// falls below the sample's length.
pub proof fn lemma_wallet_cap(b: BlockV, allow: Seq<Seq<char>>, prior: Seq<UsageV>)
    requires
        snapshot_at(prior, b),
    ensures
        forall|j: int|
            0 <= j < process_block(b, allow, prior).len() ==> {
                let r = #[trigger] process_block(b, allow, prior)[j];
                &&& r.interacting_wallets.len() <= MAX_WALLETS_PER_CONTRACT
                &&& r.interacting_wallets.no_duplicates()
                &&& r.unique_wallets >= r.interacting_wallets.len()
            },
{
    lemma_process_calls_ok(b.calls, b, allow, prior);
}

/// Monotonicity: a record that carries forward a persisted one keeps its
/// first-interaction block, only moves its last-interaction block forward,
/// and strictly grows its call counter while never shrinking its
/// distinct-wallet counter or losing a sampled wallet.
pub proof fn lemma_monotonicity(b: BlockV, allow: Seq<Seq<char>>, prior: Seq<UsageV>)
    requires
        snapshot_at(prior, b),
    ensures
        forall|j: int|
            0 <= j < process_block(b, allow, prior).len() ==> {
                let r = #[trigger] process_block(b, allow, prior)[j];
                let p = find_usage(prior, r.address);
                &&& r.last_interaction_block == b.number
                &&& (p >= 0 ==> {
                    &&& r.first_interaction_block == prior[p].first_interaction_block
                    &&& prior[p].last_interaction_block <= r.last_interaction_block
                    &&& prior[p].total_calls < r.total_calls
                    &&& prior[p].unique_wallets <= r.unique_wallets
                    &&& prior[p].interacting_wallets.is_prefix_of(r.interacting_wallets)
                })
            },
{
    lemma_process_calls_ok(b.calls, b, allow, prior);
    assert forall|j: int| 0 <= j < process_block(b, allow, prior).len() implies {
        let r = #[trigger] process_block(b, allow, prior)[j];
        let p = find_usage(prior, r.address);
        &&& r.last_interaction_block == b.number
        &&& (p >= 0 ==> {
            &&& r.first_interaction_block == prior[p].first_interaction_block
            &&& prior[p].last_interaction_block <= r.last_interaction_block
            &&& prior[p].total_calls < r.total_calls
            &&& prior[p].unique_wallets <= r.unique_wallets
            &&& prior[p].interacting_wallets.is_prefix_of(r.interacting_wallets)
        })
    } by {
        let r = process_block(b, allow, prior)[j];
        assert(fold_entry_ok(r, prior, b.calls.len() as int, b));
        let p = find_usage(prior, r.address);
        if p >= 0 {
            lemma_find_usage_range(prior, r.address);
            assert(prior[p].last_interaction_block <= b.number);
        }
    }
}

/// New-contract window: every record a block produces carries
/// `is_new_contract` exactly when fewer than the window's number of blocks
/// separate its last (that is, current) interaction from its first.
pub proof fn lemma_new_contract_window(b: BlockV, allow: Seq<Seq<char>>, prior: Seq<UsageV>)
    requires
        snapshot_at(prior, b),
    ensures
        forall|j: int|
            0 <= j < process_block(b, allow, prior).len() ==> {
                let r = #[trigger] process_block(b, allow, prior)[j];
                r.is_new_contract == (r.last_interaction_block - r.first_interaction_block
                    < NEW_CONTRACT_WINDOW)
            },
{
    lemma_process_calls_ok(b.calls, b, allow, prior);
}

/// `find_usage` on a push: an address already present keeps its index, the
/// pushed record's address is found at the end, and any other stays absent.
proof fn lemma_find_usage_push(s: Seq<UsageV>, t: UsageV, a: Seq<char>)
    ensures
        find_usage(s.push(t), a) == if find_usage(s, a) >= 0 {
            find_usage(s, a)
        } else if t.address == a {
            s.len() as int
        } else {
            -1
        },
{
    lemma_find_usage_range(s, a);
    let j = find_usage(s, a);
    if j >= 0 {
        lemma_find_usage_first(s.push(t), a, j);
    } else if t.address == a {
        lemma_find_usage_first(s.push(t), a, s.len() as int);
    } else {
        lemma_find_usage_absent(s.push(t), a);
    }
}

/// `find_usage` reads only the addresses: sequences with pointwise equal
/// addresses agree on it.
proof fn lemma_find_usage_same_addresses(s1: Seq<UsageV>, s2: Seq<UsageV>, a: Seq<char>)
    requires
        s1.len() == s2.len(),
        forall|k: int| 0 <= k < s1.len() ==> s1[k].address == s2[k].address,
    ensures
        find_usage(s1, a) == find_usage(s2, a),
{
    lemma_find_usage_range(s1, a);
    let j = find_usage(s1, a);
    if j >= 0 {
        lemma_find_usage_first(s2, a, j);
    } else {
        lemma_find_usage_absent(s2, a);
    }
}

/// An address has a record in a block's fold exactly when some call of the
/// block qualifies and is directed at it.
pub proof fn lemma_touched_iff(
    calls: Seq<CallV>,
    b: BlockV,
    allow: Seq<Seq<char>>,
    prior: Seq<UsageV>,
    a: Seq<char>,
)
    ensures
        find_usage(process_calls(calls, b, allow, prior), a) >= 0 <==> exists|i: int|
            0 <= i < calls.len() && call_qualifies(
                #[trigger] calls[i],
                b.transactions,
                allow,
                prior,
            ) && hex_of(calls[i].to) == a,
    decreases calls.len(),
{
    if calls.len() == 0 {
        assert(find_usage(process_calls(calls, b, allow, prior), a) == -1);
    } else {
        let shorter = calls.drop_last();
        let c = calls.last();
        let prev = process_calls(shorter, b, allow, prior);
        let r = process_calls(calls, b, allow, prior);
        lemma_touched_iff(shorter, b, allow, prior, a);
        assert(forall|i: int| 0 <= i < shorter.len() ==> shorter[i] == calls[i]);
        lemma_find_usage_range(prev, a);
        if !call_qualifies(c, b.transactions, allow, prior) {
            assert(r == prev);
            if find_usage(r, a) >= 0 {
                let i = choose|i: int|
                    0 <= i < shorter.len() && call_qualifies(
                        shorter[i],
                        b.transactions,
                        allow,
                        prior,
                    ) && hex_of(shorter[i].to) == a;
                assert(call_qualifies(calls[i], b.transactions, allow, prior) && hex_of(calls[i].to)
                    == a);
            }
            if exists|i: int|
                0 <= i < calls.len() && call_qualifies(
                    #[trigger] calls[i],
                    b.transactions,
                    allow,
                    prior,
                ) && hex_of(calls[i].to) == a {
                let i = choose|i: int|
                    0 <= i < calls.len() && call_qualifies(
                        #[trigger] calls[i],
                        b.transactions,
                        allow,
                        prior,
                    ) && hex_of(calls[i].to) == a;
                assert(i < shorter.len());
                assert(call_qualifies(shorter[i], b.transactions, allow, prior) && hex_of(shorter[i].to)
                    == a);
            }
        } else {
            let addr = hex_of(c.to);
            let from = hex_of(c.from);
            let j0 = find_usage(prev, addr);
            lemma_find_usage_range(prev, addr);
            if j0 >= 0 {
                let t = touch_usage(prev[j0], from, b.number);
                assert(r == prev.update(j0, t));
                assert(t.address == prev[j0].address);
                lemma_find_usage_same_addresses(prev, r, a);
                if a == addr {
                    assert(find_usage(r, a) >= 0);
                    assert(call_qualifies(calls[calls.len() - 1], b.transactions, allow, prior)
                        && hex_of(calls[calls.len() - 1].to) == a);
                } else {
                    if find_usage(r, a) >= 0 {
                        let i = choose|i: int|
                            0 <= i < shorter.len() && call_qualifies(
                                shorter[i],
                                b.transactions,
                                allow,
                                prior,
                            ) && hex_of(shorter[i].to) == a;
                        assert(call_qualifies(calls[i], b.transactions, allow, prior) && hex_of(
                            calls[i].to,
                        ) == a);
                    }
                    if exists|i: int|
                        0 <= i < calls.len() && call_qualifies(
                            #[trigger] calls[i],
                            b.transactions,
                            allow,
                            prior,
                        ) && hex_of(calls[i].to) == a {
                        let i = choose|i: int|
                            0 <= i < calls.len() && call_qualifies(
                                #[trigger] calls[i],
                                b.transactions,
                                allow,
                                prior,
                            ) && hex_of(calls[i].to) == a;
                        assert(i < shorter.len());
                        assert(call_qualifies(shorter[i], b.transactions, allow, prior) && hex_of(
                            shorter[i].to,
                        ) == a);
                    }
                }
            } else {
                let p = find_usage(prior, addr);
                lemma_find_usage_range(prior, addr);
                let base = if p >= 0 {
                    seed_usage(prior[p], b)
                } else {
                    fresh_usage(addr, b)
                };
                let t = touch_usage(base, from, b.number);
                assert(r == prev.push(t));
                assert(t.address == addr);
                lemma_find_usage_push(prev, t, a);
                if a == addr {
                    assert(find_usage(r, a) >= 0);
                    assert(call_qualifies(calls[calls.len() - 1], b.transactions, allow, prior)
                        && hex_of(calls[calls.len() - 1].to) == a);
                } else {
                    assert(find_usage(r, a) == find_usage(prev, a));
                    if find_usage(r, a) >= 0 {
                        let i = choose|i: int|
                            0 <= i < shorter.len() && call_qualifies(
                                shorter[i],
                                b.transactions,
                                allow,
                                prior,
                            ) && hex_of(shorter[i].to) == a;
                        assert(call_qualifies(calls[i], b.transactions, allow, prior) && hex_of(
                            calls[i].to,
                        ) == a);
                    }
                    if exists|i: int|
                        0 <= i < calls.len() && call_qualifies(
                            #[trigger] calls[i],
                            b.transactions,
                            allow,
                            prior,
                        ) && hex_of(calls[i].to) == a {
                        let i = choose|i: int|
                            0 <= i < calls.len() && call_qualifies(
                                #[trigger] calls[i],
                                b.transactions,
                                allow,
                                prior,
                            ) && hex_of(calls[i].to) == a;
                        assert(i < shorter.len());
                        assert(call_qualifies(shorter[i], b.transactions, allow, prior) && hex_of(
                            shorter[i].to,
                        ) == a);
                    }
                }
            }
        }
    }
}

/// Re-processing a block without first rolling the store back double
/// counts: a touched address, processed again against the records the
/// first run produced, ends with strictly more calls than the first run
/// already recorded. Rolling back to the original snapshot instead repeats
/// the first run exactly (`lemma_determinism`).
pub proof fn lemma_reentry_double_counts(
    b: BlockV,
    allow: Seq<Seq<char>>,
    prior: Seq<UsageV>,
    a: Seq<char>,
)
    requires
        snapshot_at(prior, b),
        find_usage(process_block(b, allow, prior), a) >= 0,
    ensures
        ({
            let r1 = process_block(b, allow, prior);
            let r2 = process_block(b, allow, r1);
            &&& find_usage(r2, a) >= 0
            &&& r2[find_usage(r2, a)].total_calls > r1[find_usage(r1, a)].total_calls
        }),
{
    let r1 = process_block(b, allow, prior);
    let r2 = process_block(b, allow, r1);
    let n = b.calls.len() as int;
    lemma_process_calls_ok(b.calls, b, allow, prior);
    assert forall|i: int| 0 <= i < r1.len() implies usage_wf(#[trigger] r1[i])
        && r1[i].last_interaction_block <= b.number by {
        assert(fold_entry_ok(r1[i], prior, n, b));
    }
    assert(snapshot_at(r1, b));
    lemma_touched_iff(b.calls, b, allow, prior, a);
    let i0 = choose|i: int|
        0 <= i < b.calls.len() && call_qualifies(
            #[trigger] b.calls[i],
            b.transactions,
            allow,
            prior,
        ) && hex_of(b.calls[i].to) == a;
    assert(call_qualifies(b.calls[i0], b.transactions, allow, r1));
    lemma_touched_iff(b.calls, b, allow, r1, a);
    assert(find_usage(r2, a) >= 0);
    lemma_process_calls_ok(b.calls, b, allow, r1);
    lemma_find_usage_range(r1, a);
    lemma_find_usage_range(r2, a);
    let j2 = find_usage(r2, a);
    assert(fold_entry_ok(r2[j2], r1, n, b));
}

/// Whether `x` is the caller (lowercase hex) of some qualifying call of
/// the block.
pub open spec fn from_of_qualifying(
    calls: Seq<CallV>,
    b: BlockV,
    allow: Seq<Seq<char>>,
    prior: Seq<UsageV>,
    x: Seq<char>,
) -> bool {
    exists|i: int|
        0 <= i < calls.len() && call_qualifies(
            #[trigger] calls[i],
            b.transactions,
            allow,
            prior,
        ) && hex_of(calls[i].from) == x
}

/// The callers list is one entry per qualifying call, and every entry is
/// the caller of some qualifying call.
proof fn lemma_qualifying_shape(
    calls: Seq<CallV>,
    b: BlockV,
    allow: Seq<Seq<char>>,
    prior: Seq<UsageV>,
)
    ensures
        qualifying_callers(calls, b, allow, prior).len() == qualifying_count(
            calls,
            b,
            allow,
            prior,
        ),
        forall|m: int|
            0 <= m < qualifying_callers(calls, b, allow, prior).len()
                ==> #[trigger] from_of_qualifying(
                calls,
                b,
                allow,
                prior,
                qualifying_callers(calls, b, allow, prior)[m],
            ),
    decreases calls.len(),
{
    if calls.len() > 0 {
        let shorter = calls.drop_last();
        lemma_qualifying_shape(shorter, b, allow, prior);
        assert(forall|i: int| 0 <= i < shorter.len() ==> shorter[i] == calls[i]);
        assert forall|m: int|
            0 <= m < qualifying_callers(calls, b, allow, prior).len()
                implies #[trigger] from_of_qualifying(
            calls,
            b,
            allow,
            prior,
            qualifying_callers(calls, b, allow, prior)[m],
        ) by {
            let cs1 = qualifying_callers(shorter, b, allow, prior);
            if m < cs1.len() {
                assert(qualifying_callers(calls, b, allow, prior)[m] == cs1[m]);
                assert(from_of_qualifying(shorter, b, allow, prior, cs1[m]));
                let i = choose|i: int|
                    0 <= i < shorter.len() && call_qualifies(
                        #[trigger] shorter[i],
                        b.transactions,
                        allow,
                        prior,
                    ) && hex_of(shorter[i].from) == cs1[m];
                assert(call_qualifies(calls[i], b.transactions, allow, prior) && hex_of(
                    calls[i].from,
                ) == qualifying_callers(calls, b, allow, prior)[m]);
            } else {
                assert(call_qualifies(calls[calls.len() - 1], b.transactions, allow, prior)
                    && hex_of(calls[calls.len() - 1].from) == qualifying_callers(
                    calls,
                    b,
                    allow,
                    prior,
                )[m]);
            }
        }
    }
}

/// The fold of the first `k` calls of a block whose qualifying calls all
/// target one address `t` the store does not know, from pairwise distinct
/// callers: at most one record, carrying one call and one wallet per
/// qualifying call seen so far, with the sample holding the first callers
/// up to the cap.
proof fn lemma_single_target_prefix(
    calls: Seq<CallV>,
    b: BlockV,
    allow: Seq<Seq<char>>,
    prior: Seq<UsageV>,
    t: Seq<char>,
    k: int,
)
    requires
        0 <= k <= calls.len(),
        forall|i: int|
            0 <= i < calls.len() && call_qualifies(
                #[trigger] calls[i],
                b.transactions,
                allow,
                prior,
            ) ==> hex_of(calls[i].to) == t,
        forall|i: int, j: int|
            0 <= i < j < calls.len() && call_qualifies(
                #[trigger] calls[i],
                b.transactions,
                allow,
                prior,
            ) && call_qualifies(#[trigger] calls[j], b.transactions, allow, prior) ==> hex_of(
                calls[i].from,
            ) != hex_of(calls[j].from),
        find_usage(prior, t) == -1,
    ensures
        ({
            let r = process_calls(calls.take(k), b, allow, prior);
            let n = qualifying_count(calls.take(k), b, allow, prior);
            let callers = qualifying_callers(calls.take(k), b, allow, prior);
            let cap = if n <= MAX_WALLETS_PER_CONTRACT as int {
                n
            } else {
                MAX_WALLETS_PER_CONTRACT as int
            };
            &&& callers.len() == n
            &&& (n == 0 ==> r.len() == 0)
            &&& (n >= 1 ==> {
                &&& r.len() == 1
                &&& r[0].address == t
                &&& r[0].first_interaction_block == b.number
                &&& r[0].last_interaction_block == b.number
                &&& r[0].total_calls == n
                &&& r[0].unique_wallets == n
                &&& r[0].interacting_wallets == callers.take(cap)
                &&& r[0].is_new_contract
                &&& r[0].day_timestamp == day_of_spec(b.timestamp)
            })
        }),
    decreases k,
{
    if k == 0 {
        assert(calls.take(0) =~= Seq::<CallV>::empty());
    } else {
        lemma_single_target_prefix(calls, b, allow, prior, t, k - 1);
        lemma_process_calls_step(calls, k - 1, b, allow, prior);
        assert(calls.take(k).drop_last() =~= calls.take(k - 1));
        assert(calls.take(k).last() == calls[k - 1]);
        let c = calls[k - 1];
        let prevr = process_calls(calls.take(k - 1), b, allow, prior);
        let r = process_calls(calls.take(k), b, allow, prior);
        let n1 = qualifying_count(calls.take(k - 1), b, allow, prior);
        let cs1 = qualifying_callers(calls.take(k - 1), b, allow, prior);
        let n = qualifying_count(calls.take(k), b, allow, prior);
        let cs = qualifying_callers(calls.take(k), b, allow, prior);
        if !call_qualifies(c, b.transactions, allow, prior) {
            assert(n == n1 && cs == cs1);
            assert(r == prevr);
        } else {
            assert(hex_of(c.to) == t);
            assert(n == n1 + 1);
            let from = hex_of(c.from);
            assert(cs == cs1.push(from));
            if n1 == 0 {
                assert(prevr.len() == 0);
                assert(find_usage(prevr, t) == -1);
                let base = fresh_usage(t, b);
                let tch = touch_usage(base, from, b.number);
                assert(r == prevr.push(tch));
                assert(r.len() == 1 && r[0] == tch);
                assert(!base.interacting_wallets.contains(from));
                assert(tch.interacting_wallets == base.interacting_wallets.push(from));
                assert(cs1 =~= Seq::<Seq<char>>::empty());
                assert(tch.interacting_wallets =~= cs.take(1));
            } else {
                assert(prevr.len() == 1 && prevr[0].address == t);
                assert(find_usage(prevr, t) == 0);
                let u = prevr[0];
                let cap1 = if n1 <= MAX_WALLETS_PER_CONTRACT as int {
                    n1
                } else {
                    MAX_WALLETS_PER_CONTRACT as int
                };
                assert(u.interacting_wallets == cs1.take(cap1));
                lemma_qualifying_shape(calls.take(k - 1), b, allow, prior);
                assert forall|m: int| 0 <= m < u.interacting_wallets.len() implies
                    u.interacting_wallets[m] != from by {
                    assert(u.interacting_wallets[m] == cs1[m]);
                    assert(from_of_qualifying(calls.take(k - 1), b, allow, prior, cs1[m]));
                    let i = choose|i: int|
                        0 <= i < calls.take(k - 1).len() && call_qualifies(
                            #[trigger] calls.take(k - 1)[i],
                            b.transactions,
                            allow,
                            prior,
                        ) && hex_of(calls.take(k - 1)[i].from) == cs1[m];
                    assert(calls.take(k - 1)[i] == calls[i]);
                    assert(call_qualifies(calls[i], b.transactions, allow, prior));
                    assert(call_qualifies(calls[k - 1], b.transactions, allow, prior));
                    assert(hex_of(calls[i].from) != hex_of(calls[k - 1].from));
                }
                assert(!u.interacting_wallets.contains(from));
                let tch = touch_usage(u, from, b.number);
                assert(r == prevr.update(0, tch));
                assert(r.len() == 1 && r[0] == tch);
                assert(tch.total_calls == n);
                assert(tch.unique_wallets == n);
                let cap = if n <= MAX_WALLETS_PER_CONTRACT as int {
                    n
                } else {
                    MAX_WALLETS_PER_CONTRACT as int
                };
                if cap1 < MAX_WALLETS_PER_CONTRACT as int {
                    assert(u.interacting_wallets.len() == cap1);
                    assert(tch.interacting_wallets == u.interacting_wallets.push(from));
                    assert(cap == cap1 + 1);
                    assert(tch.interacting_wallets =~= cs.take(cap));
                } else {
                    assert(tch.interacting_wallets == u.interacting_wallets);
                    assert(cap == cap1);
                    assert(cs.take(cap) =~= cs1.take(cap1));
                }
            }
        }
    }
}

/// Exact counts for a fresh contract: when every qualifying call of a block
/// targets one address the store does not know, and the qualifying callers
/// are pairwise distinct, the block produces a single record carrying
/// exactly one call and one wallet per qualifying call, sampled up to the
/// cap and flagged new; the day's rollup counts exactly one active and one
/// new contract with those totals.
pub proof fn lemma_fresh_contract_exact_counts(
    b: BlockV,
    allow: Seq<Seq<char>>,
    prior: Seq<UsageV>,
    target: Seq<char>,
)
    requires
        forall|i: int|
            0 <= i < b.calls.len() && call_qualifies(
                #[trigger] b.calls[i],
                b.transactions,
                allow,
                prior,
            ) ==> hex_of(b.calls[i].to) == target,
        forall|i: int, j: int|
            0 <= i < j < b.calls.len() && call_qualifies(
                #[trigger] b.calls[i],
                b.transactions,
                allow,
                prior,
            ) && call_qualifies(#[trigger] b.calls[j], b.transactions, allow, prior) ==> hex_of(
                b.calls[i].from,
            ) != hex_of(b.calls[j].from),
        find_usage(prior, target) == -1,
        qualifying_count(b.calls, b, allow, prior) >= 1,
    ensures
        ({
            let r = process_block(b, allow, prior);
            let n = qualifying_count(b.calls, b, allow, prior);
            let callers = qualifying_callers(b.calls, b, allow, prior);
            let cap = if n <= MAX_WALLETS_PER_CONTRACT as int {
                n
            } else {
                MAX_WALLETS_PER_CONTRACT as int
            };
            let d = daily_rollup(r);
            &&& r.len() == 1
            &&& r[0].address == target
            &&& r[0].first_interaction_block == b.number
            &&& r[0].last_interaction_block == b.number
            &&& r[0].total_calls == n
            &&& r[0].unique_wallets == n
            &&& r[0].interacting_wallets == callers.take(cap)
            &&& r[0].is_new_contract
            &&& d.len() == 1
            &&& d[0].day_timestamp == day_of_spec(b.timestamp)
            &&& d[0].active_contracts == 1
            &&& d[0].new_contracts == 1
            &&& d[0].total_calls == n
            &&& d[0].unique_wallets == n
        }),
{
    lemma_single_target_prefix(b.calls, b, allow, prior, target, b.calls.len() as int);
    assert(b.calls.take(b.calls.len() as int) =~= b.calls);
    let r = process_block(b, allow, prior);
    assert(r.len() == 1);
    assert(r.drop_last() =~= Seq::<UsageV>::empty());
    assert(daily_rollup(r.drop_last()).len() == 0);
    assert(find_daily(daily_rollup(r.drop_last()), r.last().day_timestamp) == -1);
    assert(daily_rollup(r) == daily_rollup(r.drop_last()).push(
        add_to_daily(fresh_daily(r.last().day_timestamp), r.last()),
    ));
}

/// The cap admits no eviction: one more call from a wallet outside a full
/// sample raises the call counter and the exact distinct-wallet count by
/// one each and leaves the stored sample exactly as it was.
pub proof fn lemma_cap_no_eviction(u: UsageV, from: Seq<char>, number: u64)
    requires
        u.interacting_wallets.len() >= MAX_WALLETS_PER_CONTRACT,
        !u.interacting_wallets.contains(from),
    ensures
        touch_usage(u, from, number).total_calls == u.total_calls + 1,
        touch_usage(u, from, number).unique_wallets == u.unique_wallets + 1,
        touch_usage(u, from, number).interacting_wallets == u.interacting_wallets,
{
}

} // verus!
