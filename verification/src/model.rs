//! Mathematical model of the aggregation engine.
//!
//! Everything here is specification: ghost records mirroring the executable
//! data types, the classification predicate, and the fold that describes how
//! one block's calls update the per-contract records and the daily rollup.
//! The executable functions' contracts state equality with these functions.
use vstd::prelude::*;

use crate::hexenc::hex_of;
use crate::MAX_WALLETS_PER_CONTRACT;
use crate::NEW_CONTRACT_WINDOW;
use crate::day_of_spec;

verus! {

/// Ghost form of a cumulative per-contract record. Counters are unbounded
/// integers; the executable record carries them as `u64`.
#[verifier::ext_equal]
pub struct UsageV {
    pub address: Seq<char>,
    pub first_interaction_block: u64,
    pub last_interaction_block: u64,
    pub total_calls: int,
    pub unique_wallets: int,
    pub interacting_wallets: Seq<Seq<char>>,
    pub is_new_contract: bool,
    pub day_timestamp: u64,
}

/// Ghost form of a per-day aggregate record.
#[verifier::ext_equal]
pub struct DailyV {
    pub day_timestamp: u64,
    pub active_contracts: int,
    pub new_contracts: int,
    pub total_calls: int,
    pub unique_wallets: int,
}

/// Ghost form of one call record.
#[verifier::ext_equal]
pub struct CallV {
    pub to: Seq<u8>,
    pub from: Seq<u8>,
    pub input: Seq<u8>,
    pub success: bool,
}

/// Ghost form of one transaction, reduced to what classification reads:
/// an empty `to` together with a successful status and a non-empty receipt
/// address marks a contract creation.
#[verifier::ext_equal]
pub struct TxV {
    pub to: Seq<u8>,
    pub status: i32,
    pub receipt_contract_address: Seq<u8>,
}

/// Ghost form of a block: height, timestamp, and the ordered transactions
/// and call traces.
#[verifier::ext_equal]
pub struct BlockV {
    pub number: u64,
    pub timestamp: u64,
    pub transactions: Seq<TxV>,
    pub calls: Seq<CallV>,
}

/// A successful contract creation: no destination, success status, and a
/// deployed address in the receipt.
pub open spec fn tx_is_creation(tx: TxV) -> bool {
    tx.to.len() == 0 && tx.status == 1 && tx.receipt_contract_address.len() > 0
}

/// Whether `addr` (lowercase hex) was deployed by some transaction of the
/// block.
pub open spec fn created_in_block(txs: Seq<TxV>, addr: Seq<char>) -> bool {
    exists|i: int|
        0 <= i < txs.len() && tx_is_creation(#[trigger] txs[i]) && hex_of(
            txs[i].receipt_contract_address,
        ) == addr
}

/// Index of the first record with the given address, or -1 if absent.
pub open spec fn find_usage(s: Seq<UsageV>, addr: Seq<char>) -> int
    decreases s.len(),
{
    if s.len() == 0 {
        -1
    } else if s[0].address == addr {
        0
    } else {
        let r = find_usage(s.drop_first(), addr);
        if r < 0 {
            -1
        } else {
            r + 1
        }
    }
}

/// The classification policy: a call with a destination qualifies when any
/// one signal holds: the destination was deployed in this very block, it
/// stands on the configured allow-list of well-known contracts, the store
/// already has a record for it, or the call carried more than a bare
/// four-byte selector and succeeded.
pub open spec fn call_qualifies(
    c: CallV,
    txs: Seq<TxV>,
    allow: Seq<Seq<char>>,
    prior: Seq<UsageV>,
) -> bool {
    &&& c.to.len() > 0
    &&& {
        ||| created_in_block(txs, hex_of(c.to))
        ||| allow.contains(hex_of(c.to))
        ||| find_usage(prior, hex_of(c.to)) >= 0
        ||| (c.input.len() > 4 && c.success)
    }
}

/// One observed call folded into a record: the call counter always grows;
/// a caller not in the stored sample grows the exact distinct-wallet count
/// and, only below the cap, the sample list; the last-touched block and the
/// new-contract window are refreshed.
pub open spec fn touch_usage(u: UsageV, from: Seq<char>, number: u64) -> UsageV {
    let known = u.interacting_wallets.contains(from);
    UsageV {
        total_calls: u.total_calls + 1,
        last_interaction_block: number,
        unique_wallets: if known {
            u.unique_wallets
        } else {
            u.unique_wallets + 1
        },
        interacting_wallets: if !known && u.interacting_wallets.len()
            < MAX_WALLETS_PER_CONTRACT {
            u.interacting_wallets.push(from)
        } else {
            u.interacting_wallets
        },
        is_new_contract: number - u.first_interaction_block < NEW_CONTRACT_WINDOW,
        ..u
    }
}

/// A persisted record carried into the current block: the first-interaction
/// block and all counters are kept; the bookkeeping fields move to the
/// current block.
pub open spec fn seed_usage(p: UsageV, b: BlockV) -> UsageV {
    UsageV {
        last_interaction_block: b.number,
        is_new_contract: false,
        day_timestamp: day_of_spec(b.timestamp),
        ..p
    }
}

/// The zero record for an address first seen in the current block, before
/// its first call is folded in.
pub open spec fn fresh_usage(addr: Seq<char>, b: BlockV) -> UsageV {
    UsageV {
        address: addr,
        first_interaction_block: b.number,
        last_interaction_block: b.number,
        total_calls: 0,
        unique_wallets: 0,
        interacting_wallets: Seq::empty(),
        is_new_contract: true,
        day_timestamp: day_of_spec(b.timestamp),
    }
}

/// One call applied to the block-local state: a non-qualifying call changes
/// nothing; a qualifying one touches the record already accumulated for its
/// destination, or starts one (seeded from the persisted record when the
/// store knows the address).
pub open spec fn apply_call(
    state: Seq<UsageV>,
    c: CallV,
    b: BlockV,
    allow: Seq<Seq<char>>,
    prior: Seq<UsageV>,
) -> Seq<UsageV> {
    if !call_qualifies(c, b.transactions, allow, prior) {
        state
    } else {
        let addr = hex_of(c.to);
        let from = hex_of(c.from);
        let j = find_usage(state, addr);
        if j >= 0 {
            state.update(j, touch_usage(state[j], from, b.number))
        } else {
            let p = find_usage(prior, addr);
            let base = if p >= 0 {
                seed_usage(prior[p], b)
            } else {
                fresh_usage(addr, b)
            };
            state.push(touch_usage(base, from, b.number))
        }
    }
}

/// The block-local records after the first `calls` of the block, in the
/// order the addresses were first touched.
pub open spec fn process_calls(
    calls: Seq<CallV>,
    b: BlockV,
    allow: Seq<Seq<char>>,
    prior: Seq<UsageV>,
) -> Seq<UsageV>
    decreases calls.len(),
{
    if calls.len() == 0 {
        Seq::empty()
    } else {
        apply_call(
            process_calls(calls.drop_last(), b, allow, prior),
            calls.last(),
            b,
            allow,
            prior,
        )
    }
}

/// The records a whole block produces against a prior store snapshot,
/// under a configured allow-list of well-known contract addresses.
pub open spec fn process_block(b: BlockV, allow: Seq<Seq<char>>, prior: Seq<UsageV>) -> Seq<
    UsageV,
> {
    process_calls(b.calls, b, allow, prior)
}

/// Number of qualifying calls among `calls`.
pub open spec fn qualifying_count(
    calls: Seq<CallV>,
    b: BlockV,
    allow: Seq<Seq<char>>,
    prior: Seq<UsageV>,
) -> int
    decreases calls.len(),
{
    if calls.len() == 0 {
        0
    } else {
        qualifying_count(calls.drop_last(), b, allow, prior) + if call_qualifies(
            calls.last(),
            b.transactions,
            allow,
            prior,
        ) {
            1int
        } else {
            0int
        }
    }
}

/// The callers (lowercase hex) of the qualifying calls, in block order,
/// one entry per call.
pub open spec fn qualifying_callers(
    calls: Seq<CallV>,
    b: BlockV,
    allow: Seq<Seq<char>>,
    prior: Seq<UsageV>,
) -> Seq<Seq<char>>
    decreases calls.len(),
{
    if calls.len() == 0 {
        Seq::empty()
    } else {
        let rest = qualifying_callers(calls.drop_last(), b, allow, prior);
        if call_qualifies(calls.last(), b.transactions, allow, prior) {
            rest.push(hex_of(calls.last().from))
        } else {
            rest
        }
    }
}

/// Index of the first daily bucket for the given day, or -1 if absent.
pub open spec fn find_daily(s: Seq<DailyV>, day: u64) -> int
    decreases s.len(),
{
    if s.len() == 0 {
        -1
    } else if s[0].day_timestamp == day {
        0
    } else {
        let r = find_daily(s.drop_first(), day);
        if r < 0 {
            -1
        } else {
            r + 1
        }
    }
}

/// The empty aggregate for a day.
pub open spec fn fresh_daily(day: u64) -> DailyV {
    DailyV {
        day_timestamp: day,
        active_contracts: 0,
        new_contracts: 0,
        total_calls: 0,
        unique_wallets: 0,
    }
}

/// One updated contract record folded into its day's aggregate: one more
/// active contract, one more new contract if it is within its window, and
/// the record's cumulative counters added on.
pub open spec fn add_to_daily(d: DailyV, u: UsageV) -> DailyV {
    DailyV {
        active_contracts: d.active_contracts + 1,
        new_contracts: d.new_contracts + if u.is_new_contract {
            1int
        } else {
            0int
        },
        total_calls: d.total_calls + u.total_calls,
        unique_wallets: d.unique_wallets + u.unique_wallets,
        ..d
    }
}

/// One record applied to the rollup state: it lands in the bucket of its
/// own day, which is created on first touch.
pub open spec fn apply_daily(state: Seq<DailyV>, u: UsageV) -> Seq<DailyV> {
    let j = find_daily(state, u.day_timestamp);
    if j >= 0 {
        state.update(j, add_to_daily(state[j], u))
    } else {
        state.push(add_to_daily(fresh_daily(u.day_timestamp), u))
    }
}

/// The per-day aggregates of a set of updated records, one bucket per day
/// in order of first touch.
pub open spec fn daily_rollup(us: Seq<UsageV>) -> Seq<DailyV>
    decreases us.len(),
{
    if us.len() == 0 {
        Seq::empty()
    } else {
        apply_daily(daily_rollup(us.drop_last()), us.last())
    }
}

/// Sum of the cumulative call counters over a set of records.
pub open spec fn sum_total_calls(us: Seq<UsageV>) -> int
    decreases us.len(),
{
    if us.len() == 0 {
        0
    } else {
        sum_total_calls(us.drop_last()) + us.last().total_calls
    }
}

/// Sum of the distinct-wallet counters over a set of records.
pub open spec fn sum_unique_wallets(us: Seq<UsageV>) -> int
    decreases us.len(),
{
    if us.len() == 0 {
        0
    } else {
        sum_unique_wallets(us.drop_last()) + us.last().unique_wallets
    }
}

/// Well-formedness of one cumulative record: block bounds are ordered, the
/// wallet sample is duplicate-free and capped, the exact distinct-wallet
/// count dominates the sample, and both counters are at least one.
pub open spec fn usage_wf(u: UsageV) -> bool {
    &&& u.first_interaction_block <= u.last_interaction_block
    &&& u.interacting_wallets.no_duplicates()
    &&& u.interacting_wallets.len() <= MAX_WALLETS_PER_CONTRACT
    &&& u.unique_wallets >= u.interacting_wallets.len()
    &&& 1 <= u.total_calls
    &&& 1 <= u.unique_wallets
}

/// Well-formedness of a store snapshot: every record is well formed and the
/// addresses, being store keys, are distinct.
pub open spec fn snapshot_wf(s: Seq<UsageV>) -> bool {
    &&& forall|i: int| 0 <= i < s.len() ==> usage_wf(#[trigger] s[i])
    &&& forall|i: int, j: int| 0 <= i < j < s.len() ==> s[i].address != s[j].address
}

/// A snapshot as read before a block: well formed, written no later than
/// the block, and with enough headroom that folding in one call per counter
/// step cannot overflow the executable counters.
pub open spec fn snapshot_before(s: Seq<UsageV>, b: BlockV) -> bool {
    &&& snapshot_wf(s)
    &&& forall|i: int|
        0 <= i < s.len() ==> (#[trigger] s[i]).last_interaction_block <= b.number
    &&& forall|i: int|
        0 <= i < s.len() ==> (#[trigger] s[i]).total_calls + b.calls.len() <= u64::MAX
    &&& forall|i: int|
        0 <= i < s.len() ==> (#[trigger] s[i]).unique_wallets + b.calls.len() <= u64::MAX
}

/// What holds of every record in the fold of `n` calls of block `b` against
/// `prior`: the sample list is sound and capped, the bookkeeping fields are
/// the block's, the window flag is exact, and the counters sit strictly
/// above the carried-forward record (when one exists) and within `n` of it.
pub open spec fn fold_entry_ok(r: UsageV, prior: Seq<UsageV>, n: int, b: BlockV) -> bool {
    &&& r.interacting_wallets.no_duplicates()
    &&& r.interacting_wallets.len() <= MAX_WALLETS_PER_CONTRACT
    &&& r.unique_wallets >= r.interacting_wallets.len()
    &&& r.last_interaction_block == b.number
    &&& r.day_timestamp == day_of_spec(b.timestamp)
    &&& r.is_new_contract == (b.number - r.first_interaction_block < NEW_CONTRACT_WINDOW)
    &&& r.first_interaction_block <= b.number
    &&& 1 <= r.total_calls
    &&& 1 <= r.unique_wallets
    &&& {
        let p = find_usage(prior, r.address);
        if p >= 0 {
            &&& r.first_interaction_block == prior[p].first_interaction_block
            &&& prior[p].total_calls < r.total_calls <= prior[p].total_calls + n
            &&& prior[p].unique_wallets <= r.unique_wallets <= prior[p].unique_wallets + n
            &&& prior[p].interacting_wallets.is_prefix_of(r.interacting_wallets)
        } else {
            &&& r.first_interaction_block == b.number
            &&& r.total_calls <= n
            &&& r.unique_wallets <= n
        }
    }
}

/// Touching a record keeps its address and keeps `fold_entry_ok`, with one
/// more call accounted for.
proof fn lemma_touch_entry(u: UsageV, from: Seq<char>, prior: Seq<UsageV>, n: int, b: BlockV)
    requires
        fold_entry_ok(u, prior, n, b),
    ensures
        fold_entry_ok(touch_usage(u, from, b.number), prior, n + 1, b),
        touch_usage(u, from, b.number).address == u.address,
{
    let t = touch_usage(u, from, b.number);
    if !u.interacting_wallets.contains(from) && u.interacting_wallets.len()
        < MAX_WALLETS_PER_CONTRACT {
        assert(t.interacting_wallets == u.interacting_wallets.push(from));
        assert forall|i: int, j: int|
            0 <= i < t.interacting_wallets.len() && 0 <= j < t.interacting_wallets.len() && i
                != j implies t.interacting_wallets[i] != t.interacting_wallets[j] by {
            if i < u.interacting_wallets.len() && j < u.interacting_wallets.len() {
                assert(u.interacting_wallets[i] != u.interacting_wallets[j]);
            } else if j == u.interacting_wallets.len() {
                assert(t.interacting_wallets[j] == from);
                assert(u.interacting_wallets[i] != from);
            } else {
                assert(t.interacting_wallets[i] == from);
                assert(u.interacting_wallets[j] != from);
            }
        }
        let p = find_usage(prior, u.address);
        if p >= 0 {
            assert(prior[p].interacting_wallets.is_prefix_of(u.interacting_wallets));
            assert(prior[p].interacting_wallets =~= t.interacting_wallets.subrange(
                0,
                prior[p].interacting_wallets.len() as int,
            ));
        }
    }
}

/// The fold of one more call is one `apply_call` on the fold of the
/// shorter prefix.
pub proof fn lemma_process_calls_step(
    calls: Seq<CallV>,
    i: int,
    b: BlockV,
    allow: Seq<Seq<char>>,
    prior: Seq<UsageV>,
)
    requires
        0 <= i < calls.len(),
    ensures
        process_calls(calls.take(i + 1), b, allow, prior) == apply_call(
            process_calls(calls.take(i), b, allow, prior),
            calls[i],
            b,
            allow,
            prior,
        ),
{
    assert(calls.take(i + 1).drop_last() =~= calls.take(i));
    assert(calls.take(i + 1).last() == calls[i]);
}

/// Every record of a fold satisfies `fold_entry_ok`, and the fold keys its
/// records by distinct addresses.
pub proof fn lemma_process_calls_ok(
    calls: Seq<CallV>,
    b: BlockV,
    allow: Seq<Seq<char>>,
    prior: Seq<UsageV>,
)
    requires
        snapshot_wf(prior),
        forall|i: int|
            0 <= i < prior.len() ==> (#[trigger] prior[i]).last_interaction_block <= b.number,
    ensures
        forall|j: int|
            0 <= j < process_calls(calls, b, allow, prior).len() ==> fold_entry_ok(
                #[trigger] process_calls(calls, b, allow, prior)[j],
                prior,
                calls.len() as int,
                b,
            ),
        forall|j: int, k: int|
            0 <= j < k < process_calls(calls, b, allow, prior).len() ==> process_calls(
                calls,
                b,
                allow,
                prior,
            )[j].address != process_calls(calls, b, allow, prior)[k].address,
    decreases calls.len(),
{
    if calls.len() > 0 {
        let shorter = calls.drop_last();
        let prev = process_calls(shorter, b, allow, prior);
        let c = calls.last();
        let r = process_calls(calls, b, allow, prior);
        let n1 = shorter.len() as int;
        lemma_process_calls_ok(shorter, b, allow, prior);
        if !call_qualifies(c, b.transactions, allow, prior) {
            assert(r == prev);
            assert forall|j: int| 0 <= j < r.len() implies fold_entry_ok(
                r[j],
                prior,
                calls.len() as int,
                b,
            ) by {
                assert(fold_entry_ok(prev[j], prior, n1, b));
            }
        } else {
            let addr = hex_of(c.to);
            let from = hex_of(c.from);
            let j0 = find_usage(prev, addr);
            crate::records::lemma_find_usage_range(prev, addr);
            if j0 >= 0 {
                let t = touch_usage(prev[j0], from, b.number);
                assert(r == prev.update(j0, t));
                lemma_touch_entry(prev[j0], from, prior, n1, b);
                assert forall|j: int| 0 <= j < r.len() implies fold_entry_ok(
                    r[j],
                    prior,
                    calls.len() as int,
                    b,
                ) by {
                    if j == j0 {
                        assert(fold_entry_ok(t, prior, n1 + 1, b));
                    } else {
                        assert(fold_entry_ok(prev[j], prior, n1, b));
                    }
                }
                assert forall|j: int, k: int| 0 <= j < k < r.len() implies r[j].address
                    != r[k].address by {
                    assert(r[j].address == prev[j].address);
                    assert(r[k].address == prev[k].address);
                }
            } else {
                let p = find_usage(prior, addr);
                crate::records::lemma_find_usage_range(prior, addr);
                let base = if p >= 0 {
                    seed_usage(prior[p], b)
                } else {
                    fresh_usage(addr, b)
                };
                let t = touch_usage(base, from, b.number);
                assert(r == prev.push(t));
                if p >= 0 {
                    assert(usage_wf(prior[p]));
                    assert(prior[p].address == addr);
                    lemma_touch_seeded(prior[p], from, prior, b, p);
                    assert(fold_entry_ok(t, prior, 1, b));
                } else {
                    lemma_touch_fresh(addr, from, prior, b);
                    assert(fold_entry_ok(t, prior, 1, b));
                }
                assert(1 <= calls.len() as int);
                assert forall|j: int| 0 <= j < r.len() implies fold_entry_ok(
                    r[j],
                    prior,
                    calls.len() as int,
                    b,
                ) by {
                    if j < prev.len() {
                        assert(r[j] == prev[j]);
                        assert(fold_entry_ok(prev[j], prior, n1, b));
                    } else {
                        assert(r[j] == t);
                        lemma_fold_entry_ok_widen(t, prior, 1, calls.len() as int, b);
                    }
                }
                assert forall|j: int, k: int| 0 <= j < k < r.len() implies r[j].address
                    != r[k].address by {
                    if k < prev.len() {
                        assert(r[j] == prev[j] && r[k] == prev[k]);
                    } else {
                        assert(r[k] == t);
                        assert(t.address == addr);
                        assert(prev[j].address != addr);
                    }
                }
            }
        }
    }
}

/// `fold_entry_ok` is monotone in the number of calls accounted for.
proof fn lemma_fold_entry_ok_widen(r: UsageV, prior: Seq<UsageV>, n: int, m: int, b: BlockV)
    requires
        fold_entry_ok(r, prior, n, b),
        n <= m,
    ensures
        fold_entry_ok(r, prior, m, b),
{
}

/// A record seeded from a well-formed persisted record and touched once
/// satisfies `fold_entry_ok` with one call accounted for.
proof fn lemma_touch_seeded(p: UsageV, from: Seq<char>, prior: Seq<UsageV>, b: BlockV, pi: int)
    requires
        usage_wf(p),
        p.last_interaction_block <= b.number,
        0 <= pi < prior.len(),
        prior[pi] == p,
        find_usage(prior, p.address) == pi,
    ensures
        fold_entry_ok(touch_usage(seed_usage(p, b), from, b.number), prior, 1, b),
{
    let base = seed_usage(p, b);
    let t = touch_usage(base, from, b.number);
    assert(t.address == p.address);
    if !base.interacting_wallets.contains(from) && base.interacting_wallets.len()
        < MAX_WALLETS_PER_CONTRACT {
        let w = base.interacting_wallets;
        assert forall|i: int, j: int|
            0 <= i < w.push(from).len() && 0 <= j < w.push(from).len() && i != j implies w.push(
            from,
        )[i] != w.push(from)[j] by {
            if i < w.len() && j < w.len() {
                assert(w[i] != w[j]);
            } else if j == w.len() {
                assert(w[i] != from);
            } else {
                assert(w[j] != from);
            }
        }
        assert(p.interacting_wallets =~= t.interacting_wallets.subrange(
            0,
            p.interacting_wallets.len() as int,
        ));
    } else {
        assert(p.interacting_wallets =~= t.interacting_wallets.subrange(
            0,
            p.interacting_wallets.len() as int,
        ));
    }
}

/// A record started fresh for an unseen address and touched once satisfies
/// `fold_entry_ok` with one call accounted for.
proof fn lemma_touch_fresh(addr: Seq<char>, from: Seq<char>, prior: Seq<UsageV>, b: BlockV)
    requires
        find_usage(prior, addr) == -1,
    ensures
        fold_entry_ok(touch_usage(fresh_usage(addr, b), from, b.number), prior, 1, b),
{
    let base = fresh_usage(addr, b);
    let t = touch_usage(base, from, b.number);
    assert(!base.interacting_wallets.contains(from));
    assert(t.interacting_wallets == base.interacting_wallets.push(from));
    assert(t.interacting_wallets.len() == 1);
    assert(t.interacting_wallets.no_duplicates());
}

} // verus!
