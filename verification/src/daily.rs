//! The daily rollup: fold the records one block's processing touched into
//! per-day aggregate statistics.
//!
//! One invocation sees one block's records, so a day spanning many blocks is
//! written many times; `merge_daily` is the additive read-modify-write the
//! caller applies against the previously persisted value for the same day.
use vstd::prelude::*;

use crate::model::{add_to_daily, apply_daily, daily_rollup, find_daily, fresh_daily,
    sum_total_calls, sum_unique_wallets, DailyV, UsageV};
use crate::records::{ContractUsage, ContractUsages, DailyContractStats};
use vstd::pervasive::VecAdditionalExecFns;

verus! {

/// `find_daily` returns the index of the first bucket for `day` when one
/// exists before or at `j`.
proof fn lemma_find_daily_first(s: Seq<DailyV>, day: u64, j: int)
    requires
        0 <= j < s.len(),
        s[j].day_timestamp == day,
        forall|k: int| 0 <= k < j ==> s[k].day_timestamp != day,
    ensures
        find_daily(s, day) == j,
    decreases s.len(),
{
    if j > 0 {
        assert(forall|k: int| 1 <= k < s.len() ==> s[k] == s.drop_first()[k - 1]);
        lemma_find_daily_first(s.drop_first(), day, j - 1);
    }
}

/// `find_daily` returns -1 exactly when no bucket has the day.
proof fn lemma_find_daily_absent(s: Seq<DailyV>, day: u64)
    requires
        forall|k: int| 0 <= k < s.len() ==> s[k].day_timestamp != day,
    ensures
        find_daily(s, day) == -1,
    decreases s.len(),
{
    if s.len() > 0 {
        assert(forall|k: int| 1 <= k < s.len() ==> s[k] == s.drop_first()[k - 1]);
        lemma_find_daily_absent(s.drop_first(), day);
    }
}

/// What `find_daily` says of any sequence of buckets.
pub proof fn lemma_find_daily_range(s: Seq<DailyV>, day: u64)
    ensures
        -1 <= find_daily(s, day) < s.len(),
        find_daily(s, day) >= 0 ==> s[find_daily(s, day)].day_timestamp == day,
        find_daily(s, day) == -1 ==> forall|k: int|
            0 <= k < s.len() ==> s[k].day_timestamp != day,
    decreases s.len(),
{
    if s.len() > 0 && s[0].day_timestamp != day {
        assert(forall|k: int| 1 <= k < s.len() ==> s[k] == s.drop_first()[k - 1]);
        lemma_find_daily_range(s.drop_first(), day);
    }
}

/// Index of the first bucket for the given day, matching `find_daily` on
/// the views.
fn find_by_day(stats: &Vec<DailyContractStats>, day: u64) -> (r: Option<usize>)
    ensures
        match r {
            Some(j) => find_daily(stats.deep_view(), day) == j && j < stats.len(),
            None => find_daily(stats.deep_view(), day) == -1,
        },
{
    let mut i: usize = 0;
    while i < stats.len()
        invariant
            0 <= i <= stats.len(),
            forall|k: int| 0 <= k < i ==> stats.deep_view()[k].day_timestamp != day,
        decreases stats.len() - i,
    {
        if stats[i].day_timestamp == day {
            proof {
                lemma_find_daily_first(stats.deep_view(), day, i as int);
            }
            return Some(i);
        }
        i += 1;
    }
    proof {
        lemma_find_daily_absent(stats.deep_view(), day);
    }
    None
}

/// One record folded into its day's aggregate, as `add_to_daily` describes.
fn add_applied(d: &DailyContractStats, u: &ContractUsage) -> (r: DailyContractStats)
    requires
        d@.active_contracts < u64::MAX,
        d@.new_contracts < u64::MAX,
        d@.total_calls + u@.total_calls <= u64::MAX,
        d@.unique_wallets + u@.unique_wallets <= u64::MAX,
    ensures
        r@ == add_to_daily(d@, u@),
{
    DailyContractStats {
        day_timestamp: d.day_timestamp,
        active_contracts: d.active_contracts + 1,
        new_contracts: if u.is_new_contract {
            d.new_contracts + 1
        } else {
            d.new_contracts
        },
        total_calls: d.total_calls + u.total_calls,
        unique_wallets: d.unique_wallets + u.unique_wallets,
    }
}

/// Step of the per-record fold over a prefix of the records.
proof fn lemma_daily_rollup_step(us: Seq<UsageV>, i: int)
    requires
        0 <= i < us.len(),
    ensures
        daily_rollup(us.take(i + 1)) == apply_daily(daily_rollup(us.take(i)), us[i]),
        sum_total_calls(us.take(i + 1)) == sum_total_calls(us.take(i)) + us[i].total_calls,
        sum_unique_wallets(us.take(i + 1)) == sum_unique_wallets(us.take(i))
            + us[i].unique_wallets,
{
    assert(us.take(i + 1).drop_last() =~= us.take(i));
    assert(us.take(i + 1).last() == us[i]);
}

/// Sums of non-negative counters are non-negative.
proof fn lemma_sums_nonneg(us: Seq<UsageV>)
    requires
        forall|k: int|
            0 <= k < us.len() ==> (#[trigger] us[k]).total_calls >= 0 && us[k].unique_wallets
                >= 0,
    ensures
        sum_total_calls(us) >= 0,
        sum_unique_wallets(us) >= 0,
    decreases us.len(),
{
    if us.len() > 0 {
        assert(forall|k: int| 0 <= k < us.drop_last().len() ==> us.drop_last()[k] == us[k]);
        lemma_sums_nonneg(us.drop_last());
    }
}

/// With non-negative counters, the sums over a prefix never exceed the sums
/// over the whole.
proof fn lemma_sums_take_le(us: Seq<UsageV>, i: int)
    requires
        0 <= i <= us.len(),
        forall|k: int|
            0 <= k < us.len() ==> (#[trigger] us[k]).total_calls >= 0 && us[k].unique_wallets
                >= 0,
    ensures
        sum_total_calls(us.take(i)) <= sum_total_calls(us),
        sum_unique_wallets(us.take(i)) <= sum_unique_wallets(us),
    decreases us.len() - i,
{
    if i == us.len() {
        assert(us.take(i) =~= us);
    } else {
        lemma_daily_rollup_step(us, i);
        lemma_sums_take_le(us, i + 1);
    }
}

/// Every bucket of a rollup of records with non-negative counters is
/// bounded: at most one active contract per record, new contracts within
/// active ones, and counter sums within the sums over all records.
pub proof fn lemma_daily_rollup_bounds(us: Seq<UsageV>)
    requires
        forall|k: int|
            0 <= k < us.len() ==> (#[trigger] us[k]).total_calls >= 0 && us[k].unique_wallets
                >= 0,
    ensures
        forall|j: int|
            0 <= j < daily_rollup(us).len() ==> {
                let d = #[trigger] daily_rollup(us)[j];
                &&& 0 <= d.new_contracts <= d.active_contracts <= us.len()
                &&& 0 <= d.total_calls <= sum_total_calls(us)
                &&& 0 <= d.unique_wallets <= sum_unique_wallets(us)
            },
    decreases us.len(),
{
    if us.len() > 0 {
        let shorter = us.drop_last();
        assert(forall|k: int| 0 <= k < shorter.len() ==> shorter[k] == us[k]);
        lemma_daily_rollup_bounds(shorter);
        lemma_sums_nonneg(shorter);
        let prev = daily_rollup(shorter);
        let u = us.last();
        let r = daily_rollup(us);
        assert(sum_total_calls(us) == sum_total_calls(shorter) + u.total_calls);
        assert(sum_unique_wallets(us) == sum_unique_wallets(shorter) + u.unique_wallets);
        let j0 = find_daily(prev, u.day_timestamp);
        lemma_find_daily_range(prev, u.day_timestamp);
        assert(u.total_calls >= 0 && u.unique_wallets >= 0);
        assert forall|j: int| 0 <= j < r.len() implies {
            let d = #[trigger] r[j];
            &&& 0 <= d.new_contracts <= d.active_contracts <= us.len()
            &&& 0 <= d.total_calls <= sum_total_calls(us)
            &&& 0 <= d.unique_wallets <= sum_unique_wallets(us)
        } by {
            if j0 >= 0 {
                assert(r == prev.update(j0, add_to_daily(prev[j0], u)));
                assert(daily_rollup(shorter)[j0] == prev[j0]);
                if j != j0 {
                    assert(r[j] == prev[j]);
                    assert(daily_rollup(shorter)[j] == prev[j]);
                }
            } else {
                assert(r == prev.push(add_to_daily(fresh_daily(u.day_timestamp), u)));
                if j < prev.len() {
                    assert(r[j] == prev[j]);
                    assert(daily_rollup(shorter)[j] == prev[j]);
                }
            }
        }
    }
}

/// Folds one block's updated records into per-day aggregates: exactly the
/// buckets `daily_rollup` describes, one per distinct day among the
/// records, in order of first touch. The preconditions are the machine
/// limits: the summed counters must fit the persisted representation.
pub fn aggregate_daily_stats(contracts: &ContractUsages) -> (result: Vec<DailyContractStats>)
    requires
        sum_total_calls(contracts@) <= u64::MAX,
        sum_unique_wallets(contracts@) <= u64::MAX,
    ensures
        result.deep_view() == daily_rollup(contracts@),
{
    let mut result: Vec<DailyContractStats> = Vec::new();
    proof {
        assert(contracts@.take(0) =~= Seq::<UsageV>::empty());
        assert(result.deep_view() =~= Seq::<DailyV>::empty());
    }
    let n = contracts.contracts.len();
    let mut i: usize = 0;
    while i < n
        invariant
            i <= n,
            n == contracts.contracts.len(),
            sum_total_calls(contracts@) <= u64::MAX,
            sum_unique_wallets(contracts@) <= u64::MAX,
            result.deep_view() == daily_rollup(contracts@.take(i as int)),
        decreases n - i,
    {
        let ghost st = result.deep_view();
        let ghost cv = contracts@;
        let u = &contracts.contracts[i];
        proof {
            assert(cv[i as int] == u@);
            assert(forall|k: int|
                0 <= k < cv.len() ==> (#[trigger] cv[k]).total_calls >= 0
                    && cv[k].unique_wallets >= 0);
            assert(forall|k: int|
                0 <= k < cv.take(i as int).len() ==> (#[trigger] cv.take(i as int)[k]).total_calls
                    >= 0 && cv.take(i as int)[k].unique_wallets >= 0);
            lemma_daily_rollup_bounds(cv.take(i as int));
            lemma_daily_rollup_step(cv, i as int);
            lemma_sums_take_le(cv, i as int + 1);
            lemma_sums_nonneg(cv.take(i as int));
            assert(cv.take(i as int).len() == i as int);
        }
        match find_by_day(&result, u.day_timestamp) {
            Some(j) => {
                proof {
                    assert(st[j as int] == daily_rollup(cv.take(i as int))[j as int]);
                    assert(st[j as int].total_calls + cv[i as int].total_calls <= sum_total_calls(
                        cv.take(i as int + 1),
                    ));
                }
                let t = add_applied(&result[j], u);
                result.set(j, t);
                proof {
                    assert(result.deep_view() =~= st.update(
                        j as int,
                        add_to_daily(st[j as int], u@),
                    ));
                }
            },
            None => {
                let start = DailyContractStats {
                    day_timestamp: u.day_timestamp,
                    active_contracts: 0,
                    new_contracts: 0,
                    total_calls: 0,
                    unique_wallets: 0,
                };
                proof {
                    assert(start@ == fresh_daily(u@.day_timestamp));
                    assert(cv[i as int].total_calls <= sum_total_calls(cv.take(i as int + 1)));
                }
                let t = add_applied(&start, u);
                result.push(t);
                proof {
                    assert(result.deep_view() =~= st.push(
                        add_to_daily(fresh_daily(u@.day_timestamp), u@),
                    ));
                }
            },
        }
        proof {
            assert(result.deep_view() == daily_rollup(cv.take(i as int + 1)));
        }
        i += 1;
    }
    proof {
        assert(contracts@.take(n as int) =~= contracts@);
    }
    result
}

/// Adds a block's daily aggregate onto the previously persisted one for the
/// same day: the additive read-modify-write by which a day spanning many
/// blocks keeps exact totals.
pub fn merge_daily(prior: &DailyContractStats, delta: &DailyContractStats) -> (r:
    DailyContractStats)
    requires
        prior@.day_timestamp == delta@.day_timestamp,
        prior@.active_contracts + delta@.active_contracts <= u64::MAX,
        prior@.new_contracts + delta@.new_contracts <= u64::MAX,
        prior@.total_calls + delta@.total_calls <= u64::MAX,
        prior@.unique_wallets + delta@.unique_wallets <= u64::MAX,
    ensures
        r@.day_timestamp == prior@.day_timestamp,
        r@.active_contracts == prior@.active_contracts + delta@.active_contracts,
        r@.new_contracts == prior@.new_contracts + delta@.new_contracts,
        r@.total_calls == prior@.total_calls + delta@.total_calls,
        r@.unique_wallets == prior@.unique_wallets + delta@.unique_wallets,
{
    DailyContractStats {
        day_timestamp: prior.day_timestamp,
        active_contracts: prior.active_contracts + delta.active_contracts,
        new_contracts: prior.new_contracts + delta.new_contracts,
        total_calls: prior.total_calls + delta.total_calls,
        unique_wallets: prior.unique_wallets + delta.unique_wallets,
    }
}

} // verus!
