//! Executable data types: the cumulative and daily records, the plain-value
//! form of a block, and the snapshot of previously persisted records.
//!
//! Each type views to its ghost counterpart in `model`; the contracts of
//! the processing functions are stated over those views.
use vstd::prelude::*;

use crate::model::{find_usage, BlockV, CallV, DailyV, TxV, UsageV};

verus! {

/// Cumulative usage of one contract address, persisted across blocks.
/// `interacting_wallets` is a capped sample of distinct callers;
/// `unique_wallets` keeps the exact distinct count past the cap.
#[derive(Clone, Debug, PartialEq, Eq)]
pub struct ContractUsage {
    pub address: String,
    pub first_interaction_block: u64,
    pub last_interaction_block: u64,
    pub total_calls: u64,
    pub unique_wallets: u64,
    pub interacting_wallets: Vec<String>,
    pub is_new_contract: bool,
    pub day_timestamp: u64,
}

impl View for ContractUsage {
    type V = UsageV;

    open spec fn view(&self) -> UsageV {
        UsageV {
            address: self.address@,
            first_interaction_block: self.first_interaction_block,
            last_interaction_block: self.last_interaction_block,
            total_calls: self.total_calls as int,
            unique_wallets: self.unique_wallets as int,
            interacting_wallets: self.interacting_wallets.deep_view(),
            is_new_contract: self.is_new_contract,
            day_timestamp: self.day_timestamp,
        }
    }
}

impl DeepView for ContractUsage {
    type V = UsageV;

    open spec fn deep_view(&self) -> UsageV {
        self.view()
    }
}

/// Per-wallet interaction statistics, kept alongside the per-contract
/// records by downstream consumers of this module's output.
#[derive(Clone, Debug, PartialEq, Eq)]
pub struct WalletInteraction {
    pub wallet_address: String,
    pub interaction_count: u64,
    pub first_interaction_block: u64,
    pub last_interaction_block: u64,
    pub is_repeat_user: bool,
}

/// The unordered collection of records one block's processing touched.
#[derive(Clone, Debug, PartialEq, Eq)]
pub struct ContractUsages {
    pub contracts: Vec<ContractUsage>,
}

impl View for ContractUsages {
    type V = Seq<UsageV>;

    open spec fn view(&self) -> Seq<UsageV> {
        self.contracts.deep_view()
    }
}

/// Aggregate statistics for one UTC day bucket.
#[derive(Clone, Debug, PartialEq, Eq)]
pub struct DailyContractStats {
    pub day_timestamp: u64,
    pub active_contracts: u64,
    pub new_contracts: u64,
    pub total_calls: u64,
    pub unique_wallets: u64,
}

impl View for DailyContractStats {
    type V = DailyV;

    open spec fn view(&self) -> DailyV {
        DailyV {
            day_timestamp: self.day_timestamp,
            active_contracts: self.active_contracts as int,
            new_contracts: self.new_contracts as int,
            total_calls: self.total_calls as int,
            unique_wallets: self.unique_wallets as int,
        }
    }
}

impl DeepView for DailyContractStats {
    type V = DailyV;

    open spec fn deep_view(&self) -> DailyV {
        self.view()
    }
}

/// One call record, reduced to the plain values classification reads.
#[derive(Clone, Debug, PartialEq, Eq)]
pub struct CallRecord {
    /// Destination address bytes; empty for a creation.
    pub to: Vec<u8>,
    /// Caller address bytes.
    pub from: Vec<u8>,
    /// Call data.
    pub input: Vec<u8>,
    /// Whether the call succeeded.
    pub success: bool,
}

impl View for CallRecord {
    type V = CallV;

    open spec fn view(&self) -> CallV {
        CallV {
            to: self.to@,
            from: self.from@,
            input: self.input@,
            success: self.success,
        }
    }
}

impl DeepView for CallRecord {
    type V = CallV;

    open spec fn deep_view(&self) -> CallV {
        self.view()
    }
}

/// One transaction, reduced to the fields that reveal a contract creation.
/// A transaction without a receipt is represented by an empty
/// `receipt_contract_address`; both are skipped alike.
#[derive(Clone, Debug, PartialEq, Eq)]
pub struct TxRecord {
    /// Destination address bytes; empty marks a creation attempt.
    pub to: Vec<u8>,
    /// Status code; 1 is success.
    pub status: i32,
    /// Deployed address from the receipt, empty when none.
    pub receipt_contract_address: Vec<u8>,
}

impl View for TxRecord {
    type V = TxV;

    open spec fn view(&self) -> TxV {
        TxV {
            to: self.to@,
            status: self.status,
            receipt_contract_address: self.receipt_contract_address@,
        }
    }
}

impl DeepView for TxRecord {
    type V = TxV;

    open spec fn deep_view(&self) -> TxV {
        self.view()
    }
}

/// One block as handed to the library: height, timestamp in seconds, and
/// the ordered transactions and call traces.
#[derive(Clone, Debug, PartialEq, Eq)]
pub struct BlockData {
    pub number: u64,
    pub timestamp: u64,
    pub transactions: Vec<TxRecord>,
    pub calls: Vec<CallRecord>,
}

impl View for BlockData {
    type V = BlockV;

    open spec fn view(&self) -> BlockV {
        BlockV {
            number: self.number,
            timestamp: self.timestamp,
            transactions: self.transactions.deep_view(),
            calls: self.calls.deep_view(),
        }
    }
}

/// A read-only snapshot of the persisted per-contract records as of before
/// the current block: one record per address previously written.
#[derive(Clone, Debug, PartialEq, Eq)]
pub struct StoreSnapshot {
    pub records: Vec<ContractUsage>,
}

impl View for StoreSnapshot {
    type V = Seq<UsageV>;

    open spec fn view(&self) -> Seq<UsageV> {
        self.records.deep_view()
    }
}

impl StoreSnapshot {
    /// The empty snapshot: nothing persisted yet.
    pub fn new() -> (s: StoreSnapshot)
        ensures
            s@ == Seq::<UsageV>::empty(),
    {
        let s = StoreSnapshot { records: Vec::new() };
        proof {
            assert(s@ =~= Seq::<UsageV>::empty());
        }
        s
    }
}

/// Whether a string equal to `x` occurs in `items`.
pub open spec fn contains_str(items: Seq<Seq<char>>, x: Seq<char>) -> bool {
    items.contains(x)
}

/// Membership test on a list of strings, by string value.
pub fn contains_string(items: &Vec<String>, x: &String) -> (b: bool)
    ensures
        b == contains_str(items.deep_view(), x@),
{
    let mut i: usize = 0;
    while i < items.len()
        invariant
            0 <= i <= items.len(),
            forall|k: int| 0 <= k < i ==> items.deep_view()[k] != x@,
        decreases items.len() - i,
    {
        if items[i] == *x {
            assert(items.deep_view()[i as int] == x@);
            return true;
        }
        i += 1;
    }
    assert(!items.deep_view().contains(x@));
    false
}

/// Index of the first record with the given address, matching `find_usage`
/// on the views.
pub fn find_by_address(records: &Vec<ContractUsage>, addr: &String) -> (r: Option<usize>)
    ensures
        match r {
            Some(j) => find_usage(records.deep_view(), addr@) == j && j < records.len(),
            None => find_usage(records.deep_view(), addr@) == -1,
        },
{
    let mut i: usize = 0;
    while i < records.len()
        invariant
            0 <= i <= records.len(),
            forall|k: int| 0 <= k < i ==> records.deep_view()[k].address != addr@,
        decreases records.len() - i,
    {
        if records[i].address == *addr {
            proof {
                lemma_find_usage_first(records.deep_view(), addr@, i as int);
            }
            return Some(i);
        }
        i += 1;
    }
    proof {
        lemma_find_usage_absent(records.deep_view(), addr@);
    }
    None
}

/// `find_usage` returns the index of the first record whose address is
/// `addr` when one exists before or at `j`.
pub proof fn lemma_find_usage_first(s: Seq<UsageV>, addr: Seq<char>, j: int)
    requires
        0 <= j < s.len(),
        s[j].address == addr,
        forall|k: int| 0 <= k < j ==> s[k].address != addr,
    ensures
        find_usage(s, addr) == j,
    decreases s.len(),
{
    if j > 0 {
        assert(forall|k: int| 1 <= k < s.len() ==> s[k] == s.drop_first()[k - 1]);
        lemma_find_usage_first(s.drop_first(), addr, j - 1);
    }
}

/// `find_usage` returns -1 exactly when no record has the address.
pub proof fn lemma_find_usage_absent(s: Seq<UsageV>, addr: Seq<char>)
    requires
        forall|k: int| 0 <= k < s.len() ==> s[k].address != addr,
    ensures
        find_usage(s, addr) == -1,
    decreases s.len(),
{
    if s.len() > 0 {
        assert(forall|k: int| 1 <= k < s.len() ==> s[k] == s.drop_first()[k - 1]);
        lemma_find_usage_absent(s.drop_first(), addr);
    }
}

/// What `find_usage` says of any sequence: it stays in range, a hit names
/// the first record with the address, and a miss means the address is
/// nowhere.
pub proof fn lemma_find_usage_range(s: Seq<UsageV>, addr: Seq<char>)
    ensures
        -1 <= find_usage(s, addr) < s.len(),
        find_usage(s, addr) >= 0 ==> s[find_usage(s, addr)].address == addr,
        find_usage(s, addr) >= 0 ==> forall|k: int|
            0 <= k < find_usage(s, addr) ==> s[k].address != addr,
        find_usage(s, addr) == -1 ==> forall|k: int|
            0 <= k < s.len() ==> s[k].address != addr,
    decreases s.len(),
{
    if s.len() > 0 && s[0].address != addr {
        assert(forall|k: int| 1 <= k < s.len() ==> s[k] == s.drop_first()[k - 1]);
        lemma_find_usage_range(s.drop_first(), addr);
    }
}

} // verus!
