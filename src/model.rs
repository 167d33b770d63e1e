//! Fee records: the fees of one slot, globally and per account, and the
//! priority levels that estimates are given at.
use crate::external::{
    account_map_contents, account_map_get, account_map_insert, account_map_new, slot_map_contents,
    slot_map_get, slot_map_insert, slot_map_keys, slot_map_new, slot_map_remove, Account,
    AccountFeeMap, SlotFeeMap,
};
use vstd::prelude::*;

verus! {

/// The fees of a group of transactions, in micro-lamports, split by kind.
pub struct FeesModel {
    pub vote: Seq<u64>,
    pub non_vote: Seq<u64>,
}

/// What one slot has recorded.
pub struct SlotModel {
    pub global: FeesModel,
    pub accounts: Map<Account, FeesModel>,
}

/// The fees of a fresh group holding the one fee `fee`.
pub open spec fn fresh_fees(fee: u64, is_vote: bool) -> FeesModel {
    if is_vote {
        FeesModel { vote: seq![fee], non_vote: Seq::empty() }
    } else {
        FeesModel { vote: Seq::empty(), non_vote: seq![fee] }
    }
}

/// `f` with `fee` appended to the sequence of its kind.
pub open spec fn with_fee(f: FeesModel, fee: u64, is_vote: bool) -> FeesModel {
    if is_vote {
        FeesModel { vote: f.vote.push(fee), non_vote: f.non_vote }
    } else {
        FeesModel { vote: f.vote, non_vote: f.non_vote.push(fee) }
    }
}

/// The per-account fees after one transaction paid `fee` and listed
/// `accounts`: each listed account, however often it is listed, gets the fee
/// appended once (to a fresh group where it had none); the others are unchanged.
pub open spec fn accounts_with_fee(
    m: Map<Account, FeesModel>,
    accounts: Seq<Account>,
    fee: u64,
    is_vote: bool,
) -> Map<Account, FeesModel> {
    Map::new(
        |a: Account| m.contains_key(a) || accounts.contains(a),
        |a: Account|
            if accounts.contains(a) {
                if m.contains_key(a) {
                    with_fee(m[a], fee, is_vote)
                } else {
                    fresh_fees(fee, is_vote)
                }
            } else {
                m[a]
            },
    )
}

/// Whether `a` and `b` are the same account.
pub fn same_account(a: &Account, b: &Account) -> (r: bool)
    ensures
        r == (*a == *b),
{
    let mut k: usize = 0;
    while k < 32
        invariant
            0 <= k <= 32,
            forall|j: int| 0 <= j < k ==> a[j] == b[j],
        decreases 32 - k,
    {
        if a[k] != b[k] {
            return false;
        }
        k = k + 1;
    }
    assert(*a =~= *b);
    true
}

/// Whether `accounts` lists `accounts[i]` before position `i`.
pub(crate) fn listed_before(accounts: &Vec<Account>, i: usize) -> (r: bool)
    requires
        i < accounts@.len(),
    ensures
        r == accounts@.take(i as int).contains(accounts@[i as int]),
{
    let mut j: usize = 0;
    while j < i
        invariant
            0 <= j <= i < accounts@.len(),
            forall|k: int| 0 <= k < j ==> accounts@[k] != accounts@[i as int],
        decreases i - j,
    {
        if same_account(&accounts[j], &accounts[i]) {
            assert(accounts@.take(i as int)[j as int] == accounts@[i as int]);
            return true;
        }
        j = j + 1;
    }
    false
}

/// The record of a slot whose first transaction paid `fee` and listed `accounts`.
pub open spec fn fresh_slot(accounts: Seq<Account>, fee: u64, is_vote: bool) -> SlotModel {
    SlotModel {
        global: fresh_fees(fee, is_vote),
        accounts: Map::new(|a: Account| accounts.contains(a), |a: Account| fresh_fees(fee, is_vote)),
    }
}

/// The record `r` after one more transaction paid `fee` and listed `accounts`.
pub open spec fn slot_with_fee(r: SlotModel, accounts: Seq<Account>, fee: u64, is_vote: bool) -> SlotModel {
    SlotModel {
        global: with_fee(r.global, fee, is_vote),
        accounts: accounts_with_fee(r.accounts, accounts, fee, is_vote),
    }
}

/// Collection of fees for a slot or account.
#[derive(Debug, Clone)]
pub struct Fees {
    /// Non-vote transaction fees.
    pub non_vote_fees: Vec<u64>,
    /// Vote transaction fees.
    pub vote_fees: Vec<u64>,
}

impl View for Fees {
    type V = FeesModel;

    open spec fn view(&self) -> FeesModel {
        FeesModel { vote: self.vote_fees@, non_vote: self.non_vote_fees@ }
    }
}

impl Fees {
    /// Creates a group holding the one fee `fee`.
    pub fn new(fee: u64, is_vote: bool) -> (r: Fees)
        ensures
            r@ == fresh_fees(fee, is_vote),
    {
        let r = if is_vote {
            Fees { vote_fees: vec![fee], non_vote_fees: vec![] }
        } else {
            Fees { vote_fees: vec![], non_vote_fees: vec![fee] }
        };
        assert(r@.vote =~= fresh_fees(fee, is_vote).vote);
        assert(r@.non_vote =~= fresh_fees(fee, is_vote).non_vote);
        r
    }

    /// Appends `fee` to the fees of its kind.
    pub fn add_fee(&mut self, fee: u64, is_vote: bool)
        ensures
            final(self)@ == with_fee(old(self)@, fee, is_vote),
    {
        if is_vote {
            self.vote_fees.push(fee);
        } else {
            self.non_vote_fees.push(fee);
        }
    }
}

/// Priority fees for a specific slot.
#[derive(Debug)]
pub struct SlotPriorityFees {
    /// Slot number.
    pub slot: u64,
    /// Global fees for the slot.
    pub fees: Fees,
    /// Per-account fees for the slot.
    pub account_fees: AccountFeeMap,
}

impl View for SlotPriorityFees {
    type V = SlotModel;

    open spec fn view(&self) -> SlotModel {
        SlotModel {
            global: self.fees@,
            accounts: account_map_contents(self.account_fees).map_values(|f: Fees| f@),
        }
    }
}

impl SlotPriorityFees {
    /// Creates the record of `slot` from its first transaction.
    pub fn new(slot: u64, accounts: Vec<Account>, priority_fee: u64, is_vote: bool) -> (r: SlotPriorityFees)
        ensures
            r.slot == slot,
            r@ == fresh_slot(accounts@, priority_fee, is_vote),
    {
        let mut account_fees = account_map_new();
        let fees = Fees::new(priority_fee, is_vote);
        let mut i: usize = 0;
        while i < accounts.len()
            invariant
                0 <= i <= accounts@.len(),
                fees@ == fresh_fees(priority_fee, is_vote),
                account_map_contents(account_fees).map_values(|f: Fees| f@) =~= Map::new(
                    |a: Account| accounts@.take(i as int).contains(a),
                    |a: Account| fresh_fees(priority_fee, is_vote),
                ),
            decreases accounts@.len() - i,
        {
            let copy = Fees { vote_fees: fees.vote_fees.clone(), non_vote_fees: fees.non_vote_fees.clone() };
            let ghost before = account_map_contents(account_fees);
            account_map_insert(&mut account_fees, accounts[i], copy);
            proof {
                assert(copy@.vote =~= fees@.vote);
                assert(copy@.non_vote =~= fees@.non_vote);
                let t = accounts@.take(i as int + 1);
                assert forall|a: Account| t.contains(a) <==> (accounts@.take(i as int).contains(a) || a == accounts@[i as int]) by {
                    if t.contains(a) {
                        let j = choose|j: int| 0 <= j < t.len() && t[j] == a;
                        if j < i {
                            assert(accounts@.take(i as int)[j] == a);
                        }
                    }
                    if accounts@.take(i as int).contains(a) {
                        let j = choose|j: int| 0 <= j < i && accounts@.take(i as int)[j] == a;
                        assert(t[j] == a);
                    }
                    if a == accounts@[i as int] {
                        assert(t[i as int] == a);
                    }
                }
                assert(copy@ == fresh_fees(priority_fee, is_vote));
                assert(account_map_contents(account_fees).map_values(|f: Fees| f@) =~= before.map_values(
                    |f: Fees| f@,
                ).insert(accounts@[i as int], copy@));
                assert(account_map_contents(account_fees).map_values(|f: Fees| f@) =~= Map::new(
                    |a: Account| t.contains(a),
                    |a: Account| fresh_fees(priority_fee, is_vote),
                ));
            }
            i = i + 1;
        }
        assert(accounts@.take(accounts@.len() as int) =~= accounts@);
        SlotPriorityFees { slot, fees, account_fees }
    }

    /// Records one more transaction that paid `priority_fee` and listed
    /// `accounts`; an account listed more than once gets the fee once.
    pub fn add_txn(&mut self, accounts: Vec<Account>, priority_fee: u64, is_vote: bool)
        ensures
            final(self).slot == old(self).slot,
            final(self)@ == slot_with_fee(old(self)@, accounts@, priority_fee, is_vote),
    {
        self.fees.add_fee(priority_fee, is_vote);
        let ghost m0 = old(self)@.accounts;
        let mut i: usize = 0;
        assert(account_map_contents(self.account_fees).map_values(|f: Fees| f@) =~= accounts_with_fee(
            m0,
            accounts@.take(0),
            priority_fee,
            is_vote,
        ));
        while i < accounts.len()
            invariant
                0 <= i <= accounts@.len(),
                self.slot == old(self).slot,
                m0 == old(self)@.accounts,
                self.fees@ == with_fee(old(self)@.global, priority_fee, is_vote),
                account_map_contents(self.account_fees).map_values(|f: Fees| f@) == accounts_with_fee(
                    m0,
                    accounts@.take(i as int),
                    priority_fee,
                    is_vote,
                ),
            decreases accounts@.len() - i,
        {
            let account = accounts[i];
            let ghost before = account_map_contents(self.account_fees);
            let ghost t = accounts@.take(i as int);
            let ghost t1 = accounts@.take(i as int + 1);
            proof {
                assert forall|x: Account| t1.contains(x) <==> (t.contains(x) || x == account) by {
                    if t1.contains(x) {
                        let k = choose|k: int| 0 <= k < t1.len() && t1[k] == x;
                        if k < i {
                            assert(t[k] == x);
                        }
                    }
                    if t.contains(x) {
                        let k = choose|k: int| 0 <= k < t.len() && t[k] == x;
                        assert(t1[k] == x);
                    }
                    if x == account {
                        assert(t1[i as int] == x);
                    }
                }
            }
            if !listed_before(&accounts, i) {
                match account_map_get(&self.account_fees, &account) {
                    Some(mut fees) => {
                        fees.add_fee(priority_fee, is_vote);
                        let ghost v = fees@;
                        account_map_insert(&mut self.account_fees, account, fees);
                        assert(account_map_contents(self.account_fees).map_values(|f: Fees| f@) =~= before.map_values(
                            |f: Fees| f@,
                        ).insert(account, v));
                    },
                    None => {
                        let fresh = Fees::new(priority_fee, is_vote);
                        let ghost v = fresh@;
                        account_map_insert(&mut self.account_fees, account, fresh);
                        assert(account_map_contents(self.account_fees).map_values(|f: Fees| f@) =~= before.map_values(
                            |f: Fees| f@,
                        ).insert(account, v));
                    },
                }
                proof {
                    let bv = before.map_values(|f: Fees| f@);
                    assert(!t.contains(account));
                    assert(bv.dom() =~= before.dom());
                    assert(bv.contains_key(account) == m0.contains_key(account));
                    assert(before.contains_key(account) ==> bv[account] == m0[account]);
                    assert(account_map_contents(self.account_fees).map_values(|f: Fees| f@) =~= accounts_with_fee(
                        m0,
                        t1,
                        priority_fee,
                        is_vote,
                    ));
                }
            } else {
                proof {
                    assert(accounts_with_fee(m0, t1, priority_fee, is_vote) =~= accounts_with_fee(
                        m0,
                        t,
                        priority_fee,
                        is_vote,
                    ));
                }
            }
            i = i + 1;
        }
        assert(accounts@.take(accounts@.len() as int) =~= accounts@);
    }
}


/// The record of each live slot. Outside the tracker it can only be read.
#[derive(Debug)]
pub struct PriorityFeesBySlot {
    map: SlotFeeMap,
}

impl View for PriorityFeesBySlot {
    type V = Map<u64, SlotModel>;

    closed spec fn view(&self) -> Map<u64, SlotModel> {
        slot_map_contents(self.map).map_values(|r: SlotPriorityFees| r@)
    }
}

impl PriorityFeesBySlot {
    /// An empty ledger.
    pub(crate) fn new() -> (r: PriorityFeesBySlot)
        ensures
            r@ == Map::<u64, SlotModel>::empty(),
    {
        let r = PriorityFeesBySlot { map: slot_map_new() };
        assert(r@ =~= Map::<u64, SlotModel>::empty());
        r
    }

    /// Whether the ledger holds a record for `slot`.
    pub fn contains_key(&self, slot: u64) -> (r: bool)
        ensures
            r == self@.contains_key(slot),
    {
        slot_map_get(&self.map, slot).is_some()
    }

    /// A copy of the record of `slot`, if the ledger holds one.
    pub fn get(&self, slot: u64) -> (r: Option<SlotPriorityFees>)
        ensures
            r is Some <==> self@.contains_key(slot),
            r is Some ==> r.unwrap()@ == self@[slot],
    {
        slot_map_get(&self.map, slot)
    }

    /// Every slot the ledger holds, each once, in no particular order.
    pub fn slots(&self) -> (r: Vec<u64>)
        ensures
            r@.no_duplicates(),
            r@.to_set() == self@.dom(),
    {
        let r = slot_map_keys(&self.map);
        assert(self@.dom() =~= slot_map_contents(self.map).dom());
        r
    }

    /// Stores `rec` as the record of `slot`.
    pub(crate) fn insert(&mut self, slot: u64, rec: SlotPriorityFees)
        ensures
            final(self)@ == old(self)@.insert(slot, rec@),
    {
        let ghost v = rec@;
        slot_map_insert(&mut self.map, slot, rec);
        assert(self@ =~= old(self)@.insert(slot, v));
    }

    /// Takes the record of `slot` out of the ledger.
    pub(crate) fn remove(&mut self, slot: u64) -> (r: Option<SlotPriorityFees>)
        ensures
            final(self)@ == old(self)@.remove(slot),
            r is Some <==> old(self)@.contains_key(slot),
            r is Some ==> r.unwrap()@ == old(self)@[slot],
    {
        let r = slot_map_remove(&mut self.map, slot);
        assert(self@ =~= old(self)@.remove(slot));
        r
    }
}

} // verus!
