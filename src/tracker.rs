//! The tracker: ingestion of transaction fees into the window and ledger, and
//! the estimate queries over them.
use crate::calculation::{
    buckets_for, ledger_view, stats_view, BucketFees, Calculations, DataStats, DataType,
};
use crate::external::{
    account_string, Account,
};
use crate::model::{PriorityFeesBySlot, fresh_slot, slot_with_fee, SlotModel, SlotPriorityFees};
use crate::percentile::{
    estimates_of, estimates_of_sample, fold_estimates, fold_max, no_estimates,
    MicroLamportPriorityFeeEstimates,
};
use crate::slot_cache::{admit_order, evicted_by, InvalidCapacity, SlotCache};
use vstd::prelude::*;

verus! {

/// The ledger after a transaction of `slot` is ingested, once `evicted` (the
/// slot the window pushed out, if any) has been dropped.
pub open spec fn ledger_after_push(
    m: Map<u64, SlotModel>,
    evicted: Option<u64>,
    slot: u64,
    accounts: Seq<Account>,
    fee: u64,
    is_vote: bool,
) -> Map<u64, SlotModel> {
    let m1 = match evicted {
        Some(e) => m.remove(e),
        None => m,
    };
    if m1.contains_key(slot) {
        m1.insert(slot, slot_with_fee(m1[slot], accounts, fee, is_vote))
    } else {
        m1.insert(slot, fresh_slot(accounts, fee, is_vote))
    }
}

/// The samples of each bucket, in order.
pub open spec fn bucket_samples(b: Seq<(DataType, Seq<u64>)>) -> Seq<Seq<u64>> {
    b.map_values(|x: (DataType, Seq<u64>)| x.1)
}

/// The human-readable name of a bucket.
pub open spec fn bucket_name(d: DataType) -> Seq<char> {
    match d {
        DataType::Global => "Global"@,
        DataType::AllAccounts => "All Accounts"@,
        DataType::Account(a) => account_string(a@),
    }
}

/// Percentile estimates and the sample of one bucket.
#[derive(Debug, Clone)]
pub struct MicroLamportPriorityFeeDetails {
    /// Percentile estimates.
    pub estimates: MicroLamportPriorityFeeEstimates,
    /// Number of transactions included in the calculation.
    pub count: usize,
    /// The samples, in micro-lamports.
    pub fees: Vec<u64>,
}

impl DataType {
    /// The human-readable name of the bucket: `Global`, `All Accounts`, or
    /// the account's canonical string form.
    pub fn name(&self) -> (r: String)
        ensures
            r@ == bucket_name(*self),
    {
        match self {
            DataType::Global => "Global".to_owned(),
            DataType::AllAccounts => "All Accounts".to_owned(),
            DataType::Account(a) => account_string_of(a),
        }
    }
}

/// Folds the levels of every bucket of `fees` into `estimates`, taking the
/// largest value of each level.
pub fn estimate_max_values(fees: &DataStats, estimates: MicroLamportPriorityFeeEstimates) -> (r:
    MicroLamportPriorityFeeEstimates)
    ensures
        r == fold_estimates(estimates, bucket_samples(stats_view(fees@))),
{
    let ghost all = bucket_samples(stats_view(fees@));
    let mut acc = estimates;
    let mut i: usize = 0;
    while i < fees.len()
        invariant
            0 <= i <= fees@.len(),
            all == bucket_samples(stats_view(fees@)),
            acc == fold_estimates(estimates, all.take(i as int)),
        decreases fees@.len() - i,
    {
        let e = estimates_of_sample(&fees[i].fees);
        proof {
            assert(all.take(i as int + 1).drop_last() =~= all.take(i as int));
            assert(all[i as int] == fees@[i as int].fees@);
        }
        acc = fold_max(acc, e);
        i = i + 1;
    }
    assert(all.take(fees@.len() as int) =~= all);
    acc
}

/// Tracks priority fees across the live slots and answers estimate queries.
#[derive(Debug)]
pub struct PriorityFeeTracker {
    priority_fees: PriorityFeesBySlot,
    slot_cache: SlotCache,
}

impl PriorityFeeTracker {
    /// The recorded fees of each live slot.
    pub closed spec fn ledger(&self) -> Map<u64, SlotModel> {
        ledger_view(self.priority_fees)
    }

    /// The window of live slots.
    pub closed spec fn window(&self) -> SlotCache {
        self.slot_cache
    }

    /// The window is well formed and every recorded slot is live.
    pub closed spec fn wf(&self) -> bool {
        &&& self.slot_cache.wf()
        &&& self.ledger().dom().subset_of(self.slot_cache.live())
    }

    /// What well-formedness gives a caller: the window is well formed, with a
    /// positive capacity, and every slot the ledger holds is live.
    pub proof fn lemma_wf_facts(&self)
        requires
            self.wf(),
        ensures
            self.window().wf(),
            self.window().capacity() > 0,
            self.ledger().dom().subset_of(self.window().live()),
    {
        self.slot_cache.lemma_wf_bounds();
    }

    /// Creates a tracker whose window holds at most `slot_cache_length` slots.
    pub fn new(slot_cache_length: usize) -> (r: Result<PriorityFeeTracker, InvalidCapacity>)
        ensures
            slot_cache_length == 0 <==> r is Err,
            r matches Ok(t) ==> {
                &&& t.wf()
                &&& t.window().order() == Seq::<u64>::empty()
                &&& t.window().capacity() == slot_cache_length as nat
                &&& t.ledger().dom() == Set::<u64>::empty()
            },
    {
        match SlotCache::new(slot_cache_length) {
            Ok(slot_cache) => {
                let priority_fees = PriorityFeesBySlot::new();
                let t = PriorityFeeTracker { priority_fees, slot_cache };
                assert(t.ledger().dom() =~= Set::<u64>::empty());
                Ok(t)
            },
            Err(e) => Err(e),
        }
    }

    /// The underlying record of each live slot.
    pub fn priority_fees(&self) -> (r: &PriorityFeesBySlot)
        ensures
            ledger_view(*r) == self.ledger(),
    {
        &self.priority_fees
    }

    /// The window of live slots.
    pub fn slot_cache(&self) -> (r: &SlotCache)
        requires
            self.wf(),
        ensures
            *r == self.window(),
            r.wf(),
    {
        &self.slot_cache
    }

    /// Ingests one transaction of `slot` that paid `priority_fee` and listed
    /// `accounts`: the slot is admitted to the window, the slot it pushes out
    /// (if any) is dropped from the ledger, and the fee is recorded.
    pub fn push_priority_fee_for_txn(
        &mut self,
        slot: u64,
        accounts: Vec<Account>,
        priority_fee: u64,
        is_vote: bool,
    )
        requires
            old(self).wf(),
        ensures
            final(self).wf(),
            final(self).window().capacity() == old(self).window().capacity(),
            final(self).window().order() == admit_order(
                old(self).window().order(),
                old(self).window().capacity(),
                slot,
            ),
            final(self).ledger() == ledger_after_push(
                old(self).ledger(),
                evicted_by(old(self).window().order(), old(self).window().capacity(), slot),
                slot,
                accounts@,
                priority_fee,
                is_vote,
            ),
    {
        let ghost m0 = self.ledger();
        let ghost live0 = self.slot_cache.live();
        let evicted = self.slot_cache.push_pop(slot);
        if let Some(oldest_slot) = evicted {
            let _ = self.priority_fees.remove(oldest_slot);
            assert(self.ledger() =~= m0.remove(oldest_slot));
        }
        let ghost m1 = self.ledger();
        match self.priority_fees.remove(slot) {
            Some(mut slot_fees) => {
                slot_fees.add_txn(accounts, priority_fee, is_vote);
                let ghost rec = slot_fees@;
                self.priority_fees.insert(slot, slot_fees);
                assert(self.ledger() =~= m1.insert(slot, rec));
            },
            None => {
                let rec = SlotPriorityFees::new(slot, accounts, priority_fee, is_vote);
                let ghost recv = rec@;
                self.priority_fees.insert(slot, rec);
                assert(self.ledger() =~= m1.insert(slot, recv));
            },
        }
        proof {
            let live1 = self.slot_cache.live();
            assert(self.ledger().dom().subset_of(live1));
        }
    }

    /// Every live slot, each once, in no particular order.
    pub fn live_slots(&self) -> (r: Vec<u64>)
        requires
            self.wf(),
        ensures
            r@.no_duplicates(),
            r@.to_set() == self.window().live(),
    {
        let mut v: Vec<u64> = Vec::new();
        self.slot_cache.copy_slots(&mut v);
        assert(v@.skip(0) =~= v@);
        v
    }

    /// The number of live slots; never more than the capacity.
    pub fn live_slot_count(&self) -> (r: usize)
        requires
            self.wf(),
        ensures
            r as nat == self.window().order().len(),
            r <= self.window().capacity(),
    {
        self.slot_cache.len()
    }

    /// The estimate of each priority level: the largest value of that level
    /// over the buckets of `calculation`.
    pub fn calculate_priority_fee(&self, calculation: &Calculations) -> (r: MicroLamportPriorityFeeEstimates)
        ensures
            r == fold_estimates(no_estimates(), bucket_samples(buckets_for(*calculation, self.ledger()))),
    {
        let data = calculation.get_priority_fee_estimates(&self.priority_fees);
        estimate_max_values(&data, MicroLamportPriorityFeeEstimates {
            min: None,
            low: None,
            medium: None,
            high: None,
            very_high: None,
            unsafe_max: None,
        })
    }

    /// The folded estimate, and for each bucket its name, its levels and its sample.
    pub fn calculate_priority_fee_details(&self, calculation: &Calculations) -> (r: (
        MicroLamportPriorityFeeEstimates,
        Vec<(String, MicroLamportPriorityFeeDetails)>,
    ))
        ensures
            r.0 == fold_estimates(no_estimates(), bucket_samples(buckets_for(*calculation, self.ledger()))),
            r.1@.len() == buckets_for(*calculation, self.ledger()).len(),
            forall|i: int|
                0 <= i < r.1@.len() ==> {
                    let b = #[trigger] buckets_for(*calculation, self.ledger())[i];
                    &&& r.1@[i].0@ == bucket_name(b.0)
                    &&& r.1@[i].1.fees@ == b.1
                    &&& r.1@[i].1.count == b.1.len()
                    &&& r.1@[i].1.estimates == estimates_of(b.1)
                },
    {
        let data = calculation.get_priority_fee_estimates(&self.priority_fees);
        let ghost bs = buckets_for(*calculation, self.ledger());
        let mut res: Vec<(String, MicroLamportPriorityFeeDetails)> = Vec::new();
        let mut i: usize = 0;
        while i < data.len()
            invariant
                0 <= i <= data@.len(),
                stats_view(data@) == bs,
                res@.len() == i,
                forall|j: int|
                    0 <= j < i ==> {
                        let b = #[trigger] bs[j];
                        &&& res@[j].0@ == bucket_name(b.0)
                        &&& res@[j].1.fees@ == b.1
                        &&& res@[j].1.count == b.1.len()
                        &&& res@[j].1.estimates == estimates_of(b.1)
                    },
            decreases data@.len() - i,
        {
            let bucket: &BucketFees = &data[i];
            assert(bs[i as int] == (bucket.data_type, bucket.fees@));
            let estimates = estimates_of_sample(&bucket.fees);
            let fees = copy_fees(&bucket.fees);
            let count = fees.len();
            res.push((bucket.data_type.name(), MicroLamportPriorityFeeDetails { estimates, count, fees }));
            i = i + 1;
        }
        let estimates = estimate_max_values(&data, MicroLamportPriorityFeeEstimates {
            min: None,
            low: None,
            medium: None,
            high: None,
            very_high: None,
            unsafe_max: None,
        });
        (estimates, res)
    }
}

fn copy_fees(v: &Vec<u64>) -> (r: Vec<u64>)
    ensures
        r@ == v@,
{
    let mut r: Vec<u64> = Vec::new();
    let mut i: usize = 0;
    while i < v.len()
        invariant
            0 <= i <= v@.len(),
            r@ == v@.take(i as int),
        decreases v@.len() - i,
    {
        r.push(v[i]);
        i = i + 1;
        assert(r@ =~= v@.take(i as int));
    }
    assert(v@.take(v@.len() as int) =~= v@);
    r
}

fn account_string_of(a: &Account) -> (r: String)
    ensures
        r@ == account_string(a@),
{
    crate::external::pubkey_to_string(a)
}

} // verus!
