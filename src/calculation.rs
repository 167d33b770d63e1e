//! The two aggregation rules that turn the recorded fees of the newest live
//! slots into labelled fee samples (buckets).
use crate::external::{
    account_map_get, Account,
};
use crate::model::{PriorityFeesBySlot, listed_before, same_account, Fees, FeesModel, SlotModel, SlotPriorityFees};
use crate::percentile::{fee_le, sort_range};
use vstd::prelude::*;

verus! {

/// What a bucket of samples stands for.
#[derive(Debug, Clone, Copy, PartialEq, Eq, Hash)]
pub enum DataType {
    /// Fees across all transactions.
    Global,
    /// Fees across all requested accounts.
    AllAccounts,
    /// Fees for one account.
    Account(Account),
}

/// One labelled sample of fees, in micro-lamports.
#[derive(Debug, Clone)]
pub struct BucketFees {
    pub data_type: DataType,
    pub fees: Vec<u64>,
}

/// The buckets produced by an aggregation.
pub type DataStats = Vec<BucketFees>;

/// A bucket as a label and its samples.
pub open spec fn bucket_view(b: BucketFees) -> (DataType, Seq<u64>) {
    (b.data_type, b.fees@)
}

/// The buckets as labels and samples, in order.
pub open spec fn stats_view(s: Seq<BucketFees>) -> Seq<(DataType, Seq<u64>)> {
    s.map_values(|b: BucketFees| bucket_view(b))
}

/// The recorded fees of each live slot.
pub open spec fn ledger_view(m: PriorityFeesBySlot) -> Map<u64, SlotModel> {
    m@
}

/// The fees of a group that a query takes: non-vote fees, preceded by the
/// vote fees when those are included.
pub open spec fn fees_of(f: FeesModel, include_vote: bool) -> Seq<u64> {
    if include_vote {
        f.vote + f.non_vote
    } else {
        f.non_vote
    }
}

/// How many of `max_available` slots a query examines.
pub open spec fn lookback_size(pref: Option<u32>, max_available: nat) -> nat {
    match pref {
        None => max_available,
        Some(v) => if (v as nat) < max_available {
            v as nat
        } else {
            max_available
        },
    }
}

/// Strictly decreasing, hence without repeats.
pub open spec fn strictly_desc(s: Seq<u64>) -> bool {
    forall|i: int, j: int| 0 <= i < j < s.len() ==> s[i] > s[j]
}

/// The slots of `dom`, newest (largest) first.
pub open spec fn newest_first(dom: Set<u64>) -> Seq<u64> {
    choose|s: Seq<u64>| strictly_desc(s) && s.to_set() == dom
}

/// The slots a query examines: the `lookback` newest slots of the ledger
/// (all of them without a lookback).
pub open spec fn examined_slots(ledger: Map<u64, SlotModel>, lookback: Option<u32>) -> Seq<u64> {
    let all = newest_first(ledger.dom());
    all.take(lookback_size(lookback, all.len()) as int)
}

/// The global fees of the slots `sl`, in that order.
pub open spec fn global_fees(m: Map<u64, SlotModel>, sl: Seq<u64>, include_vote: bool) -> Seq<u64>
    decreases sl.len(),
{
    if sl.len() == 0 {
        Seq::empty()
    } else {
        global_fees(m, sl.drop_last(), include_vote) + if m.contains_key(sl.last()) {
            fees_of(m[sl.last()].global, include_vote)
        } else {
            Seq::empty()
        }
    }
}

/// The fees a slot recorded for the listed accounts, account by account.
pub open spec fn listed_fees(r: SlotModel, accounts: Seq<Account>, include_vote: bool) -> Seq<u64>
    decreases accounts.len(),
{
    if accounts.len() == 0 {
        Seq::empty()
    } else {
        listed_fees(r, accounts.drop_last(), include_vote) + if r.accounts.contains_key(accounts.last()) {
            fees_of(r.accounts[accounts.last()], include_vote)
        } else {
            Seq::empty()
        }
    }
}

/// Whether a slot recorded fees for any listed account.
pub open spec fn any_listed(r: SlotModel, accounts: Seq<Account>) -> bool {
    exists|i: int| 0 <= i < accounts.len() && r.accounts.contains_key(#[trigger] accounts[i])
}

/// The combined-account samples of one slot: the listed accounts' fees, or a
/// single zero when none of them has fees and empty slots are included.
pub open spec fn combined_slot_fees(
    r: SlotModel,
    accounts: Seq<Account>,
    include_vote: bool,
    include_empty_slots: bool,
) -> Seq<u64> {
    listed_fees(r, accounts, include_vote) + if !any_listed(r, accounts) && include_empty_slots {
        seq![0u64]
    } else {
        Seq::empty()
    }
}

/// The combined-account samples of the slots `sl`.
pub open spec fn combined_fees(
    m: Map<u64, SlotModel>,
    sl: Seq<u64>,
    accounts: Seq<Account>,
    include_vote: bool,
    include_empty_slots: bool,
) -> Seq<u64>
    decreases sl.len(),
{
    if sl.len() == 0 {
        Seq::empty()
    } else {
        combined_fees(m, sl.drop_last(), accounts, include_vote, include_empty_slots) + if m.contains_key(
            sl.last(),
        ) && accounts.len() > 0 {
            combined_slot_fees(m[sl.last()], accounts, include_vote, include_empty_slots)
        } else {
            Seq::empty()
        }
    }
}

/// How many times `accounts` lists `a`.
pub open spec fn count_in(accounts: Seq<Account>, a: Account) -> nat
    decreases accounts.len(),
{
    if accounts.len() == 0 {
        0
    } else {
        count_in(accounts.drop_last(), a) + if accounts.last() == a {
            1nat
        } else {
            0nat
        }
    }
}

/// `x` repeated `n` times.
pub open spec fn repeat_fees(x: Seq<u64>, n: nat) -> Seq<u64>
    decreases n,
{
    if n == 0 {
        Seq::empty()
    } else {
        repeat_fees(x, (n - 1) as nat) + x
    }
}

/// What one recorded slot contributes to the bucket of account `a` for each
/// listing of `a`: its fees where the slot recorded any, else a zero when
/// empty slots are included.
pub open spec fn slot_account_fees(r: SlotModel, a: Account, include_vote: bool, include_empty_slots: bool) -> Seq<u64> {
    if r.accounts.contains_key(a) {
        fees_of(r.accounts[a], include_vote)
    } else if include_empty_slots {
        seq![0u64]
    } else {
        Seq::empty()
    }
}

/// The samples of account `a`, listed `n` times, over the slots `sl`: each
/// recorded slot contributes its samples once per listing.
pub open spec fn account_fees(
    m: Map<u64, SlotModel>,
    sl: Seq<u64>,
    a: Account,
    n: nat,
    include_vote: bool,
    include_empty_slots: bool,
) -> Seq<u64>
    decreases sl.len(),
{
    if sl.len() == 0 {
        Seq::empty()
    } else {
        account_fees(m, sl.drop_last(), a, n, include_vote, include_empty_slots) + if m.contains_key(
            sl.last(),
        ) {
            repeat_fees(slot_account_fees(m[sl.last()], a, include_vote, include_empty_slots), n)
        } else {
            Seq::empty()
        }
    }
}

/// One bucket per distinct account of `prefix` that has at least one sample,
/// in the order of first listing; `all` is the whole list of requested
/// accounts, which fixes how often each account is listed.
pub open spec fn account_buckets(
    m: Map<u64, SlotModel>,
    sl: Seq<u64>,
    all: Seq<Account>,
    prefix: Seq<Account>,
    include_vote: bool,
    include_empty_slots: bool,
) -> Seq<(DataType, Seq<u64>)>
    decreases prefix.len(),
{
    if prefix.len() == 0 {
        Seq::empty()
    } else {
        let prev = account_buckets(m, sl, all, prefix.drop_last(), include_vote, include_empty_slots);
        let a = prefix.last();
        let f = account_fees(m, sl, a, count_in(all, a), include_vote, include_empty_slots);
        if !prefix.drop_last().contains(a) && f.len() > 0 {
            prev.push((DataType::Account(a), f))
        } else {
            prev
        }
    }
}

/// The buckets of the combined-account rule over the slots `sl`.
pub open spec fn combined_buckets(
    m: Map<u64, SlotModel>,
    sl: Seq<u64>,
    accounts: Seq<Account>,
    include_vote: bool,
    include_empty_slots: bool,
) -> Seq<(DataType, Seq<u64>)> {
    seq![
        (DataType::Global, global_fees(m, sl, include_vote)),
        (DataType::AllAccounts, combined_fees(m, sl, accounts, include_vote, include_empty_slots)),
    ]
}

/// The buckets of the per-account rule over the slots `sl`.
pub open spec fn per_account_buckets(
    m: Map<u64, SlotModel>,
    sl: Seq<u64>,
    accounts: Seq<Account>,
    include_vote: bool,
    include_empty_slots: bool,
) -> Seq<(DataType, Seq<u64>)> {
    seq![(DataType::Global, global_fees(m, sl, include_vote))] + account_buckets(
        m,
        sl,
        accounts,
        accounts,
        include_vote,
        include_empty_slots,
    )
}

/// How many slots a query examines: all `max_available_slots`, or fewer
/// when a smaller lookback is asked for.
pub fn calculate_lookback_size(pref_num_slots: &Option<u32>, max_available_slots: usize) -> (r: usize)
    ensures
        r as nat == lookback_size(*pref_num_slots, max_available_slots as nat),
{
    match pref_num_slots {
        None => max_available_slots,
        Some(v) => if (*v as u64) < (max_available_slots as u64) {
            *v as usize
        } else {
            max_available_slots
        },
    }
}

/// Two strictly decreasing sequences of the same slots are the same sequence.
proof fn lemma_desc_unique(a: Seq<u64>, b: Seq<u64>)
    requires
        strictly_desc(a),
        strictly_desc(b),
        a.to_set() == b.to_set(),
    ensures
        a == b,
    decreases a.len(),
{
    if a.len() == 0 {
        if b.len() > 0 {
            assert(b.to_set().contains(b[0]));
        }
        assert(a =~= b);
    } else {
        assert(b.to_set().contains(a[0]));
        assert(b.len() > 0);
        assert(a.to_set().contains(b[0]));
        let i = choose|i: int| 0 <= i < a.len() && a[i] == b[0];
        let j = choose|j: int| 0 <= j < b.len() && b[j] == a[0];
        assert(a[0] >= a[i]);
        assert(b[0] >= b[j]);
        let a1 = a.drop_first();
        let b1 = b.drop_first();
        assert(a1.to_set() =~= b1.to_set()) by {
            assert forall|x: u64| a1.contains(x) implies b1.contains(x) by {
                let k = choose|k: int| 0 <= k < a1.len() && a1[k] == x;
                assert(a[k + 1] == x);
                assert(b.to_set().contains(x));
                let l = choose|l: int| 0 <= l < b.len() && b[l] == x;
                assert(l != 0);
                assert(b1[l - 1] == x);
            }
            assert forall|x: u64| b1.contains(x) implies a1.contains(x) by {
                let k = choose|k: int| 0 <= k < b1.len() && b1[k] == x;
                assert(b[k + 1] == x);
                assert(a.to_set().contains(x));
                let l = choose|l: int| 0 <= l < a.len() && a[l] == x;
                assert(l != 0);
                assert(a1[l - 1] == x);
            }
        }
        lemma_desc_unique(a1, b1);
        assert(a =~= b) by {
            assert forall|k: int| 0 <= k < a.len() implies a[k] == b[k] by {
                if k > 0 {
                    assert(a1[k - 1] == b1[k - 1]);
                }
            }
        }
    }
}

/// Sorts distinct slots newest first.
fn sort_slots_desc(v: &Vec<u64>) -> (r: Vec<u64>)
    requires
        v@.no_duplicates(),
    ensures
        strictly_desc(r@),
        r@.to_set() == v@.to_set(),
{
    let asc = sort_range(v, 0, v.len());
    proof {
        broadcast use vstd::seq_lib::group_to_multiset_ensures;

        assert(v@.subrange(0, v@.len() as int) =~= v@);
        v@.lemma_multiset_has_no_duplicates();
        asc@.lemma_multiset_has_no_duplicates_conv();
        assert forall|x: u64| asc@.contains(x) <==> v@.contains(x) by {
            assert(asc@.to_multiset().count(x) == v@.to_multiset().count(x));
        }
        assert(asc@.to_set() =~= v@.to_set());
    }
    let mut r: Vec<u64> = Vec::new();
    let mut k: usize = asc.len();
    while k > 0
        invariant
            0 <= k <= asc@.len(),
            r@.len() == asc@.len() - k,
            forall|t: int| 0 <= t < r@.len() ==> r@[t] == asc@[asc@.len() - 1 - t],
        decreases k,
    {
        k = k - 1;
        r.push(asc[k]);
    }
    proof {
        assert forall|p: int, q: int| 0 <= p < q < r@.len() implies r@[p] > r@[q] by {
            let pa = asc@.len() - 1 - p;
            let qa = asc@.len() - 1 - q;
            assert(fee_le()(asc@[qa], asc@[pa]));
            assert(asc@[qa] != asc@[pa]);
        }
        assert forall|x: u64| r@.contains(x) <==> asc@.contains(x) by {
            if r@.contains(x) {
                let t = choose|t: int| 0 <= t < r@.len() && r@[t] == x;
                assert(asc@[asc@.len() - 1 - t] == x);
            }
            if asc@.contains(x) {
                let t = choose|t: int| 0 <= t < asc@.len() && asc@[t] == x;
                assert(r@[asc@.len() - 1 - t] == x);
            }
        }
        assert(r@.to_set() =~= asc@.to_set());
    }
    r
}

/// The slots a query examines, newest first.
fn examined(ledger: &PriorityFeesBySlot, lookback_period: &Option<u32>) -> (r: Vec<u64>)
    ensures
        r@ == examined_slots(ledger_view(*ledger), *lookback_period),
{
    let keys = ledger.slots();
    let sorted = sort_slots_desc(&keys);
    proof {
        let dom = ledger_view(*ledger).dom();
        assert(strictly_desc(newest_first(dom)) && newest_first(dom).to_set() == dom);
        lemma_desc_unique(sorted@, newest_first(dom));
    }
    let lookback = calculate_lookback_size(lookback_period, sorted.len());
    let mut r: Vec<u64> = Vec::new();
    let mut i: usize = 0;
    while i < lookback
        invariant
            0 <= i <= lookback <= sorted@.len(),
            r@ == sorted@.take(i as int),
        decreases lookback - i,
    {
        r.push(sorted[i]);
        i = i + 1;
        assert(r@ =~= sorted@.take(i as int));
    }
    r
}

/// `records` holds, for each slot of `sl`, the record of `m` for that slot
/// where `m` has one.
pub open spec fn records_match(
    records: Seq<Option<SlotPriorityFees>>,
    m: Map<u64, SlotModel>,
    sl: Seq<u64>,
) -> bool {
    &&& records.len() == sl.len()
    &&& forall|k: int| 0 <= k < sl.len() ==> (#[trigger] records[k] is Some <==> m.contains_key(sl[k]))
    &&& forall|k: int| 0 <= k < sl.len() && #[trigger] records[k] is Some ==> records[k].unwrap()@ == m[sl[k]]
}

/// The record of each examined slot, where the ledger still holds one.
fn load_records(ledger: &PriorityFeesBySlot, slots: &Vec<u64>) -> (r: Vec<Option<SlotPriorityFees>>)
    ensures
        records_match(r@, ledger_view(*ledger), slots@),
{
    let mut r: Vec<Option<SlotPriorityFees>> = Vec::new();
    let mut i: usize = 0;
    while i < slots.len()
        invariant
            0 <= i <= slots@.len(),
            r@.len() == i,
            forall|k: int|
                0 <= k < i ==> (#[trigger] r@[k] is Some <==> ledger_view(*ledger).contains_key(slots@[k])),
            forall|k: int|
                0 <= k < i && #[trigger] r@[k] is Some ==> r@[k].unwrap()@ == ledger_view(*ledger)[slots@[k]],
        decreases slots@.len() - i,
    {
        r.push(ledger.get(slots[i]));
        i = i + 1;
    }
    r
}

/// Appends every sample of `src` to `out`.
fn append_all(out: &mut Vec<u64>, src: &Vec<u64>)
    ensures
        final(out)@ == old(out)@ + src@,
{
    let mut i: usize = 0;
    while i < src.len()
        invariant
            0 <= i <= src@.len(),
            out@ == old(out)@ + src@.take(i as int),
        decreases src@.len() - i,
    {
        out.push(src[i]);
        i = i + 1;
        assert(out@ =~= old(out)@ + src@.take(i as int));
    }
    assert(src@.take(src@.len() as int) =~= src@);
}

/// Appends the fees of `f` that a query takes.
fn append_fees(out: &mut Vec<u64>, f: &Fees, include_vote: bool)
    ensures
        final(out)@ == old(out)@ + fees_of(f@, include_vote),
{
    if include_vote {
        append_all(out, &f.vote_fees);
    }
    append_all(out, &f.non_vote_fees);
    assert(out@ =~= old(out)@ + fees_of(f@, include_vote));
}

/// The global samples of the examined slots.
fn collect_global(
    records: &Vec<Option<SlotPriorityFees>>,
    include_vote: bool,
    Ghost(m): Ghost<Map<u64, SlotModel>>,
    Ghost(sl): Ghost<Seq<u64>>,
) -> (r: Vec<u64>)
    requires
        records_match(records@, m, sl),
    ensures
        r@ == global_fees(m, sl, include_vote),
{
    let mut r: Vec<u64> = Vec::new();
    let mut k: usize = 0;
    while k < records.len()
        invariant
            0 <= k <= records@.len(),
            records_match(records@, m, sl),
            r@ == global_fees(m, sl.take(k as int), include_vote),
        decreases records@.len() - k,
    {
        assert(sl.take(k as int + 1).drop_last() =~= sl.take(k as int));
        if let Some(rec) = &records[k] {
            append_fees(&mut r, &rec.fees, include_vote);
        } else {
            assert(r@ =~= r@ + Seq::<u64>::empty());
        }
        k = k + 1;
    }
    assert(sl.take(sl.len() as int) =~= sl);
    r
}

/// Appends the fees a slot recorded for the listed accounts; returns whether
/// any listed account had fees.
fn collect_listed(
    rec: &SlotPriorityFees,
    accounts: &Vec<Account>,
    include_vote: bool,
    out: &mut Vec<u64>,
) -> (has_data: bool)
    ensures
        final(out)@ == old(out)@ + listed_fees(rec@, accounts@, include_vote),
        has_data == any_listed(rec@, accounts@),
{
    let mut has_data = false;
    let mut i: usize = 0;
    assert(old(out)@ =~= old(out)@ + listed_fees(rec@, accounts@.take(0), include_vote));
    while i < accounts.len()
        invariant
            0 <= i <= accounts@.len(),
            out@ == old(out)@ + listed_fees(rec@, accounts@.take(i as int), include_vote),
            has_data == any_listed(rec@, accounts@.take(i as int)),
        decreases accounts@.len() - i,
    {
        let ghost prev = out@;
        let ghost t = accounts@.take(i as int + 1);
        assert(t.drop_last() =~= accounts@.take(i as int));
        match account_map_get(&rec.account_fees, &accounts[i]) {
            Some(f) => {
                append_fees(out, &f, include_vote);
                has_data = true;
                assert(t[i as int] == accounts@[i as int]);
                assert(any_listed(rec@, t));
            },
            None => {
                assert(out@ =~= prev + Seq::<u64>::empty());
                proof {
                    if any_listed(rec@, t) {
                        let j = choose|j: int| 0 <= j < t.len() && rec@.accounts.contains_key(#[trigger] t[j]);
                        assert(j != i);
                        assert(accounts@.take(i as int)[j] == t[j]);
                    }
                }
            },
        }
        proof {
            if any_listed(rec@, accounts@.take(i as int)) {
                let j = choose|j: int| 0 <= j < i && rec@.accounts.contains_key(#[trigger] accounts@.take(i as int)[j]);
                assert(t[j] == accounts@.take(i as int)[j]);
            }
            assert((prev + fees_of(rec@.accounts[accounts@[i as int]], include_vote)) =~= old(out)@ + (listed_fees(rec@, accounts@.take(i as int), include_vote) + fees_of(rec@.accounts[accounts@[i as int]], include_vote)));
        }
        i = i + 1;
    }
    assert(accounts@.take(accounts@.len() as int) =~= accounts@);
    has_data
}

/// The combined-account samples of the examined slots.
fn collect_combined(
    records: &Vec<Option<SlotPriorityFees>>,
    accounts: &Vec<Account>,
    include_vote: bool,
    include_empty_slots: bool,
    Ghost(m): Ghost<Map<u64, SlotModel>>,
    Ghost(sl): Ghost<Seq<u64>>,
) -> (r: Vec<u64>)
    requires
        records_match(records@, m, sl),
    ensures
        r@ == combined_fees(m, sl, accounts@, include_vote, include_empty_slots),
{
    let mut r: Vec<u64> = Vec::new();
    let mut k: usize = 0;
    while k < records.len()
        invariant
            0 <= k <= records@.len(),
            records_match(records@, m, sl),
            r@ == combined_fees(m, sl.take(k as int), accounts@, include_vote, include_empty_slots),
        decreases records@.len() - k,
    {
        assert(sl.take(k as int + 1).drop_last() =~= sl.take(k as int));
        let ghost prev = r@;
        if let Some(rec) = &records[k] {
            if accounts.len() > 0 {
                let has_data = collect_listed(rec, accounts, include_vote, &mut r);
                if !has_data && include_empty_slots {
                    r.push(0);
                }
                assert(r@ =~= prev + combined_slot_fees(rec@, accounts@, include_vote, include_empty_slots));
            } else {
                assert(r@ =~= prev + Seq::<u64>::empty());
            }
        } else {
            assert(r@ =~= prev + Seq::<u64>::empty());
        }
        k = k + 1;
    }
    assert(sl.take(sl.len() as int) =~= sl);
    r
}

/// Appends `src` to `out` `n` times.
fn append_repeated(out: &mut Vec<u64>, src: &Vec<u64>, n: usize)
    ensures
        final(out)@ == old(out)@ + repeat_fees(src@, n as nat),
{
    let mut j: usize = 0;
    assert(old(out)@ =~= old(out)@ + repeat_fees(src@, 0));
    while j < n
        invariant
            0 <= j <= n,
            out@ == old(out)@ + repeat_fees(src@, j as nat),
        decreases n - j,
    {
        append_all(out, src);
        j = j + 1;
        assert(out@ =~= old(out)@ + repeat_fees(src@, j as nat));
    }
}

/// How many times `accounts` lists `a`.
fn count_listings(accounts: &Vec<Account>, a: &Account) -> (r: usize)
    ensures
        r as nat == count_in(accounts@, *a),
{
    let mut r: usize = 0;
    let mut i: usize = 0;
    while i < accounts.len()
        invariant
            0 <= i <= accounts@.len(),
            r as nat == count_in(accounts@.take(i as int), *a),
            r <= i,
        decreases accounts@.len() - i,
    {
        assert(accounts@.take(i as int + 1).drop_last() =~= accounts@.take(i as int));
        if same_account(&accounts[i], a) {
            r = r + 1;
        }
        i = i + 1;
    }
    assert(accounts@.take(accounts@.len() as int) =~= accounts@);
    r
}

/// The samples of one account, listed `n` times, over the examined slots.
fn collect_account(
    records: &Vec<Option<SlotPriorityFees>>,
    a: &Account,
    n: usize,
    include_vote: bool,
    include_empty_slots: bool,
    Ghost(m): Ghost<Map<u64, SlotModel>>,
    Ghost(sl): Ghost<Seq<u64>>,
) -> (r: Vec<u64>)
    requires
        records_match(records@, m, sl),
    ensures
        r@ == account_fees(m, sl, *a, n as nat, include_vote, include_empty_slots),
{
    let mut r: Vec<u64> = Vec::new();
    let mut k: usize = 0;
    while k < records.len()
        invariant
            0 <= k <= records@.len(),
            records_match(records@, m, sl),
            r@ == account_fees(m, sl.take(k as int), *a, n as nat, include_vote, include_empty_slots),
        decreases records@.len() - k,
    {
        assert(sl.take(k as int + 1).drop_last() =~= sl.take(k as int));
        let ghost prev = r@;
        if let Some(rec) = &records[k] {
            let mut x: Vec<u64> = Vec::new();
            match account_map_get(&rec.account_fees, a) {
                Some(f) => {
                    append_fees(&mut x, &f, include_vote);
                },
                None => {
                    if include_empty_slots {
                        x.push(0);
                    }
                },
            }
            assert(x@ =~= slot_account_fees(rec@, *a, include_vote, include_empty_slots));
            append_repeated(&mut r, &x, n);
        } else {
            assert(r@ =~= prev + Seq::<u64>::empty());
        }
        k = k + 1;
    }
    assert(sl.take(sl.len() as int) =~= sl);
    r
}

/// A priority fee calculation: which aggregation rule, over which accounts,
/// with which options.
#[derive(Debug, Clone)]
pub enum Calculations {
    /// All transaction fees, plus the fees of all requested accounts in one bucket.
    Calculation1 {
        /// Accounts to filter fees for.
        accounts: Vec<Account>,
        /// Whether to include vote transactions.
        include_vote: bool,
        /// Whether a slot without fees for the accounts contributes a zero.
        include_empty_slots: bool,
        /// How many of the newest slots to examine.
        lookback_period: Option<u32>,
    },
    /// All transaction fees, plus one bucket per requested account.
    Calculation2 {
        /// Accounts to break fees down by.
        accounts: Vec<Account>,
        /// Whether to include vote transactions.
        include_vote: bool,
        /// Whether a slot without fees for an account contributes a zero to it.
        include_empty_slots: bool,
        /// How many of the newest slots to examine.
        lookback_period: Option<u32>,
    },
}

/// The buckets that calculation `c` produces from the ledger `m`.
pub open spec fn buckets_for(c: Calculations, m: Map<u64, SlotModel>) -> Seq<(DataType, Seq<u64>)> {
    match c {
        Calculations::Calculation1 { accounts, include_vote, include_empty_slots, lookback_period } =>
            combined_buckets(m, examined_slots(m, lookback_period), accounts@, include_vote, include_empty_slots),
        Calculations::Calculation2 { accounts, include_vote, include_empty_slots, lookback_period } =>
            per_account_buckets(m, examined_slots(m, lookback_period), accounts@, include_vote, include_empty_slots),
    }
}

impl Calculations {
    /// The combined-account calculation.
    pub fn new_calculation1(
        accounts: Vec<Account>,
        include_vote: bool,
        include_empty_slots: bool,
        lookback_period: Option<u32>,
    ) -> (r: Calculations)
        ensures
            r == (Calculations::Calculation1 { accounts, include_vote, include_empty_slots, lookback_period }),
    {
        Calculations::Calculation1 { accounts, include_vote, include_empty_slots, lookback_period }
    }

    /// The per-account calculation.
    pub fn new_calculation2(
        accounts: Vec<Account>,
        include_vote: bool,
        include_empty_slots: bool,
        lookback_period: Option<u32>,
    ) -> (r: Calculations)
        ensures
            r == (Calculations::Calculation2 { accounts, include_vote, include_empty_slots, lookback_period }),
    {
        Calculations::Calculation2 { accounts, include_vote, include_empty_slots, lookback_period }
    }

    /// The buckets of fee samples this calculation takes from the ledger.
    pub fn get_priority_fee_estimates(&self, priority_fees: &PriorityFeesBySlot) -> (r: DataStats)
        ensures
            stats_view(r@) == buckets_for(*self, ledger_view(*priority_fees)),
    {
        let ghost m = ledger_view(*priority_fees);
        match self {
            Calculations::Calculation1 { accounts, include_vote, include_empty_slots, lookback_period } => {
                let slots = examined(priority_fees, lookback_period);
                let records = load_records(priority_fees, &slots);
                let global = collect_global(&records, *include_vote, Ghost(m), Ghost(slots@));
                let combined = collect_combined(
                    &records,
                    accounts,
                    *include_vote,
                    *include_empty_slots,
                    Ghost(m),
                    Ghost(slots@),
                );
                let r = vec![
                    BucketFees { data_type: DataType::Global, fees: global },
                    BucketFees { data_type: DataType::AllAccounts, fees: combined },
                ];
                assert(stats_view(r@) =~= buckets_for(*self, m));
                r
            },
            Calculations::Calculation2 { accounts, include_vote, include_empty_slots, lookback_period } => {
                let slots = examined(priority_fees, lookback_period);
                let records = load_records(priority_fees, &slots);
                let global = collect_global(&records, *include_vote, Ghost(m), Ghost(slots@));
                let ghost g = global@;
                let mut r: DataStats = Vec::new();
                r.push(BucketFees { data_type: DataType::Global, fees: global });
                let mut i: usize = 0;
                assert(stats_view(r@) =~= seq![(DataType::Global, g)] + account_buckets(
                    m,
                    slots@,
                    accounts@,
                    accounts@.take(0),
                    *include_vote,
                    *include_empty_slots,
                ));
                while i < accounts.len()
                    invariant
                        0 <= i <= accounts@.len(),
                        records_match(records@, m, slots@),
                        stats_view(r@) == seq![(DataType::Global, g)] + account_buckets(
                            m,
                            slots@,
                            accounts@,
                            accounts@.take(i as int),
                            *include_vote,
                            *include_empty_slots,
                        ),
                    decreases accounts@.len() - i,
                {
                    assert(accounts@.take(i as int + 1).drop_last() =~= accounts@.take(i as int));
                    assert(accounts@.take(i as int + 1).last() == accounts@[i as int]);
                    let ghost prev = r@;
                    if !listed_before(accounts, i) {
                        let n = count_listings(accounts, &accounts[i]);
                        let fees = collect_account(
                            &records,
                            &accounts[i],
                            n,
                            *include_vote,
                            *include_empty_slots,
                            Ghost(m),
                            Ghost(slots@),
                        );
                        if fees.len() > 0 {
                            r.push(BucketFees { data_type: DataType::Account(accounts[i]), fees });
                            assert(stats_view(r@) =~= stats_view(prev).push(bucket_view(r@.last())));
                        }
                    }
                    i = i + 1;
                }
                assert(accounts@.take(accounts@.len() as int) =~= accounts@);
                assert(stats_view(r@) =~= buckets_for(*self, m));
                r
            },
        }
    }
}

} // verus!
