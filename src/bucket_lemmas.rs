//! Facts about the buckets: each label occurs once, vote fees never reach
//! them when left out, and the bucket of an account that no examined slot
//! recorded follows the empty-slot policy.
use crate::calculation::{
    account_buckets, account_fees, any_listed, buckets_for, combined_fees, count_in,
    examined_slots, global_fees, listed_fees, repeat_fees, slot_account_fees, Calculations,
    DataType,
};
use crate::external::Account;
use crate::model::{FeesModel, SlotModel};
use vstd::prelude::*;

verus! {

/// The ledger with every vote fee taken out.
pub open spec fn without_votes(m: Map<u64, SlotModel>) -> Map<u64, SlotModel> {
    m.map_values(
        |r: SlotModel|
            SlotModel {
                global: FeesModel { vote: Seq::empty(), non_vote: r.global.non_vote },
                accounts: r.accounts.map_values(
                    |f: FeesModel| FeesModel { vote: Seq::empty(), non_vote: f.non_vote },
                ),
            },
    )
}

proof fn lemma_without_votes_sl(
    m: Map<u64, SlotModel>,
    sl: Seq<u64>,
    accounts: Seq<Account>,
    a: Account,
    n: nat,
    empty: bool,
)
    ensures
        global_fees(m, sl, false) == global_fees(without_votes(m), sl, false),
        combined_fees(m, sl, accounts, false, empty) == combined_fees(
            without_votes(m),
            sl,
            accounts,
            false,
            empty,
        ),
        account_fees(m, sl, a, n, false, empty) == account_fees(without_votes(m), sl, a, n, false, empty),
    decreases sl.len(),
{
    if sl.len() > 0 {
        lemma_without_votes_sl(m, sl.drop_last(), accounts, a, n, empty);
        let s = sl.last();
        if m.contains_key(s) {
            assert(without_votes(m)[s].accounts.dom() =~= m[s].accounts.dom());
            lemma_without_votes_listed(m[s], without_votes(m)[s], accounts);
            assert(slot_account_fees(m[s], a, false, empty) == slot_account_fees(
                without_votes(m)[s],
                a,
                false,
                empty,
            ));
        }
    }
}

proof fn lemma_without_votes_listed(r: SlotModel, w: SlotModel, accounts: Seq<Account>)
    requires
        w.accounts.dom() == r.accounts.dom(),
        forall|a: Account| #[trigger]
            w.accounts.contains_key(a) ==> w.accounts[a].non_vote == r.accounts[a].non_vote,
    ensures
        listed_fees(r, accounts, false) == listed_fees(w, accounts, false),
        any_listed(r, accounts) == any_listed(w, accounts),
    decreases accounts.len(),
{
    if accounts.len() > 0 {
        lemma_without_votes_listed(r, w, accounts.drop_last());
        assert(w.accounts.contains_key(accounts.last()) == r.accounts.contains_key(accounts.last()));
    }
    assert(any_listed(r, accounts) == any_listed(w, accounts)) by {
        if any_listed(r, accounts) {
            let i = choose|i: int| 0 <= i < accounts.len() && r.accounts.contains_key(#[trigger] accounts[i]);
            assert(w.accounts.contains_key(accounts[i]));
        }
        if any_listed(w, accounts) {
            let i = choose|i: int| 0 <= i < accounts.len() && w.accounts.contains_key(#[trigger] accounts[i]);
            assert(r.accounts.contains_key(accounts[i]));
        }
    }
}

proof fn lemma_without_votes_accounts(
    m: Map<u64, SlotModel>,
    sl: Seq<u64>,
    all: Seq<Account>,
    prefix: Seq<Account>,
    empty: bool,
)
    ensures
        account_buckets(m, sl, all, prefix, false, empty) == account_buckets(
            without_votes(m),
            sl,
            all,
            prefix,
            false,
            empty,
        ),
    decreases prefix.len(),
{
    if prefix.len() > 0 {
        lemma_without_votes_accounts(m, sl, all, prefix.drop_last(), empty);
        let a = prefix.last();
        lemma_without_votes_sl(m, sl, all, a, count_in(all, a), empty);
    }
}

/// With vote fees left out, no vote fee reaches any bucket: every calculation
/// gives the same buckets as on the ledger with all vote fees removed.
pub proof fn lemma_vote_isolation(c: Calculations, m: Map<u64, SlotModel>)
    requires
        match c {
            Calculations::Calculation1 { include_vote, .. } => !include_vote,
            Calculations::Calculation2 { include_vote, .. } => !include_vote,
        },
    ensures
        buckets_for(c, m) == buckets_for(c, without_votes(m)),
{
    let w = without_votes(m);
    assert(w.dom() =~= m.dom());
    match c {
        Calculations::Calculation1 { accounts, include_vote, include_empty_slots, lookback_period } => {
            let sl = examined_slots(m, lookback_period);
            lemma_without_votes_sl(m, sl, accounts@, accounts@.first(), 0, include_empty_slots);
            assert(buckets_for(c, m) =~= buckets_for(c, w));
        },
        Calculations::Calculation2 { accounts, include_vote, include_empty_slots, lookback_period } => {
            let sl = examined_slots(m, lookback_period);
            lemma_without_votes_sl(m, sl, accounts@, accounts@.first(), 0, include_empty_slots);
            lemma_without_votes_accounts(m, sl, accounts@, accounts@, include_empty_slots);
            assert(buckets_for(c, m) =~= buckets_for(c, w));
        },
    }
}

/// Some slot of `sl` has a record in `m`.
pub open spec fn any_recorded(m: Map<u64, SlotModel>, sl: Seq<u64>) -> bool {
    exists|k: int| 0 <= k < sl.len() && m.contains_key(#[trigger] sl[k])
}

/// No slot of `sl` recorded fees for account `a`.
pub open spec fn unseen_in(m: Map<u64, SlotModel>, sl: Seq<u64>, a: Account) -> bool {
    forall|k: int|
        0 <= k < sl.len() && m.contains_key(#[trigger] sl[k]) ==> !m[sl[k]].accounts.contains_key(a)
}

/// Each label occurs at most once among `b`.
pub open spec fn labels_distinct(b: Seq<(DataType, Seq<u64>)>) -> bool {
    forall|i: int, j: int| 0 <= i < j < b.len() ==> #[trigger] b[i].0 != #[trigger] b[j].0
}

proof fn lemma_repeat_zeros(x: Seq<u64>, n: nat)
    requires
        forall|k: int| 0 <= k < x.len() ==> x[k] == 0,
    ensures
        forall|j: int| 0 <= j < repeat_fees(x, n).len() ==> #[trigger] repeat_fees(x, n)[j] == 0,
        repeat_fees(x, n).len() > 0 <==> (n > 0 && x.len() > 0),
    decreases n,
{
    if n > 0 {
        lemma_repeat_zeros(x, (n - 1) as nat);
        let p = repeat_fees(x, (n - 1) as nat);
        assert forall|j: int| 0 <= j < repeat_fees(x, n).len() implies #[trigger] repeat_fees(x, n)[j] == 0 by {
            if j < p.len() {
                assert(repeat_fees(x, n)[j] == p[j]);
            } else {
                assert(repeat_fees(x, n)[j] == x[j - p.len()]);
            }
        }
    }
}

proof fn lemma_count_positive(all: Seq<Account>, a: Account)
    requires
        all.contains(a),
    ensures
        count_in(all, a) > 0,
    decreases all.len(),
{
    if all.last() != a {
        let k = choose|k: int| 0 <= k < all.len() && all[k] == a;
        assert(all.drop_last()[k] == a);
        lemma_count_positive(all.drop_last(), a);
    }
}

/// The samples of an account that no examined slot recorded: all zeros, and
/// some exactly when empty slots are included (given a slot was examined).
proof fn lemma_unseen_account_fees(
    m: Map<u64, SlotModel>,
    sl: Seq<u64>,
    a: Account,
    n: nat,
    include_vote: bool,
    include_empty_slots: bool,
)
    requires
        unseen_in(m, sl, a),
        n > 0,
    ensures
        ({
            let f = account_fees(m, sl, a, n, include_vote, include_empty_slots);
            &&& forall|j: int| 0 <= j < f.len() ==> #[trigger] f[j] == 0
            &&& any_recorded(m, sl) ==> (f.len() > 0 <==> include_empty_slots)
            &&& !include_empty_slots ==> f.len() == 0
        }),
    decreases sl.len(),
{
    if sl.len() > 0 {
        let p = sl.drop_last();
        assert forall|k: int| 0 <= k < p.len() && m.contains_key(#[trigger] p[k]) implies !m[p[k]].accounts.contains_key(a) by {
            assert(p[k] == sl[k]);
        }
        lemma_unseen_account_fees(m, p, a, n, include_vote, include_empty_slots);
        let f = account_fees(m, sl, a, n, include_vote, include_empty_slots);
        let fp = account_fees(m, p, a, n, include_vote, include_empty_slots);
        if m.contains_key(sl.last()) {
            assert(sl[sl.len() - 1] == sl.last());
            let x = slot_account_fees(m[sl.last()], a, include_vote, include_empty_slots);
            lemma_repeat_zeros(x, n);
            assert(f == fp + repeat_fees(x, n));
            assert forall|j: int| 0 <= j < f.len() implies #[trigger] f[j] == 0 by {
                if j < fp.len() {
                    assert(f[j] == fp[j]);
                } else {
                    assert(f[j] == repeat_fees(x, n)[j - fp.len()]);
                }
            }
        } else {
            assert(f =~= fp);
            if any_recorded(m, sl) {
                let k = choose|k: int| 0 <= k < sl.len() && m.contains_key(#[trigger] sl[k]);
                assert(k != sl.len() - 1);
                assert(p[k] == sl[k]);
            }
        }
    }
}

/// The samples of account `a` when `all` is the list of requested accounts.
pub open spec fn fees_for(
    m: Map<u64, SlotModel>,
    sl: Seq<u64>,
    all: Seq<Account>,
    a: Account,
    iv: bool,
    ie: bool,
) -> Seq<u64> {
    account_fees(m, sl, a, count_in(all, a), iv, ie)
}

/// Each per-account bucket is non-empty and is the bucket of a listed account.
proof fn lemma_buckets_form(
    m: Map<u64, SlotModel>,
    sl: Seq<u64>,
    all: Seq<Account>,
    prefix: Seq<Account>,
    iv: bool,
    ie: bool,
)
    ensures
        forall|i: int|
            0 <= i < account_buckets(m, sl, all, prefix, iv, ie).len() ==> {
                let x = #[trigger] account_buckets(m, sl, all, prefix, iv, ie)[i];
                &&& x.1.len() > 0
                &&& exists|j: int|
                    0 <= j < prefix.len() && x.0 == DataType::Account(prefix[j]) && x.1 == fees_for(
                        m,
                        sl,
                        all,
                        prefix[j],
                        iv,
                        ie,
                    )
            },
    decreases prefix.len(),
{
    if prefix.len() > 0 {
        let p = prefix.drop_last();
        lemma_buckets_form(m, sl, all, p, iv, ie);
        let prev = account_buckets(m, sl, all, p, iv, ie);
        let cur = account_buckets(m, sl, all, prefix, iv, ie);
        assert(prefix[prefix.len() - 1] == prefix.last());
        assert forall|i: int| 0 <= i < cur.len() implies {
            let x = #[trigger] cur[i];
            &&& x.1.len() > 0
            &&& exists|j: int|
                0 <= j < prefix.len() && x.0 == DataType::Account(prefix[j]) && x.1 == fees_for(
                    m,
                    sl,
                    all,
                    prefix[j],
                    iv,
                    ie,
                )
        } by {
            if i < prev.len() {
                assert(cur[i] == prev[i]);
                let x = prev[i];
                let j = choose|j: int|
                    0 <= j < p.len() && x.0 == DataType::Account(p[j]) && x.1 == fees_for(m, sl, all, p[j], iv, ie);
                assert(prefix[j] == p[j]);
            }
        }
    }
}

/// Each listed account with samples has a bucket.
proof fn lemma_buckets_cover(
    m: Map<u64, SlotModel>,
    sl: Seq<u64>,
    all: Seq<Account>,
    prefix: Seq<Account>,
    iv: bool,
    ie: bool,
    a: Account,
)
    requires
        prefix.contains(a),
        fees_for(m, sl, all, a, iv, ie).len() > 0,
    ensures
        exists|i: int|
            0 <= i < account_buckets(m, sl, all, prefix, iv, ie).len()
                && (#[trigger] account_buckets(m, sl, all, prefix, iv, ie)[i]).0 == DataType::Account(a),
    decreases prefix.len(),
{
    let p = prefix.drop_last();
    let prev = account_buckets(m, sl, all, p, iv, ie);
    let cur = account_buckets(m, sl, all, prefix, iv, ie);
    if p.contains(a) {
        lemma_buckets_cover(m, sl, all, p, iv, ie, a);
        let i = choose|i: int| 0 <= i < prev.len() && (#[trigger] prev[i]).0 == DataType::Account(a);
        assert(cur[i] == prev[i]);
    } else {
        let k = choose|k: int| 0 <= k < prefix.len() && prefix[k] == a;
        if k < p.len() {
            assert(p[k] == a);
        }
        assert(prefix.last() == a);
        assert(cur[cur.len() - 1].0 == DataType::Account(a));
    }
}

/// No two per-account buckets share a label.
proof fn lemma_buckets_distinct(
    m: Map<u64, SlotModel>,
    sl: Seq<u64>,
    all: Seq<Account>,
    prefix: Seq<Account>,
    iv: bool,
    ie: bool,
)
    ensures
        labels_distinct(account_buckets(m, sl, all, prefix, iv, ie)),
    decreases prefix.len(),
{
    if prefix.len() > 0 {
        let p = prefix.drop_last();
        let a = prefix.last();
        lemma_buckets_distinct(m, sl, all, p, iv, ie);
        lemma_buckets_form(m, sl, all, p, iv, ie);
        let prev = account_buckets(m, sl, all, p, iv, ie);
        let cur = account_buckets(m, sl, all, prefix, iv, ie);
        assert forall|i: int, k: int| 0 <= i < k < cur.len() implies #[trigger] cur[i].0 != #[trigger] cur[k].0 by {
            if k < prev.len() {
                assert(cur[i] == prev[i] && cur[k] == prev[k]);
            } else {
                assert(cur[i] == prev[i]);
                let x = prev[i];
                let j = choose|j: int|
                    0 <= j < p.len() && x.0 == DataType::Account(p[j]) && x.1 == fees_for(m, sl, all, p[j], iv, ie);
                if p[j] == a {
                    assert(p.contains(a));
                }
            }
        }
    }
}

/// Every calculation labels its buckets with distinct labels: one global
/// bucket, and at most one bucket per account.
pub proof fn lemma_labels_distinct(c: Calculations, m: Map<u64, SlotModel>)
    ensures
        labels_distinct(buckets_for(c, m)),
{
    match c {
        Calculations::Calculation1 { .. } => {},
        Calculations::Calculation2 { accounts, include_vote, include_empty_slots, lookback_period } => {
            let sl = examined_slots(m, lookback_period);
            let ab = account_buckets(m, sl, accounts@, accounts@, include_vote, include_empty_slots);
            lemma_buckets_form(m, sl, accounts@, accounts@, include_vote, include_empty_slots);
            lemma_buckets_distinct(m, sl, accounts@, accounts@, include_vote, include_empty_slots);
            let b = buckets_for(c, m);
            assert(b == seq![(DataType::Global, global_fees(m, sl, include_vote))] + ab);
            assert forall|i: int, k: int| 0 <= i < k < b.len() implies #[trigger] b[i].0 != #[trigger] b[k].0 by {
                assert(b[k] == ab[k - 1]);
                if i > 0 {
                    assert(b[i] == ab[i - 1]);
                } else {
                    let x = ab[k - 1];
                    let j = choose|j: int|
                        0 <= j < accounts@.len() && x.0 == DataType::Account(accounts@[j]) && x.1 == fees_for(
                            m,
                            sl,
                            accounts@,
                            accounts@[j],
                            include_vote,
                            include_empty_slots,
                        );
                }
            }
        },
    }
}

/// Under the per-account rule, the bucket of a requested account that no
/// examined slot recorded is present exactly when empty slots are included
/// (provided at least one slot was examined), and holds only zeros.
pub proof fn lemma_empty_slot_symmetry(
    accounts: Vec<Account>,
    a: Account,
    include_vote: bool,
    include_empty_slots: bool,
    lookback_period: Option<u32>,
    m: Map<u64, SlotModel>,
)
    requires
        accounts@.contains(a),
        any_recorded(m, examined_slots(m, lookback_period)),
        unseen_in(m, examined_slots(m, lookback_period), a),
    ensures
        ({
            let b = buckets_for(
                Calculations::Calculation2 { accounts, include_vote, include_empty_slots, lookback_period },
                m,
            );
            &&& (exists|i: int| 0 <= i < b.len() && #[trigger] b[i].0 == DataType::Account(a))
                <==> include_empty_slots
            &&& forall|i: int, j: int|
                0 <= i < b.len() && #[trigger] b[i].0 == DataType::Account(a) && 0 <= j < b[i].1.len()
                    ==> #[trigger] b[i].1[j] == 0
        }),
{
    let sl = examined_slots(m, lookback_period);
    let b = buckets_for(
        Calculations::Calculation2 { accounts, include_vote, include_empty_slots, lookback_period },
        m,
    );
    let ab = account_buckets(m, sl, accounts@, accounts@, include_vote, include_empty_slots);
    let n = count_in(accounts@, a);
    lemma_count_positive(accounts@, a);
    lemma_unseen_account_fees(m, sl, a, n, include_vote, include_empty_slots);
    lemma_buckets_form(m, sl, accounts@, accounts@, include_vote, include_empty_slots);
    assert(b == seq![(DataType::Global, global_fees(m, sl, include_vote))] + ab);
    let fa = fees_for(m, sl, accounts@, a, include_vote, include_empty_slots);
    assert forall|i: int| 0 <= i < b.len() && #[trigger] b[i].0 == DataType::Account(a) implies b[i].1 == fa by {
        assert(i > 0);
        assert(b[i] == ab[i - 1]);
        let x = ab[i - 1];
        let j = choose|j: int|
            0 <= j < accounts@.len() && x.0 == DataType::Account(accounts@[j]) && x.1 == fees_for(
                m,
                sl,
                accounts@,
                accounts@[j],
                include_vote,
                include_empty_slots,
            );
        assert(accounts@[j] == a);
    }
    assert forall|i: int, j: int| 0 <= i < b.len() && #[trigger] b[i].0 == DataType::Account(a) && 0 <= j < b[i].1.len() implies #[trigger] b[i].1[j] == 0 by {
        assert(b[i].1 == fa);
        assert(fa[j] == 0);
    }
    if !include_empty_slots {
        assert forall|i: int| 0 <= i < b.len() implies #[trigger] b[i].0 != DataType::Account(a) by {
            if b[i].0 == DataType::Account(a) {
                assert(b[i] == ab[i - 1]);
                assert(ab[i - 1].1.len() > 0);
            }
        }
    } else {
        lemma_buckets_cover(m, sl, accounts@, accounts@, include_vote, include_empty_slots, a);
        let i = choose|i: int| 0 <= i < ab.len() && (#[trigger] ab[i]).0 == DataType::Account(a);
        assert(b[i + 1] == ab[i]);
    }
}

} // verus!
