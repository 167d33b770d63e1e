use priority_fee_core::calculation::calculate_lookback_size;
use priority_fee_core::{
    Calculations, DataType, MicroLamportPriorityFeeEstimates, PriorityFeeTracker,
};

fn sorted(mut v: Vec<u64>) -> Vec<u64> {
    v.sort();
    v
}

fn bucket(data: &[priority_fee_core::BucketFees], d: DataType) -> Option<Vec<u64>> {
    data.iter().find(|b| b.data_type == d).map(|b| b.fees.clone())
}

const A: [u8; 32] = [1u8; 32];
const B: [u8; 32] = [2u8; 32];
const C: [u8; 32] = [3u8; 32];

fn basic_tracker() -> PriorityFeeTracker {
    let mut tracker = PriorityFeeTracker::new(10).unwrap();
    let accounts = vec![A, B, C];
    for fee in 0..=100u64 {
        tracker.push_priority_fee_for_txn(1, accounts.clone(), fee, false);
    }
    tracker
}

#[test]
fn test_priority_fee_tracker_basic() {
    let tracker = basic_tracker();
    let calc = Calculations::new_calculation1(vec![A, B, C], false, false, None);
    let estimates = tracker.calculate_priority_fee(&calc);
    // Levels are in hundredths of a micro-lamport.
    assert_eq!(estimates.min, Some(0));
    assert_eq!(estimates.low, Some(2500));
    assert_eq!(estimates.medium, Some(5000));
    assert_eq!(estimates.high, Some(7500));
    assert_eq!(estimates.very_high, Some(9500));
    assert_eq!(estimates.unsafe_max, Some(10000));
}

#[test]
fn test_specific_fee_estimates_for_global_accounts_only() {
    let tracker = basic_tracker();
    let calc = Calculations::new_calculation1(vec![], false, false, None);
    let data = calc.get_priority_fee_estimates(tracker.priority_fees());
    assert_eq!(data.len(), 2);
    let global = bucket(&data, DataType::Global).unwrap();
    let est = tracker.calculate_priority_fee(&calc);
    assert_eq!(global.len(), 101);
    assert_eq!((est.medium.unwrap() as f64 / 100.0).round(), 50.0);
}

#[test]
fn global_only_query() {
    let tracker = basic_tracker();
    let calc = Calculations::new_calculation1(vec![], false, false, None);
    let est = tracker.calculate_priority_fee(&calc);
    assert_eq!(
        est,
        MicroLamportPriorityFeeEstimates {
            min: Some(0),
            low: Some(2500),
            medium: Some(5000),
            high: Some(7500),
            very_high: Some(9500),
            unsafe_max: Some(10000),
        }
    );
    let data = calc.get_priority_fee_estimates(tracker.priority_fees());
    assert_eq!(bucket(&data, DataType::AllAccounts), Some(vec![]));
}

#[test]
fn eviction_drops_oldest_slot() {
    let mut tracker = PriorityFeeTracker::new(100).unwrap();
    for slot in 0..100u64 {
        tracker.push_priority_fee_for_txn(slot, vec![], 1, false);
    }
    assert_eq!(tracker.live_slot_count(), 100);
    tracker.push_priority_fee_for_txn(101, vec![], 1, false);
    assert!(tracker.priority_fees().get(0).is_none());
    assert_eq!(tracker.live_slot_count(), 100);
    let calc = Calculations::new_calculation1(vec![], false, false, None);
    let data = calc.get_priority_fee_estimates(tracker.priority_fees());
    assert_eq!(bucket(&data, DataType::Global).unwrap().len(), 100);
}

#[test]
fn duplicate_slot_fast_path() {
    let mut tracker = PriorityFeeTracker::new(10).unwrap();
    for _ in 0..1000 {
        tracker.push_priority_fee_for_txn(5, vec![], 7, false);
    }
    assert_eq!(tracker.live_slot_count(), 1);
    let calc = Calculations::new_calculation1(vec![], false, false, None);
    let data = calc.get_priority_fee_estimates(tracker.priority_fees());
    let global = bucket(&data, DataType::Global).unwrap();
    assert_eq!(global.len(), 1000);
    assert!(global.iter().all(|f| *f == 7));
}

#[test]
fn per_account_breakdown() {
    let mut tracker = PriorityFeeTracker::new(10).unwrap();
    tracker.push_priority_fee_for_txn(1, vec![A], 10, false);
    tracker.push_priority_fee_for_txn(2, vec![B], 20, false);
    let calc = Calculations::new_calculation2(vec![A, B], false, true, None);
    let data = calc.get_priority_fee_estimates(tracker.priority_fees());
    assert_eq!(data.len(), 3);
    assert_eq!(sorted(bucket(&data, DataType::Global).unwrap()), vec![10, 20]);
    assert_eq!(sorted(bucket(&data, DataType::Account(A)).unwrap()), vec![0, 10]);
    assert_eq!(sorted(bucket(&data, DataType::Account(B)).unwrap()), vec![0, 20]);
}

#[test]
fn lookback_truncation() {
    let mut tracker = PriorityFeeTracker::new(100).unwrap();
    for i in 1..=10u64 {
        tracker.push_priority_fee_for_txn(i, vec![], i, false);
    }
    let calc = Calculations::new_calculation1(vec![], false, false, Some(3));
    let data = calc.get_priority_fee_estimates(tracker.priority_fees());
    assert_eq!(bucket(&data, DataType::Global).unwrap(), vec![10, 9, 8]);
}

#[test]
fn zero_lookback_gives_empty_buckets() {
    let tracker = basic_tracker();
    let calc = Calculations::new_calculation1(vec![A], false, true, Some(0));
    let data = calc.get_priority_fee_estimates(tracker.priority_fees());
    assert_eq!(bucket(&data, DataType::Global), Some(vec![]));
    assert_eq!(bucket(&data, DataType::AllAccounts), Some(vec![]));
    let est = tracker.calculate_priority_fee(&calc);
    assert_eq!(est.min, None);
    assert_eq!(est.unsafe_max, None);
}

#[test]
fn percentiles_are_monotone() {
    let mut tracker = PriorityFeeTracker::new(4).unwrap();
    for (slot, fee) in [(1u64, 900u64), (1, 3), (2, 77), (2, 5), (3, 12), (3, 12), (4, 1000)] {
        tracker.push_priority_fee_for_txn(slot, vec![], fee, false);
    }
    let calc = Calculations::new_calculation1(vec![], false, false, None);
    let e = tracker.calculate_priority_fee(&calc);
    let levels = [e.min, e.low, e.medium, e.high, e.very_high, e.unsafe_max];
    for w in levels.windows(2) {
        assert!(w[0].unwrap() <= w[1].unwrap());
    }
    // sorted: 3 5 12 12 77 900 1000; p25: h = 1.5 -> 5 + 0.5 * 7 = 8.5
    assert_eq!(e.min, Some(300));
    assert_eq!(e.low, Some(850));
    assert_eq!(e.medium, Some(1200));
    assert_eq!(e.unsafe_max, Some(100000));
}

#[test]
fn more_buckets_never_lower_levels() {
    let mut tracker = PriorityFeeTracker::new(10).unwrap();
    tracker.push_priority_fee_for_txn(1, vec![A], 10, false);
    tracker.push_priority_fee_for_txn(1, vec![B], 500, false);
    tracker.push_priority_fee_for_txn(2, vec![], 40, false);
    let few = tracker.calculate_priority_fee(&Calculations::new_calculation2(vec![A], false, false, None));
    let more = tracker.calculate_priority_fee(&Calculations::new_calculation2(vec![A, B], false, false, None));
    let pairs = [
        (few.min, more.min),
        (few.low, more.low),
        (few.medium, more.medium),
        (few.high, more.high),
        (few.very_high, more.very_high),
        (few.unsafe_max, more.unsafe_max),
    ];
    for (a, b) in pairs {
        assert!(a.unwrap() <= b.unwrap());
    }
    assert_eq!(few.min, Some(1000));
    assert_eq!(more.min, Some(50000));
}

#[test]
fn unseen_account_bucket_follows_empty_slot_policy() {
    let mut tracker = PriorityFeeTracker::new(10).unwrap();
    tracker.push_priority_fee_for_txn(1, vec![A], 10, false);
    tracker.push_priority_fee_for_txn(2, vec![A], 30, false);
    let with = Calculations::new_calculation2(vec![C], false, true, None);
    let data = with.get_priority_fee_estimates(tracker.priority_fees());
    assert_eq!(bucket(&data, DataType::Account(C)), Some(vec![0, 0]));
    let without = Calculations::new_calculation2(vec![C], false, false, None);
    let data = without.get_priority_fee_estimates(tracker.priority_fees());
    assert_eq!(bucket(&data, DataType::Account(C)), None);
    assert_eq!(data.len(), 1);
}

#[test]
fn vote_fees_stay_out_unless_included() {
    let mut tracker = PriorityFeeTracker::new(10).unwrap();
    tracker.push_priority_fee_for_txn(1, vec![A], 10, false);
    tracker.push_priority_fee_for_txn(1, vec![A], 999, true);
    tracker.push_priority_fee_for_txn(2, vec![A], 777, true);
    let calc = Calculations::new_calculation2(vec![A], false, false, None);
    let data = calc.get_priority_fee_estimates(tracker.priority_fees());
    assert_eq!(bucket(&data, DataType::Global), Some(vec![10]));
    assert_eq!(bucket(&data, DataType::Account(A)), Some(vec![10]));
    let calc = Calculations::new_calculation1(vec![A], false, true, None);
    let data = calc.get_priority_fee_estimates(tracker.priority_fees());
    assert_eq!(bucket(&data, DataType::Global), Some(vec![10]));
    assert_eq!(bucket(&data, DataType::AllAccounts), Some(vec![10]));
    let calc = Calculations::new_calculation1(vec![A], true, false, None);
    let data = calc.get_priority_fee_estimates(tracker.priority_fees());
    assert_eq!(bucket(&data, DataType::Global), Some(vec![777, 999, 10]));
    assert_eq!(bucket(&data, DataType::AllAccounts), Some(vec![777, 999, 10]));
}

#[test]
fn combined_bucket_adds_one_zero_per_empty_slot() {
    let mut tracker = PriorityFeeTracker::new(10).unwrap();
    tracker.push_priority_fee_for_txn(1, vec![A], 10, false);
    tracker.push_priority_fee_for_txn(2, vec![C], 20, false);
    let calc = Calculations::new_calculation1(vec![A, B], false, true, None);
    let data = calc.get_priority_fee_estimates(tracker.priority_fees());
    assert_eq!(bucket(&data, DataType::AllAccounts), Some(vec![0, 10]));
}

#[test]
fn detailed_query_names_buckets() {
    let mut tracker = PriorityFeeTracker::new(10).unwrap();
    tracker.push_priority_fee_for_txn(1, vec![[0u8; 32]], 10, false);
    tracker.push_priority_fee_for_txn(1, vec![[0u8; 32]], 30, false);
    let calc = Calculations::new_calculation2(vec![[0u8; 32]], false, false, None);
    let (est, details) = tracker.calculate_priority_fee_details(&calc);
    assert_eq!(est.medium, Some(2000));
    assert_eq!(details.len(), 2);
    assert_eq!(details[0].0, "Global");
    assert_eq!(details[1].0, "11111111111111111111111111111111");
    assert_eq!(details[1].1.count, 2);
    assert_eq!(details[1].1.estimates.low, Some(1500));
    let calc = Calculations::new_calculation1(vec![], false, false, None);
    let (_, details) = tracker.calculate_priority_fee_details(&calc);
    assert_eq!(details[1].0, "All Accounts");
    assert_eq!(details[1].1.count, 0);
    assert_eq!(details[1].1.estimates.min, None);
}

#[test]
fn account_name_is_base58() {
    let mut key = [0u8; 32];
    key[31] = 1;
    assert_eq!(DataType::Account(key).name(), "11111111111111111111111111111112");
    assert_eq!(DataType::Global.name(), "Global");
}

#[test]
fn live_slots_and_zero_capacity() {
    assert!(PriorityFeeTracker::new(0).is_err());
    let mut tracker = PriorityFeeTracker::new(2).unwrap();
    tracker.push_priority_fee_for_txn(7, vec![], 1, false);
    tracker.push_priority_fee_for_txn(8, vec![], 1, false);
    tracker.push_priority_fee_for_txn(9, vec![], 1, false);
    assert_eq!(sorted(tracker.live_slots()), vec![8, 9]);
    assert_eq!(tracker.live_slot_count(), 2);
    assert!(tracker.priority_fees().get(7).is_none());
}

#[test]
fn lookback_size_is_capped() {
    assert_eq!(calculate_lookback_size(&None, 7), 7);
    assert_eq!(calculate_lookback_size(&Some(3), 7), 3);
    assert_eq!(calculate_lookback_size(&Some(30), 7), 7);
}

#[test]
fn account_listed_twice_is_recorded_once() {
    let mut tracker = PriorityFeeTracker::new(10).unwrap();
    tracker.push_priority_fee_for_txn(1, vec![A, A], 10, false);
    tracker.push_priority_fee_for_txn(1, vec![A, B, A], 20, false);
    let rec = tracker.priority_fees().get(1).unwrap();
    assert_eq!(rec.account_fees.get(&A).unwrap().non_vote_fees, vec![10, 20]);
    assert_eq!(rec.account_fees.get(&B).unwrap().non_vote_fees, vec![20]);
    assert_eq!(rec.fees.non_vote_fees, vec![10, 20]);
}

#[test]
fn repeated_account_gets_one_bucket() {
    let mut tracker = PriorityFeeTracker::new(10).unwrap();
    tracker.push_priority_fee_for_txn(1, vec![A], 10, false);
    tracker.push_priority_fee_for_txn(2, vec![B], 20, false);
    let calc = Calculations::new_calculation2(vec![A, B, A], false, true, None);
    let data = calc.get_priority_fee_estimates(tracker.priority_fees());
    assert_eq!(data.len(), 3);
    assert_eq!(data[1].data_type, DataType::Account(A));
    assert_eq!(data[1].fees, vec![0, 0, 10, 10]);
    assert_eq!(data[2].data_type, DataType::Account(B));
    assert_eq!(data[2].fees, vec![20, 0]);
    let (_, details) = tracker.calculate_priority_fee_details(&calc);
    assert_eq!(details.len(), 3);
}

#[test]
fn large_bucket_percentiles() {
    let mut tracker = PriorityFeeTracker::new(4).unwrap();
    for i in 0..50_000u64 {
        tracker.push_priority_fee_for_txn(i % 4, vec![], (i * 7919) % 50_000, false);
    }
    let calc = Calculations::new_calculation1(vec![], false, false, None);
    let e = tracker.calculate_priority_fee(&calc);
    assert_eq!(e.min, Some(0));
    assert_eq!(e.unsafe_max, Some(4_999_900));
    // a permutation of 0..50000: p50 at h = 24999.5
    assert_eq!(e.medium, Some(2_499_950));
}
