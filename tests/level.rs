use priority_fee_core::{Percentile, PriorityLevel, TransactionValidationError};

#[test]
fn level_names_ignore_case_and_whitespace() {
    assert_eq!(PriorityLevel::from("  very_high \n".to_string()), PriorityLevel::VeryHigh);
    assert_eq!(PriorityLevel::from("none".to_string()), PriorityLevel::Min);
    assert_eq!(PriorityLevel::from("Low".to_string()), PriorityLevel::Low);
    assert_eq!(PriorityLevel::from("MEDIUM".to_string()), PriorityLevel::Medium);
    assert_eq!(PriorityLevel::from(" high".to_string()), PriorityLevel::High);
    assert_eq!(PriorityLevel::from("unsafe_max".to_string()), PriorityLevel::UnsafeMax);
    assert_eq!(PriorityLevel::from("whatever".to_string()), PriorityLevel::Default);
    assert_eq!(PriorityLevel::from("very high".to_string()), PriorityLevel::Default);
}

#[test]
fn levels_map_to_percentiles() {
    let p: Percentile = PriorityLevel::Min.into();
    assert_eq!(p, 0);
    assert_eq!(usize::from(PriorityLevel::Low), 25);
    assert_eq!(usize::from(PriorityLevel::Medium), 50);
    assert_eq!(usize::from(PriorityLevel::High), 75);
    assert_eq!(usize::from(PriorityLevel::VeryHigh), 95);
    assert_eq!(usize::from(PriorityLevel::UnsafeMax), 100);
    assert_eq!(usize::from(PriorityLevel::Default), 50);
}

#[test]
fn validation_error_reasons() {
    let r: &str = TransactionValidationError::TransactionFailed.into();
    assert_eq!(r, "txn_failed");
    let r: &str = TransactionValidationError::TransactionMissing.into();
    assert_eq!(r, "txn_missing");
    let r: &str = TransactionValidationError::MessageMissing.into();
    assert_eq!(r, "message_missing");
    let r: &str = TransactionValidationError::InvalidAccount.into();
    assert_eq!(r, "invalid_pubkey");
}
