//! Priority levels, as named by callers, and the percentile each stands for.
use crate::external::{trim_of, trim_str, upper_of, uppercase_str};
use vstd::prelude::*;

verus! {

/// Priority levels for fee estimation.
#[derive(Debug, Clone, Copy, PartialEq, Eq, Structural)]
pub enum PriorityLevel {
    /// 0th percentile
    Min,
    /// 25th percentile
    Low,
    /// 50th percentile
    Medium,
    /// 75th percentile
    High,
    /// 95th percentile
    VeryHigh,
    /// 100th percentile
    UnsafeMax,
    /// 50th percentile (default)
    Default,
}

/// A percentile, from 0 to 100.
pub type Percentile = usize;

/// The level named by an upper-case, trimmed name.
pub open spec fn level_named(u: Seq<char>) -> PriorityLevel {
    if u == "NONE"@ {
        PriorityLevel::Min
    } else if u == "LOW"@ {
        PriorityLevel::Low
    } else if u == "MEDIUM"@ {
        PriorityLevel::Medium
    } else if u == "HIGH"@ {
        PriorityLevel::High
    } else if u == "VERY_HIGH"@ {
        PriorityLevel::VeryHigh
    } else if u == "UNSAFE_MAX"@ {
        PriorityLevel::UnsafeMax
    } else {
        PriorityLevel::Default
    }
}

/// The percentile a level stands for.
pub open spec fn percentile_of_level(l: PriorityLevel) -> usize {
    match l {
        PriorityLevel::Min => 0,
        PriorityLevel::Low => 25,
        PriorityLevel::Medium => 50,
        PriorityLevel::High => 75,
        PriorityLevel::VeryHigh => 95,
        PriorityLevel::UnsafeMax => 100,
        PriorityLevel::Default => 50,
    }
}

fn same_text(a: &String, b: &str) -> (r: bool)
    ensures
        r == (a@ == b@),
{
    let owned: String = b.to_owned();
    *a == owned
}

impl From<String> for PriorityLevel {
    /// Reads a level name, ignoring case and surrounding whitespace; an
    /// unknown name gives `Default`.
    fn from(s: String) -> (r: PriorityLevel)
        ensures
            r == level_named(upper_of(trim_of(s@))),
    {
        let u = uppercase_str(trim_str(s.as_str()));
        proof {
            reveal_strlit("NONE");
            reveal_strlit("LOW");
            reveal_strlit("MEDIUM");
            reveal_strlit("HIGH");
            reveal_strlit("VERY_HIGH");
            reveal_strlit("UNSAFE_MAX");
        }
        if same_text(&u, "NONE") {
            PriorityLevel::Min
        } else if same_text(&u, "LOW") {
            PriorityLevel::Low
        } else if same_text(&u, "MEDIUM") {
            PriorityLevel::Medium
        } else if same_text(&u, "HIGH") {
            PriorityLevel::High
        } else if same_text(&u, "VERY_HIGH") {
            PriorityLevel::VeryHigh
        } else if same_text(&u, "UNSAFE_MAX") {
            PriorityLevel::UnsafeMax
        } else {
            PriorityLevel::Default
        }
    }
}

impl vstd::std_specs::convert::FromSpecImpl<String> for PriorityLevel {
    open spec fn obeys_from_spec() -> bool {
        true
    }

    open spec fn from_spec(v: String) -> PriorityLevel {
        level_named(upper_of(trim_of(v@)))
    }
}

impl From<PriorityLevel> for usize {
    /// The percentile a level stands for.
    fn from(val: PriorityLevel) -> (r: usize)
        ensures
            r == percentile_of_level(val),
    {
        match val {
            PriorityLevel::Min => 0,
            PriorityLevel::Low => 25,
            PriorityLevel::Medium => 50,
            PriorityLevel::High => 75,
            PriorityLevel::VeryHigh => 95,
            PriorityLevel::UnsafeMax => 100,
            PriorityLevel::Default => 50,
        }
    }
}

impl vstd::std_specs::convert::FromSpecImpl<PriorityLevel> for usize {
    open spec fn obeys_from_spec() -> bool {
        true
    }

    open spec fn from_spec(v: PriorityLevel) -> usize {
        percentile_of_level(v)
    }
}

/// Errors related to transaction validation and processing.
#[derive(Debug, Copy, Clone, PartialEq, Eq, Structural)]
pub enum TransactionValidationError {
    /// The transaction failed to process.
    TransactionFailed,
    /// The transaction is missing from the request.
    TransactionMissing,
    /// The message is missing from the transaction.
    MessageMissing,
    /// An invalid account was provided.
    InvalidAccount,
}

/// The reason code of a validation error.
pub open spec fn reason_of(e: TransactionValidationError) -> Seq<char> {
    match e {
        TransactionValidationError::TransactionFailed => "txn_failed"@,
        TransactionValidationError::TransactionMissing => "txn_missing"@,
        TransactionValidationError::MessageMissing => "message_missing"@,
        TransactionValidationError::InvalidAccount => "invalid_pubkey"@,
    }
}

impl From<TransactionValidationError> for &'static str {
    /// The reason code of the error.
    fn from(val: TransactionValidationError) -> (r: &'static str)
        ensures
            r@ == reason_of(val),
    {
        match val {
            TransactionValidationError::TransactionFailed => "txn_failed",
            TransactionValidationError::TransactionMissing => "txn_missing",
            TransactionValidationError::MessageMissing => "message_missing",
            TransactionValidationError::InvalidAccount => "invalid_pubkey",
        }
    }
}

impl vstd::std_specs::convert::FromSpecImpl<TransactionValidationError> for &'static str {
    open spec fn obeys_from_spec() -> bool {
        true
    }

    open spec fn from_spec(v: TransactionValidationError) -> &'static str {
        match v {
            TransactionValidationError::TransactionFailed => "txn_failed",
            TransactionValidationError::TransactionMissing => "txn_missing",
            TransactionValidationError::MessageMissing => "message_missing",
            TransactionValidationError::InvalidAccount => "invalid_pubkey",
        }
    }
}

} // verus!
