//! Sliding-window priority fee aggregation and percentile estimation.
//!
//! A bounded window of recent slots decides which slots are live, a ledger
//! accumulates the fees of each live slot (globally and per account), and two
//! aggregation rules turn the ledger into fee samples whose percentiles are
//! folded into one estimate per priority level.

pub mod external;
pub mod model;
pub mod percentile;
pub mod calculation;
pub mod bucket_lemmas;

pub mod tracker;
pub mod level;
pub mod slot_cache;

pub use calculation::{BucketFees, Calculations, DataStats, DataType};
pub use external::Account;
pub use level::{Percentile, PriorityLevel, TransactionValidationError};
pub use model::{Fees, PriorityFeesBySlot, SlotPriorityFees};
pub use percentile::MicroLamportPriorityFeeEstimates;
pub use slot_cache::{InvalidCapacity, SlotCache};
pub use tracker::{MicroLamportPriorityFeeDetails, PriorityFeeTracker};
