//! Block-reward issuance and time-locked vesting for a proof-of-work chain.
//!
//! On every block a reward is determined from a height-indexed curve, split
//! between the block author and a fixed donation destination, and the
//! author's share is vested: only a small amount is immediately spendable,
//! the rest unlocks in equal tranches at day-aligned future heights. The
//! number of outstanding lock entries per account stays bounded.
//!
//! All monetary arithmetic saturates; nothing on the reward path can
//! overflow, underflow or panic.

pub mod applier;
pub mod arith;
pub mod config;
pub mod curve;
pub mod orchestrator;
pub mod schedule;
pub mod taxation;

pub use applier::AccountLockState;
pub use config::LockParams;
pub use config::RewardConfig;
pub use curve::RewardCurve;
pub use orchestrator::BlockOutcome;
pub use orchestrator::LedgerOp;
pub use orchestrator::RewardEvent;
pub use schedule::GenerateRewardLocks;
pub use schedule::LockPolicy;
pub use schedule::LockSchedule;
pub use taxation::TaxRate;
