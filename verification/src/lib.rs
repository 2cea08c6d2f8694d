//! Stall detection for a managed program, observed from outside.
//!
//! The target publishes progress counters in one page of shared memory; a
//! monitor finds that page, samples the counters and reports the slots whose
//! counter stayed odd and unchanged for longer than an alert interval.

pub mod binding;
pub mod detector;
pub mod discovery;
pub mod layout;
pub mod log;
pub mod pool;
pub mod report;
pub mod shmem;
pub mod text;
pub mod trace;
pub mod watch;
