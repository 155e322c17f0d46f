//! Status of a fleet of message queues: per-queue counters, dead-letter
//! relationships, a bounded-concurrency gathering state machine and a
//! sorted, filtered report.

pub mod text;
pub mod redrive;
pub mod record;
pub mod gather;
pub mod report;
