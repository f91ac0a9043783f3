//! Background telemetry aggregation for low-level input-device activity.
//!
//! A raw stream of typed input notifications (pointer moves, wheel scrolls,
//! button and key presses) is reduced to four running counters, and the
//! counters are periodically captured, reset, and merged into an on-disk
//! snapshot that accumulates across process restarts.
//!
//! This crate holds the verified core: the per-event reduction rules, the
//! capture-and-reset step of a flush cycle, the merge rule that folds a flush
//! delta into a snapshot, and the snapshot text codec. Process plumbing (the
//! OS input hook, the event channel, timers, file handling, daemonization)
//! lives outside and hands the core plain values.

pub mod calendar;
pub mod codec;
pub mod persist;
pub mod processing;
pub mod types;
