//! Supervision, parsing and aggregation core for a fleet of miner worker
//! processes.
//!
//! The library holds the logic of the dashboard: turning raw worker output
//! lines into structured status records, merging record snapshots into a
//! keyed store, computing the rendered report's numbers, and the decisions
//! of the per-worker supervision loop.  Process spawning, channels, timers
//! and terminal drawing live outside the library and hand it plain values.

pub mod amount;
pub mod bootstrap;
pub mod interpret;
pub mod record;
pub mod report;
pub mod store;
pub mod supervisor;
pub mod text;
