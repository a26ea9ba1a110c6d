//! Preemptive interleaving of scheduler callbacks, verified.
//!
//! Worker threads run scheduler code one at a time and hand an execution token
//! to each other at pseudo-random points. This crate holds the parts of that
//! machinery that decide and compute:
//!
//! - [`preempt`]: preemption records, traces, determinism checkpoints, the token
//!   ring and the yield protocol.
//! - [`backend`]: how workers are instrumented, and their lifecycle.
//! - [`perf`]: PMU detection, event attributes and counter values.
//! - [`stalker`]: counting branches in software.
//! - [`maps`]: finding the scheduler library in the memory map.
//! - [`mod@fmt`]: trace output.
//! - [`order`]: stable sorting by sequence number.
//! - [`text`]: numbers, words and lines as characters.
//! - [`types`]: identifiers shared by all modules.

pub mod backend;
pub mod fmt;
pub mod maps;
pub mod order;
pub mod perf;
pub mod preempt;
pub mod stalker;
pub mod text;
pub mod types;
