//! Preemption backends: how workers are instrumented, and the lifecycle that all
//! workers share.
//!
//! A backend determines how worker threads are preempted during concurrent
//! scheduler execution: by a PMU timer ([`pmu`]), by replaying a recorded trace
//! ([`replay`]), or by counting branches in software ([`frida`]).

pub mod frida;
pub mod pmu;
pub mod replay;
pub mod round;
pub mod worker;

pub use worker::{assign_workers, drain_structop, RoundStep, StructopDelta, WorkerStep};
