//! Preemptive interleaving via timer signals.
//!
//! Mid-code preemption points for scheduler callbacks: a PMU counter fires a
//! signal after a random number of retired conditional branches (RBC), the
//! worker parks, and the [`PreemptRing`] passes execution to another worker.
//!
//! ## Determinism
//!
//! RBC counts only *retired* (committed) branches, not speculative ones: the same
//! code path produces the same branch count. Combined with PRNG-driven timeslice
//! selection, preemptive interleaving is deterministic: same seed → same
//! interleaving → same trace.
//!
//! State that belongs to one thread, or that all threads share, is a value that
//! the caller keeps and passes in.

pub mod checkpoint;
pub mod deferred;
pub mod record;
pub mod ring;
pub mod structop;
pub mod trace;
pub mod trace_laws;
pub mod yields;

pub use crate::maps::scheduler_so_base;
pub use checkpoint::{
    compare_checkpoints, drain_determinism_checkpoints, enable_determinism_mode, fnv1a_combine,
    fnv1a_hash_bytes, fnv1a_hash_u64, is_determinism_mode_enabled, record_checkpoint,
    CheckpointCollector, CheckpointDivergence, CheckpointEvent, DeterminismCheckpoint,
    DivergenceType,
};
pub use deferred::{maybe_yield_deferred, resume_deferred_yield};
pub use record::{
    drain_preemption_records, enable_preemption_collection, reset_preemption_sequence,
    PreemptionCollector, PreemptionRecord, PreemptionRecordStore, PreemptionSequence,
};
pub use ring::PreemptRing;
pub use structop::{
    inc_structop_kfunc, maybe_begin_structop, record_rbc_preemption, reset_structop_cpu_count,
    reset_structop_globals, seed_structop, structop_info, StructopGlobals, StructopInfo,
    StructopTracker,
};
pub use yields::{
    install, maybe_yield_preemptive, maybe_yield_preemptive_post, pause_timer, preempt_handler,
    read_rbc_count, record_yield, resume_timer, resume_yield, uninstall, KfuncYieldPhase, PendingYield,
    PreemptCtx, SimContext, YieldKind, YieldStep,
};
