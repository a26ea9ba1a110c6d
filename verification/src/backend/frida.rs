//! Software RBC preemption backend.
//!
//! Conditional branches in the scheduler `.so` are counted in software by
//! callouts. This provides exact, deterministic branch counts without PMU
//! hardware support, making it suitable for VMs and containers.

use vstd::prelude::*;

use crate::backend::worker;
use crate::backend::worker::StructopDelta;
use crate::preempt::ring;
use crate::preempt::ring::{PreemptRing, RingView};
use crate::preempt::structop::StructopInfo;
use crate::preempt::yields;
use crate::preempt::yields::{install, PreemptCtx};
use crate::stalker;
use crate::stalker::{arm_software_rbc, disarm_software_rbc, SoftwareRbc, TextRange, DISARMED};
use crate::types::WorkerId;

verus! {

/// Software RBC preemption backend.
///
/// A per-thread countdown fires when the software branch counter expires,
/// yielding via the ring. No PMU timer or signal handler is needed.
#[derive(Debug, Clone, Copy, PartialEq, Eq, Structural)]
pub struct FridaBackend {
    pub text_range: TextRange,
    pub timeslice_min: u64,
    pub timeslice_max: u64,
}

impl FridaBackend {
    /// Create a new backend for the given code.
    pub fn new(text_range: TextRange, timeslice_min: u64, timeslice_max: u64) -> (r: FridaBackend)
        ensures
            r == (FridaBackend { text_range, timeslice_min, timeslice_max }),
    {
        FridaBackend { text_range, timeslice_min, timeslice_max }
    }

    /// Set a worker up for preemption: installs its context, without a timer.
    pub fn worker_setup(&self, slot: &mut Option<PreemptCtx>, worker_id: WorkerId)
        ensures
            *final(slot) == Some(
                PreemptCtx {
                    worker_id,
                    timer_fd: -1i32,
                    timeslice_min: self.timeslice_min,
                    timeslice_max: self.timeslice_max,
                },
            ),
            *final(slot) == Some(
                yields::context_of(worker_id, -1i32, self.timeslice_min, self.timeslice_max),
            ),
    {
        install(slot, worker_id, -1, self.timeslice_min, self.timeslice_max);
    }

    /// Arm the branch counter with a fresh random timeslice.
    pub fn arm(&self, state: &mut SoftwareRbc, ring: &mut PreemptRing)
        requires
            old(ring)@.wf(),
            self.timeslice_min <= self.timeslice_max,
            self.timeslice_max - self.timeslice_min < u64::MAX,
        ensures
            final(ring)@.wf(),
            final(ring)@ == if self.timeslice_min < self.timeslice_max {
                RingView { prng: ring::xorshift(old(ring)@.prng), ..old(ring)@ }
            } else {
                old(ring)@
            },
            ({
                let ts = ring::rolled(
                    ring::xorshift(old(ring)@.prng),
                    self.timeslice_min,
                    self.timeslice_max,
                );
                *final(state) == (SoftwareRbc {
                    counter: ts,
                    active: true,
                    text_base: self.text_range.base as u64,
                    current_timeslice: ts,
                    ..*old(state)
                })
            }),
            *final(state) == stalker::armed(
                *old(state),
                ring::rolled(
                    ring::xorshift(old(ring)@.prng),
                    self.timeslice_min,
                    self.timeslice_max,
                ),
                self.text_range.base as u64,
            ),
    {
        let ts: u64 = ring.roll_timeslice(self.timeslice_min, self.timeslice_max);
        arm_software_rbc(state, ts, self.text_range.base as u64);
    }

    /// Disarm the branch counter; returns the accounting delta of the worker, its
    /// yields.
    pub fn disarm(&self, state: &mut SoftwareRbc, info: &StructopInfo) -> (r: StructopDelta)
        ensures
            *final(state) == (SoftwareRbc {
                counter: DISARMED,
                active: false,
                yield_pending: false,
                text_base: 0,
                current_timeslice: 0,
                ..*old(state)
            }),
            r == worker::delta_of(0, *info),
            *final(state) == stalker::disarmed(*old(state)),
    {
        disarm_software_rbc(state);
        StructopDelta { rbc_total: 0, interleave_count: info.interleave_count }
    }
}

} // verus!
