//! PMU timer preemption backend.
//!
//! Hardware Performance Monitoring Unit (PMU) counters fire a signal after a
//! random number of retired conditional branches. Falls back to cooperative-only
//! interleaving when the PMU is unavailable (VMs, containers).

use vstd::prelude::*;

use crate::backend::worker;
use crate::backend::worker::StructopDelta;
use crate::perf::PmuEvent;
use crate::preempt::ring;
use crate::preempt::ring::{PreemptRing, RingView};
use crate::preempt::structop::StructopInfo;
use crate::preempt::yields;
use crate::preempt::yields::{install, PreemptCtx};
use crate::types::WorkerId;

verus! {

/// PMU timer preemption backend.
///
/// Each worker gets a per-thread PMU timer (fires a signal on RBC overflow) and a
/// separate RBC measurement counter (for structop accounting). When the PMU is
/// unavailable, workers still participate in the ring but only yield at
/// cooperative kfunc boundaries.
#[derive(Debug, Clone, Copy, PartialEq, Eq, Structural)]
pub struct PmuBackend {
    pub timeslice_min: u64,
    pub timeslice_max: u64,
    pub cooperative_only: bool,
    pub break_on: PmuEvent,
}

/// How a worker is preempted.
#[derive(Debug, Clone, Copy, PartialEq, Eq, Structural)]
pub enum WorkerMode {
    /// Only at kfunc boundaries, as configured.
    CooperativeByConfig,
    /// By a PMU timer.
    Timer,
    /// Only at kfunc boundaries for want of a PMU, although determinism is being
    /// verified: worth a warning.
    UnavailableInDeterminism,
    /// Only at kfunc boundaries for want of a PMU.
    Unavailable,
}

/// The fd of the timer for preemption signals, -1 if there is none to use.
pub open spec fn timer_fd_of(cooperative_only: bool, opened: Option<i32>, delivery_ok: bool) -> int {
    match opened {
        Some(fd) => if cooperative_only || !delivery_ok {
            -1
        } else {
            fd as int
        },
        None => -1,
    }
}

/// The fd of the timer for preemption signals.
///
/// `opened` is the fd of the timer that was created, if any, and `delivery_ok`
/// whether its signal delivery was set up. Returns -1 if `cooperative_only` is
/// true, the PMU is unavailable or signals cannot be delivered.
pub fn setup_pmu_timer(cooperative_only: bool, opened: Option<i32>, delivery_ok: bool) -> (r: i32)
    ensures
        r == timer_fd_of(cooperative_only, opened, delivery_ok),
{
    if cooperative_only {
        return -1;
    }
    match opened {
        Some(fd) => if delivery_ok {
            fd
        } else {
            -1
        },
        None => -1,
    }
}

impl PmuBackend {
    /// How a worker with the timer `timer_fd` is preempted.
    pub open spec fn mode(self, timer_fd: i32, determinism: bool) -> WorkerMode {
        if self.cooperative_only {
            WorkerMode::CooperativeByConfig
        } else if timer_fd >= 0 {
            WorkerMode::Timer
        } else if determinism {
            WorkerMode::UnavailableInDeterminism
        } else {
            WorkerMode::Unavailable
        }
    }

    /// How a worker with the timer `timer_fd` is preempted.
    pub fn worker_mode(&self, timer_fd: i32, determinism: bool) -> (r: WorkerMode)
        ensures
            r == self.mode(timer_fd, determinism),
    {
        if self.cooperative_only {
            WorkerMode::CooperativeByConfig
        } else if timer_fd >= 0 {
            WorkerMode::Timer
        } else if determinism {
            WorkerMode::UnavailableInDeterminism
        } else {
            WorkerMode::Unavailable
        }
    }

    /// Set a worker up for preemption, with the timer and the measurement counter
    /// that were created for it, if any.
    ///
    /// Installs the preemption context. Returns the fd of the timer that preempts
    /// the worker (see [`setup_pmu_timer`]), the fd of the counter that measures it,
    /// -1 if there is none, and how the worker is preempted.
    pub fn worker_setup(
        &self,
        slot: &mut Option<PreemptCtx>,
        worker_id: WorkerId,
        opened: Option<i32>,
        delivery_ok: bool,
        measure: Option<i32>,
        determinism: bool,
    ) -> (r: (i32, i32, WorkerMode))
        ensures
            r.0 == timer_fd_of(self.cooperative_only, opened, delivery_ok),
            r.1 == match measure {
                Some(fd) => fd as int,
                None => -1,
            },
            r.2 == self.mode(r.0, determinism),
            *final(slot) == Some(
                PreemptCtx {
                    worker_id,
                    timer_fd: r.0,
                    timeslice_min: self.timeslice_min,
                    timeslice_max: self.timeslice_max,
                },
            ),
            r.1 == timer_fd_of(false, measure, true),
            *final(slot) == Some(
                yields::context_of(worker_id, r.0, self.timeslice_min, self.timeslice_max),
            ),
    {
        let timer_fd: i32 = setup_pmu_timer(self.cooperative_only, opened, delivery_ok);
        // A worker is measured in every mode.
        let measure_fd: i32 = match measure {
            Some(fd) => fd,
            None => -1,
        };
        let mode = self.worker_mode(timer_fd, determinism);
        install(slot, worker_id, timer_fd, self.timeslice_min, self.timeslice_max);
        (timer_fd, measure_fd, mode)
    }

    /// The period with which to arm the timer before entering scheduler code;
    /// without a timer nothing is rolled.
    pub fn arm(&self, timer_fd: i32, ring: &mut PreemptRing) -> (r: Option<u64>)
        requires
            old(ring)@.wf(),
            timer_fd >= 0 ==> {
                &&& self.timeslice_min <= self.timeslice_max
                &&& self.timeslice_max - self.timeslice_min < u64::MAX
            },
        ensures
            final(ring)@.wf(),
            r == if timer_fd >= 0 {
                Some(
                    ring::rolled(
                        ring::xorshift(old(ring)@.prng),
                        self.timeslice_min,
                        self.timeslice_max,
                    ),
                )
            } else {
                None
            },
            final(ring)@ == if timer_fd >= 0 && self.timeslice_min < self.timeslice_max {
                RingView { prng: ring::xorshift(old(ring)@.prng), ..old(ring)@ }
            } else {
                old(ring)@
            },
            r == match yields::timer_to_rearm(
                old(ring)@,
                yields::context_of(
                    WorkerId(0),
                    timer_fd,
                    self.timeslice_min,
                    self.timeslice_max,
                ),
            ) {
                Some((_, period)) => Some(period),
                None => None,
            },
    {
        if timer_fd >= 0 {
            Some(ring.roll_timeslice(self.timeslice_min, self.timeslice_max))
        } else {
            None
        }
    }

    /// The accounting delta of a worker: what its measurement counter has read,
    /// zero if there is no counter or the read failed, and its yields.
    pub fn disarm(&self, measured: Option<u64>, info: &StructopInfo) -> (r: StructopDelta)
        ensures
            r == worker::delta_of(
                match measured {
                    Some(n) => n,
                    None => 0,
                },
                *info,
            ),
            r == worker::delta_of(branches_measured(measured), *info),
    {
        let rbc: u64 = match measured {
            Some(n) => n,
            None => 0,
        };
        StructopDelta { rbc_total: rbc, interleave_count: info.interleave_count }
    }
}

/// A worker has the timer that was opened for it, or none: none where cooperation is
/// asked for, where no timer could be opened, and where its signals do not arrive.
pub proof fn law_timer_is_used_where_it_works(cooperative_only: bool, fd: i32, delivery_ok: bool)
    ensures
        timer_fd_of(cooperative_only, None, delivery_ok) == -1,
        timer_fd_of(true, Some(fd), delivery_ok) == -1,
        timer_fd_of(cooperative_only, Some(fd), false) == -1,
        timer_fd_of(false, Some(fd), true) == fd,
{
}

/// A worker is preempted by a timer exactly if it has one and may use it. Without one it
/// cooperates, and that is worth a warning exactly if determinism is to be verified and
/// nobody has asked for it.
pub proof fn law_mode_follows_the_timer(backend: PmuBackend, timer_fd: i32, determinism: bool)
    ensures
        backend.mode(timer_fd, determinism) is Timer <==> !backend.cooperative_only && timer_fd >= 0,
        backend.mode(timer_fd, determinism) is CooperativeByConfig <==> backend.cooperative_only,
        backend.mode(timer_fd, determinism) is UnavailableInDeterminism
            <==> !backend.cooperative_only && timer_fd < 0 && determinism,
        backend.mode(timer_fd, determinism) is Unavailable <==> !backend.cooperative_only
            && timer_fd < 0 && !determinism,
{
}

/// The branches that a measurement counter has read, if there is one and it could be read.
pub open spec fn branches_measured(measured: Option<u64>) -> u64 {
    match measured {
        Some(n) => n,
        None => 0,
    }
}

/// What a measurement counter has read counts in full.
pub proof fn law_measurement_counts_in_full(n: u64, info: StructopInfo)
    ensures
        worker::delta_of(branches_measured(Some(n)), info).rbc_total == n,
        worker::delta_of(branches_measured(None), info).rbc_total == 0,
        worker::delta_of(branches_measured(Some(n)), info).interleave_count
            == info.interleave_count,
{
}

} // verus!
