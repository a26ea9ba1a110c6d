//! Hardware breakpoint replay preemption backend.
//!
//! Replays a recorded preemption trace: the PMU timer fires near a target, then a
//! hardware breakpoint catches the exact instruction. Falls back to
//! cooperative-only interleaving when PMU or hardware breakpoints are unavailable.

use vstd::prelude::*;

use crate::backend::pmu;
use crate::backend::pmu::setup_pmu_timer;
use crate::backend::worker;
use crate::backend::worker::StructopDelta;
use crate::perf::PmuEvent;
use crate::preempt::record::{copy_records, PreemptionRecord, RecordView};
use crate::preempt::structop::StructopInfo;
use crate::preempt::trace;
use crate::preempt::trace::PreemptionTrace;
use crate::preempt::trace_laws;
use crate::types::WorkerId;

verus! {

/// A worker's place in its recorded preemption points.
pub struct ReplayCursor {
    targets: Vec<PreemptionRecord>,
}

impl View for ReplayCursor {
    type V = Seq<RecordView>;

    /// The targets that are still ahead.
    closed spec fn view(&self) -> Seq<RecordView> {
        trace::views(self.targets@)
    }
}

impl ReplayCursor {
    /// A cursor at the first of the targets.
    pub fn new(targets: Vec<PreemptionRecord>) -> (r: ReplayCursor)
        ensures
            r@ == trace::views(targets@),
    {
        ReplayCursor { targets }
    }

    /// A cursor at the same place.
    pub fn copy(&self) -> (r: ReplayCursor)
        ensures
            r@ == self@,
    {
        ReplayCursor { targets: copy_records(self.targets.as_slice()) }
    }

    /// The number of targets.
    pub fn len(&self) -> (r: usize)
        ensures
            r == self@.len(),
    {
        self.targets.len()
    }

    /// The target that comes next, if any.
    pub fn current_target(&self) -> (r: Option<PreemptionRecord>)
        ensures
            match r {
                Some(t) => self@.len() > 0 && t@ == self@[0],
                None => self@.len() == 0,
            },
    {
        if self.targets.len() > 0 {
            Some(self.targets[0])
        } else {
            None
        }
    }
}

/// Context of a worker that replays a trace.
pub struct ReplayCtx {
    /// The worker.
    pub worker_id: WorkerId,
    /// The fd of the worker's PMU timer, negative if there is none.
    pub timer_fd: i32,
    /// The fd of the worker's breakpoint, negative if there is none.
    pub bp_fd: i32,
    /// The worker's place in its recorded preemption points.
    pub cursor: ReplayCursor,
}

/// The targets of a worker in a trace: none for a worker that is not in it.
pub open spec fn targets_of(t: trace::TraceView, w: int) -> Seq<RecordView> {
    if w < t.per_worker.len() {
        t.per_worker[w]
    } else {
        Seq::<RecordView>::empty()
    }
}

/// Hardware breakpoint replay preemption backend.
///
/// Each worker follows its recorded trace of preemption points.
pub struct ReplayBackend {
    cursors: Vec<ReplayCursor>,
    break_on: PmuEvent,
}

impl ReplayBackend {
    /// The targets of each worker.
    pub closed spec fn targets(self) -> Seq<Seq<RecordView>> {
        Seq::new(self.cursors@.len(), |w: int| self.cursors@[w]@)
    }

    /// The event that timed the recording.
    pub closed spec fn event(self) -> PmuEvent {
        self.break_on
    }

    /// Create a new replay backend from a recorded preemption trace.
    ///
    /// Builds per-worker cursors from the trace, one per dispatch CPU.
    pub fn new(trace: &PreemptionTrace, num_workers: usize) -> (r: ReplayBackend)
        ensures
            r.targets() == Seq::new(num_workers as nat, |w: int| targets_of(trace@, w)),
            r.event() == trace@.break_on,
            r.targets().len() == num_workers,
            forall|w: int|
                0 <= w < num_workers && w < trace@.per_worker.len() ==> #[trigger] r.targets()[w]
                    == trace@.per_worker[w],
            forall|w: int|
                trace@.per_worker.len() <= w < num_workers ==> (#[trigger] r.targets()[w]).len()
                    == 0,
    {
        let mut cursors: Vec<ReplayCursor> = Vec::new();
        let mut i: usize = 0;
        while i < num_workers
            invariant
                i <= num_workers,
                cursors@.len() == i,
                forall|w: int| 0 <= w < i ==> (#[trigger] cursors@[w])@ == targets_of(trace@, w),
            decreases num_workers - i,
        {
            let targets = copy_records(trace.worker_trace(WorkerId(i)));
            cursors.push(ReplayCursor::new(targets));
            i += 1;
        }
        let r = ReplayBackend { cursors, break_on: trace.break_on() };
        assert(r.targets() =~= Seq::new(num_workers as nat, |w: int| targets_of(trace@, w)));
        r
    }

    /// The event that timed the recording.
    pub fn break_on(&self) -> (r: PmuEvent)
        ensures
            r == self.event(),
    {
        self.break_on
    }

    /// The number of targets of a worker.
    pub fn target_count(&self, worker: WorkerId) -> (r: usize)
        requires
            worker.0 < self.targets().len(),
        ensures
            r == self.targets()[worker.0 as int].len(),
    {
        self.cursors[worker.0].len()
    }

    /// The context with which a worker replays its targets: the fds of its timer
    /// (see [`setup_pmu_timer`]) and of its breakpoint, -1 if there is none, and a
    /// cursor at the first of its targets.
    pub fn worker_setup(
        &self,
        worker: WorkerId,
        opened: Option<i32>,
        delivery_ok: bool,
        breakpoint: Option<i32>,
    ) -> (r: ReplayCtx)
        requires
            worker.0 < self.targets().len(),
        ensures
            r.worker_id == worker,
            r.timer_fd == pmu::timer_fd_of(false, opened, delivery_ok),
            r.bp_fd == match breakpoint {
                Some(fd) => fd as int,
                None => -1,
            },
            r.cursor@ == self.targets()[worker.0 as int],
            r.bp_fd == pmu::timer_fd_of(false, breakpoint, true),
    {
        let timer_fd: i32 = setup_pmu_timer(false, opened, delivery_ok);
        let bp_fd: i32 = match breakpoint {
            Some(fd) => fd,
            None => -1,
        };
        ReplayCtx { worker_id: worker, timer_fd, bp_fd, cursor: self.cursors[worker.0].copy() }
    }

    /// Whether a worker can be preempted at its targets: with a PMU timer and a
    /// breakpoint.
    pub fn can_replay(&self, timer_fd: i32, bp_fd: i32) -> (r: bool)
        ensures
            r == (timer_fd >= 0 && bp_fd >= 0),
    {
        timer_fd >= 0 && bp_fd >= 0
    }

    /// The timer to arm for a worker's first target and the target's RBC count, if
    /// the worker can be preempted and has a target.
    pub fn arm(&self, worker: WorkerId, timer_fd: i32, bp_fd: i32) -> (r: Option<(i32, u64)>)
        requires
            worker.0 < self.targets().len(),
        ensures
            r == if timer_fd >= 0 && bp_fd >= 0 && self.targets()[worker.0 as int].len() > 0 {
                Some((timer_fd, self.targets()[worker.0 as int][0].rbc_count))
            } else {
                None
            },
            r == armed_for(self.targets()[worker.0 as int], timer_fd, bp_fd),
    {
        if self.can_replay(timer_fd, bp_fd) {
            match self.cursors[worker.0].current_target() {
                Some(first) => Some((timer_fd, first.rbc_count)),
                None => None,
            }
        } else {
            None
        }
    }

    /// The accounting delta of a worker: its yields.
    pub fn disarm(&self, info: &StructopInfo) -> (r: StructopDelta)
        ensures
            r == worker::delta_of(0, *info),
    {
        StructopDelta { rbc_total: 0, interleave_count: info.interleave_count }
    }
}

// ---------------------------------------------------------------------------
// Laws
// ---------------------------------------------------------------------------

/// A replay leaves nothing out: each worker of the trace has as many targets as records
/// in the trace, and each target says what the record in its place says. A worker that
/// the trace does not know has no targets.
pub proof fn law_every_record_is_a_target(t: trace::TraceView, w: int, i: int)
    requires
        0 <= w,
    ensures
        w < t.per_worker.len() ==> targets_of(t, w).len() == t.per_worker[w].len(),
        w < t.per_worker.len() && 0 <= i < t.per_worker[w].len() ==> {
            let target = targets_of(t, w)[i];
            let record = t.per_worker[w][i];
            &&& target.rbc_count == record.rbc_count
            &&& target.instruction_pointer == record.instruction_pointer
            &&& target.cpu_id == record.cpu_id
            &&& target.worker_id == record.worker_id
            &&& target.sequence == record.sequence
            &&& target.structop_local == record.structop_local
            &&& target.structop_global == record.structop_global
            &&& target.structop_rbc == record.structop_rbc
            &&& target.ops_context == record.ops_context
            &&& target.kfunc_name == record.kfunc_name
        },
        w >= t.per_worker.len() ==> targets_of(t, w).len() == 0,
{
}

/// From the recording to the replay: the targets of a worker are the records that were
/// made on it, each as often as it was made, in the order of their numbers; records of
/// other workers are none of its targets.
pub proof fn law_targets_are_what_was_recorded(
    records: Seq<RecordView>,
    n: nat,
    event: PmuEvent,
    w: int,
    x: RecordView,
    i: int,
    j: int,
)
    requires
        0 <= w < n,
    ensures
        ({
            let targets = targets_of(trace::trace_of(records, n, event), w);
            &&& targets.to_multiset().count(x) == if x.worker_id.0 == w {
                records.to_multiset().count(x)
            } else {
                0
            }
            &&& 0 <= i < j < targets.len() ==> targets[i].sequence <= targets[j].sequence
        }),
{
    trace_laws::law_each_worker_gets_its_records(records, n, event, w, x, i, j);
}

/// The timer to arm and the count at which it fires, for the first of a worker's targets.
pub open spec fn armed_for(targets: Seq<RecordView>, timer_fd: i32, bp_fd: i32) -> Option<
    (i32, u64),
> {
    if timer_fd >= 0 && bp_fd >= 0 && targets.len() > 0 {
        Some((timer_fd, targets[0].rbc_count))
    } else {
        None
    }
}

/// A worker's timer is armed for its first target, exactly if it has a timer, a breakpoint
/// and a target.
pub proof fn law_timer_is_armed_for_the_first_target(
    first: RecordView,
    rest: Seq<RecordView>,
    timer_fd: i32,
    bp_fd: i32,
)
    ensures
        timer_fd >= 0 && bp_fd >= 0 ==> armed_for(seq![first] + rest, timer_fd, bp_fd) == Some(
            (timer_fd, first.rbc_count),
        ),
        timer_fd < 0 || bp_fd < 0 ==> armed_for(seq![first] + rest, timer_fd, bp_fd) is None,
        armed_for(Seq::<RecordView>::empty(), timer_fd, bp_fd) is None,
{
}

} // verus!
