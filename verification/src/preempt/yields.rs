//! Yield points: what happens when a worker gives up the token at a kfunc
//! boundary, on a timer signal or when its software counter has expired, and when
//! it gets the token back.
//!
//! A yield has two halves. The first saves the callback context, keeps the
//! counters and passes the token; then the caller blocks until the worker is
//! selected again; the second restores the context. What has to be done to the
//! PMU timer is handed back to the caller.

use vstd::prelude::*;

use crate::preempt::record;
use crate::preempt::record::{PreemptionCollector, PreemptionRecord, PreemptionSequence};
use crate::preempt::ring;
use crate::preempt::ring::{PreemptRing, RingView};
use crate::preempt::structop;
use crate::preempt::structop::{
    inc_interleave, inc_structop_kfunc, maybe_begin_structop, record_rbc_preemption, structop_info,
    StructopGlobals, StructopInfo, StructopTracker,
};
use crate::types::{CpuId, OpsContext, WorkerId};

verus! {

/// The per-callback context in the simulator state, which all workers share.
#[derive(Debug, Clone, Copy, PartialEq, Eq, Structural)]
pub struct SimContext {
    /// The CPU that the running worker simulates.
    pub current_cpu: CpuId,
    /// The callback that the running worker executes.
    pub ops_context: OpsContext,
    /// The address of the task that wakes another, zero for none.
    pub waker_task_raw: u64,
}

/// Context of a worker participating in preemptive interleaving.
#[derive(Debug, Clone, Copy, PartialEq, Eq, Structural)]
pub struct PreemptCtx {
    /// The worker.
    pub worker_id: WorkerId,
    /// Raw fd of the RBC timer, negative if there is none.
    pub timer_fd: i32,
    /// Timeslice range for re-arming the timer.
    pub timeslice_min: u64,
    pub timeslice_max: u64,
}

impl PreemptCtx {
    /// Whether the worker is one of a ring of `total` workers.
    pub open spec fn fits(self, total: nat) -> bool {
        self.worker_id.0 < total
    }

    /// Whether a timeslice for the timer can be rolled, if there is a timer.
    pub open spec fn can_roll(self) -> bool {
        self.timer_fd >= 0 ==> {
            &&& self.timeslice_min <= self.timeslice_max
            &&& self.timeslice_max - self.timeslice_min < u64::MAX
        }
    }
}

/// Install preemptive interleave context on a worker.
pub fn install(
    slot: &mut Option<PreemptCtx>,
    worker_id: WorkerId,
    timer_fd: i32,
    timeslice_min: u64,
    timeslice_max: u64,
)
    ensures
        *final(slot) == Some(
            PreemptCtx { worker_id, timer_fd, timeslice_min, timeslice_max },
        ),
        *final(slot) == Some(context_of(worker_id, timer_fd, timeslice_min, timeslice_max)),
{
    *slot = Some(PreemptCtx { worker_id, timer_fd, timeslice_min, timeslice_max });
}

/// Remove preemptive interleave context from a worker.
pub fn uninstall(slot: &mut Option<PreemptCtx>)
    ensures
        *final(slot) is None,
{
    *slot = None;
}

// ---------------------------------------------------------------------------
// Timer
// ---------------------------------------------------------------------------

/// The timer to disable, if there is one.
pub open spec fn timer_to_disable(fd: i32) -> Option<i32> {
    if fd < 0 {
        None
    } else {
        Some(fd)
    }
}

/// Disable the PMU timer. No-op if fd is negative (no timer).
///
/// Returns the fd to disable.
fn disable_timer(fd: i32) -> (r: Option<i32>)
    ensures
        r == timer_to_disable(fd),
{
    if fd < 0 {
        None
    } else {
        Some(fd)
    }
}

/// The timer to re-arm and its period, if there is a timer.
pub open spec fn timer_to_rearm(v: RingView, ctx: PreemptCtx) -> Option<(i32, u64)> {
    if ctx.timer_fd < 0 {
        None
    } else {
        Some(
            (
                ctx.timer_fd,
                ring::rolled(ring::xorshift(v.prng), ctx.timeslice_min, ctx.timeslice_max),
            ),
        )
    }
}

/// The ring after a timeslice has been rolled for the timer, if there is a timer.
pub open spec fn after_rearm(v: RingView, ctx: PreemptCtx) -> RingView {
    if ctx.timer_fd < 0 || ctx.timeslice_min == ctx.timeslice_max {
        v
    } else {
        RingView { prng: ring::xorshift(v.prng), ..v }
    }
}

/// Re-arm the PMU timer with a fresh random timeslice.
///
/// Returns the fd to reset and enable, and its new period. Without a timer
/// nothing is rolled.
fn rearm_timer(ring: &mut PreemptRing, ctx: &PreemptCtx) -> (r: Option<(i32, u64)>)
    requires
        old(ring)@.wf(),
        ctx.can_roll(),
    ensures
        final(ring)@.wf(),
        r == timer_to_rearm(old(ring)@, *ctx),
        final(ring)@ == after_rearm(old(ring)@, *ctx),
{
    let fd: i32 = ctx.timer_fd;
    if fd < 0 {
        return None;
    }
    let timeslice: u64 = ring.roll_timeslice(ctx.timeslice_min, ctx.timeslice_max);
    Some((fd, timeslice))
}

/// Pause the preemption timer to prevent signals during kfunc execution.
///
/// Returns the timer to disable. No-op if preemptive interleaving is not active
/// on the worker.
pub fn pause_timer(slot: &Option<PreemptCtx>) -> (r: Option<i32>)
    ensures
        r == match *slot {
            Some(ctx) => timer_to_disable(ctx.timer_fd),
            None => None,
        },
{
    match slot {
        Some(ctx) => disable_timer(ctx.timer_fd),
        None => None,
    }
}

/// Resume the preemption timer after kfunc execution completes.
///
/// Re-arms the PMU timer with a fresh random timeslice: returns the timer and its
/// period. No-op if preemptive interleaving is not active on the worker.
pub fn resume_timer(slot: &Option<PreemptCtx>, ring: &mut PreemptRing) -> (r: Option<(i32, u64)>)
    requires
        old(ring)@.wf(),
        *slot matches Some(ctx) ==> ctx.can_roll(),
    ensures
        final(ring)@.wf(),
        r == match *slot {
            Some(ctx) => timer_to_rearm(old(ring)@, ctx),
            None => None,
        },
        final(ring)@ == match *slot {
            Some(ctx) => after_rearm(old(ring)@, ctx),
            None => old(ring)@,
        },
{
    match slot {
        Some(ctx) => rearm_timer(ring, ctx),
        None => None,
    }
}

/// The RBC count that a read of the timer gave: zero if there is no timer or the
/// read failed (`ret` is negative).
pub fn read_rbc_count(timer_fd: i32, ret: i64, count: u64) -> (r: u64)
    ensures
        r == if timer_fd < 0 || ret < 0 {
            0
        } else {
            count
        },
        r == branches_read(timer_fd, ret, count),
{
    if timer_fd < 0 {
        return 0;
    }
    if ret < 0 {
        0
    } else {
        count
    }
}

// ---------------------------------------------------------------------------
// Yields
// ---------------------------------------------------------------------------

/// Whether a cooperative kfunc yield occurs before or after the kfunc body.
///
/// Pre-kfunc yields happen before the simulator state is accessed: the timer is
/// left disabled and [`resume_timer`] re-arms it later.
///
/// Post-kfunc yields happen after [`resume_timer`]: the timer was just re-armed,
/// so it is disabled before yielding and re-armed on resume.
#[derive(Debug, Clone, Copy, PartialEq, Eq, Structural)]
pub enum KfuncYieldPhase {
    /// Yield BEFORE the kfunc body executes.
    Pre,
    /// Yield AFTER the kfunc body completes.
    Post,
}

impl KfuncYieldPhase {
    /// The name of the phase in trace messages.
    pub open spec fn text(self) -> Seq<char> {
        match self {
            KfuncYieldPhase::Pre => "kfunc"@,
            KfuncYieldPhase::Post => "kfunc-post"@,
        }
    }

    /// The name of the phase in trace messages.
    pub fn to_string(&self) -> (r: String)
        ensures
            r@ == self.text(),
    {
        match self {
            KfuncYieldPhase::Pre => "kfunc".to_owned(),
            KfuncYieldPhase::Post => "kfunc-post".to_owned(),
        }
    }
}

/// What brought a worker to yield.
#[derive(Debug, Clone, Copy, PartialEq, Eq, Structural)]
pub enum YieldKind {
    /// A kfunc boundary.
    Kfunc(KfuncYieldPhase),
    /// A timer signal.
    Signal,
    /// A software counter that has expired.
    Deferred,
}

/// The steps of a yield, from the arrival at a yield point to the return from it.
#[derive(Debug, Clone, Copy, PartialEq, Eq, Structural)]
pub enum YieldStep {
    /// Disable the timer (see [`pause_timer`]), so that no signal comes while the
    /// yield is under way.
    PauseTimer,
    /// Save the context, keep the counters and select the next worker: the first half.
    Yield,
    /// Record a cooperative yield (see [`record_yield`]).
    Record,
    /// Wake the worker that has been selected, and wait to be selected again.
    HandOver,
    /// Restore the context (see [`resume_yield`]): the second half.
    Resume,
    /// Re-arm the timer, with the period that the second half has rolled.
    RearmTimer,
}

impl YieldStep {
    /// The position of a step in a yield.
    pub open spec fn position(self) -> int {
        match self {
            YieldStep::PauseTimer => 0,
            YieldStep::Yield => 1,
            YieldStep::Record => 2,
            YieldStep::HandOver => 3,
            YieldStep::Resume => 4,
            YieldStep::RearmTimer => 5,
        }
    }

    /// The last step: only a post-kfunc yield re-arms the timer.
    pub open spec fn last(kind: YieldKind) -> YieldStep {
        if kind == YieldKind::Kfunc(KfuncYieldPhase::Post) {
            YieldStep::RearmTimer
        } else {
            YieldStep::Resume
        }
    }

    /// Whether the timer is disabled when the step begins.
    pub open spec fn is_paused(self) -> bool {
        self.position() > YieldStep::PauseTimer.position()
    }

    /// Whether the worker holds the token when the step begins and until it ends.
    pub open spec fn has_token(self) -> bool {
        self != YieldStep::HandOver
    }

    /// Whether the step reads or writes the ring or the simulator state, which all
    /// workers share.
    pub open spec fn touches_state(self) -> bool {
        match self {
            YieldStep::Yield => true,
            YieldStep::Record => true,
            YieldStep::Resume => true,
            _ => false,
        }
    }

    /// The first step.
    pub fn first() -> (r: YieldStep)
        ensures
            r.position() == 0,
    {
        YieldStep::PauseTimer
    }

    /// The step of a yield after this one, `None` after the last.
    pub fn next(self, kind: YieldKind) -> (r: Option<YieldStep>)
        ensures
            match r {
                Some(s) => s.position() == self.position() + 1 && s.position()
                    <= YieldStep::last(kind).position(),
                None => self.position() >= YieldStep::last(kind).position(),
            },
    {
        match self {
            YieldStep::PauseTimer => Some(YieldStep::Yield),
            YieldStep::Yield => Some(YieldStep::Record),
            YieldStep::Record => Some(YieldStep::HandOver),
            YieldStep::HandOver => Some(YieldStep::Resume),
            YieldStep::Resume => match kind {
                YieldKind::Kfunc(KfuncYieldPhase::Post) => Some(YieldStep::RearmTimer),
                _ => None,
            },
            YieldStep::RearmTimer => None,
        }
    }
}

/// A worker that has passed the token on and waits to be selected again.
#[derive(Debug, Clone, Copy, PartialEq, Eq, Structural)]
pub struct PendingYield {
    /// What brought the worker to yield.
    pub kind: YieldKind,
    /// The context of the worker.
    pub ctx: PreemptCtx,
    /// The callback context to restore.
    pub saved: SimContext,
    /// The structop counters at the yield.
    pub sinfo: StructopInfo,
    /// The worker that has been selected and has to be woken.
    pub wake: Option<WorkerId>,
}

/// The structop counters of a worker at a cooperative yield.
pub open spec fn tracker_at_kfunc(t: StructopTracker, in_ops: bool) -> StructopTracker {
    let seen = structop::tracker_seen(t, in_ops);
    StructopTracker {
        kfunc_count: (seen.kfunc_count + 1) as u64,
        interleave_count: (seen.interleave_count + 1) as u64,
        ..seen
    }
}

/// The structop counters of a worker preempted after `rbc_count` branches.
pub open spec fn tracker_at_signal(t: StructopTracker, rbc_count: u64) -> StructopTracker {
    StructopTracker {
        rbc_total: (t.rbc_total + rbc_count) as u64,
        interleave_count: (t.interleave_count + 1) as u64,
        ..t
    }
}

/// Whether a worker is inside a callback.
pub open spec fn in_ops(sim: SimContext) -> bool {
    sim.ops_context != OpsContext::NoOps
}

/// Whether the structop counters have room for a cooperative yield inside or
/// outside a callback.
pub open spec fn has_room(t: StructopTracker, inside: bool) -> bool {
    &&& inside && !t.in_structop ==> t.cpu_count < u64::MAX
    &&& t.kfunc_count < u64::MAX
    &&& t.interleave_count < u64::MAX
}

/// The ring after a worker's cooperative yield.
pub open spec fn ring_after_kfunc(v: RingView, w: int) -> RingView {
    RingView {
        cooperative_yield_count: structop::wrapping_next(v.cooperative_yield_count),
        ..v
    }.parked(w).passed()
}

/// Cooperative yield point for kfunc entry: the first half.
///
/// The PMU timer is disabled on entry (see [`pause_timer`]) and stays disabled on
/// return; [`resume_timer`] re-arms it before returning to scheduler code. No-op
/// if preemptive interleaving is not active on the worker.
///
/// What is recorded of the yield, [`record_yield`] records.
pub fn maybe_yield_preemptive(
    slot: &Option<PreemptCtx>,
    ring: &mut PreemptRing,
    sim: &SimContext,
    tracker: &mut StructopTracker,
    globals: &mut StructopGlobals,
) -> (r: Option<PendingYield>)
    requires
        old(ring)@.wf(),
        *slot matches Some(ctx) ==> ctx.fits(old(ring)@.running.len()) && has_room(
            *old(tracker),
            in_ops(*sim),
        ),
    ensures
        final(ring)@.wf(),
        yields_at_kfunc(
            KfuncYieldPhase::Pre,
            *slot,
            *sim,
            old(ring)@,
            final(ring)@,
            *old(tracker),
            *final(tracker),
            *old(globals),
            *final(globals),
            r,
        ),
        *slot is Some ==> {
            &&& final(tracker).kfunc_count == old(tracker).kfunc_count + 1
            &&& final(tracker).interleave_count == old(tracker).interleave_count + 1
            &&& final(tracker).in_structop == !(sim.ops_context is NoOps)
            &&& !(sim.ops_context is NoOps) && !old(tracker).in_structop
                ==> final(tracker).cpu_count == old(tracker).cpu_count + 1
            &&& r matches Some(p) && p.saved == *sim && p.ctx == slot->0
        },
{
    cooperative_yield_impl(KfuncYieldPhase::Pre, slot, ring, sim, tracker, globals)
}

/// Post-kfunc cooperative yield point: the first half.
///
/// Called after [`resume_timer`]. The timer was just re-armed, so it has to be
/// disabled before yielding (see [`pause_timer`]) and is re-armed on resume. This
/// gives a guaranteed interleaving point after every kfunc completes, catching
/// concurrency bugs that only manifest when another worker runs between
/// consecutive kfuncs.
pub fn maybe_yield_preemptive_post(
    slot: &Option<PreemptCtx>,
    ring: &mut PreemptRing,
    sim: &SimContext,
    tracker: &mut StructopTracker,
    globals: &mut StructopGlobals,
) -> (r: Option<PendingYield>)
    requires
        old(ring)@.wf(),
        *slot matches Some(ctx) ==> ctx.fits(old(ring)@.running.len()) && has_room(
            *old(tracker),
            in_ops(*sim),
        ),
    ensures
        final(ring)@.wf(),
        yields_at_kfunc(
            KfuncYieldPhase::Post,
            *slot,
            *sim,
            old(ring)@,
            final(ring)@,
            *old(tracker),
            *final(tracker),
            *old(globals),
            *final(globals),
            r,
        ),
        *slot is Some ==> {
            &&& final(tracker).kfunc_count == old(tracker).kfunc_count + 1
            &&& final(tracker).interleave_count == old(tracker).interleave_count + 1
            &&& final(tracker).in_structop == !(sim.ops_context is NoOps)
            &&& !(sim.ops_context is NoOps) && !old(tracker).in_structop
                ==> final(tracker).cpu_count == old(tracker).cpu_count + 1
            &&& r matches Some(p) && p.saved == *sim && p.ctx == slot->0
        },
{
    cooperative_yield_impl(KfuncYieldPhase::Post, slot, ring, sim, tracker, globals)
}

/// What a cooperative yield does: it counts the yield and a structop that begins
/// with it, saves the callback context and passes the token. Without a context
/// nothing happens.
pub open spec fn yields_at_kfunc(
    phase: KfuncYieldPhase,
    slot: Option<PreemptCtx>,
    sim: SimContext,
    ring: RingView,
    ring_after: RingView,
    t: StructopTracker,
    t_after: StructopTracker,
    g: StructopGlobals,
    g_after: StructopGlobals,
    r: Option<PendingYield>,
) -> bool {
    match slot {
        None => {
            &&& r is None
            &&& ring_after == ring
            &&& t_after == t
            &&& g_after == g
        },
        Some(ctx) => {
            &&& ring_after == ring_after_kfunc(ring, ctx.worker_id.0 as int)
            &&& t_after == tracker_at_kfunc(t, in_ops(sim))
            &&& g_after == structop::globals_seen(t, g, in_ops(sim))
            &&& r matches Some(p) && {
                &&& p.kind == YieldKind::Kfunc(phase)
                &&& p.ctx == ctx
                &&& p.saved == sim
                &&& p.sinfo == structop::snapshot(t_after, g_after)
                &&& selects(ring, p.wake)
            }
        },
    }
}

/// Whether `wake` is the worker that the ring selects next.
pub open spec fn selects(v: RingView, wake: Option<WorkerId>) -> bool {
    match wake {
        Some(w) => v.next() == Some(w.0 as nat) && w.0 < v.running.len(),
        None => v.next() is None,
    }
}

/// Shared implementation for pre- and post-kfunc cooperative yields.
fn cooperative_yield_impl(
    phase: KfuncYieldPhase,
    slot: &Option<PreemptCtx>,
    ring: &mut PreemptRing,
    sim: &SimContext,
    tracker: &mut StructopTracker,
    globals: &mut StructopGlobals,
) -> (r: Option<PendingYield>)
    requires
        old(ring)@.wf(),
        *slot matches Some(ctx) ==> ctx.fits(old(ring)@.running.len()) && has_room(
            *old(tracker),
            in_ops(*sim),
        ),
    ensures
        final(ring)@.wf(),
        yields_at_kfunc(
            phase,
            *slot,
            *sim,
            old(ring)@,
            final(ring)@,
            *old(tracker),
            *final(tracker),
            *old(globals),
            *final(globals),
            r,
        ),
{
    let ctx: PreemptCtx = match slot {
        Some(ctx) => *ctx,
        None => {
            return None;
        },
    };
    // Save per-callback context from the simulator state.
    let saved: SimContext = *sim;
    // Detect structop boundary transitions.
    maybe_begin_structop(tracker, globals, saved.ops_context != OpsContext::NoOps);
    inc_structop_kfunc(tracker);
    inc_interleave(tracker);
    let sinfo = structop_info(tracker, globals);
    // Release token.
    ring.inc_cooperative_yield();
    let wake = ring.yield_token(ctx.worker_id);
    Some(PendingYield { kind: YieldKind::Kfunc(phase), ctx, saved, sinfo, wake })
}

/// The ring after a worker's preemptive yield, but for the records.
pub open spec fn ring_after_signal(v: RingView, w: int) -> RingView {
    RingView {
        signal_preempt_count: structop::wrapping_next(v.signal_preempt_count),
        ..v
    }.parked(w).passed()
}

/// What the record of a preemption changes: if `rec` finds room in the ring, it
/// stands last in the ring and in the collector, if that is enabled, and has used up
/// a sequence number; else nothing changes.
pub open spec fn records(
    rec: record::RecordView,
    ring: RingView,
    ring_after: RingView,
    seq: PreemptionSequence,
    seq_after: PreemptionSequence,
    collected: Option<Seq<PreemptionRecord>>,
    collected_after: Option<Seq<PreemptionRecord>>,
) -> bool {
    if ring.records.len() < record::MAX_PREEMPTION_RECORDS {
        &&& ring_after.records.len() == ring.records.len() + 1
        &&& ring_after.records.drop_last() == ring.records
        &&& ring_after.records.last()@ == rec
        &&& seq_after.next == structop::wrapping_next(seq.next)
        &&& match (collected, collected_after) {
            (Some(before), Some(after)) => after.len() == before.len() + 1 && after.drop_last()
                == before && after.last()@ == rec,
            (None, None) => true,
            _ => false,
        }
    } else {
        &&& ring_after.records == ring.records
        &&& seq_after == seq
        &&& collected_after == collected
    }
}

/// What a preemptive yield does, at the instruction `rip` after `rbc_count` branches:
/// it counts the yield and the branches, records the preemption point with its
/// structop context, saves the callback context and passes the token.
pub open spec fn preempts(
    kind: YieldKind,
    ctx: PreemptCtx,
    sim: SimContext,
    rip: u64,
    rbc_count: u64,
    ring: RingView,
    ring_after: RingView,
    t: StructopTracker,
    t_after: StructopTracker,
    g: StructopGlobals,
    seq: PreemptionSequence,
    seq_after: PreemptionSequence,
    collected: Option<Seq<PreemptionRecord>>,
    collected_after: Option<Seq<PreemptionRecord>>,
    r: Option<PendingYield>,
) -> bool {
    let sinfo = structop::snapshot(t_after, g);
    let rec = record::record_of(rbc_count, rip, sim.current_cpu, ctx.worker_id, sinfo, seq.next);
    &&& t_after == tracker_at_signal(t, rbc_count)
    &&& ring_after == (RingView {
        records: ring_after.records,
        ..ring_after_signal(ring, ctx.worker_id.0 as int)
    })
    &&& records(rec, ring, ring_after, seq, seq_after, collected, collected_after)
    &&& r == Some(PendingYield { kind, ctx, saved: sim, sinfo, wake: r->0.wake })
    &&& selects(ring, r->0.wake)
}

/// Preemptive yield on a timer signal: the first half.
///
/// `rip` is the interrupted instruction and `rbc_count` what the timer has
/// counted; both are captured after the timer is disabled (see [`pause_timer`]),
/// before any other work. Records the preemption point with its structop context.
/// No-op if preemptive interleaving is not active on the worker, or outside the
/// simulator (`sim` is `None`).
pub fn preempt_handler(
    slot: &Option<PreemptCtx>,
    ring: &mut PreemptRing,
    sim: Option<SimContext>,
    rip: u64,
    rbc_count: u64,
    tracker: &mut StructopTracker,
    globals: &StructopGlobals,
    sequence: &mut PreemptionSequence,
    collector: &mut PreemptionCollector,
) -> (r: Option<PendingYield>)
    requires
        old(ring)@.wf(),
        *slot matches Some(ctx) ==> sim is Some ==> {
            &&& ctx.fits(old(ring)@.running.len())
            &&& old(tracker).rbc_total + rbc_count <= u64::MAX
            &&& old(tracker).interleave_count < u64::MAX
        },
    ensures
        final(ring)@.wf(),
        match (*slot, sim) {
            (Some(ctx), Some(saved)) => preempts(
                YieldKind::Signal,
                ctx,
                saved,
                rip,
                rbc_count,
                old(ring)@,
                final(ring)@,
                *old(tracker),
                *final(tracker),
                *globals,
                *old(sequence),
                *final(sequence),
                old(collector)@,
                final(collector)@,
                r,
            ),
            _ => {
                &&& r is None
                &&& final(ring)@ == old(ring)@
                &&& *final(tracker) == *old(tracker)
                &&& *final(sequence) == *old(sequence)
                &&& final(collector)@ == old(collector)@
            },
        },
        *slot is Some && sim is Some ==> {
            &&& final(tracker).rbc_total == old(tracker).rbc_total + rbc_count
            &&& final(tracker).interleave_count == old(tracker).interleave_count + 1
            &&& r matches Some(p) && p.saved == sim->0 && p.ctx == slot->0
            &&& old(ring)@.records.len() < record::MAX_PREEMPTION_RECORDS ==> {
                let rec = final(ring)@.records.last();
                &&& rec.rbc_count == rbc_count
                &&& rec.instruction_pointer == rip
                &&& rec.worker_id == slot->0.worker_id
                &&& rec.cpu_id == sim->0.current_cpu
            }
        },
{
    let ctx: PreemptCtx = match slot {
        Some(ctx) => *ctx,
        None => {
            return None;
        },
    };
    let saved: SimContext = match sim {
        Some(saved) => saved,
        None => {
            return None;
        },
    };
    Some(
        preemptive_yield(
            YieldKind::Signal,
            ctx,
            ring,
            saved,
            rip,
            rbc_count,
            tracker,
            globals,
            sequence,
            collector,
        ),
    )
}

/// Shared implementation of the yields that are not cooperative.
pub(crate) fn preemptive_yield(
    kind: YieldKind,
    ctx: PreemptCtx,
    ring: &mut PreemptRing,
    saved: SimContext,
    rip: u64,
    rbc_count: u64,
    tracker: &mut StructopTracker,
    globals: &StructopGlobals,
    sequence: &mut PreemptionSequence,
    collector: &mut PreemptionCollector,
) -> (r: PendingYield)
    requires
        old(ring)@.wf(),
        ctx.fits(old(ring)@.running.len()),
        old(tracker).rbc_total + rbc_count <= u64::MAX,
        old(tracker).interleave_count < u64::MAX,
    ensures
        final(ring)@.wf(),
        preempts(
            kind,
            ctx,
            saved,
            rip,
            rbc_count,
            old(ring)@,
            final(ring)@,
            *old(tracker),
            *final(tracker),
            *globals,
            *old(sequence),
            *final(sequence),
            old(collector)@,
            final(collector)@,
            Some(r),
        ),
{
    // Track structop RBC.
    record_rbc_preemption(tracker, rbc_count);
    inc_interleave(tracker);
    let sinfo = structop_info(tracker, globals);
    // Record the preemption point (with structop context).
    let _ = ring.record_preemption(
        sequence,
        collector,
        rbc_count,
        rip,
        saved.current_cpu,
        ctx.worker_id,
        sinfo,
    );
    // Yield token.
    ring.inc_signal_preempt();
    let wake = ring.yield_token(ctx.worker_id);
    assert(selects(old(ring)@, wake));
    PendingYield { kind, ctx, saved, sinfo, wake }
}

/// Record a cooperative yield, before the token is handed to the worker that has
/// been selected.
///
/// There is no timeslice and no interrupted instruction at a kfunc boundary: both
/// are recorded as 0. The other yields have been recorded already (see
/// [`preempt_handler`]), so nothing is done for them. Returns the sequence number
/// assigned, or `None` if nothing is recorded.
pub fn record_yield(
    pending: &PendingYield,
    ring: &mut PreemptRing,
    sequence: &mut PreemptionSequence,
    collector: &mut PreemptionCollector,
) -> (r: Option<u64>)
    requires
        old(ring)@.wf(),
    ensures
        final(ring)@.wf(),
        final(ring)@ == (RingView { records: final(ring)@.records, ..old(ring)@ }),
        if pending.kind is Kfunc {
            &&& records(
                cooperative_record(*pending, old(sequence).next),
                old(ring)@,
                final(ring)@,
                *old(sequence),
                *final(sequence),
                old(collector)@,
                final(collector)@,
            )
            &&& r == if old(ring)@.records.len() < record::MAX_PREEMPTION_RECORDS {
                Some(old(sequence).next)
            } else {
                None
            }
        } else {
            &&& r is None
            &&& final(ring)@ == old(ring)@
            &&& *final(sequence) == *old(sequence)
            &&& final(collector)@ == old(collector)@
        },
{
    match pending.kind {
        YieldKind::Kfunc(_) => ring.record_preemption(
            sequence,
            collector,
            0,
            0,
            pending.saved.current_cpu,
            pending.ctx.worker_id,
            pending.sinfo,
        ),
        _ => None,
    }
}

/// The second half of a yield, when the worker has been selected again: restores
/// the callback context.
///
/// Returns the timer to re-arm and its period, which only a post-kfunc yield
/// does. A pre-kfunc yield leaves the timer to [`resume_timer`]. So does a signal:
/// with small timeslices, re-arming on the way out of the handler would have the
/// timer overflow before the interrupted code advances.
pub fn resume_yield(
    pending: &PendingYield,
    ring: &mut PreemptRing,
    sim: &mut SimContext,
) -> (r: Option<(i32, u64)>)
    requires
        old(ring)@.wf(),
        pending.kind == YieldKind::Kfunc(KfuncYieldPhase::Post) ==> pending.ctx.can_roll(),
    ensures
        final(ring)@.wf(),
        *final(sim) == pending.saved,
        if pending.kind == YieldKind::Kfunc(KfuncYieldPhase::Post) {
            &&& r == timer_to_rearm(old(ring)@, pending.ctx)
            &&& final(ring)@ == after_rearm(old(ring)@, pending.ctx)
        } else {
            &&& r is None
            &&& final(ring)@ == old(ring)@
        },
        *final(sim) == restored(*pending, *old(sim)),
        r == timer_on_resume(*pending, old(ring)@),
        final(ring)@ == ring_on_resume(*pending, old(ring)@),
{
    *sim = pending.saved;
    match pending.kind {
        YieldKind::Kfunc(KfuncYieldPhase::Post) => rearm_timer(ring, &pending.ctx),
        _ => None,
    }
}

// ---------------------------------------------------------------------------
// Laws
// ---------------------------------------------------------------------------

/// A yield pauses the timer before anything else and re-arms it after everything
/// else: it is disabled while the token is passed, while the worker waits and while
/// its context is restored. The yield is recorded before the token is handed over,
/// and shared state is touched only under the token.
pub proof fn law_timer_is_paused_while_yielding(s: YieldStep, t: YieldStep)
    ensures
        s.position() == t.position() ==> s == t,
        s != YieldStep::PauseTimer ==> s.is_paused(),
        s != YieldStep::PauseTimer && s != YieldStep::RearmTimer
            ==> YieldStep::PauseTimer.position() < s.position()
            < YieldStep::RearmTimer.position(),
        YieldStep::Yield.position() < YieldStep::Record.position()
            < YieldStep::HandOver.position() < YieldStep::Resume.position(),
        s.touches_state() ==> s.has_token() && s.is_paused(),
{
}

/// Cooperative and preemptive yields count as interleavings, only cooperative ones
/// as kfunc yields, and only preemptive ones add branches.
pub proof fn law_yields_are_counted(t: StructopTracker, inside: bool, rbc_count: u64)
    requires
        has_room(t, inside),
        t.rbc_total + rbc_count <= u64::MAX,
    ensures
        tracker_at_kfunc(t, inside).interleave_count == t.interleave_count + 1,
        tracker_at_kfunc(t, inside).kfunc_count == t.kfunc_count + 1,
        tracker_at_kfunc(t, inside).rbc_total == t.rbc_total,
        tracker_at_signal(t, rbc_count).interleave_count == t.interleave_count + 1,
        tracker_at_signal(t, rbc_count).kfunc_count == t.kfunc_count,
        tracker_at_signal(t, rbc_count).rbc_total == t.rbc_total + rbc_count,
        tracker_at_signal(t, rbc_count).cpu_count == t.cpu_count,
{
}

/// A yield as the structop counters see it.
pub enum CountedYield {
    /// At a kfunc boundary, inside or outside a callback.
    Cooperative(bool),
    /// After a number of branches.
    Preemptive(u64),
}

/// The structop counters of a worker after a series of yields.
pub open spec fn tracker_after_yields(
    t: StructopTracker,
    ys: Seq<CountedYield>,
) -> StructopTracker
    decreases ys.len(),
{
    if ys.len() == 0 {
        t
    } else {
        let before = tracker_after_yields(t, ys.drop_last());
        match ys.last() {
            CountedYield::Cooperative(inside) => tracker_at_kfunc(before, inside),
            CountedYield::Preemptive(rbc_count) => tracker_at_signal(before, rbc_count),
        }
    }
}

/// A series of yields of any kinds counts as that many interleavings.
pub proof fn law_yields_add_up(t: StructopTracker, ys: Seq<CountedYield>)
    requires
        t.interleave_count + ys.len() <= u64::MAX,
    ensures
        tracker_after_yields(t, ys).interleave_count == t.interleave_count + ys.len(),
    decreases ys.len(),
{
    if ys.len() > 0 {
        law_yields_add_up(t, ys.drop_last());
    }
}

/// A yield of either kind passes the token as the ring does: if `me` alone holds
/// it before, the chosen worker alone holds it after.
pub proof fn law_yields_pass_token(v: RingView, me: int, w: int)
    requires
        v.wf(),
        0 <= me < v.running.len(),
        forall|u: int| #[trigger] v.holds_token(u) ==> u == me,
        !v.all_done,
    ensures
        v.next() is Some,
        ring_after_kfunc(v, me).holds_token(w) <==> v.next() == Some(w as nat) && w >= 0,
        ring_after_signal(v, me).holds_token(w) <==> v.next() == Some(w as nat) && w >= 0,
{
    ring::law_yield_passes_token(v, me, w);
    let a = RingView {
        cooperative_yield_count: structop::wrapping_next(v.cooperative_yield_count),
        ..v
    };
    let b = RingView {
        signal_preempt_count: structop::wrapping_next(v.signal_preempt_count),
        ..v
    };
    assert forall|u: int| #[trigger] a.holds_token(u) implies u == me by {
        assert(v.holds_token(u));
    }
    assert forall|u: int| #[trigger] b.holds_token(u) implies u == me by {
        assert(v.holds_token(u));
    }
    ring::law_yield_passes_token(a, me, w);
    ring::law_yield_passes_token(b, me, w);
}

// ---------------------------------------------------------------------------
// What a yield does, field by field
// ---------------------------------------------------------------------------

/// Every callback begins a structop: a cooperative yield of a worker that was outside
/// one raises its count and the global one by one and leaves it inside, whichever the
/// callback is. Inside a structop nothing is added. Only without a callback is the worker
/// outside.
pub proof fn law_every_callback_begins_a_structop(
    phase: KfuncYieldPhase,
    ctx: PreemptCtx,
    sim: SimContext,
    ring: RingView,
    ring_after: RingView,
    t: StructopTracker,
    t_after: StructopTracker,
    g: StructopGlobals,
    g_after: StructopGlobals,
    r: Option<PendingYield>,
)
    requires
        yields_at_kfunc(phase, Some(ctx), sim, ring, ring_after, t, t_after, g, g_after, r),
        t.cpu_count < u64::MAX,
        g.global_count < u64::MAX,
    ensures
        match sim.ops_context {
            OpsContext::SelectCpu | OpsContext::Enqueue | OpsContext::Dispatch | OpsContext::Running
            | OpsContext::Stopping | OpsContext::Tick => {
                &&& t_after.in_structop
                &&& !t.in_structop ==> t_after.cpu_count == t.cpu_count + 1
                &&& !t.in_structop ==> g_after.global_count == g.global_count + 1
                &&& t.in_structop ==> t_after.cpu_count == t.cpu_count
                &&& t.in_structop ==> g_after.global_count == g.global_count
            },
            OpsContext::NoOps => {
                &&& !t_after.in_structop
                &&& t_after.cpu_count == t.cpu_count
                &&& g_after.global_count == g.global_count
            },
        },
{
}

/// A cooperative yield counts itself once in each of the worker's two yield counts and
/// in the ring's count of such yields, adds no branches and records nothing. It keeps
/// the callback context for the resumption, shows the counters as they are after it,
/// and passes the token as the ring does.
pub proof fn law_cooperative_yield(
    phase: KfuncYieldPhase,
    ctx: PreemptCtx,
    sim: SimContext,
    ring: RingView,
    ring_after: RingView,
    t: StructopTracker,
    t_after: StructopTracker,
    g: StructopGlobals,
    g_after: StructopGlobals,
    r: Option<PendingYield>,
    u: int,
)
    requires
        yields_at_kfunc(phase, Some(ctx), sim, ring, ring_after, t, t_after, g, g_after, r),
        ring.wf(),
        !ring.all_done,
        ctx.worker_id.0 < ring.running.len(),
        0 <= u < ring.running.len(),
        t.kfunc_count < u64::MAX,
        t.interleave_count < u64::MAX,
        ring.cooperative_yield_count < u64::MAX,
    ensures
        t_after.kfunc_count == t.kfunc_count + 1,
        t_after.interleave_count == t.interleave_count + 1,
        t_after.rbc_total == t.rbc_total,
        ring_after.cooperative_yield_count == ring.cooperative_yield_count + 1,
        ring_after.signal_preempt_count == ring.signal_preempt_count,
        ring_after.records == ring.records,
        ring_after.finished == ring.finished,
        ring_after.all_done == ring.all_done,
        ring_after.prng == ring::xorshift(ring.prng),
        ring_after.running[u] == (ring.next() == Some(u as nat) || (ring.running[u] && u
            != ctx.worker_id.0)),
        r is Some,
        r->0.kind == YieldKind::Kfunc(phase),
        r->0.ctx == ctx,
        r->0.saved.current_cpu == sim.current_cpu,
        r->0.saved.ops_context == sim.ops_context,
        r->0.saved.waker_task_raw == sim.waker_task_raw,
        r->0.sinfo.cpu_count == t_after.cpu_count,
        r->0.sinfo.global_count == g_after.global_count,
        r->0.sinfo.rbc_total == t_after.rbc_total,
        r->0.sinfo.kfunc_count == t_after.kfunc_count,
        r->0.sinfo.interleave_count == t_after.interleave_count,
        r->0.wake matches Some(w) && ring.next() == Some(w.0 as nat),
{
    let w = ctx.worker_id.0 as int;
    let c = RingView {
        cooperative_yield_count: structop::wrapping_next(ring.cooperative_yield_count),
        ..ring
    }.parked(w);
    assert(c.next() == ring.next());
    ring::law_choice_is_unfinished(ring);
    ring::law_passing_changes_only_the_chosen(c, u);
    ring::law_only_the_worker_itself_ends(ring, w, u);
}

/// A preemptive yield adds its branches to the worker's, counts itself once as a yield
/// and in the ring's count of preemptions, and begins no structop. As long as there is
/// room it is recorded, as the last of the records, with the branches, the instruction,
/// the CPU and the worker that it was given, and with the counters as they are after it.
pub proof fn law_preemptive_yield(
    kind: YieldKind,
    ctx: PreemptCtx,
    sim: SimContext,
    rip: u64,
    rbc_count: u64,
    ring: RingView,
    ring_after: RingView,
    t: StructopTracker,
    t_after: StructopTracker,
    g: StructopGlobals,
    seq: PreemptionSequence,
    seq_after: PreemptionSequence,
    collected: Option<Seq<PreemptionRecord>>,
    collected_after: Option<Seq<PreemptionRecord>>,
    r: Option<PendingYield>,
    u: int,
)
    requires
        preempts(
            kind,
            ctx,
            sim,
            rip,
            rbc_count,
            ring,
            ring_after,
            t,
            t_after,
            g,
            seq,
            seq_after,
            collected,
            collected_after,
            r,
        ),
        ring.wf(),
        !ring.all_done,
        ctx.worker_id.0 < ring.running.len(),
        0 <= u < ring.running.len(),
        t.rbc_total + rbc_count <= u64::MAX,
        t.interleave_count < u64::MAX,
        ring.signal_preempt_count < u64::MAX,
        seq.next < u64::MAX,
    ensures
        t_after.rbc_total == t.rbc_total + rbc_count,
        t_after.interleave_count == t.interleave_count + 1,
        t_after.kfunc_count == t.kfunc_count,
        t_after.cpu_count == t.cpu_count,
        t_after.in_structop == t.in_structop,
        ring_after.signal_preempt_count == ring.signal_preempt_count + 1,
        ring_after.cooperative_yield_count == ring.cooperative_yield_count,
        ring_after.finished == ring.finished,
        ring_after.all_done == ring.all_done,
        ring_after.prng == ring::xorshift(ring.prng),
        ring_after.running[u] == (ring.next() == Some(u as nat) || (ring.running[u] && u
            != ctx.worker_id.0)),
        ring.records.len() < 4096 ==> {
            let rec = ring_after.records.last();
            &&& ring_after.records.len() == ring.records.len() + 1
            &&& forall|i: int|
                0 <= i < ring.records.len() ==> #[trigger] ring_after.records[i] == ring.records[i]
            &&& rec.rbc_count == rbc_count
            &&& rec.instruction_pointer == rip
            &&& rec.cpu_id == sim.current_cpu
            &&& rec.worker_id == ctx.worker_id
            &&& rec.sequence == seq.next
            &&& rec.structop_local == t.cpu_count
            &&& rec.structop_global == g.global_count
            &&& rec.structop_rbc == t.rbc_total + rbc_count
            &&& seq_after.next == seq.next + 1
            &&& collected matches Some(before) ==> collected_after matches Some(after) && after.len()
                == before.len() + 1 && after.last()@ == rec@
        },
        ring.records.len() >= 4096 ==> {
            &&& ring_after.records == ring.records
            &&& seq_after == seq
            &&& collected_after == collected
        },
        collected is None ==> collected_after is None,
        r is Some,
        r->0.kind == kind,
        r->0.ctx == ctx,
        r->0.saved == sim,
        r->0.sinfo.rbc_total == t.rbc_total + rbc_count,
        r->0.sinfo.interleave_count == t.interleave_count + 1,
        r->0.sinfo.cpu_count == t.cpu_count,
        r->0.sinfo.kfunc_count == t.kfunc_count,
        r->0.sinfo.global_count == g.global_count,
        r->0.wake matches Some(w) && ring.next() == Some(w.0 as nat),
{
    let w = ctx.worker_id.0 as int;
    let c = RingView {
        signal_preempt_count: structop::wrapping_next(ring.signal_preempt_count),
        ..ring
    }.parked(w);
    assert(c.next() == ring.next());
    ring::law_choice_is_unfinished(ring);
    ring::law_passing_changes_only_the_chosen(c, u);
    ring::law_only_the_worker_itself_ends(ring, w, u);
    if ring.records.len() < 4096 {
        let before = ring.records;
        let after = ring_after.records;
        assert forall|i: int| 0 <= i < before.len() implies #[trigger] after[i] == before[i] by {
            assert(after.drop_last()[i] == after[i]);
        }
        let rec = after.last();
        assert(rec@.rbc_count == rbc_count);
    }
}

/// A recorded yield stands behind all earlier records and says what it was given; with
/// no room nothing changes. The record of a cooperative yield, which has no timeslice
/// and no interrupted instruction, is the case of two zeros.
pub proof fn law_record_says_what_happened(
    rbc_count: u64,
    rip: u64,
    cpu: CpuId,
    worker: WorkerId,
    sinfo: StructopInfo,
    number: u64,
)
    ensures
        ({
            let rec = record::record_of(rbc_count, rip, cpu, worker, sinfo, number);
            &&& rec.rbc_count == rbc_count
            &&& rec.instruction_pointer == rip
            &&& rec.cpu_id == cpu
            &&& rec.worker_id == worker
            &&& rec.sequence == number
            &&& rec.structop_local == sinfo.cpu_count
            &&& rec.structop_global == sinfo.global_count
            &&& rec.structop_rbc == sinfo.rbc_total
            &&& rec.ops_context is NoOps
            &&& rec.kfunc_name.len() == 0
        }),
{
    reveal_strlit("");
}

/// A timer is disabled and re-armed if there is one: its fd is handed out as it is, and
/// the period is one of the range. Nothing but the PRNG moves, and it stays if the range
/// has one value only or there is no timer.
pub proof fn law_timer_is_rearmed_within_its_range(v: RingView, ctx: PreemptCtx)
    requires
        ctx.timeslice_min <= ctx.timeslice_max,
        ctx.timeslice_max - ctx.timeslice_min < u64::MAX,
    ensures
        ctx.timer_fd >= 0 ==> timer_to_disable(ctx.timer_fd) == Some(ctx.timer_fd),
        ctx.timer_fd < 0 ==> timer_to_disable(ctx.timer_fd) is None,
        ctx.timer_fd < 0 ==> timer_to_rearm(v, ctx) is None && after_rearm(v, ctx) == v,
        ctx.timer_fd >= 0 ==> (timer_to_rearm(v, ctx) matches Some((fd, period)) && fd
            == ctx.timer_fd && ctx.timeslice_min <= period <= ctx.timeslice_max && (ring::xorshift(
            v.prng,
        ) - (period - ctx.timeslice_min)) % (ctx.timeslice_max - ctx.timeslice_min + 1) == 0),
        after_rearm(v, ctx) == (RingView { prng: after_rearm(v, ctx).prng, ..v }),
        after_rearm(v, ctx).prng == if ctx.timer_fd >= 0 && ctx.timeslice_min
            < ctx.timeslice_max {
            ring::xorshift(v.prng)
        } else {
            v.prng
        },
{
    ring::law_timeslice_covers_range(
        ring::xorshift(v.prng),
        ctx.timeslice_min,
        ctx.timeslice_max,
        ctx.timeslice_min,
    );
}

/// The simulator's context when a yield has ended, whatever the other workers made of it.
pub open spec fn restored(pending: PendingYield, sim: SimContext) -> SimContext {
    pending.saved
}

/// A worker gets back, when it resumes, the CPU, the callback and the waker that it had when
/// it yielded, whatever they are and whatever other workers have set meanwhile.
pub proof fn law_context_survives_the_yield(
    phase: KfuncYieldPhase,
    ctx: PreemptCtx,
    sim: SimContext,
    ring: RingView,
    ring_after: RingView,
    t: StructopTracker,
    t_after: StructopTracker,
    g: StructopGlobals,
    g_after: StructopGlobals,
    r: Option<PendingYield>,
    meanwhile: SimContext,
)
    requires
        yields_at_kfunc(phase, Some(ctx), sim, ring, ring_after, t, t_after, g, g_after, r),
    ensures
        r is Some,
        restored(r->0, meanwhile).current_cpu.0 == sim.current_cpu.0,
        restored(r->0, meanwhile).ops_context == sim.ops_context,
        restored(r->0, meanwhile).waker_task_raw == sim.waker_task_raw,
{
}

/// The context of a worker with a timer and a range of timeslices.
pub open spec fn context_of(
    worker_id: WorkerId,
    timer_fd: i32,
    timeslice_min: u64,
    timeslice_max: u64,
) -> PreemptCtx {
    PreemptCtx { worker_id, timer_fd, timeslice_min, timeslice_max }
}

/// What a read of a timer has counted.
pub open spec fn branches_read(timer_fd: i32, ret: i64, count: u64) -> u64 {
    if timer_fd < 0 || ret < 0 {
        0
    } else {
        count
    }
}

/// A context holds what it was made of; and a read counts as it is, or not at all if it
/// failed or there is no timer.
pub proof fn law_context_holds_what_it_is_given(
    worker: WorkerId,
    fd: i32,
    min: u64,
    max: u64,
    ret: i64,
    count: u64,
)
    ensures
        context_of(worker, fd, min, max).worker_id.0 == worker.0,
        context_of(worker, fd, min, max).timer_fd == fd,
        context_of(worker, fd, min, max).timeslice_min == min,
        context_of(worker, fd, min, max).timeslice_max == max,
        fd >= 0 && ret >= 0 ==> branches_read(fd, ret, count) == count,
        fd < 0 ==> branches_read(fd, ret, count) == 0,
        ret < 0 ==> branches_read(fd, ret, count) == 0,
{
}

/// The record of a cooperative yield with the given sequence number.
pub open spec fn cooperative_record(pending: PendingYield, number: u64) -> record::RecordView {
    record::record_of(
        0,
        0,
        pending.saved.current_cpu,
        pending.ctx.worker_id,
        pending.sinfo,
        number,
    )
}

/// A cooperative yield is recorded without a timeslice and without an instruction, for the
/// CPU and the worker that yielded, with the structop and the branches counted so far.
pub proof fn law_cooperative_record_has_zeros(pending: PendingYield, number: u64)
    ensures
        ({
            let rec = cooperative_record(pending, number);
            &&& rec.rbc_count == 0
            &&& rec.instruction_pointer == 0
            &&& rec.cpu_id.0 == pending.saved.current_cpu.0
            &&& rec.worker_id.0 == pending.ctx.worker_id.0
            &&& rec.sequence == number
            &&& rec.structop_local == pending.sinfo.cpu_count
            &&& rec.structop_global == pending.sinfo.global_count
            &&& rec.structop_rbc == pending.sinfo.rbc_total
        }),
{
}

/// A record that finds room stands behind all earlier ones, in the ring and among the
/// collected, and uses up one number; one that finds none changes nothing.
pub proof fn law_records_are_appended(
    rec: record::RecordView,
    ring: RingView,
    ring_after: RingView,
    seq: PreemptionSequence,
    seq_after: PreemptionSequence,
    collected: Option<Seq<PreemptionRecord>>,
    collected_after: Option<Seq<PreemptionRecord>>,
    i: int,
)
    requires
        records(rec, ring, ring_after, seq, seq_after, collected, collected_after),
        seq.next < u64::MAX,
    ensures
        ring.records.len() < 4096 ==> {
            &&& ring_after.records.len() == ring.records.len() + 1
            &&& ring_after.records[ring.records.len() as int]@ == rec
            &&& 0 <= i < ring.records.len() ==> ring_after.records[i] == ring.records[i]
            &&& seq_after.next == seq.next + 1
            &&& collected matches Some(before) ==> collected_after matches Some(after) && {
                &&& after.len() == before.len() + 1
                &&& after[before.len() as int]@ == rec
                &&& 0 <= i < before.len() ==> after[i] == before[i]
            }
        },
        ring.records.len() >= 4096 ==> ring_after.records == ring.records && seq_after == seq
            && collected_after == collected,
        collected is None ==> collected_after is None,
{
    if ring.records.len() < 4096 {
        let after = ring_after.records;
        if 0 <= i < ring.records.len() {
            assert(after.drop_last()[i] == after[i]);
        }
        if let Some(before) = collected {
            let c = collected_after->0;
            if 0 <= i < before.len() {
                assert(c.drop_last()[i] == c[i]);
            }
        }
    }
}

/// The timer that a worker re-arms when it resumes.
pub open spec fn timer_on_resume(pending: PendingYield, v: RingView) -> Option<(i32, u64)> {
    if pending.kind == YieldKind::Kfunc(KfuncYieldPhase::Post) {
        timer_to_rearm(v, pending.ctx)
    } else {
        None
    }
}

/// The ring when a worker has resumed.
pub open spec fn ring_on_resume(pending: PendingYield, v: RingView) -> RingView {
    if pending.kind == YieldKind::Kfunc(KfuncYieldPhase::Post) {
        after_rearm(v, pending.ctx)
    } else {
        v
    }
}

/// Only behind a kfunc is the timer re-armed on resumption, and there as for any worker with
/// that context: in front of one, on a signal and on an expired counter it stays off, and the
/// PRNG does not move.
pub proof fn law_only_post_kfunc_yields_rearm(pending: PendingYield, v: RingView)
    requires
        pending.ctx.timeslice_min <= pending.ctx.timeslice_max,
        pending.ctx.timeslice_max - pending.ctx.timeslice_min < u64::MAX,
    ensures
        match pending.kind {
            YieldKind::Kfunc(KfuncYieldPhase::Post) => {
                &&& timer_on_resume(pending, v) is Some <==> pending.ctx.timer_fd >= 0
                &&& timer_on_resume(pending, v) matches Some((fd, period)) ==> fd
                    == pending.ctx.timer_fd && pending.ctx.timeslice_min <= period
                    <= pending.ctx.timeslice_max
            },
            YieldKind::Kfunc(KfuncYieldPhase::Pre) | YieldKind::Signal | YieldKind::Deferred => {
                &&& timer_on_resume(pending, v) is None
                &&& ring_on_resume(pending, v) == v
            },
        },
        ring_on_resume(pending, v) == (RingView { prng: ring_on_resume(pending, v).prng, ..v }),
{
    law_timer_is_rearmed_within_its_range(v, pending.ctx);
}

} // verus!
