//! The lifecycle of a worker and its accounting.

use vstd::prelude::*;

use crate::backend::round;
use crate::preempt::structop;
use crate::preempt::structop::{StructopGlobals, StructopInfo};
use crate::preempt::yields;
use crate::preempt::yields::CountedYield;
use crate::types::{CpuId, WorkerId};

verus! {

/// Per-worker accounting delta merged into the accumulator after the worker body
/// runs.
#[derive(Debug, Clone, Copy, PartialEq, Eq, Structural)]
pub struct StructopDelta {
    /// Cumulative C-code-only retired branch conditional count (from a
    /// measurement counter that pauses during kfuncs).
    pub rbc_total: u64,
    /// Number of cooperative kfunc-boundary yields + preemptive signal yields.
    pub interleave_count: u64,
}

impl Default for StructopDelta {
    fn default() -> (r: StructopDelta)
        ensures
            r == (StructopDelta { rbc_total: 0, interleave_count: 0 }),
    {
        StructopDelta { rbc_total: 0, interleave_count: 0 }
    }
}

/// The accounting delta of a worker that has run for `rbc` branches and whose
/// counters end as `info`: these branches, and the worker's yields.
pub open spec fn delta_of(rbc: u64, info: StructopInfo) -> StructopDelta {
    StructopDelta { rbc_total: rbc, interleave_count: info.interleave_count }
}

/// An accumulator entry with a delta added to it.
pub open spec fn with_delta(info: StructopInfo, delta: StructopDelta) -> StructopInfo {
    StructopInfo {
        rbc_total: (info.rbc_total + delta.rbc_total) as u64,
        interleave_count: (info.interleave_count + delta.interleave_count) as u64,
        ..info
    }
}

/// Drain a worker's structop deltas into the accumulator of its CPU; a CPU without
/// an entry has none.
pub fn drain_structop(accum: &mut Vec<StructopInfo>, cpu: CpuId, delta: StructopDelta)
    requires
        cpu.0 < old(accum)@.len() ==> {
            &&& old(accum)@[cpu.0 as int].rbc_total + delta.rbc_total <= u64::MAX
            &&& old(accum)@[cpu.0 as int].interleave_count + delta.interleave_count <= u64::MAX
        },
    ensures
        final(accum)@ == if cpu.0 < old(accum)@.len() {
            old(accum)@.update(cpu.0 as int, with_delta(old(accum)@[cpu.0 as int], delta))
        } else {
            old(accum)@
        },
        final(accum)@ == round::drained(old(accum)@, seq![(cpu, delta)]),
{
    let idx: usize = cpu.0 as usize;
    if idx < accum.len() {
        let mut info: StructopInfo = accum[idx];
        info.rbc_total = info.rbc_total + delta.rbc_total;
        info.interleave_count = info.interleave_count + delta.interleave_count;
        accum.set(idx, info);
    }
    proof {
        let one = seq![(cpu, delta)];
        assert(one.drop_last() =~= Seq::<(CpuId, StructopDelta)>::empty());
        reveal_with_fuel(round::drained, 2);
    }
}

/// The steps in the life of a worker.
#[derive(Debug, Clone, Copy, PartialEq, Eq, Structural)]
pub enum WorkerStep {
    /// Create instrumentation state, install the preemption context.
    Setup,
    /// Acquire the execution token.
    WaitForToken,
    /// Enter the simulation context, after acquiring the token so that workers do
    /// not race on the current CPU.
    EnterSim,
    /// Enable instrumentation (timer, callouts).
    Arm,
    /// Run the worker body (dispatch or batch event processing).
    Body,
    /// Disable instrumentation, get the accounting delta.
    Disarm,
    /// Drain the delta into the accumulator.
    DrainStructop,
    /// Clear the ops context: after disabling instrumentation, so that pending
    /// signals still see the true callback context, and before releasing the
    /// token, so that the new token holder's context is not clobbered.
    ClearOpsContext,
    /// Release the token for good.
    Finish,
    /// Leave the simulation context, which leaves the ops context alone.
    ExitSim,
    /// Remove the preemption context, close fds.
    Teardown,
}

impl WorkerStep {
    /// The position of a step in the life of a worker.
    pub open spec fn position(self) -> int {
        match self {
            WorkerStep::Setup => 0,
            WorkerStep::WaitForToken => 1,
            WorkerStep::EnterSim => 2,
            WorkerStep::Arm => 3,
            WorkerStep::Body => 4,
            WorkerStep::Disarm => 5,
            WorkerStep::DrainStructop => 6,
            WorkerStep::ClearOpsContext => 7,
            WorkerStep::Finish => 8,
            WorkerStep::ExitSim => 9,
            WorkerStep::Teardown => 10,
        }
    }

    /// Whether the worker holds the token during the step.
    pub open spec fn has_token(self) -> bool {
        WorkerStep::WaitForToken.position() < self.position() <= WorkerStep::Finish.position()
    }

    /// Whether the worker can be preempted during the step.
    pub open spec fn is_instrumented(self) -> bool {
        WorkerStep::Arm.position() <= self.position() <= WorkerStep::Disarm.position()
    }

    /// Whether the step reads or writes the simulator state, which all workers
    /// share.
    pub open spec fn touches_state(self) -> bool {
        match self {
            WorkerStep::EnterSim => true,
            WorkerStep::Body => true,
            WorkerStep::DrainStructop => true,
            WorkerStep::ClearOpsContext => true,
            _ => false,
        }
    }

    /// The first step.
    pub fn first() -> (r: WorkerStep)
        ensures
            r.position() == 0,
    {
        WorkerStep::Setup
    }

    /// The step after this one, `None` after the last.
    pub fn next(self) -> (r: Option<WorkerStep>)
        ensures
            match r {
                Some(s) => s.position() == self.position() + 1,
                None => self == WorkerStep::Teardown,
            },
    {
        match self {
            WorkerStep::Setup => Some(WorkerStep::WaitForToken),
            WorkerStep::WaitForToken => Some(WorkerStep::EnterSim),
            WorkerStep::EnterSim => Some(WorkerStep::Arm),
            WorkerStep::Arm => Some(WorkerStep::Body),
            WorkerStep::Body => Some(WorkerStep::Disarm),
            WorkerStep::Disarm => Some(WorkerStep::DrainStructop),
            WorkerStep::DrainStructop => Some(WorkerStep::ClearOpsContext),
            WorkerStep::ClearOpsContext => Some(WorkerStep::Finish),
            WorkerStep::Finish => Some(WorkerStep::ExitSim),
            WorkerStep::ExitSim => Some(WorkerStep::Teardown),
            WorkerStep::Teardown => None,
        }
    }
}

/// The steps of the thread that runs a round of workers.
#[derive(Debug, Clone, Copy, PartialEq, Eq, Structural)]
pub enum RoundStep {
    /// Set up what all workers need (e.g., signal handlers).
    GlobalSetup,
    /// Spawn one worker per CPU.
    SpawnWorkers,
    /// Hand out the token.
    Start,
    /// Wait until all workers have released the token for good.
    WaitAllDone,
    /// Wait until all workers have been torn down and have ended.
    JoinWorkers,
    /// Log the completion summary, after all workers have ended.
    LogCompletion,
    /// Tear down what all workers needed.
    GlobalTeardown,
}

impl RoundStep {
    /// The position of a step in a round.
    pub open spec fn position(self) -> int {
        match self {
            RoundStep::GlobalSetup => 0,
            RoundStep::SpawnWorkers => 1,
            RoundStep::Start => 2,
            RoundStep::WaitAllDone => 3,
            RoundStep::JoinWorkers => 4,
            RoundStep::LogCompletion => 5,
            RoundStep::GlobalTeardown => 6,
        }
    }

    /// Whether all workers have ended when the step begins.
    pub open spec fn is_behind_join(self) -> bool {
        self.position() > RoundStep::JoinWorkers.position()
    }

    /// Whether all workers have ended when the step begins: so it is behind the
    /// join, and nowhere else.
    pub fn workers_ended(self) -> (r: bool)
        ensures
            r == self.is_behind_join(),
    {
        match self {
            RoundStep::LogCompletion => true,
            RoundStep::GlobalTeardown => true,
            _ => false,
        }
    }

    /// The first step.
    pub fn first() -> (r: RoundStep)
        ensures
            r.position() == 0,
    {
        RoundStep::GlobalSetup
    }

    /// The step after this one, `None` after the last.
    pub fn next(self) -> (r: Option<RoundStep>)
        ensures
            match r {
                Some(s) => s.position() == self.position() + 1,
                None => self == RoundStep::GlobalTeardown,
            },
    {
        match self {
            RoundStep::GlobalSetup => Some(RoundStep::SpawnWorkers),
            RoundStep::SpawnWorkers => Some(RoundStep::Start),
            RoundStep::Start => Some(RoundStep::WaitAllDone),
            RoundStep::WaitAllDone => Some(RoundStep::JoinWorkers),
            RoundStep::JoinWorkers => Some(RoundStep::LogCompletion),
            RoundStep::LogCompletion => Some(RoundStep::GlobalTeardown),
            RoundStep::GlobalTeardown => None,
        }
    }
}

/// The workers of a round: the first worker simulates the first CPU, and so on.
pub fn assign_workers(cpus: &[CpuId]) -> (r: Vec<(WorkerId, CpuId)>)
    ensures
        r@ == Seq::new(cpus@.len(), |i: int| (WorkerId(i as usize), cpus@[i])),
        r@ == assigned(cpus@),
{
    let mut r: Vec<(WorkerId, CpuId)> = Vec::with_capacity(cpus.len());
    let mut i: usize = 0;
    while i < cpus.len()
        invariant
            i <= cpus@.len(),
            r@ =~= Seq::new(i as nat, |j: int| (WorkerId(j as usize), cpus@[j])),
        decreases cpus@.len() - i,
    {
        r.push((WorkerId(i), cpus[i]));
        i += 1;
    }
    r
}

// ---------------------------------------------------------------------------
// Laws
// ---------------------------------------------------------------------------

/// A step is known by its position.
pub proof fn law_steps_are_ordered(a: WorkerStep, b: WorkerStep, c: RoundStep, d: RoundStep)
    ensures
        a.position() == b.position() ==> a == b,
        0 <= a.position() <= WorkerStep::Teardown.position(),
        c.position() == d.position() ==> c == d,
        0 <= c.position() <= RoundStep::GlobalTeardown.position(),
{
}

/// The setup of a round comes first; its completion is logged behind the join of
/// the workers, and its teardown comes last.
pub proof fn law_round_is_ordered(s: RoundStep)
    ensures
        s != RoundStep::GlobalSetup ==> RoundStep::GlobalSetup.position() < s.position(),
        RoundStep::SpawnWorkers.position() < RoundStep::JoinWorkers.position()
            < RoundStep::LogCompletion.position() < RoundStep::GlobalTeardown.position(),
        s.is_behind_join() <==> s == RoundStep::LogCompletion || s == RoundStep::GlobalTeardown,
        s != RoundStep::GlobalTeardown ==> s.position() < RoundStep::GlobalTeardown.position(),
{
}

/// The shared state is touched, and workers are preempted, only under the token;
/// the ops context is cleared when preemption has ended and the token is still
/// held.
pub proof fn law_state_is_touched_under_token(s: WorkerStep)
    ensures
        s.touches_state() ==> s.has_token(),
        s.is_instrumented() ==> s.has_token(),
        s == WorkerStep::ClearOpsContext ==> s.has_token() && !s.is_instrumented(),
{
}

/// A worker that has been seeded with the totals of earlier rounds hands out its own
/// yields, and no others: as many as it has made since. So the accumulator counts
/// each yield once.
pub proof fn law_seeded_worker_hands_out_its_yields(
    base: StructopInfo,
    ys: Seq<CountedYield>,
    globals: StructopGlobals,
    rbc: u64,
)
    requires
        base.interleave_count + ys.len() <= u64::MAX,
    ensures
        ({
            let end = yields::tracker_after_yields(structop::seeded(base), ys);
            let delta = delta_of(rbc, structop::snapshot(end, globals));
            &&& delta.interleave_count == ys.len()
            &&& with_delta(base, delta).interleave_count == base.interleave_count + ys.len()
        }),
{
    yields::law_yields_add_up(structop::seeded(base), ys);
}

/// Deltas add up, in either order.
pub proof fn law_deltas_add_up(info: StructopInfo, a: StructopDelta, b: StructopDelta)
    requires
        info.rbc_total + a.rbc_total + b.rbc_total <= u64::MAX,
        info.interleave_count + a.interleave_count + b.interleave_count <= u64::MAX,
    ensures
        with_delta(with_delta(info, a), b) == with_delta(with_delta(info, b), a),
        with_delta(with_delta(info, a), b).rbc_total == info.rbc_total + a.rbc_total + b.rbc_total,
{
}

/// A delta is added to the branches and the yields of an entry, and to nothing else.
pub proof fn law_delta_is_added(info: StructopInfo, delta: StructopDelta)
    requires
        info.rbc_total + delta.rbc_total <= u64::MAX,
        info.interleave_count + delta.interleave_count <= u64::MAX,
    ensures
        with_delta(info, delta).rbc_total == info.rbc_total + delta.rbc_total,
        with_delta(info, delta).interleave_count == info.interleave_count + delta.interleave_count,
        with_delta(info, delta).cpu_count == info.cpu_count,
        with_delta(info, delta).global_count == info.global_count,
        with_delta(info, delta).kfunc_count == info.kfunc_count,
        delta_of(delta.rbc_total, info).rbc_total == delta.rbc_total,
        delta_of(delta.rbc_total, info).interleave_count == info.interleave_count,
{
}

/// The workers of a round with the CPUs that they simulate.
pub open spec fn assigned(cpus: Seq<CpuId>) -> Seq<(WorkerId, CpuId)> {
    Seq::new(cpus.len(), |i: int| (WorkerId(i as usize), cpus[i]))
}

/// Every CPU has one worker, and the workers are numbered as their CPUs stand in the list.
pub proof fn law_each_cpu_has_its_worker(cpus: Seq<CpuId>, i: int)
    requires
        cpus.len() <= usize::MAX,
    ensures
        assigned(cpus).len() == cpus.len(),
        0 <= i < cpus.len() ==> assigned(cpus)[i].0.0 == i && assigned(cpus)[i].1.0 == cpus[i].0,
{
}

} // verus!
