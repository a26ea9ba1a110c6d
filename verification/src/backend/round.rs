//! A round of workers as a whole: how the steps of the thread that runs the round
//! and the steps of its workers fall together.

use vstd::prelude::*;

use super::worker;
use super::worker::{RoundStep, StructopDelta, WorkerStep};
use crate::preempt::structop::StructopInfo;
use crate::types::CpuId;

verus! {

/// The number of steps in the life of a worker.
pub open spec fn worker_steps() -> int {
    WorkerStep::Teardown.position() + 1
}

/// What happens in a round. A step happens when it has been done, but for the
/// spawning of the workers, which happens when it begins.
pub enum RoundEvent {
    /// A step of the thread that runs the round.
    Round(RoundStep),
    /// A step of a worker.
    Worker(int, WorkerStep),
}

/// How far a round has come.
#[verifier::ext_equal]
pub struct RoundState {
    /// The number of steps that the thread has done that runs the round.
    pub round: int,
    /// The number of steps that each worker has done.
    pub workers: Seq<int>,
    /// Whether the ops context is clear and stays so until a worker arms.
    pub ops_clear: bool,
}

impl RoundState {
    /// Before anything has happened in a round of `n` workers.
    pub open spec fn init(n: nat) -> RoundState {
        RoundState { round: 0, workers: Seq::new(n, |i: int| 0int), ops_clear: true }
    }

    /// Whether the thread that runs the round has done the step.
    pub open spec fn did(self, s: RoundStep) -> bool {
        self.round > s.position()
    }

    /// Whether worker `i` has done the step.
    pub open spec fn worker_did(self, i: int, s: WorkerStep) -> bool {
        self.workers[i] > s.position()
    }

    /// Whether all workers have done the step.
    pub open spec fn all_did(self, s: WorkerStep) -> bool {
        forall|i: int| 0 <= i < self.workers.len() ==> #[trigger] self.workers[i] > s.position()
    }

    /// Whether worker `i` may be in its body.
    pub open spec fn is_in_body(self, i: int) -> bool {
        self.workers[i] == WorkerStep::Body.position()
    }

    /// Whether an event can happen next. Each thread takes its steps in order. The
    /// workers run when they have been spawned and get the token when the round
    /// has started. The round goes on when all workers have released the token, and
    /// again when all of them have ended.
    pub open spec fn allows(self, e: RoundEvent) -> bool {
        match e {
            RoundEvent::Round(s) => {
                &&& self.round == s.position()
                &&& s == RoundStep::WaitAllDone ==> self.all_did(WorkerStep::Finish)
                &&& s == RoundStep::JoinWorkers ==> self.all_did(WorkerStep::Teardown)
            },
            RoundEvent::Worker(i, s) => {
                &&& 0 <= i < self.workers.len()
                &&& self.workers[i] == s.position()
                &&& self.did(RoundStep::SpawnWorkers)
                &&& s == WorkerStep::WaitForToken ==> self.did(RoundStep::Start)
            },
        }
    }

    /// The round after an event. Arming lets the body run, which may set the ops
    /// context; clearing it lasts if no other worker is in its body.
    pub open spec fn after(self, e: RoundEvent) -> RoundState {
        match e {
            RoundEvent::Round(s) => RoundState { round: self.round + 1, ..self },
            RoundEvent::Worker(i, s) => RoundState {
                workers: self.workers.update(i, self.workers[i] + 1),
                ops_clear: if s == WorkerStep::Arm || s == WorkerStep::Body {
                    false
                } else if s == WorkerStep::ClearOpsContext {
                    forall|j: int|
                        0 <= j < self.workers.len() && j != i ==> !#[trigger] self.is_in_body(j)
                } else {
                    self.ops_clear
                },
                ..self
            },
        }
    }
}

/// The state of a round of `n` workers after `events`.
pub open spec fn state_after(n: nat, events: Seq<RoundEvent>) -> RoundState
    decreases events.len(),
{
    if events.len() == 0 {
        RoundState::init(n)
    } else {
        state_after(n, events.drop_last()).after(events.last())
    }
}

/// Whether `events` can be what happens, up to some moment, in a round of `n`
/// workers.
pub open spec fn is_run(n: nat, events: Seq<RoundEvent>) -> bool
    decreases events.len(),
{
    events.len() == 0 || {
        &&& is_run(n, events.drop_last())
        &&& state_after(n, events.drop_last()).allows(events.last())
    }
}

/// How often an event happens.
pub open spec fn occurrences(events: Seq<RoundEvent>, e: RoundEvent) -> nat
    decreases events.len(),
{
    if events.len() == 0 {
        0
    } else {
        occurrences(events.drop_last(), e) + if events.last() == e {
            1nat
        } else {
            0nat
        }
    }
}

/// The accumulator after the deltas of some workers have been drained, each into
/// the entry of its CPU.
pub open spec fn drained(
    accum: Seq<StructopInfo>,
    deltas: Seq<(CpuId, StructopDelta)>,
) -> Seq<StructopInfo>
    decreases deltas.len(),
{
    if deltas.len() == 0 {
        accum
    } else {
        let before = drained(accum, deltas.drop_last());
        let (cpu, delta) = deltas.last();
        if cpu.0 < before.len() {
            before.update(cpu.0 as int, worker::with_delta(before[cpu.0 as int], delta))
        } else {
            before
        }
    }
}

/// The branches that the deltas count on a CPU.
pub open spec fn branches_on(deltas: Seq<(CpuId, StructopDelta)>, cpu: CpuId) -> int
    decreases deltas.len(),
{
    if deltas.len() == 0 {
        0
    } else {
        branches_on(deltas.drop_last(), cpu) + if deltas.last().0 == cpu {
            deltas.last().1.rbc_total as int
        } else {
            0
        }
    }
}

/// The yields that the deltas count on a CPU.
pub open spec fn yields_on(deltas: Seq<(CpuId, StructopDelta)>, cpu: CpuId) -> int
    decreases deltas.len(),
{
    if deltas.len() == 0 {
        0
    } else {
        yields_on(deltas.drop_last(), cpu) + if deltas.last().0 == cpu {
            deltas.last().1.interleave_count as int
        } else {
            0
        }
    }
}

// ---------------------------------------------------------------------------
// Laws
// ---------------------------------------------------------------------------

/// Whatever happens in a round: no worker does anything before the global setup;
/// when the completion is logged every worker has been torn down; and when all
/// workers have cleared the ops context it is clear.
pub proof fn law_round_invariant(n: nat, events: Seq<RoundEvent>)
    requires
        is_run(n, events),
    ensures
        ({
            let st = state_after(n, events);
            &&& st.workers.len() == n
            &&& 0 <= st.round <= RoundStep::GlobalTeardown.position() + 1
            &&& forall|i: int| 0 <= i < n ==> 0 <= #[trigger] st.workers[i] <= worker_steps()
            &&& !st.did(RoundStep::SpawnWorkers) ==> forall|i: int|
                0 <= i < n ==> #[trigger] st.workers[i] == 0
            &&& st.did(RoundStep::JoinWorkers) ==> st.all_did(WorkerStep::Teardown)
            &&& st.all_did(WorkerStep::ClearOpsContext) ==> st.ops_clear
        }),
    decreases events.len(),
{
    if events.len() > 0 {
        let before = events.drop_last();
        law_round_invariant(n, before);
        let old_st = state_after(n, before);
        let st = state_after(n, events);
        match events.last() {
            RoundEvent::Round(s) => {
                assert(st.workers == old_st.workers);
                if st.all_did(WorkerStep::ClearOpsContext) {
                    assert(old_st.all_did(WorkerStep::ClearOpsContext));
                }
                if st.did(RoundStep::JoinWorkers) {
                    assert(old_st.all_did(WorkerStep::Teardown));
                }
            },
            RoundEvent::Worker(i, s) => {
                assert(old_st.workers[i] == s.position());
                if st.did(RoundStep::JoinWorkers) {
                    assert(old_st.workers[i] > WorkerStep::Teardown.position());
                }
                if st.all_did(WorkerStep::ClearOpsContext) {
                    assert(st.workers[i] > WorkerStep::ClearOpsContext.position());
                    if s == WorkerStep::ClearOpsContext {
                        assert forall|j: int|
                            0 <= j < old_st.workers.len() && j != i implies
                            !#[trigger] old_st.is_in_body(j) by {
                            assert(st.workers[j] > WorkerStep::ClearOpsContext.position());
                        }
                    } else {
                        assert forall|j: int| 0 <= j < old_st.workers.len() implies
                            #[trigger] old_st.workers[j] > WorkerStep::ClearOpsContext.position() by {
                            assert(st.workers[j] > WorkerStep::ClearOpsContext.position());
                        }
                        assert(old_st.all_did(WorkerStep::ClearOpsContext));
                    }
                }
            },
        }
    }
}

/// What has happened up to an earlier moment of a round is a run too, and what
/// comes next is allowed by it.
proof fn lemma_prefix(n: nat, events: Seq<RoundEvent>, k: int)
    requires
        is_run(n, events),
        0 <= k <= events.len(),
    ensures
        is_run(n, events.take(k)),
        k < events.len() ==> state_after(n, events.take(k)).allows(events[k]),
    decreases events.len(),
{
    if k == events.len() {
        assert(events.take(k) =~= events);
    } else {
        let before = events.drop_last();
        lemma_prefix(n, before, k);
        assert(before.take(k) =~= events.take(k));
        if k == before.len() {
            assert(events.take(k) =~= before);
        }
    }
}

/// Every step happens once: not at all before its thread comes to it, once and for
/// all then.
pub proof fn law_steps_happen_once(n: nat, events: Seq<RoundEvent>, c: RoundStep, i: int, s: WorkerStep)
    requires
        is_run(n, events),
        0 <= i < n,
    ensures
        occurrences(events, RoundEvent::Round(c)) == if state_after(n, events).did(c) {
            1nat
        } else {
            0nat
        },
        occurrences(events, RoundEvent::Worker(i, s)) == if state_after(n, events).worker_did(i, s) {
            1nat
        } else {
            0nat
        },
    decreases events.len(),
{
    if events.len() > 0 {
        let before = events.drop_last();
        law_steps_happen_once(n, before, c, i, s);
        law_round_invariant(n, before);
        match events.last() {
            RoundEvent::Round(d) => worker::law_steps_are_ordered(s, s, c, d),
            RoundEvent::Worker(j, t) => worker::law_steps_are_ordered(s, t, c, c),
        }
    }
}

/// The global setup comes before everything else.
pub proof fn law_setup_comes_first(n: nat, events: Seq<RoundEvent>)
    requires
        is_run(n, events),
        events.len() > 0,
    ensures
        events[0] == RoundEvent::Round(RoundStep::GlobalSetup),
{
    lemma_prefix(n, events, 0);
    assert(events.take(0) =~= Seq::empty());
    match events[0] {
        RoundEvent::Round(c) => worker::law_steps_are_ordered(
            WorkerStep::Setup,
            WorkerStep::Setup,
            c,
            RoundStep::GlobalSetup,
        ),
        RoundEvent::Worker(i, s) => {},
    }
}

/// A worker takes its steps in order: when it takes one, it has taken those before
/// it, and none of those behind it.
pub proof fn law_worker_keeps_order(
    n: nat,
    events: Seq<RoundEvent>,
    k: int,
    i: int,
    s: WorkerStep,
    t: WorkerStep,
)
    requires
        is_run(n, events),
        0 <= k < events.len(),
        events[k] == RoundEvent::Worker(i, s),
    ensures
        0 <= i < n,
        occurrences(events.take(k), RoundEvent::Worker(i, t)) == if t.position() < s.position() {
            1nat
        } else {
            0nat
        },
{
    lemma_prefix(n, events, k);
    law_round_invariant(n, events.take(k));
    law_steps_happen_once(n, events.take(k), RoundStep::GlobalSetup, i, t);
}

/// When the completion is logged, or the round is torn down, every worker has taken
/// every step, its teardown among them; after that no worker takes any.
pub proof fn law_workers_end_first(
    n: nat,
    events: Seq<RoundEvent>,
    k: int,
    c: RoundStep,
    i: int,
    s: WorkerStep,
)
    requires
        is_run(n, events),
        0 <= k < events.len(),
        events[k] == RoundEvent::Round(c),
        c.is_behind_join(),
        0 <= i < n,
    ensures
        occurrences(events.take(k), RoundEvent::Worker(i, s)) == 1,
        forall|m: int| k <= m < events.len() ==> #[trigger] events[m] is Round,
{
    lemma_prefix(n, events, k);
    let st = state_after(n, events.take(k));
    law_round_invariant(n, events.take(k));
    worker::law_steps_are_ordered(s, s, c, c);
    assert(st.workers[i] > WorkerStep::Teardown.position());
    law_steps_happen_once(n, events.take(k), c, i, s);
    assert forall|m: int| k <= m < events.len() implies #[trigger] events[m] is Round by {
        lemma_prefix(n, events, m);
        law_round_invariant(n, events.take(m));
        lemma_steps_stay_done(n, events, k, m);
        if events[m] is Worker {
            let j = events[m]->Worker_0;
            worker::law_steps_are_ordered(events[m]->Worker_1, s, c, c);
            assert(state_after(n, events.take(m)).workers[j] > WorkerStep::Teardown.position());
        }
    }
}

/// What the thread that runs the round has done stays done.
proof fn lemma_steps_stay_done(n: nat, events: Seq<RoundEvent>, k: int, m: int)
    requires
        0 <= k <= m <= events.len(),
    ensures
        state_after(n, events.take(k)).round <= state_after(n, events.take(m)).round,
    decreases m,
{
    if k < m {
        lemma_steps_stay_done(n, events, k, m - 1);
        assert(events.take(m).drop_last() =~= events.take(m - 1));
    }
}

/// The global teardown comes last.
pub proof fn law_teardown_comes_last(n: nat, events: Seq<RoundEvent>, k: int)
    requires
        is_run(n, events),
        0 <= k < events.len(),
        events[k] == RoundEvent::Round(RoundStep::GlobalTeardown),
    ensures
        k == events.len() - 1,
        state_after(n, events).ops_clear,
{
    lemma_prefix(n, events, k);
    law_round_invariant(n, events);
    let st = state_after(n, events.take(k));
    let next = state_after(n, events.take(k + 1));
    assert(events.take(k + 1).drop_last() =~= events.take(k));
    if k + 1 < events.len() {
        lemma_prefix(n, events, k + 1);
        law_round_invariant(n, events.take(k + 1));
        match events[k + 1] {
            RoundEvent::Round(c) => worker::law_steps_are_ordered(
                WorkerStep::Setup,
                WorkerStep::Setup,
                c,
                c,
            ),
            RoundEvent::Worker(i, s) => {
                worker::law_steps_are_ordered(s, s, RoundStep::Start, RoundStep::Start);
                assert(next.workers[i] > WorkerStep::Teardown.position());
            },
        }
    }
    assert(events.take(k + 1) =~= events);
    let done = state_after(n, events);
    assert(done.all_did(WorkerStep::ClearOpsContext)) by {
        assert forall|i: int| 0 <= i < done.workers.len() implies #[trigger] done.workers[i]
            > WorkerStep::ClearOpsContext.position() by {
            assert(done.workers[i] > WorkerStep::Teardown.position());
        }
    }
}

proof fn lemma_counts_are_natural(deltas: Seq<(CpuId, StructopDelta)>, cpu: CpuId)
    ensures
        branches_on(deltas, cpu) >= 0,
        yields_on(deltas, cpu) >= 0,
    decreases deltas.len(),
{
    if deltas.len() > 0 {
        lemma_counts_are_natural(deltas.drop_last(), cpu);
    }
}

/// The entry of a CPU grows by exactly what the workers on it have counted.
pub proof fn law_accumulator_grows_by_deltas(
    accum: Seq<StructopInfo>,
    deltas: Seq<(CpuId, StructopDelta)>,
    cpu: CpuId,
)
    requires
        cpu.0 < accum.len(),
        accum[cpu.0 as int].rbc_total + branches_on(deltas, cpu) <= u64::MAX,
        accum[cpu.0 as int].interleave_count + yields_on(deltas, cpu) <= u64::MAX,
    ensures
        drained(accum, deltas).len() == accum.len(),
        drained(accum, deltas)[cpu.0 as int] == (StructopInfo {
            rbc_total: (accum[cpu.0 as int].rbc_total + branches_on(deltas, cpu)) as u64,
            interleave_count: (accum[cpu.0 as int].interleave_count + yields_on(deltas, cpu)) as u64,
            ..accum[cpu.0 as int]
        }),
    decreases deltas.len(),
{
    if deltas.len() > 0 {
        lemma_counts_are_natural(deltas.drop_last(), cpu);
        law_accumulator_grows_by_deltas(accum, deltas.drop_last(), cpu);
    }
}

} // verus!
