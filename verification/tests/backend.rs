use scx_simulator::backend::frida::FridaBackend;
use scx_simulator::backend::pmu::{setup_pmu_timer, PmuBackend, WorkerMode};
use scx_simulator::backend::replay::{ReplayBackend, ReplayCursor};
use scx_simulator::backend::{
    assign_workers, drain_structop, RoundStep, StructopDelta, WorkerStep,
};
use scx_simulator::perf::PmuEvent;
use scx_simulator::preempt::trace::PreemptionTrace;
use scx_simulator::preempt::{
    install, maybe_yield_preemptive, seed_structop, structop_info, PreemptCtx, PreemptRing,
    SimContext, StructopGlobals, StructopInfo, StructopTracker,
};
use scx_simulator::stalker::{SoftwareRbc, TextRange};
use scx_simulator::types::{CpuId, OpsContext, WorkerId};

fn info(interleave_count: u64) -> StructopInfo {
    let mut r = StructopInfo::default();
    r.interleave_count = interleave_count;
    r
}

#[test]
fn deltas_are_drained_into_the_cpu() {
    let mut accum = vec![info(1), info(2)];
    let delta = StructopDelta { rbc_total: 30, interleave_count: 4 };
    drain_structop(&mut accum, CpuId(1), delta);
    drain_structop(&mut accum, CpuId(1), StructopDelta::default());
    drain_structop(&mut accum, CpuId(1), delta);
    drain_structop(&mut accum, CpuId(2), delta);
    assert_eq!(accum[0], info(1));
    assert_eq!((accum[1].rbc_total, accum[1].interleave_count), (60, 10));
    assert_eq!(accum.len(), 2);
}

#[test]
fn a_worker_lives_in_order() {
    let mut steps = vec![WorkerStep::first()];
    while let Some(next) = steps[steps.len() - 1].next() {
        steps.push(next);
    }
    assert_eq!(
        steps,
        vec![
            WorkerStep::Setup,
            WorkerStep::WaitForToken,
            WorkerStep::EnterSim,
            WorkerStep::Arm,
            WorkerStep::Body,
            WorkerStep::Disarm,
            WorkerStep::DrainStructop,
            WorkerStep::ClearOpsContext,
            WorkerStep::Finish,
            WorkerStep::ExitSim,
            WorkerStep::Teardown,
        ]
    );
    let mut round = vec![RoundStep::first()];
    while let Some(next) = round[round.len() - 1].next() {
        round.push(next);
    }
    assert_eq!(
        round,
        vec![
            RoundStep::GlobalSetup,
            RoundStep::SpawnWorkers,
            RoundStep::Start,
            RoundStep::WaitAllDone,
            RoundStep::JoinWorkers,
            RoundStep::LogCompletion,
            RoundStep::GlobalTeardown,
        ]
    );
    let ended: Vec<bool> = round.iter().map(|s| s.workers_ended()).collect();
    assert_eq!(ended, vec![false, false, false, false, false, true, true]);
}

#[test]
fn workers_are_assigned_in_order() {
    assert_eq!(
        assign_workers(&[CpuId(4), CpuId(2)]),
        vec![(WorkerId(0), CpuId(4)), (WorkerId(1), CpuId(2))]
    );
    assert!(assign_workers(&[]).is_empty());
}

fn pmu(cooperative_only: bool) -> PmuBackend {
    PmuBackend {
        timeslice_min: 50,
        timeslice_max: 500,
        cooperative_only,
        break_on: PmuEvent::RetiredBranchConditional,
    }
}

#[test]
fn a_pmu_worker_falls_back() {
    assert_eq!(setup_pmu_timer(false, Some(6), true), 6);
    assert_eq!(setup_pmu_timer(true, Some(6), true), -1);
    assert_eq!(setup_pmu_timer(false, Some(6), false), -1);
    assert_eq!(setup_pmu_timer(false, None, true), -1);

    let mut slot = None;
    let r = pmu(false).worker_setup(&mut slot, WorkerId(2), Some(6), true, Some(7), true);
    assert_eq!(r, (6, 7, WorkerMode::Timer));
    assert_eq!(
        slot,
        Some(PreemptCtx {
            worker_id: WorkerId(2),
            timer_fd: 6,
            timeslice_min: 50,
            timeslice_max: 500,
        })
    );
    let r = pmu(true).worker_setup(&mut slot, WorkerId(2), None, true, Some(8), true);
    // The counter measures in this mode too.
    assert_eq!(r, (-1, 8, WorkerMode::CooperativeByConfig));
    assert_eq!(slot.unwrap().timer_fd, -1);
    let mode = |determinism| {
        let mut slot = None;
        pmu(false).worker_setup(&mut slot, WorkerId(0), None, false, None, determinism)
    };
    assert_eq!(mode(true), (-1, -1, WorkerMode::UnavailableInDeterminism));
    assert_eq!(mode(false), (-1, -1, WorkerMode::Unavailable));
}

#[test]
fn a_pmu_worker_is_armed_with_a_timeslice() {
    let mut ring = PreemptRing::new(1, 42);
    assert_eq!(pmu(false).arm(-1, &mut ring), None);
    assert_eq!(pmu(false).arm(3, &mut ring), Some(204));
    assert_eq!(pmu(false).arm(3, &mut ring), Some(59));
    assert_eq!(
        pmu(false).disarm(Some(70), &info(8)),
        StructopDelta { rbc_total: 70, interleave_count: 8 }
    );
    assert_eq!(
        pmu(false).disarm(None, &info(8)),
        StructopDelta { rbc_total: 0, interleave_count: 8 }
    );
}

#[test]
fn replay_follows_the_trace() {
    let text = "# workers: 2\n# break_on: insn\nseq=1 rbc=11 worker=1\nseq=0 rbc=10 worker=1\n";
    let trace = PreemptionTrace::deserialize(text, 0).ok().unwrap();
    let backend = ReplayBackend::new(&trace, 3);
    assert_eq!(backend.break_on(), PmuEvent::InstructionsRetired);
    assert_eq!(backend.target_count(WorkerId(0)), 0);
    assert_eq!(backend.target_count(WorkerId(1)), 2);
    assert_eq!(backend.target_count(WorkerId(2)), 0);
    assert_eq!(backend.arm(WorkerId(1), 4, 5), Some((4, 10)));
    assert_eq!(backend.arm(WorkerId(1), -1, 5), None);
    assert_eq!(backend.arm(WorkerId(1), 4, -1), None);
    assert_eq!(backend.arm(WorkerId(0), 4, 5), None);
    assert!(backend.can_replay(0, 0));
    let ctx = backend.worker_setup(WorkerId(1), Some(4), true, Some(5));
    assert_eq!((ctx.worker_id, ctx.timer_fd, ctx.bp_fd), (WorkerId(1), 4, 5));
    assert_eq!(ctx.cursor.len(), 2);
    assert_eq!(ctx.cursor.current_target().unwrap().rbc_count, 10);
    let ctx = backend.worker_setup(WorkerId(0), Some(4), false, None);
    assert_eq!((ctx.worker_id, ctx.timer_fd, ctx.bp_fd), (WorkerId(0), -1, -1));
    assert_eq!(ctx.cursor.len(), 0);
    assert_eq!(
        backend.disarm(&info(2)),
        StructopDelta { rbc_total: 0, interleave_count: 2 }
    );
    let cursor = ReplayCursor::new(trace.worker_trace(WorkerId(1)).to_vec());
    assert_eq!(cursor.len(), 2);
    assert_eq!(cursor.current_target().unwrap().sequence, 0);
    assert!(ReplayCursor::new(vec![]).current_target().is_none());
}

#[test]
fn software_counting_is_armed_with_a_timeslice() {
    let range = TextRange { base: 0x4000, size: 0x100 };
    let backend = FridaBackend::new(range, 50, 500);
    let mut ring = PreemptRing::new(1, 42);
    let mut state = SoftwareRbc::new();
    let mut slot = None;
    backend.worker_setup(&mut slot, WorkerId(0));
    assert_eq!(slot.unwrap().timer_fd, -1);
    backend.arm(&mut state, &mut ring);
    assert_eq!((state.counter, state.current_timeslice), (204, 204));
    assert_eq!((state.active, state.text_base), (true, 0x4000));
    let delta = backend.disarm(&mut state, &info(3));
    assert_eq!(delta, StructopDelta { rbc_total: 0, interleave_count: 3 });
    assert_eq!((state.counter, state.active, state.text_base), (u64::MAX, false, 0));
}

#[test]
fn a_seeded_worker_hands_out_its_own_yields() {
    let mut accum = vec![info(5)];
    let mut tracker = StructopTracker::new();
    let mut globals = StructopGlobals::new();
    let mut ring = PreemptRing::new(1, 42);
    let mut slot = None;
    install(&mut slot, WorkerId(0), -1, 1, 1);
    let sim = SimContext {
        current_cpu: CpuId(0),
        ops_context: OpsContext::Dispatch,
        waker_task_raw: 0,
    };
    seed_structop(&mut tracker, &accum[0]);
    for _ in 0..3 {
        maybe_yield_preemptive(&slot, &mut ring, &sim, &mut tracker, &mut globals);
    }
    let delta = pmu(true).disarm(None, &structop_info(&tracker, &globals));
    assert_eq!(delta.interleave_count, 3);
    drain_structop(&mut accum, CpuId(0), delta);
    assert_eq!(accum[0].interleave_count, 8);
}
