use scx_simulator::preempt::{
    drain_preemption_records, enable_preemption_collection, inc_structop_kfunc, install,
    maybe_begin_structop, maybe_yield_deferred, maybe_yield_preemptive,
    maybe_yield_preemptive_post, pause_timer, preempt_handler, read_rbc_count,
    record_rbc_preemption, record_yield, reset_preemption_sequence, reset_structop_cpu_count,
    reset_structop_globals, resume_deferred_yield, resume_timer, resume_yield, seed_structop,
    structop_info, uninstall, KfuncYieldPhase, PreemptCtx, PreemptRing, PreemptionCollector,
    PreemptionSequence, SimContext, StructopGlobals, StructopInfo, StructopTracker, YieldKind,
    YieldStep,
};
use scx_simulator::stalker::{
    arm_software_rbc, software_rbc_callout_inner, SoftwareRbc, StalkerGlobals,
};
use scx_simulator::types::{CpuId, OpsContext, WorkerId};

fn context(cpu: u32, ops_context: OpsContext) -> SimContext {
    SimContext { current_cpu: CpuId(cpu), ops_context, waker_task_raw: 0x1000 + cpu as u64 }
}

#[test]
fn nothing_happens_without_a_context() {
    let mut ring = PreemptRing::new(2, 42);
    let mut tracker = StructopTracker::new();
    let mut globals = StructopGlobals::new();
    let sim = context(0, OpsContext::Dispatch);
    let r = maybe_yield_preemptive(&None, &mut ring, &sim, &mut tracker, &mut globals);
    assert_eq!(r, None);
    assert_eq!(pause_timer(&None), None);
    assert_eq!(resume_timer(&None, &mut ring), None);
    assert_eq!(ring.cooperative_yields(), 0);
    assert_eq!(tracker, StructopTracker::new());
    // The PRNG has not moved.
    assert_eq!(ring.roll_timeslice(50, 500), 204);
}

#[test]
fn a_cooperative_yield_saves_and_restores() {
    let mut ring = PreemptRing::new(2, 42);
    let mut slot = None;
    install(&mut slot, WorkerId(0), 5, 50, 500);
    let mut tracker = StructopTracker::new();
    let mut globals = StructopGlobals::new();
    let mut sim = context(3, OpsContext::Enqueue);
    let before = sim;
    assert_eq!(ring.start(), Some(WorkerId(0)));
    assert_eq!(pause_timer(&slot), Some(5));

    let p = maybe_yield_preemptive(&slot, &mut ring, &sim, &mut tracker, &mut globals).unwrap();
    assert_eq!(p.kind, YieldKind::Kfunc(KfuncYieldPhase::Pre));
    assert_eq!(p.saved, before);
    assert_eq!(p.wake, Some(WorkerId(0)));
    assert_eq!(
        p.sinfo,
        StructopInfo {
            cpu_count: 1,
            global_count: 1,
            rbc_total: 0,
            kfunc_count: 1,
            interleave_count: 1,
        }
    );
    assert_eq!(ring.cooperative_yields(), 1);

    // Another worker has changed the simulator state meanwhile.
    sim = context(9, OpsContext::NoOps);
    assert_eq!(resume_yield(&p, &mut ring, &mut sim), None);
    assert_eq!(sim, before);
    // A yield before the kfunc leaves the timer to resume_timer.
    assert_eq!(resume_timer(&slot, &mut ring), Some((5, 50 + 476557059 % 451)));
    uninstall(&mut slot);
    assert_eq!(slot, None);
}

#[test]
fn a_post_yield_rearms_the_timer() {
    let mut ring = PreemptRing::new(1, 42);
    let mut slot = None;
    install(&mut slot, WorkerId(0), 7, 50, 500);
    let mut tracker = StructopTracker::new();
    let mut globals = StructopGlobals::new();
    let mut sim = context(0, OpsContext::NoOps);
    let p = maybe_yield_preemptive_post(&slot, &mut ring, &sim, &mut tracker, &mut globals);
    let p = p.unwrap();
    assert_eq!(p.kind, YieldKind::Kfunc(KfuncYieldPhase::Post));
    assert_eq!(p.sinfo.cpu_count, 0);
    // The choice of the next worker has used the first value of the PRNG.
    assert_eq!(resume_yield(&p, &mut ring, &mut sim), Some((7, 59)));
    // Without a timer there is nothing to re-arm and nothing is rolled.
    install(&mut slot, WorkerId(0), -1, 500, 50);
    let p = maybe_yield_preemptive_post(&slot, &mut ring, &sim, &mut tracker, &mut globals);
    assert_eq!(resume_yield(&p.unwrap(), &mut ring, &mut sim), None);
    assert_eq!(pause_timer(&slot), None);
    assert_eq!(resume_timer(&slot, &mut ring), None);
    assert_eq!(KfuncYieldPhase::Pre.to_string(), "kfunc");
    assert_eq!(KfuncYieldPhase::Post.to_string(), "kfunc-post");
}

#[test]
fn a_signal_records_the_preemption() {
    let mut ring = PreemptRing::new(2, 42);
    let mut slot = None;
    let mut tracker = StructopTracker::new();
    let mut globals = StructopGlobals::new();
    let mut sequence = PreemptionSequence { next: 9 };
    let mut collector = PreemptionCollector::new();
    enable_preemption_collection(&mut collector, &mut sequence);
    let mut sim = context(4, OpsContext::Dispatch);
    let saved = sim;
    maybe_begin_structop(&mut tracker, &mut globals, true);

    let mut signal = |slot: &Option<PreemptCtx>, sim: Option<SimContext>, tracker: &mut StructopTracker, ring: &mut PreemptRing| {
        preempt_handler(
            slot,
            ring,
            sim,
            0xabc,
            120,
            tracker,
            &globals,
            &mut sequence,
            &mut collector,
        )
    };
    // Outside an interleave context or the simulator nothing happens.
    assert_eq!(signal(&slot, Some(sim), &mut tracker, &mut ring), None);
    install(&mut slot, WorkerId(1), 5, 1, 1);
    assert_eq!(signal(&slot, None, &mut tracker, &mut ring), None);
    assert_eq!(tracker.rbc_total, 0);

    let p = signal(&slot, Some(sim), &mut tracker, &mut ring).unwrap();
    assert_eq!(p.kind, YieldKind::Signal);
    assert_eq!(p.wake, Some(WorkerId(0)));
    assert_eq!((p.sinfo.rbc_total, p.sinfo.interleave_count), (120, 1));
    assert_eq!((p.sinfo.kfunc_count, p.sinfo.cpu_count), (0, 1));
    assert_eq!(ring.signal_preemptions(), 1);
    let records = ring.preemption_records();
    assert_eq!(records.len(), 1);
    assert_eq!(
        records[0].to_string(),
        "seq=0 structop=1:1 rbc=120 rip=0xabc cpu=4 worker=1"
    );
    assert_eq!(records[0].rbc_count, 120);
    assert_eq!(drain_preemption_records(&mut collector), records);
    reset_preemption_sequence(&mut sequence);
    assert_eq!(sequence.next, 0);
    // A signal does not re-arm the timer.
    sim = context(0, OpsContext::NoOps);
    assert_eq!(resume_yield(&p, &mut ring, &mut sim), None);
    assert_eq!(sim, saved);
}

#[test]
fn a_failed_read_counts_zero() {
    assert_eq!(read_rbc_count(3, 8, 42), 42);
    assert_eq!(read_rbc_count(3, -1, 42), 0);
    assert_eq!(read_rbc_count(-1, 8, 42), 0);
}

#[test]
fn structops_count_entries() {
    let mut tracker = StructopTracker::new();
    let mut globals = StructopGlobals::new();
    for in_ops in [true, true, false, false, true, true, true, false, true] {
        maybe_begin_structop(&mut tracker, &mut globals, in_ops);
    }
    let info = structop_info(&tracker, &globals);
    assert_eq!((info.cpu_count, info.global_count), (3, 3));
    record_rbc_preemption(&mut tracker, 10);
    record_rbc_preemption(&mut tracker, 5);
    inc_structop_kfunc(&mut tracker);
    let info = structop_info(&tracker, &globals);
    assert_eq!((info.rbc_total, info.kfunc_count), (15, 1));

    let mut other = StructopTracker::new();
    other.interleave_count = 9;
    seed_structop(&mut other, &StructopInfo { interleave_count: 4, ..info });
    // The yields are counted anew.
    assert_eq!((other.in_structop, other.interleave_count), (false, 0));
    maybe_begin_structop(&mut other, &mut globals, true);
    assert_eq!(structop_info(&other, &globals).cpu_count, 4);
    assert_eq!(structop_info(&other, &globals).rbc_total, 15);

    reset_structop_cpu_count(&mut tracker);
    assert_eq!(tracker, StructopTracker::new());
    reset_structop_globals(&mut globals);
    assert_eq!(structop_info(&tracker, &globals), StructopInfo::default());
}

#[test]
fn a_cooperative_yield_is_recorded_with_zeros() {
    let mut ring = PreemptRing::new(2, 42);
    let mut slot = None;
    install(&mut slot, WorkerId(1), 5, 50, 500);
    let mut tracker = StructopTracker::new();
    let mut globals = StructopGlobals::new();
    let mut sequence = PreemptionSequence { next: 0 };
    let mut collector = PreemptionCollector::new();
    enable_preemption_collection(&mut collector, &mut sequence);
    sequence.next = 6;
    let sim = context(3, OpsContext::Enqueue);
    let p = maybe_yield_preemptive(&slot, &mut ring, &sim, &mut tracker, &mut globals).unwrap();
    assert_eq!(ring.preemption_records().len(), 0);
    assert_eq!(record_yield(&p, &mut ring, &mut sequence, &mut collector), Some(6));
    assert_eq!(sequence.next, 7);
    let records = ring.preemption_records();
    assert_eq!(records.len(), 1);
    assert_eq!((records[0].rbc_count, records[0].instruction_pointer), (0, 0));
    assert_eq!((records[0].cpu_id, records[0].worker_id), (CpuId(3), WorkerId(1)));
    assert_eq!((records[0].structop_local, records[0].structop_global), (1, 1));
    assert_eq!(drain_preemption_records(&mut collector), records);

    // A signal has been recorded already.
    let p = preempt_handler(
        &slot,
        &mut ring,
        Some(sim),
        0xabc,
        12,
        &mut tracker,
        &globals,
        &mut sequence,
        &mut collector,
    );
    assert_eq!(ring.preemption_records().len(), 2);
    assert_eq!(record_yield(&p.unwrap(), &mut ring, &mut sequence, &mut collector), None);
    assert_eq!(ring.preemption_records().len(), 2);
    assert_eq!(sequence.next, 8);
}

#[test]
fn an_expired_counter_yields_and_is_rearmed() {
    let mut ring = PreemptRing::new(1, 42);
    let mut slot = None;
    let mut tracker = StructopTracker::new();
    let globals = StructopGlobals::new();
    let mut sequence = PreemptionSequence { next: 3 };
    let mut collector = PreemptionCollector::new();
    let mut state = SoftwareRbc::new();
    let mut counters = StalkerGlobals::new();
    let mut sim = context(2, OpsContext::Dispatch);
    let saved = sim;
    let mut at_kfunc = |slot: &Option<PreemptCtx>,
                        ring: &mut PreemptRing,
                        state: &mut SoftwareRbc,
                        counters: &mut StalkerGlobals,
                        tracker: &mut StructopTracker| {
        maybe_yield_deferred(
            slot,
            ring,
            &saved,
            state,
            counters,
            tracker,
            &globals,
            &mut sequence,
            &mut collector,
        )
    };
    arm_software_rbc(&mut state, 2, 0x4000);
    software_rbc_callout_inner(&mut state, &mut counters, 0x4010);
    let armed = state;
    // One branch is left: nothing happens.
    install(&mut slot, WorkerId(0), -1, 50, 500);
    let r = at_kfunc(&slot, &mut ring, &mut state, &mut counters, &mut tracker);
    assert_eq!((r, state, counters.deferred_yields), (None, armed, 0));

    software_rbc_callout_inner(&mut state, &mut counters, 0x4020);
    // Without a context the yield stays pending.
    let r = at_kfunc(&None, &mut ring, &mut state, &mut counters, &mut tracker);
    assert_eq!((r, state.yield_pending, counters.deferred_yields), (None, true, 0));
    let p = at_kfunc(&slot, &mut ring, &mut state, &mut counters, &mut tracker).unwrap();
    assert_eq!((p.kind, p.wake, p.saved), (YieldKind::Deferred, Some(WorkerId(0)), saved));
    assert_eq!((state.yield_pending, state.rbc_total, counters.deferred_yields), (false, 2, 1));
    assert_eq!((tracker.rbc_total, tracker.interleave_count), (2, 1));
    assert_eq!(ring.signal_preemptions(), 1);
    let records = ring.preemption_records();
    assert_eq!(
        records[0].to_string(),
        "seq=3 structop=0:0 rbc=2 rip=0x4020 cpu=2 worker=0"
    );

    sim = context(9, OpsContext::NoOps);
    resume_deferred_yield(&p, &mut ring, &mut sim, &mut state);
    assert_eq!(sim, saved);
    // The choice of the next worker has used the first value of the PRNG.
    assert_eq!((state.counter, state.current_timeslice), (59, 59));
    assert_eq!((state.yield_pending, state.active, state.rbc_total), (false, true, 2));
}

#[test]
fn only_a_post_yield_ends_with_the_timer() {
    let steps = |kind: YieldKind| {
        let mut steps = vec![YieldStep::first()];
        while let Some(next) = steps[steps.len() - 1].next(kind) {
            steps.push(next);
        }
        steps
    };
    let pre = vec![
        YieldStep::PauseTimer,
        YieldStep::Yield,
        YieldStep::Record,
        YieldStep::HandOver,
        YieldStep::Resume,
    ];
    assert_eq!(steps(YieldKind::Kfunc(KfuncYieldPhase::Pre)), pre);
    assert_eq!(steps(YieldKind::Signal), pre);
    assert_eq!(steps(YieldKind::Deferred), pre);
    let mut post = pre;
    post.push(YieldStep::RearmTimer);
    assert_eq!(steps(YieldKind::Kfunc(KfuncYieldPhase::Post)), post);
}
