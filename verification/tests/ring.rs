use scx_simulator::preempt::record::{
    drain_preemption_records, enable_preemption_collection, PreemptionCollector,
    PreemptionSequence, MAX_PREEMPTION_RECORDS,
};
use scx_simulator::preempt::ring::PreemptRing;
use scx_simulator::preempt::structop::StructopInfo;
use scx_simulator::types::{CpuId, WorkerId};

/// Runs workers that yield the given number of times and finish; returns them in
/// the order in which they first got the token.
fn run(ring: &mut PreemptRing, yields: &[usize]) -> Vec<WorkerId> {
    let mut left: Vec<usize> = yields.to_vec();
    let mut order: Vec<WorkerId> = Vec::new();
    let mut current = ring.start();
    while !ring.wait_all_done() {
        let me = current.unwrap();
        assert!(ring.wait_for_token(me));
        if !order.contains(&me) {
            order.push(me);
        }
        if left[me.0] > 0 {
            left[me.0] -= 1;
            current = ring.yield_token(me);
        } else {
            current = ring.finish(me);
        }
    }
    assert_eq!(current, None);
    assert!(left.iter().all(|&n| n == 0));
    order
}

fn run_and_record_order(n: usize, seed: u32) -> Vec<WorkerId> {
    let mut ring = PreemptRing::new(n, seed);
    run(&mut ring, &vec![1; n])
}

#[test]
fn test_single_worker_completes() {
    let mut ring = PreemptRing::new(1, 42);
    ring.start();
    assert!(ring.wait_for_token(WorkerId(0)));
    ring.finish(WorkerId(0));
    assert!(ring.wait_all_done());
}

#[test]
fn test_two_workers_interleave() {
    let mut ring = PreemptRing::new(2, 42);
    assert_eq!(run(&mut ring, &[1, 1]).len(), 2);
}

#[test]
fn test_prng_determinism() {
    let order1 = run_and_record_order(3, 12345);
    let order2 = run_and_record_order(3, 12345);
    assert_eq!(order1, order2, "same seed must give same order");
}

#[test]
fn test_different_seeds_may_differ() {
    let order1 = run_and_record_order(4, 100);
    let order2 = run_and_record_order(4, 999);
    let _ = (order1, order2); // Just verify no panics.
}

#[test]
fn test_finish_without_yield() {
    let mut ring = PreemptRing::new(2, 42);
    assert_eq!(run(&mut ring, &[0, 0]).len(), 2);
}

#[test]
fn test_multiple_yields() {
    let mut ring = PreemptRing::new(2, 42);
    assert_eq!(run(&mut ring, &[3, 1]).len(), 2);
}

#[test]
fn test_many_workers_stress() {
    // Stress test with many workers and many yields.
    for seed in [1, 42, 12345, 999999] {
        let n = 8;
        let mut ring = PreemptRing::new(n, seed);
        assert_eq!(run(&mut ring, &[10; 8]).len(), n);
    }
}

#[test]
fn test_roll_timeslice() {
    let mut ring = PreemptRing::new(1, 42);
    // Must be in range.
    for _ in 0..100 {
        let ts = ring.roll_timeslice(50, 500);
        assert!(ts >= 50 && ts <= 500, "timeslice {ts} out of range");
    }
    // Degenerate range.
    assert_eq!(ring.roll_timeslice(100, 100), 100);
}

#[test]
fn timeslices_follow_the_prng() {
    // The PRNG goes 42, 11355432, 2836018348, 476557059, 3648046016.
    let mut ring = PreemptRing::new(1, 42);
    assert_eq!(ring.roll_timeslice(50, 500), 204);
    assert_eq!(ring.roll_timeslice(7, 7), 7);
    assert_eq!(ring.roll_timeslice(50, 500), 59);
    assert_eq!(ring.roll_timeslice(0, u64::MAX - 1), 476557059);
    assert_eq!(ring.roll_timeslice(0, 3648046015), 0);
}

#[test]
fn choices_follow_the_prng() {
    let mut ring = PreemptRing::new(3, 42);
    // 11355432 % 3, 2836018348 % 3, then two workers are left.
    assert_eq!(ring.start(), Some(WorkerId(0)));
    assert_eq!(ring.yield_token(WorkerId(0)), Some(WorkerId(1)));
    assert!(!ring.wait_for_token(WorkerId(0)));
    assert!(ring.wait_for_token(WorkerId(1)));
    // 476557059 % 2 == 1: the second of workers 0 and 2.
    assert_eq!(ring.finish(WorkerId(1)), Some(WorkerId(2)));
    // 3648046016 % 2 == 0: the first of them.
    assert_eq!(ring.yield_token(WorkerId(2)), Some(WorkerId(0)));
    assert_eq!(ring.finish(WorkerId(0)), Some(WorkerId(2)));
    assert!(!ring.wait_all_done());
    assert_eq!(ring.finish(WorkerId(2)), None);
    assert!(ring.wait_all_done());
    assert_eq!(ring.start(), None);
}

#[test]
fn zero_seed_is_one() {
    assert_eq!(run_and_record_order(5, 0), run_and_record_order(5, 1));
    let mut a = PreemptRing::new(64, 0);
    let mut b = PreemptRing::new(64, 1);
    assert_eq!(a.roll_timeslice(0, 1000), b.roll_timeslice(0, 1000));
}

#[test]
fn one_token_at_a_time() {
    let n = 6;
    let mut ring = PreemptRing::new(n, 7);
    assert!((0..n).all(|w| !ring.wait_for_token(WorkerId(w))));
    let mut current = ring.start().unwrap();
    for _ in 0..200 {
        for w in 0..n {
            assert_eq!(ring.wait_for_token(WorkerId(w)), w == current.0);
        }
        current = ring.yield_token(current).unwrap();
    }
}

#[test]
fn counters_count() {
    let mut ring = PreemptRing::new(1, 1);
    assert_eq!((ring.signal_preemptions(), ring.cooperative_yields()), (0, 0));
    ring.inc_signal_preempt();
    ring.inc_cooperative_yield();
    ring.inc_cooperative_yield();
    assert_eq!((ring.signal_preemptions(), ring.cooperative_yields()), (1, 2));
}

#[test]
fn records_go_to_ring_and_collector() {
    let sinfo = StructopInfo::default();
    let mut sequence = PreemptionSequence { next: 77 };
    let mut collector = PreemptionCollector::new();
    let mut ring = PreemptRing::new(2, 3);
    let r = ring.record_preemption(
        &mut sequence,
        &mut collector,
        1,
        2,
        CpuId(3),
        WorkerId(1),
        sinfo,
    );
    assert_eq!(r, Some(77));
    assert!(drain_preemption_records(&mut collector).is_empty());

    enable_preemption_collection(&mut collector, &mut sequence);
    assert_eq!(sequence.next, 0);
    let r = ring.record_preemption(
        &mut sequence,
        &mut collector,
        5,
        6,
        CpuId(3),
        WorkerId(1),
        sinfo,
    );
    assert_eq!(r, Some(0));
    let own: Vec<u64> = ring.preemption_records().iter().map(|r| r.sequence).collect();
    assert_eq!(own, vec![0, 77]);
    let collected = drain_preemption_records(&mut collector);
    assert_eq!(collected.len(), 1);
    assert_eq!(collected[0], ring.preemption_records()[0]);
    assert!(drain_preemption_records(&mut collector).is_empty());
}

#[test]
fn a_full_ring_drops_records() {
    let mut sequence = PreemptionSequence::new();
    let mut collector = PreemptionCollector::new();
    let mut ring = PreemptRing::new(1, 1);
    enable_preemption_collection(&mut collector, &mut sequence);
    for i in 0..MAX_PREEMPTION_RECORDS as u64 + 3 {
        let r = ring.record_preemption(
            &mut sequence,
            &mut collector,
            i,
            0,
            CpuId(0),
            WorkerId(0),
            StructopInfo::default(),
        );
        let room = i < MAX_PREEMPTION_RECORDS as u64;
        assert_eq!(r, if room { Some(i) } else { None });
    }
    assert_eq!(sequence.next, MAX_PREEMPTION_RECORDS as u64);
    assert_eq!(ring.preemption_records().len(), MAX_PREEMPTION_RECORDS);
    assert_eq!(drain_preemption_records(&mut collector).len(), MAX_PREEMPTION_RECORDS);
}

#[test]
fn rings_share_one_sequence() {
    let mut sequence = PreemptionSequence { next: u64::MAX };
    let mut collector = PreemptionCollector::new();
    let mut a = PreemptRing::new(1, 1);
    let mut b = PreemptRing::new(1, 2);
    let mut numbers = Vec::new();
    for _ in 0..3 {
        for ring in [&mut a, &mut b] {
            let r = ring.record_preemption(
                &mut sequence,
                &mut collector,
                0,
                0,
                CpuId(0),
                WorkerId(0),
                StructopInfo::default(),
            );
            numbers.push(r.unwrap());
        }
    }
    assert_eq!(numbers, vec![u64::MAX, 0, 1, 2, 3, 4]);
    let kept: Vec<u64> = a.preemption_records().iter().map(|r| r.sequence).collect();
    assert_eq!(kept, vec![1, 3, u64::MAX]);
}

#[test]
fn the_course_does_not_depend_on_records() {
    let mut sequence = PreemptionSequence::new();
    let mut collector = PreemptionCollector::new();
    let mut a = PreemptRing::new(4, 77);
    let mut b = PreemptRing::new(4, 77);
    b.inc_signal_preempt();
    let mut wa = a.start();
    let mut wb = b.start();
    for i in 0..50u64 {
        assert_eq!(wa, wb);
        assert_eq!(a.roll_timeslice(0, 1000 + i), b.roll_timeslice(0, 1000 + i));
        let _ = b.record_preemption(
            &mut sequence,
            &mut collector,
            i,
            i,
            CpuId(0),
            wb.unwrap(),
            StructopInfo::default(),
        );
        wa = a.yield_token(wa.unwrap());
        wb = b.yield_token(wb.unwrap());
    }
}
