use scx_simulator::preempt::checkpoint::{
    compare_checkpoints, drain_determinism_checkpoints, enable_determinism_mode, fnv1a_combine,
    fnv1a_hash_bytes, fnv1a_hash_u64, is_determinism_mode_enabled, record_checkpoint,
    CheckpointCollector, CheckpointEvent, DeterminismCheckpoint, DivergenceType,
    FNV_OFFSET_BASIS, MAX_CHECKPOINTS,
};
use scx_simulator::types::CpuId;

fn checkpoint(sequence: u64, rip: u64, rbc: u64, hash: u64) -> DeterminismCheckpoint {
    DeterminismCheckpoint {
        sequence,
        event: CheckpointEvent::Dispatch,
        instruction_pointer: rip,
        rbc_count: rbc,
        memory_hash: hash,
        cpu_id: CpuId(1),
    }
}

#[test]
fn equal_runs_do_not_diverge() {
    let a = vec![checkpoint(0, 1, 2, 3), checkpoint(1, 4, 5, 6)];
    assert!(compare_checkpoints(&a, &a).is_none());
    assert!(compare_checkpoints(&[], &[]).is_none());
    // The sequence number does not count.
    let b = vec![checkpoint(7, 1, 2, 3), checkpoint(9, 4, 5, 6)];
    assert!(compare_checkpoints(&a, &b).is_none());
}

#[test]
fn the_first_divergence_is_reported() {
    let a = vec![checkpoint(0, 1, 2, 3), checkpoint(1, 4, 5, 6), checkpoint(2, 0, 0, 0)];
    let mut b = a.clone();
    b[1].memory_hash = 7;
    b[2].rbc_count = 7;
    let d = compare_checkpoints(&a, &b).unwrap();
    assert_eq!(d.checkpoint_index, 1);
    assert_eq!(d.expected, a[1]);
    assert_eq!(d.actual, b[1]);
    assert_eq!(d.divergence_type, DivergenceType::MemoryHash);
    assert_eq!(
        d.to_string(),
        "Divergence at checkpoint 1: memory hash differs\n  \
         expected: seq=1 event=dispatch rip=0x0000000000000004 rbc=5 hash=0x0000000000000006 cpu=1\n  \
         actual:   seq=1 event=dispatch rip=0x0000000000000004 rbc=5 hash=0x0000000000000007 cpu=1"
    );
}

#[test]
fn each_field_has_its_divergence() {
    let a = checkpoint(0, 1, 2, 3);
    let mut event = a;
    event.event = CheckpointEvent::Tick;
    let mut cpu = a;
    cpu.cpu_id = CpuId(9);
    let mut rip = a;
    rip.instruction_pointer = 9;
    let mut rbc = a;
    rbc.rbc_count = 9;
    let mut hash = a;
    hash.memory_hash = 9;
    let cases = [
        (event, DivergenceType::EventType, "event type differs"),
        (cpu, DivergenceType::CpuId, "CPU ID differs"),
        (rip, DivergenceType::Rip, "RIP differs"),
        (rbc, DivergenceType::Rbc, "RBC count differs"),
        (hash, DivergenceType::MemoryHash, "memory hash differs"),
    ];
    for (b, kind, text) in cases {
        let d = compare_checkpoints(&[a], &[b]).unwrap();
        assert_eq!(d.divergence_type, kind);
        assert_eq!(d.divergence_type.to_string(), text);
        assert!(compare_checkpoints(&[b], &[a]).is_some());
    }
    let mut all = checkpoint(0, 9, 9, 9);
    all.event = CheckpointEvent::Running;
    all.cpu_id = CpuId(2);
    let d = compare_checkpoints(&[a], &[all]).unwrap();
    assert_eq!(
        d.divergence_type,
        DivergenceType::Multiple(vec![
            DivergenceType::EventType,
            DivergenceType::CpuId,
            DivergenceType::Rip,
            DivergenceType::Rbc,
            DivergenceType::MemoryHash,
        ])
    );
    assert_eq!(
        d.divergence_type.to_string(),
        "event type differs, CPU ID differs, RIP differs, RBC count differs, memory hash differs"
    );
    assert_eq!(DivergenceType::Multiple(vec![]).to_string(), "");
    let nested = DivergenceType::Multiple(vec![
        DivergenceType::Rbc,
        DivergenceType::Multiple(vec![DivergenceType::CpuId]),
    ]);
    assert_eq!(nested.clone(), nested);
}

#[test]
fn a_shorter_run_diverges_at_its_end() {
    let a = vec![checkpoint(0, 1, 2, 3), checkpoint(1, 4, 5, 6)];
    let d = compare_checkpoints(&a, &a[..1]).unwrap();
    assert_eq!(d.checkpoint_index, 1);
    assert_eq!(d.expected, a[1]);
    assert_eq!(d.actual.event, CheckpointEvent::Preemption);
    assert_eq!(d.actual.memory_hash, 0);
    assert_eq!(d.divergence_type, DivergenceType::EventType);
    let d = compare_checkpoints(&[], &a).unwrap();
    assert_eq!(d.checkpoint_index, 0);
    assert_eq!(d.actual, a[0]);
    assert_eq!(d.expected.cpu_id, CpuId(0));
    // A difference in the common part comes first.
    let d = compare_checkpoints(&a, &[checkpoint(0, 1, 9, 3)]).unwrap();
    assert_eq!(d.checkpoint_index, 0);
    assert_eq!(d.divergence_type, DivergenceType::Rbc);
}

#[test]
fn events_have_names() {
    let names = [
        (CheckpointEvent::Preemption, "preemption"),
        (CheckpointEvent::CooperativeYield, "coop_yield"),
        (CheckpointEvent::Dispatch, "dispatch"),
        (CheckpointEvent::Enqueue, "enqueue"),
        (CheckpointEvent::Running, "running"),
        (CheckpointEvent::Stopping, "stopping"),
        (CheckpointEvent::SelectCpu, "select_cpu"),
        (CheckpointEvent::Tick, "tick"),
    ];
    for (event, name) in names {
        assert_eq!(event.to_string(), name);
    }
    assert_eq!(
        checkpoint(3, u64::MAX, 8, 0xabc).to_string(),
        "seq=3 event=dispatch rip=0xffffffffffffffff rbc=8 hash=0x0000000000000abc cpu=1"
    );
}

#[test]
fn hashes_are_fnv1a() {
    assert_eq!(fnv1a_hash_bytes(b""), 0xcbf29ce484222325);
    assert_eq!(fnv1a_hash_bytes(b"a"), 0xaf63dc4c8601ec8c);
    assert_eq!(fnv1a_hash_bytes(b"foobar"), 0x85944171f73967e8);
    assert_eq!(fnv1a_hash_u64(12345), 0xe71eb185e2edcc4c);
    assert_eq!(fnv1a_hash_u64(12345), fnv1a_hash_bytes(&12345u64.to_le_bytes()));
    assert_eq!(fnv1a_combine(1, 2), 0x5cf0551b20cdde63);
    assert_ne!(fnv1a_combine(1, 256), fnv1a_combine(256, 1));
}

#[test]
fn hashing_a_concatenation_continues_the_hash() {
    let mut bytes = b"left".to_vec();
    bytes.extend_from_slice(&77u64.to_le_bytes());
    assert_eq!(fnv1a_combine(fnv1a_hash_bytes(b"left"), 77), fnv1a_hash_bytes(&bytes));
    assert_eq!(fnv1a_combine(FNV_OFFSET_BASIS, 5), fnv1a_hash_u64(5));
}

#[test]
fn checkpoints_are_numbered_while_enabled() {
    let mut collector = CheckpointCollector::new();
    assert!(!is_determinism_mode_enabled(&collector));
    let event = CheckpointEvent::Enqueue;
    assert_eq!(record_checkpoint(&mut collector, event, 1, 2, 3, CpuId(4)), None);

    enable_determinism_mode(&mut collector);
    assert!(is_determinism_mode_enabled(&collector));
    assert_eq!(record_checkpoint(&mut collector, event, 1, 2, 3, CpuId(4)), Some(0));
    assert_eq!(record_checkpoint(&mut collector, event, 5, 6, 7, CpuId(8)), Some(1));
    let got = drain_determinism_checkpoints(&mut collector);
    assert!(!is_determinism_mode_enabled(&collector));
    assert_eq!(got.len(), 2);
    assert_eq!((got[0].sequence, got[1].sequence), (0, 1));
    assert_eq!(
        got[1],
        DeterminismCheckpoint {
            sequence: 1,
            event,
            instruction_pointer: 5,
            rbc_count: 6,
            memory_hash: 7,
            cpu_id: CpuId(8),
        }
    );
    assert!(drain_determinism_checkpoints(&mut collector).is_empty());
    assert_eq!(record_checkpoint(&mut collector, event, 1, 2, 3, CpuId(4)), None);

    // Enabling again starts over.
    enable_determinism_mode(&mut collector);
    assert_eq!(record_checkpoint(&mut collector, event, 1, 2, 3, CpuId(4)), Some(0));
    enable_determinism_mode(&mut collector);
    assert!(drain_determinism_checkpoints(&mut collector).is_empty());
}

#[test]
fn a_full_collector_takes_no_more() {
    let mut collector = CheckpointCollector::new();
    enable_determinism_mode(&mut collector);
    for i in 0..MAX_CHECKPOINTS as u64 {
        let r = record_checkpoint(&mut collector, CheckpointEvent::Tick, i, 0, 0, CpuId(0));
        assert_eq!(r, Some(i));
    }
    let r = record_checkpoint(&mut collector, CheckpointEvent::Tick, 0, 0, 0, CpuId(0));
    assert_eq!(r, None);
    assert_eq!(drain_determinism_checkpoints(&mut collector).len(), MAX_CHECKPOINTS);
}
