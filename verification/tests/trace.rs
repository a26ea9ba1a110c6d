use scx_simulator::perf::PmuEvent;
use scx_simulator::preempt::record::{PreemptionRecord, PreemptionRecordStore, PreemptionSequence};
use scx_simulator::preempt::structop::StructopInfo;
use scx_simulator::preempt::trace::{parse_hex_or_dec, parse_preemption_line, PreemptionTrace};
use scx_simulator::types::{CpuId, OpsContext, WorkerId};

#[allow(clippy::too_many_arguments)]
fn make_record(
    seq: u64,
    rbc: u64,
    rip: u64,
    cpu: u32,
    worker: usize,
    slocal: u64,
    sglobal: u64,
    srbc: u64,
) -> PreemptionRecord {
    PreemptionRecord {
        rbc_count: rbc,
        instruction_pointer: rip,
        cpu_id: CpuId(cpu),
        worker_id: WorkerId(worker),
        sequence: seq,
        structop_local: slocal,
        structop_global: sglobal,
        structop_rbc: srbc,
        ops_context: OpsContext::NoOps,
        kfunc_name: "",
    }
}

#[test]
fn test_preemption_trace_grouping() {
    let records = vec![
        make_record(0, 100, 0x1000, 0, 0, 1, 1, 100),
        make_record(1, 200, 0x2000, 1, 1, 1, 2, 200),
        make_record(2, 300, 0x3000, 0, 0, 1, 1, 400),
        make_record(3, 400, 0x4000, 1, 1, 1, 2, 600),
    ];

    let trace = PreemptionTrace::from_records(&records, 2, PmuEvent::RetiredBranchConditional);
    assert_eq!(trace.num_workers(), 2);
    assert_eq!(trace.len(), 4);

    let w0 = trace.worker_trace(WorkerId(0));
    assert_eq!(w0.len(), 2);
    assert_eq!(w0[0].sequence, 0);
    assert_eq!(w0[1].sequence, 2);

    let w1 = trace.worker_trace(WorkerId(1));
    assert_eq!(w1.len(), 2);
    assert_eq!(w1[0].sequence, 1);
    assert_eq!(w1[1].sequence, 3);

    // Out-of-range worker returns empty slice.
    assert!(trace.worker_trace(WorkerId(99)).is_empty());
}

#[test]
fn test_preemption_trace_empty() {
    let trace = PreemptionTrace::from_records(&[], 3, PmuEvent::RetiredBranchConditional);
    assert_eq!(trace.num_workers(), 3);
    assert_eq!(trace.len(), 0);
    assert!(trace.is_empty());
    assert!(trace.worker_trace(WorkerId(0)).is_empty());
}

#[test]
fn test_serialize_roundtrip() {
    let records = vec![
        make_record(0, 100, 0x7f000010c0, 0, 0, 1, 1, 100),
        make_record(1, 200, 0x7f000020d0, 1, 1, 1, 2, 200),
        make_record(2, 300, 0x7f000030e0, 0, 0, 1, 1, 400),
    ];

    let trace = PreemptionTrace::from_records(&records, 2, PmuEvent::RetiredBranchConditional);
    let so_base: u64 = 0x7f00000000;

    let text = trace.serialize(so_base);

    // Verify header.
    assert!(text.contains("# scxsim preemption trace"));
    assert!(text.contains("# workers: 2"));
    assert!(text.contains("# break_on: rbc"));
    assert!(text.contains("# total: 3"));

    // Verify structop and rip_offset are present.
    assert!(text.contains("structop="));
    assert!(text.contains("rip_offset="));
    assert!(text.contains("timeslice="));

    // Deserialize with same so_base: should get same absolute RIPs.
    let trace2 = PreemptionTrace::deserialize(&text, so_base).ok().unwrap();
    assert_eq!(trace2.num_workers(), 2);
    assert_eq!(trace2.len(), 3);

    let w0 = trace2.worker_trace(WorkerId(0));
    assert_eq!(w0.len(), 2);
    assert_eq!(w0[0].rbc_count, 100);
    assert_eq!(w0[0].instruction_pointer, 0x7f000010c0);
    assert_eq!(w0[0].structop_local, 1);
    assert_eq!(w0[0].structop_rbc, 100);
    assert_eq!(w0[1].rbc_count, 300);

    let w1 = trace2.worker_trace(WorkerId(1));
    assert_eq!(w1.len(), 1);
    assert_eq!(w1[0].rbc_count, 200);
    assert_eq!(w1[0].instruction_pointer, 0x7f000020d0);
    assert_eq!(w1[0].structop_rbc, 200);
}

#[test]
fn test_aslr_resilience() {
    // Record at one base address, replay at a different one.
    let records = vec![make_record(0, 42, 0x1000_1000, 0, 0, 1, 1, 42)];

    let trace = PreemptionTrace::from_records(&records, 1, PmuEvent::RetiredBranchConditional);
    let record_base: u64 = 0x1000_0000;

    // Serialize with record-time base.
    let text = trace.serialize(record_base);

    // Deserialize with a different replay-time base.
    let replay_base: u64 = 0x2000_0000;
    let trace2 = PreemptionTrace::deserialize(&text, replay_base).ok().unwrap();

    let w0 = trace2.worker_trace(WorkerId(0));
    assert_eq!(w0.len(), 1);
    // rip_offset = 0x1000_1000 - 0x1000_0000 = 0x1000
    // new rip = 0x2000_0000 + 0x1000 = 0x2000_1000
    assert_eq!(w0[0].instruction_pointer, 0x2000_1000);
}

#[test]
fn test_parse_hex_or_dec() {
    assert_eq!(parse_hex_or_dec("42").unwrap(), 42);
    assert_eq!(parse_hex_or_dec("0xff").unwrap(), 255);
    assert_eq!(parse_hex_or_dec("0XFF").unwrap(), 255);
    assert_eq!(parse_hex_or_dec("0x0").unwrap(), 0);
    assert!(parse_hex_or_dec("not_a_number").is_err());
}

#[test]
fn test_parse_preemption_line_new_format() {
    let line = "seq=5 structop=2:3 rbc=100 timeslice=42 rip=0x1000 rip_offset=0x100 cpu=1 worker=0";
    let rec = parse_preemption_line(line, 0x2000).unwrap();
    assert_eq!(rec.sequence, 5);
    assert_eq!(rec.rbc_count, 42); // timeslice takes precedence
    assert_eq!(rec.structop_rbc, 100); // rbc= becomes structop_rbc
    assert_eq!(rec.instruction_pointer, 0x2100); // so_base + rip_offset
    assert_eq!(rec.cpu_id, CpuId(1));
    assert_eq!(rec.worker_id, WorkerId(0));
    assert_eq!(rec.structop_local, 2);
    assert_eq!(rec.structop_global, 3);
}

#[test]
fn test_parse_preemption_line_old_format() {
    // No timeslice= field: rbc= is the raw count.
    let line = "seq=0 rbc=100 rip=0x1000 cpu=0 worker=0";
    let rec = parse_preemption_line(line, 0).unwrap();
    assert_eq!(rec.rbc_count, 100);
    assert_eq!(rec.instruction_pointer, 0x1000);
}

#[test]
fn test_break_on_insn_roundtrip() {
    let records = vec![
        make_record(0, 500, 0x7f000010c0, 0, 0, 1, 1, 500),
        make_record(1, 1000, 0x7f000020d0, 1, 1, 1, 2, 1000),
    ];

    let trace = PreemptionTrace::from_records(&records, 2, PmuEvent::InstructionsRetired);
    assert_eq!(trace.break_on(), PmuEvent::InstructionsRetired);

    let so_base: u64 = 0x7f00000000;
    let text = trace.serialize(so_base);

    // Verify insn header is present.
    assert!(text.contains("# break_on: insn"));

    // Deserialize and verify break_on is preserved.
    let trace2 = PreemptionTrace::deserialize(&text, so_base).ok().unwrap();
    assert_eq!(trace2.break_on(), PmuEvent::InstructionsRetired);
    assert_eq!(trace2.num_workers(), 2);
    assert_eq!(trace2.len(), 2);
}

#[test]
fn test_deserialize_old_trace_defaults_to_rbc() {
    // A trace without # break_on: header should default to rbc.
    let text = "# scxsim preemption trace\n\
                 # workers: 1\n\
                 # total: 1\n\
                 seq=0 structop=1:1 rbc=50 timeslice=100 rip=0x1000 rip_offset=0x100 cpu=0 worker=0\n";
    let trace = PreemptionTrace::deserialize(text, 0).ok().unwrap();
    assert_eq!(trace.break_on(), PmuEvent::RetiredBranchConditional);
}

#[test]
fn test_pmu_event_short_name_roundtrip() {
    assert_eq!(
        PmuEvent::from_short_name("rbc"),
        Some(PmuEvent::RetiredBranchConditional)
    );
    assert_eq!(
        PmuEvent::from_short_name("insn"),
        Some(PmuEvent::InstructionsRetired)
    );
    assert_eq!(PmuEvent::from_short_name("unknown"), None);
    assert_eq!(PmuEvent::RetiredBranchConditional.short_name(), "rbc");
    assert_eq!(PmuEvent::InstructionsRetired.short_name(), "insn");
    assert_eq!(PmuEvent::InstructionsRetired.to_string(), "insn");
}

#[test]
fn serialized_text_is_exact() {
    let mut a = make_record(7, 142, 0x7f3a, 3, 0, 1, 2, 10);
    a.ops_context = OpsContext::SelectCpu;
    a.kfunc_name = "dsq_insert";
    let b = make_record(2, 9, 0x10, 0, 1, 4, 5, 6);
    let trace = PreemptionTrace::from_records(&[a, b], 2, PmuEvent::RetiredBranchConditional);
    assert_eq!(
        trace.serialize(0x7000),
        "# scxsim preemption trace\n\
         # workers: 2\n\
         # break_on: rbc\n\
         # total: 2\n\
         seq=2 structop=4:5 rbc=6 timeslice=9 rip=0x10 rip_offset=0x10 cpu=0 worker=1\n\
         seq=7 ops=select_cpu kfunc=dsq_insert structop=1:2 rbc=10 timeslice=142 rip=0x7f3a rip_offset=0xf3a cpu=3 worker=0\n"
    );
}

#[test]
fn round_trip_keeps_every_field() {
    let mut a = make_record(u64::MAX, u64::MAX, u64::MAX, u32::MAX, 1, u64::MAX, 0, u64::MAX);
    a.ops_context = OpsContext::Tick;
    a.kfunc_name = "my_own_kfunc";
    let mut b = make_record(3, 0, 0x9000, 0, 0, 0, u64::MAX, 0);
    b.ops_context = OpsContext::Stopping;
    b.kfunc_name = "kick_cpu";
    let c = make_record(3, 1, 0x9001, 0, 0, 0, 0, 0);
    let trace = PreemptionTrace::from_records(&[a, b, c], 2, PmuEvent::InstructionsRetired);
    for base in [0u64, 1, 0x9000] {
        let text = trace.serialize(base);
        let back = PreemptionTrace::deserialize(&text, base).ok().unwrap();
        assert_eq!(back.worker_trace(WorkerId(0)), &[b, c]);
        assert_eq!(back.worker_trace(WorkerId(1)), &[a]);
        assert_eq!(back.break_on(), PmuEvent::InstructionsRetired);
        assert_eq!(back.serialize(base), text);
    }
}

#[test]
fn an_address_below_the_base_moves_up() {
    let trace = PreemptionTrace::from_records(
        &[make_record(0, 1, 0x10, 0, 0, 0, 0, 0)],
        1,
        PmuEvent::RetiredBranchConditional,
    );
    let text = trace.serialize(0x100);
    let back = PreemptionTrace::deserialize(&text, 0x100).ok().unwrap();
    assert_eq!(back.worker_trace(WorkerId(0))[0].instruction_pointer, 0x110);
    // Without a base the stored address counts.
    let back = PreemptionTrace::deserialize(&text, 0).ok().unwrap();
    assert_eq!(back.worker_trace(WorkerId(0))[0].instruction_pointer, 0x10);
}

#[test]
fn grouping_sorts_and_drops_unknown_workers() {
    let records = vec![
        make_record(5, 1, 0, 0, 0, 0, 0, 0),
        make_record(4, 2, 0, 0, 7, 0, 0, 0),
        make_record(1, 3, 0, 0, 0, 0, 0, 0),
        make_record(5, 4, 0, 0, 0, 0, 0, 0),
    ];
    let trace = PreemptionTrace::from_records(&records, 2, PmuEvent::RetiredBranchConditional);
    assert_eq!(trace.len(), 3);
    let counts: Vec<u64> = trace.worker_trace(WorkerId(0)).iter().map(|r| r.rbc_count).collect();
    assert_eq!(counts, vec![3, 1, 4]);
    assert!(trace.worker_trace(WorkerId(1)).is_empty());
}

#[test]
fn worker_count_is_inferred_without_header() {
    let text = "seq=0 rbc=1 worker=2\r\n\n   seq=1 rbc=5 worker=0   \n# a comment\n";
    let trace = PreemptionTrace::deserialize(text, 0).ok().unwrap();
    assert_eq!(trace.num_workers(), 3);
    assert_eq!(trace.len(), 2);
    assert_eq!(trace.worker_trace(WorkerId(2))[0].rbc_count, 1);
    let empty = PreemptionTrace::deserialize("", 0).ok().unwrap();
    assert_eq!(empty.num_workers(), 0);
    assert!(empty.is_empty());
}

#[test]
fn bad_lines_are_reported() {
    let cases = [
        ("seq=x", "seq: invalid digit found in string"),
        ("timeslice=", "timeslice: cannot parse integer from empty string"),
        ("rbc=-1", "rbc: invalid digit found in string"),
        ("rip=0xg", "rip: invalid digit found in string"),
        (
            "rip_offset=0x10000000000000000",
            "rip_offset: number too large to fit in target type",
        ),
        ("cpu=4294967296", "cpu: number too large to fit in target type"),
        ("worker=1.5", "worker: invalid digit found in string"),
        ("structop=a:1", "structop local: invalid digit found in string"),
        ("structop=1:", "structop global: cannot parse integer from empty string"),
    ];
    for (line, error) in cases {
        assert_eq!(parse_preemption_line(line, 0), Err(error.to_string()));
        let whole = PreemptionTrace::deserialize(&format!("# workers: 1\n {line} \n"), 0);
        assert_eq!(
            whole.err().unwrap(),
            format!("bad preemption line: {error}: {line}")
        );
    }
    assert_eq!(
        PreemptionTrace::deserialize("# workers: many\n", 0).err().unwrap(),
        "invalid digit found in string"
    );
    assert_eq!(
        parse_hex_or_dec("0x"),
        Err("cannot parse integer from empty string".to_string())
    );
    assert_eq!(
        parse_hex_or_dec("18446744073709551616"),
        Err("number too large to fit in target type".to_string())
    );
}

#[test]
fn words_that_set_nothing_are_skipped() {
    let rec = parse_preemption_line("  seq=1\tfoo=2 structop=5 kfunc=- ops=what seq=3 ", 0).unwrap();
    assert_eq!(rec, make_record(3, 0, 0, 0, 0, 0, 0, 0));
    let rec = parse_preemption_line("kfunc=some_other ops=enqueue rip=+12", 0).unwrap();
    assert_eq!(rec.kfunc_name, "some_other");
    assert_eq!(rec.ops_context, OpsContext::Enqueue);
    assert_eq!(rec.instruction_pointer, 12);
}

#[test]
fn trace_from_store_keeps_the_store() {
    let mut sequence = PreemptionSequence::new();
    let mut store = PreemptionRecordStore::new();
    let sinfo = StructopInfo {
        cpu_count: 1,
        global_count: 2,
        rbc_total: 3,
        kfunc_count: 4,
        interleave_count: 5,
    };
    assert_eq!(store.push(&mut sequence, 10, 20, CpuId(1), WorkerId(0), sinfo), Some(0));
    assert_eq!(store.push(&mut sequence, 11, 21, CpuId(1), WorkerId(0), sinfo), Some(1));
    let trace = PreemptionTrace::from_store(&store, 1, PmuEvent::RetiredBranchConditional);
    assert_eq!(trace.len(), 2);
    assert_eq!(store.drain().len(), 2);
    assert_eq!(trace.worker_trace(WorkerId(0))[1].rbc_count, 11);
    assert_eq!(
        trace.worker_trace(WorkerId(0))[0].to_string(),
        "seq=0 structop=1:2 rbc=3 rip=0x14 cpu=1 worker=0"
    );
}

#[test]
fn a_trace_that_was_read_can_be_written_again() {
    let text = "seq=4 worker=1 kfunc=odd_name rip=77 ops=tick\nseq=1 worker=0 rbc=3\n";
    let trace = PreemptionTrace::deserialize(text, 0).ok().unwrap();
    let written = trace.serialize(0);
    let again = PreemptionTrace::deserialize(&written, 0).ok().unwrap();
    for w in 0..2 {
        assert_eq!(again.worker_trace(WorkerId(w)), trace.worker_trace(WorkerId(w)));
    }
    assert_eq!(again.serialize(0), written);
    // A dash stands for no name.
    let mut record = make_record(3, 4, 5, 6, 0, 7, 8, 9);
    record.kfunc_name = "-";
    record.ops_context = OpsContext::Running;
    let trace = PreemptionTrace::from_records(&[record], 1, PmuEvent::RetiredBranchConditional);
    let again = PreemptionTrace::deserialize(&trace.serialize(0), 0).ok().unwrap();
    record.kfunc_name = "";
    assert_eq!(again.worker_trace(WorkerId(0)), &[record]);
}

#[test]
fn a_trace_can_be_cloned() {
    let records = [make_record(2, 10, 20, 1, 1, 1, 1, 5), make_record(1, 11, 21, 0, 0, 1, 2, 6)];
    let trace = PreemptionTrace::from_records(&records, 2, PmuEvent::InstructionsRetired);
    let copy = trace.clone();
    assert_eq!((copy.num_workers(), copy.break_on()), (2, PmuEvent::InstructionsRetired));
    for w in 0..2 {
        assert_eq!(copy.worker_trace(WorkerId(w)), trace.worker_trace(WorkerId(w)));
    }
    assert_eq!(format!("{copy:?}"), format!("{trace:?}"));
}

#[test]
fn a_record_without_callback_has_the_documented_line() {
    let record = make_record(0, 142, 0x7f3a, 0, 0, 1, 2, 10);
    let trace = PreemptionTrace::from_records(&[record], 2, PmuEvent::RetiredBranchConditional);
    assert_eq!(
        trace.serialize(0x72be),
        "# scxsim preemption trace\n# workers: 2\n# break_on: rbc\n# total: 1\n\
         seq=0 structop=1:2 rbc=10 timeslice=142 rip=0x7f3a rip_offset=0xc7c cpu=0 worker=0\n"
    );
    // As soon as there is one of the two, both are written.
    let mut record = record;
    record.kfunc_name = "now";
    let trace = PreemptionTrace::from_records(&[record], 2, PmuEvent::RetiredBranchConditional);
    let text = trace.serialize(0);
    assert!(text.contains("\nseq=0 ops=none kfunc=now structop=1:2 "));
    let back = PreemptionTrace::deserialize(&text, 0).ok().unwrap();
    assert_eq!(back.worker_trace(WorkerId(0)), &[record]);
    record.kfunc_name = "";
    record.ops_context = OpsContext::Dispatch;
    let trace = PreemptionTrace::from_records(&[record], 2, PmuEvent::RetiredBranchConditional);
    let text = trace.serialize(0);
    assert!(text.contains("\nseq=0 ops=dispatch kfunc=- structop=1:2 "));
    let back = PreemptionTrace::deserialize(&text, 0).ok().unwrap();
    assert_eq!(back.worker_trace(WorkerId(0)), &[record]);
}
