use scx_simulator::fmt::{
    fmt_duration_ns, fmt_grouped, sanitize_trace_output, FieldCollector, FmtN, FmtTs, Level,
    SimFormat, SimLayer,
};
use scx_simulator::types::CpuId;

#[test]
fn test_fmt_n() {
    assert_eq!(FmtN(0).to_string(), "0");
    assert_eq!(FmtN(999).to_string(), "999");
    assert_eq!(FmtN(1_000).to_string(), "1K");
    assert_eq!(FmtN(20_000).to_string(), "20K");
    assert_eq!(FmtN(1_500).to_string(), "1500");
    assert_eq!(FmtN(1_000_000).to_string(), "1M");
    assert_eq!(FmtN(20_000_000).to_string(), "20M");
    assert_eq!(FmtN(3_000_000_000).to_string(), "3B");
    assert_eq!(FmtN(1_000_000_000_000).to_string(), "1T");
    assert_eq!(FmtN(12345).to_string(), "12345");
    assert_eq!(FmtN(5_000_000).to_string(), "5M");
    assert_eq!(FmtN(100_000_000).to_string(), "100M");
}

#[test]
fn test_fmt_grouped() {
    assert_eq!(fmt_grouped(0), "0");
    assert_eq!(fmt_grouped(999), "999");
    assert_eq!(fmt_grouped(1_000), "1_000");
    assert_eq!(fmt_grouped(10_000), "10_000");
    assert_eq!(fmt_grouped(20_000_000), "20_000_000");
    assert_eq!(fmt_grouped(999_999_000_000), "999_999_000_000");
    assert_eq!(fmt_grouped(1_234_567), "1_234_567");
}

#[test]
fn test_fmt_ts() {
    // No CPU context (e.g. timer events)
    assert_eq!(FmtTs::local(0, None, 1).to_string(), "              0:cpu");
    assert_eq!(
        FmtTs::local(10_000, None, 1).to_string(),
        "         10_000:cpu"
    );

    // With CPU ID, width=1
    assert_eq!(
        FmtTs::local(10_000, Some(CpuId(0)), 1).to_string(),
        "         10_000:cpu0"
    );
    assert_eq!(
        FmtTs::local(10_000, Some(CpuId(3)), 1).to_string(),
        "         10_000:cpu3"
    );

    // With CPU ID, width=2
    assert_eq!(
        FmtTs::local(20_000_000, Some(CpuId(1)), 2).to_string(),
        "     20_000_000:cpu01"
    );
    assert_eq!(
        FmtTs::local(20_000_000, Some(CpuId(12)), 2).to_string(),
        "     20_000_000:cpu12"
    );

    // With CPU ID, width=3
    assert_eq!(
        FmtTs::local(0, Some(CpuId(5)), 3).to_string(),
        "              0:cpu005"
    );

    // Global timestamp
    assert_eq!(
        FmtTs::global(999_999_000_000).to_string(),
        "999_999_000_000:G"
    );
}

#[test]
fn test_fmt_duration_ns() {
    assert_eq!(fmt_duration_ns(0), "0ns");
    assert_eq!(fmt_duration_ns(500), "500ns");
    assert_eq!(fmt_duration_ns(1_000), "1µs");
    assert_eq!(fmt_duration_ns(1_500), "1.5µs");
    assert_eq!(fmt_duration_ns(20_000), "20µs");
    assert_eq!(fmt_duration_ns(1_000_000), "1ms");
    assert_eq!(fmt_duration_ns(20_000_000), "20ms");
    assert_eq!(fmt_duration_ns(50_500_000), "50.5ms");
    assert_eq!(fmt_duration_ns(1_000_000_000), "1s");
    assert_eq!(fmt_duration_ns(3_500_000_000), "3.5s");
    assert_eq!(fmt_duration_ns(100_000_000_000), "100s");
}

#[test]
fn test_sanitize_trace_output() {
    // Plain ASCII passes through
    assert_eq!(sanitize_trace_output(b"hello world"), b"hello world");

    // Newlines and tabs pass through
    assert_eq!(sanitize_trace_output(b"a\nb\tc"), b"a\nb\tc");

    // Binary garbage is stripped
    assert_eq!(sanitize_trace_output(b"he\x00llo"), b"hello");
    assert_eq!(sanitize_trace_output(b"\x01\x02ok\x03"), b"ok");
    assert_eq!(sanitize_trace_output(b"ab\x80\xff\xfecde"), b"abcde");

    // ANSI escape sequences are preserved
    let ansi = b"\x1b[32mGREEN\x1b[0m";
    assert_eq!(sanitize_trace_output(ansi), ansi.to_vec());

    // Mixed: ANSI + garbage
    let mixed = b"\x1b[31mRED\x1b[0m\x00\x01tail";
    let expected = b"\x1b[31mRED\x1b[0mtail";
    assert_eq!(sanitize_trace_output(mixed), expected.to_vec());

    // Empty input
    assert_eq!(sanitize_trace_output(b""), b"");

    // DEL (0x7F) is stripped
    assert_eq!(sanitize_trace_output(b"ab\x7fcd"), b"abcd");
}

#[test]
fn compact_numbers_take_the_largest_unit() {
    assert_eq!(FmtN(u64::MAX).to_string(), "18446744073709551615");
    assert_eq!(FmtN(1_000_500_000).to_string(), "1000500K");
    assert_eq!(FmtN(12_000_000_000_000_000).to_string(), "12000T");
}

#[test]
fn grouping_only_adds_underscores() {
    for v in [0, 12, 123, 1234, 12345, 123456, u64::MAX] {
        assert_eq!(fmt_grouped(v).replace('_', ""), format!("{v}"));
    }
    assert_eq!(fmt_grouped(u64::MAX), "18_446_744_073_709_551_615");
    assert_eq!(
        FmtTs::local(u64::MAX, Some(CpuId(1234)), 2).to_string(),
        "18_446_744_073_709_551_615:cpu1234"
    );
}

#[test]
fn timestamps_of_twelve_digits_are_aligned() {
    for ns in [0, 999, 1_000, 999_999, 999_999_999_999] {
        assert_eq!(FmtTs::global(ns).to_string().len(), 17);
    }
    assert_eq!(FmtTs::global(1_000_000_000_000).to_string().len(), 19);
}

#[test]
fn durations_cut_the_remainder() {
    assert_eq!(fmt_duration_ns(999), "999ns");
    assert_eq!(fmt_duration_ns(1_099), "1µs");
    assert_eq!(fmt_duration_ns(1_999), "1.9µs");
    assert_eq!(fmt_duration_ns(999_999_999), "999.9ms");
    assert_eq!(fmt_duration_ns(u64::MAX), "18446744073.7s");
}

#[test]
fn sanitizing_twice_is_sanitizing_once() {
    let cases: [&[u8]; 6] = [
        b"\x00\x1b[1\x00;31mx\x7f",
        b"\x1b",
        b"\x1b\x01\x02",
        b"\x1b\x01\x02Aok\x03",
        b"a\x1b\x1b[0m\xffb",
        b"plain\r\n\ttext",
    ];
    for data in cases {
        let once = sanitize_trace_output(data);
        assert_eq!(sanitize_trace_output(&once), once);
    }
}

#[test]
fn an_escape_protects_no_garbage() {
    assert_eq!(sanitize_trace_output(b"\x1b\x00A"), b"\x1bA");
    assert_eq!(sanitize_trace_output(b"\x1b\x01\x02A\x03B"), b"\x1bAB");
    assert_eq!(sanitize_trace_output(b"\x1b[\x01mX"), b"\x1b[mX");
    assert_eq!(sanitize_trace_output(b"\x1b\x01"), b"\x1b");
    assert_eq!(sanitize_trace_output(b"\x00\x1b[1;31m\xff\x1b[0m"), b"\x1b[1;31m\x1b[0m");
}

fn some_fields() -> FieldCollector {
    let mut fields = FieldCollector::new();
    fields.record_u64("n", 18446744073709551615);
    fields.record_str("message", "first");
    fields.record_debug("message", "second");
    fields.record_i64("i", i64::MIN);
    fields.record_i64("j", 7);
    fields.record_bool("b", true);
    fields.record_bool("message", false);
    fields.record_str("s", "txt");
    fields.record_debug("d", "Some(1)");
    fields
}

#[test]
fn events_are_written_with_message_first() {
    let expected_tail = "second n=18446744073709551615 i=-9223372036854775808 j=7 b=true \
                         message=false s=txt d=Some(1)\n";
    let fields = some_fields();
    let plain = SimFormat.format_event(false, 10_000, Some(CpuId(1)), 2, Level::Info, &fields);
    assert_eq!(plain, format!("[         10_000:cpu01]  INFO {expected_tail}"));
    let colored = SimFormat.format_event(true, 10_000, None, 2, Level::Error, &fields);
    assert_eq!(
        colored,
        format!("[         10_000:cpu] \x1b[31mERROR\x1b[0m {expected_tail}")
    );
}

#[test]
fn levels_have_names_and_colors() {
    let fields = FieldCollector::new();
    let cases = [
        (Level::Error, "ERROR", "31"),
        (Level::Warn, " WARN", "33"),
        (Level::Info, " INFO", "32"),
        (Level::Debug, "DEBUG", "34"),
        (Level::Trace, "TRACE", "35"),
    ];
    for (level, name, color) in cases {
        let mut buf = String::from("> ");
        SimLayer::new(false).format_event_to_buf(&mut buf, 0, None, 0, level, &fields);
        assert_eq!(buf, format!("> [              0:cpu] {name} \n"));
        let bytes = SimLayer::new(true).on_event(0, None, 0, level, &fields);
        assert_eq!(
            String::from_utf8(bytes).unwrap(),
            format!("[              0:cpu] \x1b[{color}m{name}\x1b[0m \n")
        );
    }
}

#[test]
fn events_are_sanitized() {
    let mut fields = FieldCollector::new();
    fields.record_str("message", "5µs\u{0}done");
    let bytes = SimLayer::new(false).on_event(0, None, 0, Level::Warn, &fields);
    assert_eq!(bytes, b"[              0:cpu]  WARN 5sdone\n".to_vec());
}
