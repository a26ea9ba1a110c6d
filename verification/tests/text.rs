use scx_simulator::order::sort_by_sequence;
use scx_simulator::preempt::checkpoint::{CheckpointEvent, DeterminismCheckpoint};
use scx_simulator::text::{
    chars_of, contains, decimal_text, find_char, hexadecimal_text, pad_left, parse_number,
    split_line, split_word, string_of, strip_prefix, text_eq, trim, IntError,
};
use scx_simulator::types::{CpuId, OpsContext};

fn number(s: &str, radix: u64, max: u64) -> Result<u64, IntError> {
    parse_number(&chars_of(s), radix, max)
}

#[test]
fn numbers_are_read_as_std_reads_them() {
    let texts = [
        "", "0", "00", "7", "+7", "+", "-7", "++7", "255", "256", "1x", "x1", "1_0", " 1", "ff",
        "Ff", "fg", "99999999999999999999999", "18446744073709551615", "18446744073709551616",
        "1000000000000000000000x", "µ", "١",
    ];
    for s in texts {
        let u8s = |r: Result<u8, std::num::ParseIntError>| r.map(|v| v as u64);
        let check = |got: Result<u64, IntError>, want: Result<u64, std::num::ParseIntError>| match want {
            Ok(v) => assert_eq!(got, Ok(v)),
            Err(e) => assert_eq!(got.unwrap_err().message(), format!("{e}")),
        };
        check(number(s, 10, u64::MAX), s.parse::<u64>());
        check(number(s, 16, u64::MAX), u64::from_str_radix(s, 16));
        check(number(s, 10, 255), u8s(s.parse::<u8>()));
    }
}

#[test]
fn written_numbers_read_back() {
    for v in [0, 9, 10, 15, 16, 99, 4096, u32::MAX as u64, u64::MAX] {
        assert_eq!(decimal_text(v), format!("{v}"));
        assert_eq!(hexadecimal_text(v), format!("{v:x}"));
        assert_eq!(number(&decimal_text(v), 10, v), Ok(v));
        assert_eq!(number(&hexadecimal_text(v), 16, v), Ok(v));
        if v > 0 {
            assert_eq!(number(&decimal_text(v), 10, v - 1), Err(IntError::PosOverflow));
        }
    }
    assert_eq!(pad_left("7", 3, '0'), "007");
    assert_eq!(pad_left("7777", 3, '0'), "7777");
}

#[test]
fn words_and_lines_are_split_as_std_splits_them() {
    let texts = [
        "", " ", "a", " a  b\tc ", "a\u{a0}b\u{3000}c\u{200b}d", "x\r\ny\n\nz", "x\r", "\n", "a\n",
        "\r\n", "a\u{85}b\u{2028}c\u{1680}", "\u{c}v\u{b}w",
    ];
    for s in texts {
        let chars = chars_of(s);
        assert_eq!(string_of(&chars), s);
        let mut words: Vec<String> = Vec::new();
        let mut rest: &[char] = &chars;
        while let Some((w, tail)) = split_word(rest) {
            words.push(string_of(w));
            rest = tail;
        }
        let expected: Vec<&str> = s.split_whitespace().collect();
        assert_eq!(words, expected);
        let mut lines: Vec<String> = Vec::new();
        let mut rest: &[char] = &chars;
        while let Some((l, tail)) = split_line(rest) {
            lines.push(string_of(l));
            rest = tail;
        }
        let expected: Vec<&str> = s.lines().collect();
        assert_eq!(lines, expected);
        assert_eq!(string_of(trim(&chars)), s.trim());
    }
}

#[test]
fn prefixes_and_parts_are_found() {
    let chars = chars_of("seq=12:3");
    assert_eq!(strip_prefix(&chars, "seq=").map(string_of), Some("12:3".to_string()));
    assert_eq!(strip_prefix(&chars, "seq=12:34"), None);
    assert_eq!(find_char(&chars, ':'), 6);
    assert_eq!(find_char(&chars, '!'), 8);
    assert!(contains(&chars, "q=1") && contains(&chars, ""));
    assert!(!contains(&chars, "q=2"));
    assert!(text_eq("aµ", "aµ") && !text_eq("a", "aµ") && !text_eq("a", "b"));
}

#[test]
fn callbacks_have_names() {
    let all = [
        (OpsContext::NoOps, "none"),
        (OpsContext::SelectCpu, "select_cpu"),
        (OpsContext::Enqueue, "enqueue"),
        (OpsContext::Dispatch, "dispatch"),
        (OpsContext::Running, "running"),
        (OpsContext::Stopping, "stopping"),
        (OpsContext::Tick, "tick"),
    ];
    for (ops, name) in all {
        assert_eq!(ops.short_name(), name);
        assert_eq!(OpsContext::from_short_name(name), ops);
    }
    assert_eq!(OpsContext::from_short_name("init"), OpsContext::NoOps);
}

#[test]
fn sorting_is_stable() {
    let make = |sequence: u64, rbc_count: u64| DeterminismCheckpoint {
        sequence,
        event: CheckpointEvent::Tick,
        instruction_pointer: 0,
        rbc_count,
        memory_hash: 0,
        cpu_id: CpuId(0),
    };
    let mut values: Vec<DeterminismCheckpoint> = Vec::new();
    for i in 0..100u64 {
        values.push(make((i * 37) % 10, i));
    }
    let mut expected = values.clone();
    expected.sort_by_key(|c| c.sequence);
    assert_eq!(sort_by_sequence(values), expected);
}
