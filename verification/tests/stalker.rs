use scx_simulator::preempt::scheduler_so_base;
use scx_simulator::stalker::{
    arm_software_rbc, begin_structop, deferred_yields, disarm_software_rbc,
    discover_so_text_range, inc_structop_kfunc, is_conditional_branch,
    is_conditional_branch_opcode, is_frida_active, maybe_begin_structop, rearm_software_rbc,
    record_rbc_expiry, reset_counters, reset_structop_cpu_count, rip_to_offset, should_instrument,
    software_rbc_callout_inner, structop_info, take_yield_pending, text_base, total_callouts,
    SoftwareRbc, StalkerGlobals, StructopInfo, TextRange,
};

#[test]
fn test_is_conditional_branch_jcc() {
    let jcc = [
        "jo", "jno", "jb", "jnae", "jc", "jae", "jnb", "jnc", "je", "jz", "jne", "jnz", "jbe",
        "jna", "ja", "jnbe", "js", "jns", "jp", "jpe", "jnp", "jpo", "jl", "jnge", "jge", "jnl",
        "jle", "jng", "jg", "jnle",
    ];
    for m in &jcc {
        assert!(
            is_conditional_branch(m),
            "{m} should be a conditional branch"
        );
    }
}

#[test]
fn test_is_conditional_branch_loop() {
    let loops = ["loop", "loope", "loopz", "loopne", "loopnz"];
    for m in &loops {
        assert!(
            is_conditional_branch(m),
            "{m} should be a conditional branch"
        );
    }
}

#[test]
fn test_is_not_conditional_branch() {
    let non_branch = [
        "jmp", "call", "ret", "nop", "mov", "add", "sub", "push", "pop", "lea", "cmp", "test",
        "xor", "and", "or", "shl", "shr",
    ];
    for m in &non_branch {
        assert!(
            !is_conditional_branch(m),
            "{m} should NOT be a conditional branch"
        );
    }
}

#[test]
fn test_conditional_branch_opcode_short_jcc() {
    for opcode in 0x70u8..=0x7F {
        assert!(
            is_conditional_branch_opcode(&[opcode, 0x10]),
            "0x{opcode:02x} should be Jcc"
        );
    }
}

#[test]
fn test_conditional_branch_opcode_near_jcc() {
    for second in 0x80u8..=0x8F {
        assert!(
            is_conditional_branch_opcode(&[0x0F, second, 0, 0, 0, 0]),
            "0x0F 0x{second:02x} should be Jcc"
        );
    }
}

#[test]
fn test_conditional_branch_opcode_loop() {
    for opcode in 0xE0u8..=0xE3 {
        assert!(
            is_conditional_branch_opcode(&[opcode, 0x10]),
            "0x{opcode:02x} should be LOOPcc/JCXZ"
        );
    }
}

#[test]
fn test_conditional_branch_opcode_with_rex_prefix() {
    assert!(is_conditional_branch_opcode(&[0x48, 0x74, 0x10]));
}

#[test]
fn test_not_conditional_branch_opcode() {
    assert!(!is_conditional_branch_opcode(&[0xEB, 0x10])); // JMP rel8
    assert!(!is_conditional_branch_opcode(&[0xE8, 0, 0, 0, 0])); // CALL
    assert!(!is_conditional_branch_opcode(&[0xC3])); // RET
    assert!(!is_conditional_branch_opcode(&[0x90])); // NOP
    assert!(!is_conditional_branch_opcode(&[0x48, 0x89, 0xD8])); // MOV
    assert!(!is_conditional_branch_opcode(&[0x0F, 0x1F, 0x00])); // NOP
    assert!(!is_conditional_branch_opcode(&[])); // Empty
}

#[test]
fn test_text_range_contains() {
    let range = TextRange {
        base: 0x1000,
        size: 0x500,
    };
    assert!(range.contains(0x1000));
    assert!(range.contains(0x14FF));
    assert!(!range.contains(0x0FFF));
    assert!(!range.contains(0x1500));
}

#[test]
fn test_arm_disarm_software_rbc() {
    let mut state = SoftwareRbc::new();
    arm_software_rbc(&mut state, 42, 0x7f0000000000);
    assert!(is_frida_active(&state));
    assert_eq!(state.counter, 42);
    assert_eq!(text_base(&state), 0x7f0000000000);

    disarm_software_rbc(&mut state);
    assert!(!is_frida_active(&state));
    assert_eq!(state.counter, u64::MAX);
    assert!(!state.yield_pending);
    assert_eq!(text_base(&state), 0);
}

#[test]
fn test_callout_sets_yield_pending() {
    let mut state = SoftwareRbc::new();
    let mut globals = StalkerGlobals::new();
    state.counter = 2;

    // 2 -> 1: no flag yet.
    software_rbc_callout_inner(&mut state, &mut globals, 0xdead);
    assert_eq!(state.counter, 1);
    assert!(!state.yield_pending);

    // 1 -> 0: yield_pending set.
    software_rbc_callout_inner(&mut state, &mut globals, 0xbeef);
    assert_eq!(state.counter, 0);
    assert!(state.yield_pending);
    assert_eq!(state.yield_rip, 0xbeef);

    // Counter == 0: already signaled, no-op.
    software_rbc_callout_inner(&mut state, &mut globals, 0xcafe);
    assert_eq!(state.counter, 0);
    assert!(state.yield_pending);

    // take_yield_pending clears the flag and returns the RIP.
    assert_eq!(take_yield_pending(&mut state, &mut globals), Some(0xbeef));
    assert!(!state.yield_pending);

    // Second call returns None.
    assert_eq!(take_yield_pending(&mut state, &mut globals), None);

    disarm_software_rbc(&mut state);
}

#[test]
fn test_callout_disarmed_noop() {
    let mut state = SoftwareRbc::new();
    let mut globals = StalkerGlobals::new();
    disarm_software_rbc(&mut state);
    software_rbc_callout_inner(&mut state, &mut globals, 0x1234);
    assert_eq!(state.counter, u64::MAX);
    assert!(!state.yield_pending);
}

#[test]
fn test_rip_to_offset() {
    let mut state = SoftwareRbc::new();
    // With text base set, returns offset
    arm_software_rbc(&mut state, 100, 0x7f0000001000);
    assert_eq!(rip_to_offset(&state, 0x7f0000001500), 0x500);
    assert_eq!(rip_to_offset(&state, 0x7f0000001000), 0);

    // With base=0 (disarmed), returns raw address
    disarm_software_rbc(&mut state);
    assert_eq!(rip_to_offset(&state, 0x7f0000001500), 0x7f0000001500);
}

#[test]
fn an_address_below_the_base_has_offset_zero() {
    let mut state = SoftwareRbc::new();
    arm_software_rbc(&mut state, 100, 0x1000);
    assert_eq!(rip_to_offset(&state, 0xfff), 0);
}

#[test]
fn a_timeslice_counts_exactly_that_many_branches() {
    let mut state = SoftwareRbc::new();
    let mut globals = StalkerGlobals::new();
    arm_software_rbc(&mut state, 10, 0x1000);
    for i in 0..25u64 {
        software_rbc_callout_inner(&mut state, &mut globals, 100 + i);
        assert_eq!(state.yield_pending, i >= 9);
    }
    assert_eq!(total_callouts(&globals), 25);
    assert_eq!(take_yield_pending(&mut state, &mut globals), Some(109));
    assert_eq!(deferred_yields(&globals), 1);
    rearm_software_rbc(&mut state, 3);
    assert_eq!((state.counter, state.current_timeslice), (3, 3));
    reset_counters(&mut globals);
    assert_eq!((total_callouts(&globals), deferred_yields(&globals)), (0, 0));
}

#[test]
fn prefixes_do_not_change_what_an_instruction_is() {
    for p in [0x26u8, 0x2E, 0x36, 0x3E, 0x64, 0x65, 0x66, 0x67, 0xF0, 0xF2, 0xF3, 0x40, 0x4F] {
        assert!(is_conditional_branch_opcode(&[p, 0x0F, 0x85]));
        assert!(!is_conditional_branch_opcode(&[p, p, 0xE8]));
        assert!(!is_conditional_branch_opcode(&[p]));
    }
    assert!(!is_conditional_branch_opcode(&[0x0F]));
    assert!(!is_conditional_branch_opcode(&[0x50, 0x74]));
}

#[test]
fn only_branches_of_the_scheduler_are_instrumented() {
    let range = TextRange { base: 0x1000, size: 0x10 };
    assert!(should_instrument(&range, 0x100f, &[0x74, 0]));
    assert!(!should_instrument(&range, 0x1010, &[0x74, 0]));
    assert!(!should_instrument(&range, 0x1000, &[0x90]));
    let top = TextRange { base: usize::MAX - 1, size: 5 };
    assert!(top.contains(usize::MAX));
    assert!(!top.contains(0));
}

const MAPS: &str = "\
55d000000000-55d000001000 r--p 00000000 08:01 1  /usr/bin/sim
7f1233ff0000-7f1234000000 r--p 00000000 08:01 12345  /path/to/libscx_simple.so
7f1234000000-7f1234010000 r-xp 00001000 08:01 12345  /path/to/libscx_simple.so
7f1234010000-7f1234020000 rw-p 00011000 08:01 12345  /path/to/libscx_simple.so
7f1300000000-7f1300001000 r-xp 00000000 08:01 99  /path/to/libscx_other.so
";

#[test]
fn the_executable_segment_is_found() {
    assert_eq!(
        discover_so_text_range(MAPS, "libscx_simple.so"),
        Some(TextRange { base: 0x7f1234000000, size: 0x10000 })
    );
    assert_eq!(
        discover_so_text_range(MAPS, "/path/to/libscx_other.so"),
        Some(TextRange { base: 0x7f1300000000, size: 0x1000 })
    );
    assert_eq!(discover_so_text_range(MAPS, "libscx_none.so"), None);
    // A range that is empty is passed over, one that cannot be read ends the search.
    let good = "10-30 r-xp lib\n";
    assert_eq!(
        discover_so_text_range(&format!("20-20 r-xp lib\n{good}"), "lib"),
        Some(TextRange { base: 0x10, size: 0x20 })
    );
    assert_eq!(discover_so_text_range(&format!("xy-20 r-xp lib\n{good}"), "lib"), None);
    assert_eq!(discover_so_text_range(&format!("20 r-xp lib\n{good}"), "lib"), None);
    // The permissions count, not what else stands in the line.
    for other in ["5-6 r--p /r-xp/lib", "r-xp lib", "5-6 r-xps lib", "5-6 rwxp lib", "lib"] {
        assert_eq!(
            discover_so_text_range(&format!("{other}\n{good}"), "lib"),
            Some(TextRange { base: 0x10, size: 0x20 })
        );
    }
}

#[test]
fn the_scheduler_base_is_found() {
    assert_eq!(scheduler_so_base(MAPS), 0x7f1234000000);
    assert_eq!(scheduler_so_base(""), 0);
    assert_eq!(scheduler_so_base("1000-2000 r-xp libc.so\n"), 0);
    // Lines that cannot be read are passed over.
    let text = "libscx_a\nzz-20 r-xp libscx_a.so\n40-50 r-xp libscx_a.so";
    assert_eq!(scheduler_so_base(text), 0x40);
    // The path has to name a library: `libscx_`, and `.so` behind it.
    for other in [
        "10-20 r-xp /tmp/libscx_dir",
        "10-20 r-xp /a.so/libscx_a",
        "10-20 r--p /libscx_a.so",
        "libscx_a.so r-xp /lib/libc.so",
        "10-20 libscx_x.so",
    ] {
        assert_eq!(scheduler_so_base(&format!("{other}\n40-50 r-xp /libscx_a.so")), 0x40);
    }
    assert_eq!(scheduler_so_base("40-50 r-xp 0 08:01 12 /libscx_a.so (deleted)"), 0x40);
    assert_eq!(scheduler_so_base("40-50 r-xp 0 08:01 12 /libscx_/libscx_a.so.1"), 0x40);
}

#[test]
fn structops_reset_their_counters() {
    let mut state = SoftwareRbc::new();
    let mut globals = StalkerGlobals::new();
    maybe_begin_structop(&mut state, &mut globals, true);
    rearm_software_rbc(&mut state, 40);
    record_rbc_expiry(&mut state);
    record_rbc_expiry(&mut state);
    inc_structop_kfunc(&mut state);
    maybe_begin_structop(&mut state, &mut globals, true);
    assert_eq!(
        structop_info(&state, &globals),
        StructopInfo { cpu_count: 1, global_count: 1, rbc_total: 80, kfunc_count: 1 }
    );
    maybe_begin_structop(&mut state, &mut globals, false);
    maybe_begin_structop(&mut state, &mut globals, true);
    begin_structop(&mut state, &mut globals);
    assert_eq!(
        structop_info(&state, &globals),
        StructopInfo { cpu_count: 3, global_count: 3, rbc_total: 0, kfunc_count: 0 }
    );
    reset_structop_cpu_count(&mut state);
    assert_eq!(structop_info(&state, &globals).cpu_count, 0);
    reset_counters(&mut globals);
    assert_eq!(structop_info(&state, &globals).global_count, 0);
}
