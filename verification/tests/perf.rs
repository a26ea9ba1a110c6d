use scx_simulator::perf::{
    counter_value, counting_attr, event_counting_attr, event_sampling_attr, fcntl_result,
    ioctl_result, make_bp_attr, open_result, rdpmc_count, rdpmc_mapping, read_result,
    sampling_attr, seqcount_stable, CpuIdInfo, PerfAttr, PerfError, PmuConfig, PmuEvent,
};

fn words(vendor: &[u8; 12]) -> (u32, u32, u32) {
    let word = |i: usize| {
        u32::from_le_bytes([vendor[i], vendor[i + 1], vendor[i + 2], vendor[i + 3]])
    };
    (word(0), word(4), word(8))
}

fn config_for(vendor: &[u8; 12], eax: u32) -> Option<PmuConfig> {
    let (ebx, edx, ecx) = words(vendor);
    let info = CpuIdInfo::detect(ebx, edx, ecx, eax);
    assert_eq!(&info.vendor, vendor);
    PmuConfig::detect(&info)
}

#[test]
fn test_pmu_detect() {
    // Detection returns None on unsupported CPUs.
    let _config = config_for(b"GenuineIntel", 0x000906ea);
    assert_eq!(config_for(b"VIA VIA VIA ", 0x000906ea), None);
}

#[test]
fn events_by_vendor_and_family() {
    let intel = Some(PmuConfig { rcb_event: 0x01c4 });
    let amd = Some(PmuConfig { rcb_event: 0x00d1 });
    assert_eq!(config_for(b"GenuineIntel", 0x000906ea), intel);
    assert_eq!(config_for(b"GenuineIntel", 0x00000f00), None);
    // Base family 15 adds the extended family: 0x17, 0x19, 0x1A, and 0x15.
    assert_eq!(config_for(b"AuthenticAMD", 0x00800f00), amd);
    assert_eq!(config_for(b"AuthenticAMD", 0x00a20f10), amd);
    assert_eq!(config_for(b"AuthenticAMD", 0x00b40f40), amd);
    assert_eq!(config_for(b"AuthenticAMD", 0x00600f00), None);
    assert_eq!(config_for(b"AuthenticAMD", 0x00000600), None);
}

#[test]
fn families_are_read_from_the_signature() {
    assert_eq!(CpuIdInfo::detect(0, 0, 0, 0x000906ea).family, 6);
    assert_eq!(CpuIdInfo::detect(0, 0, 0, 0x00a20f10).family, 0x19);
    assert_eq!(CpuIdInfo::detect(0, 0, 0, 0xffffffff).family, 15 + 255);
    // The extended family counts only with base family 15.
    assert_eq!(CpuIdInfo::detect(0, 0, 0, 0x0ff00600).family, 6);
}

#[test]
fn attributes_carry_the_kernel_constants() {
    let config = PmuConfig { rcb_event: 0xd1 };
    assert_eq!(config.resolve(PmuEvent::RetiredBranchConditional), (4, 0xd1));
    assert_eq!(config.resolve(PmuEvent::InstructionsRetired), (0, 1));
    assert_eq!(
        event_counting_attr(&config, PmuEvent::InstructionsRetired),
        counting_attr(0, 1)
    );
    let timer = event_sampling_attr(&config, PmuEvent::RetiredBranchConditional, 77);
    assert_eq!(timer, sampling_attr(4, 0xd1, 77));
    assert!(timer.pinned && timer.disabled && timer.exclude_kernel && timer.exclude_hv);
    assert_eq!((timer.sample_period, timer.wakeup_events), (77, 1));
    assert!(!counting_attr(4, 0).pinned);
    assert_eq!(
        make_bp_attr(0x4000),
        PerfAttr {
            type_: 5,
            config: 0,
            sample_period: 1,
            wakeup_events: 1,
            bp_type: 4,
            bp_addr: 0x4000,
            bp_len: 8,
            disabled: true,
            exclude_kernel: true,
            exclude_hv: true,
            pinned: true,
        }
    );
}

#[test]
fn failures_become_errors() {
    let e = || "Permission denied (os error 13)".to_string();
    assert_eq!(open_result(3, e()).ok(), Some(3));
    assert!(matches!(open_result(-1, e()), Err(PerfError::Open(_))));
    assert!(ioctl_result(0, e()).is_ok());
    assert!(matches!(ioctl_result(-1, e()), Err(PerfError::Ioctl(_))));
    assert!(fcntl_result(0, e()).is_ok());
    assert!(matches!(fcntl_result(-1, e()), Err(PerfError::Fcntl(_))));
    assert_eq!(read_result(8, 99, e()).ok(), Some(99));
    assert!(matches!(read_result(-1, 99, e()), Err(PerfError::Read(_))));
    assert!(rdpmc_mapping(true, true, e()).is_ok());
    assert_eq!(
        rdpmc_mapping(false, true, e()).err().unwrap().to_string(),
        "perf mmap failed: Permission denied (os error 13)"
    );
    assert_eq!(
        rdpmc_mapping(true, false, e()).err().unwrap().to_string(),
        "perf mmap failed: cap_user_rdpmc not set — rdpmc not available for this event"
    );
}

#[test]
fn errors_are_described() {
    assert_eq!(
        PerfError::UnsupportedCpu.to_string(),
        "CPU does not support RBC counting"
    );
    assert_eq!(PerfError::Open("x".to_string()).to_string(), "perf_event_open failed: x");
    assert_eq!(PerfError::Ioctl("x".to_string()).to_string(), "perf ioctl failed: x");
    assert_eq!(PerfError::Fcntl("x".to_string()).to_string(), "perf fcntl failed: x");
    assert_eq!(PerfError::Read("x".to_string()).to_string(), "perf read failed: x");
}

#[test]
fn raw_readings_are_sign_extended() {
    assert_eq!(counter_value(0x89abcdef, 0x01234567), 0x0123456789abcdef);
    // Not on the PMU: the offset alone.
    assert_eq!(rdpmc_count(0, 500, 0, 12345), 500);
    assert_eq!(rdpmc_count(0, -1, 48, 12345), u64::MAX);
    // A counter of 48 bits.
    assert_eq!(rdpmc_count(1, 1000, 48, 24), 1024);
    assert_eq!(rdpmc_count(1, 1000, 48, 0xffff_ffff_ffff), 999);
    assert_eq!(rdpmc_count(1, 0, 48, 0x8000_0000_0000), 0xffff_8000_0000_0000);
    assert_eq!(rdpmc_count(2, 5, 64, u64::MAX), 4);
    assert_eq!(rdpmc_count(2, 0, 1, 3), u64::MAX);
}

#[test]
fn a_stable_sequence_is_even_and_unchanged() {
    assert!(seqcount_stable(4, 4));
    assert!(!seqcount_stable(5, 5));
    assert!(!seqcount_stable(4, 6));
}
