//! Performance-counter events: which raw event a CPU offers, how a counter is
//! described to the kernel, and what its raw readings mean.

use vstd::prelude::*;

use crate::text::text_eq;

verus! {

// ---------------------------------------------------------------------------
// Errors
// ---------------------------------------------------------------------------

/// Errors from PMU counter operations. The payload is the operating system's
/// description of what went wrong.
#[derive(Debug, Clone)]
pub enum PerfError {
    /// The CPU architecture is not supported for RBC counting.
    UnsupportedCpu,
    /// `perf_event_open` syscall failed.
    Open(String),
    /// ioctl on the perf fd failed.
    Ioctl(String),
    /// fcntl on the perf fd failed.
    Fcntl(String),
    /// read on the perf fd failed.
    Read(String),
    /// mmap on the perf fd failed.
    Mmap(String),
}

impl PerfError {
    /// The sentence that describes the error.
    pub open spec fn text(self) -> Seq<char> {
        match self {
            PerfError::UnsupportedCpu => "CPU does not support RBC counting"@,
            PerfError::Open(e) => "perf_event_open failed: "@ + e@,
            PerfError::Ioctl(e) => "perf ioctl failed: "@ + e@,
            PerfError::Fcntl(e) => "perf fcntl failed: "@ + e@,
            PerfError::Read(e) => "perf read failed: "@ + e@,
            PerfError::Mmap(e) => "perf mmap failed: "@ + e@,
        }
    }

    /// The sentence that describes the error.
    pub fn to_string(&self) -> (r: String)
        ensures
            r@ == self.text(),
    {
        let mut r = String::new();
        match self {
            PerfError::UnsupportedCpu => {
                r.append("CPU does not support RBC counting");
            },
            PerfError::Open(e) => {
                r.append("perf_event_open failed: ");
                r.append(e.as_str());
            },
            PerfError::Ioctl(e) => {
                r.append("perf ioctl failed: ");
                r.append(e.as_str());
            },
            PerfError::Fcntl(e) => {
                r.append("perf fcntl failed: ");
                r.append(e.as_str());
            },
            PerfError::Read(e) => {
                r.append("perf read failed: ");
                r.append(e.as_str());
            },
            PerfError::Mmap(e) => {
                r.append("perf mmap failed: ");
                r.append(e.as_str());
            },
        }
        assert(r@ =~= self.text());
        r
    }
}

// ---------------------------------------------------------------------------
// Events and CPU detection
// ---------------------------------------------------------------------------

/// A PMU hardware event type.
#[derive(Debug, Clone, Copy, PartialEq, Eq, Structural)]
pub enum PmuEvent {
    /// Retired conditional branches (vendor-specific raw event).
    RetiredBranchConditional,
    /// Hardware instructions retired.
    InstructionsRetired,
}

impl PmuEvent {
    /// The identifier of an event in a trace header.
    pub open spec fn name(self) -> Seq<char> {
        match self {
            PmuEvent::RetiredBranchConditional => "rbc"@,
            PmuEvent::InstructionsRetired => "insn"@,
        }
    }

    /// The event with the identifier `s`.
    pub open spec fn named(s: Seq<char>) -> Option<PmuEvent> {
        if s == "rbc"@ {
            Some(PmuEvent::RetiredBranchConditional)
        } else if s == "insn"@ {
            Some(PmuEvent::InstructionsRetired)
        } else {
            None
        }
    }

    /// Short identifier for serialization (e.g. in trace headers).
    pub fn short_name(self) -> (r: &'static str)
        ensures
            r@ == self.name(),
    {
        match self {
            PmuEvent::RetiredBranchConditional => "rbc",
            PmuEvent::InstructionsRetired => "insn",
        }
    }

    /// The short identifier.
    pub fn to_string(&self) -> (r: String)
        ensures
            r@ == self.name(),
    {
        self.short_name().to_owned()
    }

    /// Parse from the short identifier. Returns `None` if unrecognized.
    pub fn from_short_name(s: &str) -> (r: Option<PmuEvent>)
        ensures
            r == PmuEvent::named(s@),
    {
        if text_eq(s, "rbc") {
            Some(PmuEvent::RetiredBranchConditional)
        } else if text_eq(s, "insn") {
            Some(PmuEvent::InstructionsRetired)
        } else {
            None
        }
    }
}

/// Reading the identifier of an event gives the event back.
pub proof fn law_pmu_event_name_round_trip(event: PmuEvent)
    ensures
        PmuEvent::named(event.name()) == Some(event),
{
    reveal_strlit("rbc");
    reveal_strlit("insn");
    assert("rbc"@.len() == 3 && "insn"@.len() == 4);
}

/// The bytes of `v` in memory order on a little-endian machine.
pub open spec fn le_bytes(v: u32) -> Seq<u8> {
    seq![
        (v % 256) as u8,
        (v / 0x100 % 256) as u8,
        (v / 0x1_0000 % 256) as u8,
        (v / 0x100_0000 % 256) as u8,
    ]
}

/// The CPU family in the processor signature: the base family, plus the extended
/// family where the base family is at its maximum.
pub open spec fn cpu_family(eax: u32) -> int {
    let base = eax / 0x100 % 16;
    if base == 15 {
        base + eax / 0x10_0000 % 256
    } else {
        base as int
    }
}

/// CPUID vendor and family info extracted from leaf 0x0 and 0x1.
#[derive(Debug, Clone, Copy)]
pub struct CpuIdInfo {
    /// The vendor string.
    pub vendor: [u8; 12],
    /// The full family number.
    pub family: u32,
}

impl CpuIdInfo {
    /// The vendor string and the full family, from the registers `EBX`, `EDX`
    /// and `ECX` of leaf 0 and `EAX` of leaf 1.
    pub fn detect(ebx: u32, edx: u32, ecx: u32, eax: u32) -> (r: CpuIdInfo)
        ensures
            r.vendor@ == le_bytes(ebx) + le_bytes(edx) + le_bytes(ecx),
            r.family == cpu_family(eax),
    {
        let vendor: [u8; 12] = [
            (ebx % 256) as u8,
            (ebx / 0x100 % 256) as u8,
            (ebx / 0x1_0000 % 256) as u8,
            (ebx / 0x100_0000 % 256) as u8,
            (edx % 256) as u8,
            (edx / 0x100 % 256) as u8,
            (edx / 0x1_0000 % 256) as u8,
            (edx / 0x100_0000 % 256) as u8,
            (ecx % 256) as u8,
            (ecx / 0x100 % 256) as u8,
            (ecx / 0x1_0000 % 256) as u8,
            (ecx / 0x100_0000 % 256) as u8,
        ];
        assert(vendor@ =~= le_bytes(ebx) + le_bytes(edx) + le_bytes(ecx));
        let base_family: u32 = (eax >> 8) & 0xF;
        let ext_family: u32 = (eax >> 20) & 0xFF;
        assert((eax >> 8) & 0xF == eax / 0x100 % 16) by (bit_vector);
        assert((eax >> 20) & 0xFF == eax / 0x10_0000 % 256) by (bit_vector);
        let family: u32 = if base_family == 0x0F {
            base_family + ext_family
        } else {
            base_family
        };
        CpuIdInfo { vendor, family }
    }

    /// Whether the vendor string is `name`.
    pub open spec fn vendor_is(self, name: Seq<char>) -> bool {
        self.vendor@ == vstd::utf8::encode_utf8(name)
    }

    /// Whether the vendor string is `name`.
    pub fn has_vendor(&self, name: &str) -> (r: bool)
        ensures
            r == self.vendor_is(name@),
    {
        let bytes: &[u8] = name.as_bytes();
        if bytes.len() != 12 {
            return false;
        }
        let mut i: usize = 0;
        while i < 12
            invariant
                i <= 12,
                bytes@.len() == 12,
                bytes@ == vstd::utf8::encode_utf8(name@),
                forall|j: int| 0 <= j < i ==> self.vendor@[j] == bytes@[j],
            decreases 12 - i,
        {
            if self.vendor[i] != bytes[i] {
                return false;
            }
            i += 1;
        }
        assert(self.vendor@ =~= bytes@);
        true
    }
}

/// The raw event that counts retired conditional branches on a CPU: Intel
/// family 6 has `BR_INST_RETIRED.COND`, AMD Zen (families 0x17, 0x19 and 0x1A)
/// has `RETIRED_COND_BRANCH`.
pub open spec fn conditional_branch_event(info: CpuIdInfo) -> Option<u64> {
    if info.vendor_is("GenuineIntel"@) && info.family == 0x06 {
        Some(0x01c4u64)
    } else if info.vendor_is("AuthenticAMD"@) && (info.family == 0x17 || info.family == 0x19
        || info.family == 0x1A) {
        Some(0x00d1u64)
    } else {
        None
    }
}

/// PMU configuration for retired conditional branches.
///
/// Holds the raw `perf_event_attr.config` value detected via CPUID.
#[derive(Debug, Clone, Copy, PartialEq, Eq, Structural)]
pub struct PmuConfig {
    /// Raw event selector (umask<<8 | event, for PERF_TYPE_RAW).
    pub rcb_event: u64,
}

impl PmuConfig {
    /// Detect the RBC event of the CPU that `info` describes.
    ///
    /// Returns `None` if the CPU family/vendor is not recognized.
    pub fn detect(info: &CpuIdInfo) -> (r: Option<PmuConfig>)
        ensures
            match r {
                Some(config) => conditional_branch_event(*info) == Some(config.rcb_event),
                None => conditional_branch_event(*info) is None,
            },
    {
        proof {
            assert("GenuineIntel"@ != "AuthenticAMD"@) by {
                reveal_strlit("GenuineIntel");
                reveal_strlit("AuthenticAMD");
                assert("GenuineIntel"@[0] != "AuthenticAMD"@[0]);
            }
            vstd::utf8::encode_utf8_decode_utf8("GenuineIntel"@);
            vstd::utf8::encode_utf8_decode_utf8("AuthenticAMD"@);
        }
        if info.has_vendor("GenuineIntel") && info.family == 0x06 {
            // Intel: BR_INST_RETIRED.COND - event=0xC4, umask=0x01
            return Some(PmuConfig { rcb_event: 0x01c4 });
        }
        if info.has_vendor("AuthenticAMD") {
            // Zen 1-2 (family 0x17), Zen 3-4 (0x19), Zen 5 (0x1A)
            if info.family == 0x17 || info.family == 0x19 || info.family == 0x1A {
                return Some(PmuConfig { rcb_event: 0x00d1 });
            }
        }
        None
    }

    /// Resolve a PMU event to `(perf_event_attr.type_, perf_event_attr.config)`.
    pub fn resolve(&self, event: PmuEvent) -> (r: (u32, u64))
        ensures
            r == match event {
                PmuEvent::RetiredBranchConditional => (TYPE_RAW, self.rcb_event),
                PmuEvent::InstructionsRetired => (TYPE_HARDWARE, HW_INSTRUCTIONS),
            },
            r == selector(*self, event),
    {
        match event {
            PmuEvent::RetiredBranchConditional => (perf_type_raw(), self.rcb_event),
            PmuEvent::InstructionsRetired => (
                perf_type_hardware(),
                perf_count_hw_instructions() as u64,
            ),
        }
    }
}

// ---------------------------------------------------------------------------
// Kernel constants
// ---------------------------------------------------------------------------

/// The kernel's event type for vendor-specific raw events.
pub const TYPE_RAW: u32 = 4;

/// The kernel's event type for generic hardware events.
pub const TYPE_HARDWARE: u32 = 0;

/// The kernel's event type for breakpoints.
pub const TYPE_BREAKPOINT: u32 = 5;

/// The generic hardware event that counts retired instructions.
pub const HW_INSTRUCTIONS: u64 = 1;

/// The breakpoint kind that fires when an instruction is executed.
pub const BREAKPOINT_EXECUTE: u32 = 4;

/// The breakpoint length of eight bytes.
pub const BREAKPOINT_LEN_8: u64 = 8;

/// `perf_event_open_sys::bindings::PERF_TYPE_RAW` is the event type 4.
#[verifier::external_body]
fn perf_type_raw() -> (r: u32)
    ensures
        r == TYPE_RAW,
{
    perf_event_open_sys::bindings::PERF_TYPE_RAW
}

/// `perf_event_open_sys::bindings::PERF_TYPE_HARDWARE` is the event type 0.
#[verifier::external_body]
fn perf_type_hardware() -> (r: u32)
    ensures
        r == TYPE_HARDWARE,
{
    perf_event_open_sys::bindings::PERF_TYPE_HARDWARE
}

/// `perf_event_open_sys::bindings::PERF_COUNT_HW_INSTRUCTIONS` is the generic
/// hardware event 1.
#[verifier::external_body]
fn perf_count_hw_instructions() -> (r: u32)
    ensures
        r == HW_INSTRUCTIONS,
{
    perf_event_open_sys::bindings::PERF_COUNT_HW_INSTRUCTIONS
}

/// `perf_event_open_sys::bindings::PERF_TYPE_BREAKPOINT` is the event type 5.
#[verifier::external_body]
fn perf_type_breakpoint() -> (r: u32)
    ensures
        r == TYPE_BREAKPOINT,
{
    perf_event_open_sys::bindings::PERF_TYPE_BREAKPOINT
}

/// `perf_event_open_sys::bindings::HW_BREAKPOINT_X` is the breakpoint kind 4.
#[verifier::external_body]
fn hw_breakpoint_x() -> (r: u32)
    ensures
        r == BREAKPOINT_EXECUTE,
{
    perf_event_open_sys::bindings::HW_BREAKPOINT_X
}

/// `perf_event_open_sys::bindings::HW_BREAKPOINT_LEN_8` is the length 8.
#[verifier::external_body]
fn hw_breakpoint_len_8() -> (r: u32)
    ensures
        r == BREAKPOINT_LEN_8,
{
    perf_event_open_sys::bindings::HW_BREAKPOINT_LEN_8
}

// ---------------------------------------------------------------------------
// Counter descriptions
// ---------------------------------------------------------------------------

/// A very large period that effectively disables overflow signals.
///
/// Use this as the initial `sample_period` when creating a timer that will
/// have its period set later.
pub const DISABLE_SAMPLE_PERIOD: u64 = 0x1000_0000_0000_0000;

/// What a counter asks of the kernel; every attribute that is not listed here
/// is zero.
#[derive(Debug, Clone, Copy, PartialEq, Eq, Structural)]
pub struct PerfAttr {
    /// Event type.
    pub type_: u32,
    /// Event selector within the type.
    pub config: u64,
    /// Events between two overflow notifications; 0 for a pure counter.
    pub sample_period: u64,
    /// Overflows until a wakeup; 0 for a pure counter.
    pub wakeup_events: u32,
    /// Breakpoint kind, 0 for other events.
    pub bp_type: u32,
    /// Breakpoint address, 0 for other events.
    pub bp_addr: u64,
    /// Breakpoint length, 0 for other events.
    pub bp_len: u64,
    /// The counter starts disabled.
    pub disabled: bool,
    /// Kernel code is not counted.
    pub exclude_kernel: bool,
    /// Hypervisor code is not counted.
    pub exclude_hv: bool,
    /// The counter is always on the PMU.
    pub pinned: bool,
}

/// Describe a counting event for the given type/config pair.
///
/// The counter starts disabled, excludes kernel and hypervisor.
pub fn counting_attr(type_: u32, config: u64) -> (r: PerfAttr)
    ensures
        r == (PerfAttr {
            type_,
            config,
            sample_period: 0,
            wakeup_events: 0,
            bp_type: 0,
            bp_addr: 0,
            bp_len: 0,
            disabled: true,
            exclude_kernel: true,
            exclude_hv: true,
            pinned: false,
        }),
        r == counting(type_, config),
{
    PerfAttr {
        type_,
        config,
        sample_period: 0,
        wakeup_events: 0,
        bp_type: 0,
        bp_addr: 0,
        bp_len: 0,
        disabled: true,
        exclude_kernel: true,
        exclude_hv: true,
        pinned: false,
    }
}

/// Describe a sampling event for the given type/config/period.
///
/// The counter starts disabled, pinned, excludes kernel and hypervisor, and
/// generates a wakeup after one sample event.
pub fn sampling_attr(type_: u32, config: u64, sample_period: u64) -> (r: PerfAttr)
    ensures
        r == (PerfAttr {
            type_,
            config,
            sample_period,
            wakeup_events: 1,
            bp_type: 0,
            bp_addr: 0,
            bp_len: 0,
            disabled: true,
            exclude_kernel: true,
            exclude_hv: true,
            pinned: true,
        }),
        r == sampling(type_, config, sample_period),
{
    let mut attr = counting_attr(type_, config);
    attr.sample_period = sample_period;
    attr.pinned = true;
    // Generate a wakeup (overflow notification) after one sample event.
    attr.wakeup_events = 1;
    attr
}

/// Describe an execution breakpoint at `addr` that notifies on every hit.
pub fn make_bp_attr(addr: u64) -> (r: PerfAttr)
    ensures
        r == (PerfAttr {
            type_: TYPE_BREAKPOINT,
            config: 0,
            sample_period: 1,
            wakeup_events: 1,
            bp_type: BREAKPOINT_EXECUTE,
            bp_addr: addr,
            bp_len: BREAKPOINT_LEN_8,
            disabled: true,
            exclude_kernel: true,
            exclude_hv: true,
            pinned: true,
        }),
        r == breakpoint(addr),
{
    let mut attr = sampling_attr(perf_type_breakpoint(), 0, 1);
    attr.bp_type = hw_breakpoint_x();
    attr.bp_addr = addr;
    attr.bp_len = hw_breakpoint_len_8() as u64;
    attr
}

/// The description of a counter for `event`.
pub fn event_counting_attr(config: &PmuConfig, event: PmuEvent) -> (r: PerfAttr)
    ensures
        r.type_ == match event {
            PmuEvent::RetiredBranchConditional => TYPE_RAW,
            PmuEvent::InstructionsRetired => TYPE_HARDWARE,
        },
        r.config == match event {
            PmuEvent::RetiredBranchConditional => config.rcb_event,
            PmuEvent::InstructionsRetired => HW_INSTRUCTIONS,
        },
        r == (PerfAttr {
            type_: r.type_,
            config: r.config,
            sample_period: 0,
            wakeup_events: 0,
            bp_type: 0,
            bp_addr: 0,
            bp_len: 0,
            disabled: true,
            exclude_kernel: true,
            exclude_hv: true,
            pinned: false,
        }),
{
    let (type_, cfg) = config.resolve(event);
    counting_attr(type_, cfg)
}

/// The description of a timer for `event`.
pub fn event_sampling_attr(config: &PmuConfig, event: PmuEvent, sample_period: u64) -> (r: PerfAttr)
    ensures
        r.type_ == match event {
            PmuEvent::RetiredBranchConditional => TYPE_RAW,
            PmuEvent::InstructionsRetired => TYPE_HARDWARE,
        },
        r.config == match event {
            PmuEvent::RetiredBranchConditional => config.rcb_event,
            PmuEvent::InstructionsRetired => HW_INSTRUCTIONS,
        },
        r == (PerfAttr {
            type_: r.type_,
            config: r.config,
            sample_period,
            wakeup_events: 1,
            bp_type: 0,
            bp_addr: 0,
            bp_len: 0,
            disabled: true,
            exclude_kernel: true,
            exclude_hv: true,
            pinned: true,
        }),
{
    let (type_, cfg) = config.resolve(event);
    sampling_attr(type_, cfg, sample_period)
}

// ---------------------------------------------------------------------------
// Results of system calls
// ---------------------------------------------------------------------------

/// The file descriptor that `perf_event_open` returned, or its error.
pub fn open_result(fd: i32, os_error: String) -> (r: Result<i32, PerfError>)
    ensures
        fd >= 0 ==> r == Ok::<i32, PerfError>(fd),
        fd < 0 ==> r == Err::<i32, PerfError>(PerfError::Open(os_error)),
{
    if fd < 0 {
        return Err(PerfError::Open(os_error));
    }
    Ok(fd)
}

/// Whether an ioctl that returned `ret` succeeded.
pub fn ioctl_result(ret: i32, os_error: String) -> (r: Result<(), PerfError>)
    ensures
        ret >= 0 ==> r == Ok::<(), PerfError>(()),
        ret < 0 ==> r == Err::<(), PerfError>(PerfError::Ioctl(os_error)),
{
    if ret < 0 {
        return Err(PerfError::Ioctl(os_error));
    }
    Ok(())
}

/// Whether an fcntl that returned `ret` succeeded.
pub fn fcntl_result(ret: i32, os_error: String) -> (r: Result<(), PerfError>)
    ensures
        ret >= 0 ==> r == Ok::<(), PerfError>(()),
        ret < 0 ==> r == Err::<(), PerfError>(PerfError::Fcntl(os_error)),
{
    if ret < 0 {
        return Err(PerfError::Fcntl(os_error));
    }
    Ok(())
}

/// The counter value that a read which returned `ret` left in `count`.
pub fn read_result(ret: isize, count: u64, os_error: String) -> (r: Result<u64, PerfError>)
    ensures
        ret >= 0 ==> r == Ok::<u64, PerfError>(count),
        ret < 0 ==> r == Err::<u64, PerfError>(PerfError::Read(os_error)),
{
    if ret < 0 {
        return Err(PerfError::Read(os_error));
    }
    Ok(count)
}

/// Whether a counter page can be read with `rdpmc`: it must be mapped, and the
/// kernel must have set `cap_user_rdpmc` in it.
pub fn rdpmc_mapping(mapped: bool, cap_user_rdpmc: bool, os_error: String) -> (r: Result<
    (),
    PerfError,
>)
    ensures
        mapped && cap_user_rdpmc ==> r == Ok::<(), PerfError>(()),
        !mapped ==> r == Err::<(), PerfError>(PerfError::Mmap(os_error)),
        mapped && !cap_user_rdpmc ==> (r matches Err(PerfError::Mmap(e)) && e@
            == "cap_user_rdpmc not set — rdpmc not available for this event"@),
{
    if !mapped {
        return Err(PerfError::Mmap(os_error));
    }
    if !cap_user_rdpmc {
        return Err(
            PerfError::Mmap(
                "cap_user_rdpmc not set — rdpmc not available for this event".to_owned(),
            ),
        );
    }
    Ok(())
}

// ---------------------------------------------------------------------------
// Raw counter readings
// ---------------------------------------------------------------------------

/// The 64-bit value in the register pair of the `rdpmc` instruction.
pub fn counter_value(lo: u32, hi: u32) -> (r: u64)
    ensures
        r == hi * 0x1_0000_0000 + lo,
        r == register_pair(lo, hi),
{
    assert((hi as u64) << 32 | lo as u64 == hi as u64 * 0x1_0000_0000 + lo as u64) by (bit_vector);
    (hi as u64) << 32 | lo as u64
}

/// The low `width` bits of `raw` as a two's complement number.
pub open spec fn sign_extended(raw: u64, width: nat) -> int {
    let low = raw as int % vstd::arithmetic::power2::pow2(width) as int;
    if low < vstd::arithmetic::power2::pow2((width - 1) as nat) {
        low
    } else {
        low - vstd::arithmetic::power2::pow2(width)
    }
}

/// The two's complement representation of `v` in 64 bits.
pub open spec fn as_unsigned(v: int) -> int {
    v % 0x1_0000_0000_0000_0000
}

/// The number of a 64-bit pattern that is `v` plus a multiple of two to the 64.
fn unsigned_of(v: i64) -> (r: u64)
    ensures
        r == as_unsigned(v as int),
{
    if v >= 0 {
        v as u64
    } else {
        u64::MAX - (-(v + 1)) as u64
    }
}

/// The low `width` bits of `raw`, sign-extended to 64 bits.
fn sign_extend(raw: u64, width: u16) -> (r: u64)
    requires
        1 <= width <= 64,
    ensures
        r == as_unsigned(sign_extended(raw, width as nat)),
{
    proof {
        vstd::arithmetic::power2::lemma2_to64();
        vstd::arithmetic::power2::lemma2_to64_rest();
        vstd::arithmetic::power2::lemma_pow2_unfold(width as nat);
    }
    if width == 64 {
        assert(sign_extended(raw, 64) == raw || sign_extended(raw, 64) == raw
            - 0x1_0000_0000_0000_0000);
        return raw;
    }
    proof {
        let w = width as nat;
        vstd::arithmetic::power2::lemma_pow2_strictly_increases(w, 64);
        vstd::bits::lemma_u64_shl_is_mul(1, width as u64);
        vstd::arithmetic::power2::lemma_pow2_pos((w - 1) as nat);
    }
    let modulus: u64 = 1u64 << (width as u64);
    assert(modulus == vstd::arithmetic::power2::pow2(width as nat));
    let low: u64 = raw % modulus;
    if low < modulus / 2 {
        low
    } else {
        u64::MAX - (modulus - 1 - low)
    }
}

/// The counter value in a mapped counter page: the kernel's `offset` alone if
/// the counter is not on the PMU (`index` is 0), else the `pmc_width`-bit raw
/// reading plus the offset.
pub fn rdpmc_count(index: u32, offset: i64, pmc_width: u16, raw: u64) -> (r: u64)
    requires
        index != 0 ==> 1 <= pmc_width <= 64,
    ensures
        index == 0 ==> r == as_unsigned(offset as int),
        index != 0 ==> r == as_unsigned(sign_extended(raw, pmc_width as nat) + offset),
        r == reading(index, offset, pmc_width, raw),
{
    if index == 0 {
        unsigned_of(offset)
    } else {
        let extended: u64 = sign_extend(raw, pmc_width);
        let shift: u64 = unsigned_of(offset);
        let sum: u64 = extended.wrapping_add(shift);
        assert(sum == (extended + shift) % 0x1_0000_0000_0000_0000);
        proof {
            let m = 0x1_0000_0000_0000_0000int;
            let s = sign_extended(raw, pmc_width as nat);
            vstd::arithmetic::div_mod::lemma_add_mod_noop(s, offset as int, m);
        }
        sum
    }
}

/// Whether a page read between the two lock values is consistent: the lock was
/// even and did not change.
pub fn seqcount_stable(seq: u32, seq2: u32) -> (r: bool)
    ensures
        r == (seq == seq2 && seq % 2 == 0),
        r == is_stable(seq, seq2),
{
    assert((seq & 1) == seq % 2) by (bit_vector);
    seq == seq2 && (seq & 1) == 0
}

// ---------------------------------------------------------------------------
// Laws
// ---------------------------------------------------------------------------

/// An identifier names at most one event, and only its own.
pub proof fn law_event_is_named_by_its_name_only(s: Seq<char>)
    ensures
        PmuEvent::named(s) matches Some(e) ==> s == e.name(),
        PmuEvent::named(s) is None <==> s != seq!['r', 'b', 'c'] && s != seq!['i', 'n', 's', 'n'],
{
    reveal_strlit("rbc");
    reveal_strlit("insn");
    assert("rbc"@ =~= seq!['r', 'b', 'c']);
    assert("insn"@ =~= seq!['i', 'n', 's', 'n']);
}

/// The bytes of a register make up its value, the first counting least.
pub proof fn law_bytes_make_up_the_register(v: u32)
    ensures
        le_bytes(v).len() == 4,
        le_bytes(v)[0] + 0x100 * le_bytes(v)[1] + 0x1_0000 * le_bytes(v)[2] + 0x100_0000
            * le_bytes(v)[3] == v,
{
}

/// The family of a processor signature with the base family `base` and the extended
/// family `ext`, whatever its other fields are.
pub proof fn law_family_adds_the_extension(low: u32, base: u32, mid: u32, ext: u32, high: u32)
    requires
        low < 0x100,
        base < 0x10,
        mid < 0x100,
        ext < 0x100,
        high < 0x10,
    ensures
        ({
            let eax = (low + 0x100 * base + 0x1000 * mid + 0x10_0000 * ext + 0x1000_0000 * high)
                as u32;
            cpu_family(eax) == if base < 15 {
                base as int
            } else {
                15 + ext as int
            }
        }),
{
}

/// Retired conditional branches can be counted on two makes of processors: on one of
/// Intel only on family 6, with umask 1 of event 0xC4; on one of AMD on the families of
/// Zen, with event 0xD1. On no other is there such an event.
pub proof fn law_branches_are_counted_on_known_processors(info: CpuIdInfo)
    ensures
        conditional_branch_event(info) matches Some(event) ==> {
            ||| info.vendor_is("GenuineIntel"@) && info.family == 6 && event == 0x100 + 0xC4
            ||| info.vendor_is("AuthenticAMD"@) && (info.family == 23 || info.family == 25
                || info.family == 26) && event == 0xD1
        },
        info.vendor_is("GenuineIntel"@) && info.family == 6 ==> conditional_branch_event(
            info,
        ) is Some,
        info.vendor_is("AuthenticAMD"@) && (info.family == 23 || info.family == 25 || info.family
            == 26) ==> conditional_branch_event(info) is Some,
{
}

/// A sign-extended reading lies in the range of its width and differs from the raw one by
/// a multiple of two to the width; as a 64-bit pattern a number differs from itself by a
/// multiple of two to the 64.
pub proof fn law_sign_extension_keeps_the_low_bits(raw: u64, width: nat, v: int)
    requires
        1 <= width <= 64,
    ensures
        0 - vstd::arithmetic::power2::pow2((width - 1) as nat) <= sign_extended(raw, width)
            < vstd::arithmetic::power2::pow2((width - 1) as nat),
        (raw - sign_extended(raw, width)) % vstd::arithmetic::power2::pow2(width) as int == 0,
        0 <= as_unsigned(v) <= u64::MAX,
        (v - as_unsigned(v)) % 0x1_0000_0000_0000_0000 == 0,
{
    let m = vstd::arithmetic::power2::pow2(width) as int;
    let h = vstd::arithmetic::power2::pow2((width - 1) as nat) as int;
    vstd::arithmetic::power2::lemma_pow2_pos(width);
    vstd::arithmetic::power2::lemma_pow2_unfold(width);
    assert(m == 2 * h);
    let q = raw as int / m;
    vstd::arithmetic::div_mod::lemma_fundamental_div_mod(raw as int, m);
    assert(m * q == q * m) by (nonlinear_arith);
    assert(m * q + m == (q + 1) * m) by (nonlinear_arith);
    vstd::arithmetic::div_mod::lemma_mod_multiples_basic(q, m);
    vstd::arithmetic::div_mod::lemma_mod_multiples_basic(q + 1, m);
    let n = 0x1_0000_0000_0000_0000int;
    vstd::arithmetic::div_mod::lemma_fundamental_div_mod(v, n);
    assert(n * (v / n) == (v / n) * n) by (nonlinear_arith);
    vstd::arithmetic::div_mod::lemma_mod_multiples_basic(v / n, n);
}

/// The numbers by which the kernel knows event types, events and breakpoints.
pub proof fn law_kernel_numbers()
    ensures
        TYPE_HARDWARE == 0,
        TYPE_RAW == 4,
        TYPE_BREAKPOINT == 5,
        HW_INSTRUCTIONS == 1,
        BREAKPOINT_EXECUTE == 4,
        BREAKPOINT_LEN_8 == 8,
        DISABLE_SAMPLE_PERIOD == vstd::arithmetic::power2::pow2(60),
{
    vstd::arithmetic::power2::lemma2_to64();
    vstd::arithmetic::power2::lemma2_to64_rest();
}

/// The value in a pair of registers.
pub open spec fn register_pair(lo: u32, hi: u32) -> int {
    hi * 0x1_0000_0000 + lo
}

/// The counter value of a page with the given index, offset and width, and a raw reading.
pub open spec fn reading(index: u32, offset: i64, pmc_width: u16, raw: u64) -> int {
    if index == 0 {
        as_unsigned(offset as int)
    } else {
        as_unsigned(sign_extended(raw, pmc_width as nat) + offset)
    }
}

/// Whether a page that was read between two values of its lock is consistent.
pub open spec fn is_stable(seq: u32, seq2: u32) -> bool {
    seq == seq2 && seq % 2 == 0
}

/// The type and the selector by which the kernel knows an event.
pub open spec fn selector(config: PmuConfig, event: PmuEvent) -> (u32, u64) {
    match event {
        PmuEvent::RetiredBranchConditional => (TYPE_RAW, config.rcb_event),
        PmuEvent::InstructionsRetired => (TYPE_HARDWARE, HW_INSTRUCTIONS),
    }
}

/// The registers of a reading can be told from its value.
pub proof fn law_registers_make_up_the_value(lo: u32, hi: u32)
    ensures
        register_pair(lo, hi) % 0x1_0000_0000 == lo,
        register_pair(lo, hi) / 0x1_0000_0000 == hi,
        0 <= register_pair(lo, hi) <= u64::MAX,
{
}

/// A reading is the offset, plus the raw value where the counter is on the PMU; whatever
/// the width, both count modulo two to the 64 only. For a raw value that the width holds
/// without its sign bit, that is the plain sum.
pub proof fn law_reading_adds_the_offset(index: u32, offset: i64, pmc_width: u16, raw: u64)
    requires
        1 <= pmc_width <= 64,
    ensures
        0 <= reading(index, offset, pmc_width, raw) <= u64::MAX,
        index == 0 ==> (reading(index, offset, pmc_width, raw) - offset) % 0x1_0000_0000_0000_0000
            == 0,
        index != 0 ==> (reading(index, offset, pmc_width, raw) - (sign_extended(
            raw,
            pmc_width as nat,
        ) + offset)) % 0x1_0000_0000_0000_0000 == 0,
        index != 0 && raw < vstd::arithmetic::power2::pow2((pmc_width - 1) as nat) && 0 <= raw
            + offset <= u64::MAX ==> reading(index, offset, pmc_width, raw) == raw + offset,
{
    let w = pmc_width as nat;
    let m = vstd::arithmetic::power2::pow2(w) as int;
    let n = 0x1_0000_0000_0000_0000int;
    vstd::arithmetic::power2::lemma_pow2_pos(w);
    vstd::arithmetic::power2::lemma_pow2_unfold(w);
    if raw < vstd::arithmetic::power2::pow2((w - 1) as nat) {
        vstd::arithmetic::div_mod::lemma_small_mod(raw as nat, m as nat);
        assert(sign_extended(raw, w) == raw);
        if 0 <= raw + offset <= u64::MAX {
            vstd::arithmetic::div_mod::lemma_small_mod((raw + offset) as nat, n as nat);
        }
    }
    lemma_mod_difference(sign_extended(raw, w) + offset);
    lemma_mod_difference(offset as int);
}

proof fn lemma_mod_difference(v: int)
    ensures
        (as_unsigned(v) - v) % 0x1_0000_0000_0000_0000 == 0,
{
    let n = 0x1_0000_0000_0000_0000int;
    vstd::arithmetic::div_mod::lemma_fundamental_div_mod(v, n);
    let q = 0 - v / n;
    assert(as_unsigned(v) - v == q * n) by (nonlinear_arith)
        requires
            v == n * (v / n) + as_unsigned(v),
            q == 0 - v / n,
    ;
    vstd::arithmetic::div_mod::lemma_mod_multiples_basic(q, n);
}

/// A page is consistent if nobody was writing it, and nobody has begun since.
pub proof fn law_page_is_stable_between_equal_even_locks(seq: u32, seq2: u32)
    ensures
        is_stable(seq, seq) <==> seq % 2 == 0,
        seq != seq2 ==> !is_stable(seq, seq2),
{
}

/// Retired instructions are a generic event; retired conditional branches are the raw event
/// of the processor.
pub proof fn law_branches_are_a_raw_event(config: PmuConfig)
    ensures
        selector(config, PmuEvent::RetiredBranchConditional).0 == 4,
        selector(config, PmuEvent::RetiredBranchConditional).1 == config.rcb_event,
        selector(config, PmuEvent::InstructionsRetired).0 == 0,
        selector(config, PmuEvent::InstructionsRetired).1 == 1,
{
}

/// What a pure counter asks of the kernel.
pub open spec fn counting(type_: u32, config: u64) -> PerfAttr {
    PerfAttr {
        type_,
        config,
        sample_period: 0,
        wakeup_events: 0,
        bp_type: 0,
        bp_addr: 0,
        bp_len: 0,
        disabled: true,
        exclude_kernel: true,
        exclude_hv: true,
        pinned: false,
    }
}

/// What a timer asks of the kernel.
pub open spec fn sampling(type_: u32, config: u64, sample_period: u64) -> PerfAttr {
    PerfAttr { sample_period, wakeup_events: 1, pinned: true, ..counting(type_, config) }
}

/// What an execution breakpoint asks of the kernel.
pub open spec fn breakpoint(addr: u64) -> PerfAttr {
    PerfAttr {
        bp_type: BREAKPOINT_EXECUTE,
        bp_addr: addr,
        bp_len: BREAKPOINT_LEN_8,
        ..sampling(TYPE_BREAKPOINT, 0, 1)
    }
}

/// Every counter starts disabled and sees neither the kernel nor a hypervisor. A timer is
/// pinned and notifies once per period, which a pure counter never does; a breakpoint
/// notifies on each execution of its address.
pub proof fn law_counters_see_user_code_only(type_: u32, config: u64, period: u64, addr: u64)
    ensures
        counting(type_, config).disabled && counting(type_, config).exclude_kernel && counting(
            type_,
            config,
        ).exclude_hv && !counting(type_, config).pinned,
        counting(type_, config).type_ == type_,
        counting(type_, config).config == config,
        counting(type_, config).sample_period == 0,
        counting(type_, config).wakeup_events == 0,
        counting(type_, config).bp_addr == 0,
        sampling(type_, config, period).disabled && sampling(type_, config, period).exclude_kernel
            && sampling(type_, config, period).exclude_hv && sampling(type_, config, period).pinned,
        sampling(type_, config, period).type_ == type_,
        sampling(type_, config, period).config == config,
        sampling(type_, config, period).sample_period == period,
        sampling(type_, config, period).wakeup_events == 1,
        sampling(type_, config, period).bp_addr == 0,
        breakpoint(addr).type_ == 5,
        breakpoint(addr).bp_addr == addr,
        breakpoint(addr).bp_type == 4,
        breakpoint(addr).bp_len == 8,
        breakpoint(addr).sample_period == 1,
        breakpoint(addr).disabled && breakpoint(addr).exclude_kernel && breakpoint(addr).exclude_hv
            && breakpoint(addr).pinned,
{
}

/// An error that the operating system describes ends with that description, and errors of
/// different operations begin differently.
pub proof fn law_error_tells_the_description(e: String, text: Seq<char>)
    requires
        text == e@,
    ensures
        PerfError::Open(e).text() == "perf_event_open failed: "@ + text,
        PerfError::Ioctl(e).text() == "perf ioctl failed: "@ + text,
        PerfError::Fcntl(e).text() == "perf fcntl failed: "@ + text,
        PerfError::Read(e).text() == "perf read failed: "@ + text,
        PerfError::Mmap(e).text() == "perf mmap failed: "@ + text,
        PerfError::UnsupportedCpu.text() == "CPU does not support RBC counting"@,
{
}

} // verus!
