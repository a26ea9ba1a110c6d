//! Software RBC for deterministic preemption.
//!
//! An alternative to PMU-based preemption (see [`preempt`](crate::preempt)) for
//! machines without hardware performance counters. The scheduler's `.so` is
//! instrumented at runtime with a callout before every conditional branch. Each
//! callout decrements a per-thread counter; when it reaches zero, a yield is
//! pending, which happens at the next kfunc boundary.
//!
//! ## Determinism
//!
//! Like hardware RBC, software RBC counts only conditional branches in the
//! scheduler's executable code. The same code path produces the same branch
//! count, making software RBC fully deterministic.

use vstd::prelude::*;

use crate::maps;
use crate::maps::find_segment;
use crate::preempt::structop;
use crate::text;
use crate::text::text_eq;

verus! {

// ---------------------------------------------------------------------------
// TextRange: address range of the scheduler .so's executable segment
// ---------------------------------------------------------------------------

/// Address range of the `.so`'s executable (`r-xp`) segment.
///
/// Used to restrict instrumentation to only the scheduler's code, avoiding
/// overhead from instrumenting libc, libpthread, or Rust runtime.
#[derive(Debug, Clone, Copy, PartialEq, Eq, Structural)]
pub struct TextRange {
    /// Base address of the executable mapping.
    pub base: usize,
    /// Size in bytes of the executable mapping.
    pub size: usize,
}

impl TextRange {
    /// Whether an address falls within this range.
    pub open spec fn has(self, addr: usize) -> bool {
        self.base <= addr < self.base + self.size
    }

    /// Check whether an address falls within this range.
    pub fn contains(&self, addr: usize) -> (r: bool)
        ensures
            r == self.has(addr),
    {
        addr >= self.base && addr - self.base < self.size
    }
}

/// Discover the executable (`r-xp`) segment of a loaded `.so` file in the memory
/// map `maps` of the process.
///
/// Finds the first line that contains `so_path` with `r-xp` permissions, then
/// parses the address range. Returns `None` if the `.so` is not found or has no
/// executable segment.
pub fn discover_so_text_range(maps: &str, so_path: &str) -> (r: Option<TextRange>)
    ensures
        match r {
            Some(range) => maps::first_segment(text::lines(maps@), so_path@) == Some(
                (range.base, range.size),
            ),
            None => maps::first_segment(text::lines(maps@), so_path@) is None,
        },
{
    match find_segment(maps, so_path) {
        Some((base, size)) => Some(TextRange { base, size }),
        None => None,
    }
}

// ---------------------------------------------------------------------------
// Conditional branch detection (x86-64)
// ---------------------------------------------------------------------------

/// The mnemonics of the Jcc and LOOPcc families.
pub open spec fn branch_mnemonics() -> Seq<Seq<char>> {
    seq![
        "jo"@,
        "jno"@,
        "jb"@,
        "jnae"@,
        "jc"@,
        "jae"@,
        "jnb"@,
        "jnc"@,
        "je"@,
        "jz"@,
        "jne"@,
        "jnz"@,
        "jbe"@,
        "jna"@,
        "ja"@,
        "jnbe"@,
        "js"@,
        "jns"@,
        "jp"@,
        "jpe"@,
        "jnp"@,
        "jpo"@,
        "jl"@,
        "jnge"@,
        "jge"@,
        "jnl"@,
        "jle"@,
        "jng"@,
        "jg"@,
        "jnle"@,
        "loop"@,
        "loope"@,
        "loopz"@,
        "loopne"@,
        "loopnz"@,
    ]
}

/// Check if an x86/x86-64 mnemonic is a conditional branch.
///
/// Matches the Jcc family (all conditional jumps) and the LOOPcc family.
pub fn is_conditional_branch(mnemonic: &str) -> (r: bool)
    ensures
        r == branch_mnemonics().contains(mnemonic@),
{
    let all: [&str; 35] = [
        "jo",
        "jno",
        "jb",
        "jnae",
        "jc",
        "jae",
        "jnb",
        "jnc",
        "je",
        "jz",
        "jne",
        "jnz",
        "jbe",
        "jna",
        "ja",
        "jnbe",
        "js",
        "jns",
        "jp",
        "jpe",
        "jnp",
        "jpo",
        "jl",
        "jnge",
        "jge",
        "jnl",
        "jle",
        "jng",
        "jg",
        "jnle",
        "loop",
        "loope",
        "loopz",
        "loopne",
        "loopnz",
    ];
    let ghost names = branch_mnemonics();
    assert(forall|j: int| 0 <= j < 35 ==> (#[trigger] all@[j])@ == names[j]);
    let mut i: usize = 0;
    while i < 35
        invariant
            i <= 35,
            names == branch_mnemonics(),
            all@.len() == 35,
            names.len() == 35,
            forall|j: int| 0 <= j < 35 ==> (#[trigger] all@[j])@ == names[j],
            forall|j: int| 0 <= j < i ==> #[trigger] names[j] != mnemonic@,
        decreases 35 - i,
    {
        if text_eq(all[i], mnemonic) {
            assert(names[i as int] == mnemonic@);
            return true;
        }
        i += 1;
    }
    false
}

/// Whether `b` is a legacy or REX prefix of an instruction.
pub open spec fn is_prefix(b: u8) -> bool {
    ||| b == 0x26
    ||| b == 0x2E
    ||| b == 0x36
    ||| b == 0x3E
    ||| b == 0x64
    ||| b == 0x65
    ||| b == 0x66
    ||| b == 0x67
    ||| b == 0xF0
    ||| b == 0xF2
    ||| b == 0xF3
    ||| 0x40 <= b <= 0x4F
}

/// The instruction without its prefixes.
pub open spec fn without_prefixes(bytes: Seq<u8>) -> Seq<u8>
    decreases bytes.len(),
{
    if bytes.len() > 0 && is_prefix(bytes[0]) {
        without_prefixes(bytes.skip(1))
    } else {
        bytes
    }
}

/// Whether an instruction is a conditional branch: a short Jcc, a near Jcc, or
/// LOOPcc and JCXZ, behind any prefixes.
pub open spec fn is_branch(bytes: Seq<u8>) -> bool {
    let op = without_prefixes(bytes);
    ||| op.len() >= 1 && 0x70 <= op[0] <= 0x7F
    ||| op.len() >= 1 && 0xE0 <= op[0] <= 0xE3
    ||| op.len() >= 2 && op[0] == 0x0F && 0x80 <= op[1] <= 0x8F
}

/// Check if x86/x86-64 instruction bytes represent a conditional branch.
///
/// x86-64 conditional branch opcodes:
/// - `0x70..=0x7F`: Short Jcc (2-byte, e.g., `je rel8`)
/// - `0x0F 0x80..=0x0F 0x8F`: Near Jcc (6-byte, e.g., `je rel32`)
/// - `0xE0..=0xE3`: LOOPcc / JCXZ
pub fn is_conditional_branch_opcode(bytes: &[u8]) -> (r: bool)
    ensures
        r == is_branch(bytes@),
{
    // Skip legacy and REX prefixes.
    let mut i: usize = 0;
    assert(bytes@.skip(0) =~= bytes@);
    while i < bytes.len() && prefix_byte(bytes[i])
        invariant
            i <= bytes@.len(),
            without_prefixes(bytes@) == without_prefixes(bytes@.skip(i as int)),
        decreases bytes@.len() - i,
    {
        assert(bytes@.skip(i as int).skip(1) =~= bytes@.skip(i + 1));
        i += 1;
    }
    let ghost op = bytes@.skip(i as int);
    assert(without_prefixes(bytes@) == op);
    if i >= bytes.len() {
        return false;
    }
    let b: u8 = bytes[i];
    assert(op[0] == b);
    if 0x70 <= b && b <= 0x7F {
        true
    } else if 0xE0 <= b && b <= 0xE3 {
        true
    } else if b == 0x0F {
        if i + 1 < bytes.len() {
            assert(op[1] == bytes@[i + 1]);
            0x80 <= bytes[i + 1] && bytes[i + 1] <= 0x8F
        } else {
            false
        }
    } else {
        false
    }
}

fn prefix_byte(b: u8) -> (r: bool)
    ensures
        r == is_prefix(b),
{
    b == 0x26 || b == 0x2E || b == 0x36 || b == 0x3E || b == 0x64 || b == 0x65 || b == 0x66 || b
        == 0x67 || b == 0xF0 || b == 0xF2 || b == 0xF3 || (0x40 <= b && b <= 0x4F)
}

/// Whether a callout goes in front of the instruction `bytes` at `addr`: where it
/// is a conditional branch within the scheduler's code.
pub fn should_instrument(range: &TextRange, addr: usize, bytes: &[u8]) -> (r: bool)
    ensures
        r == (range.has(addr) && is_branch(bytes@)),
        r == gets_callout(*range, addr, bytes@),
{
    range.contains(addr) && is_conditional_branch_opcode(bytes)
}

// ---------------------------------------------------------------------------
// Software RBC
// ---------------------------------------------------------------------------

/// The counter value of a thread that is not armed.
pub const DISARMED: u64 = u64::MAX;

/// The software RBC state of one thread.
#[derive(Debug, Clone, Copy, PartialEq, Eq, Structural)]
pub struct SoftwareRbc {
    /// Software retired-branch-conditional counter.
    ///
    /// Decremented at each instrumented conditional branch. When it reaches
    /// zero, a yield is pending. Initialized to [`DISARMED`].
    pub counter: u64,
    /// Whether instrumentation is active on this thread.
    pub active: bool,
    /// Deferred yield flag. Set by the callout when the counter reaches zero;
    /// checked and cleared at kfunc boundaries.
    pub yield_pending: bool,
    /// Address of the branch instruction that triggered the deferred yield.
    pub yield_rip: u64,
    /// Base address of the scheduler `.so`'s executable segment.
    pub text_base: u64,
    /// How many structops this thread has run.
    pub cpu_count: u64,
    /// Cumulative RBC count across timeslices within the current structop.
    pub rbc_total: u64,
    /// Kfunc call count within the current structop.
    pub kfunc_count: u64,
    /// The timeslice used for the current (or most recent) arming.
    pub current_timeslice: u64,
    /// Whether the thread is inside a structop.
    pub in_structop: bool,
}

/// The counters that all threads share.
#[derive(Debug, Clone, Copy, PartialEq, Eq, Structural)]
pub struct StalkerGlobals {
    /// Total callouts executed (for diagnostics).
    pub total_callouts: u64,
    /// Deferred yields consumed at kfunc boundaries.
    pub deferred_yields: u64,
    /// Structop calls across all threads.
    pub structop_global_count: u64,
}

impl SoftwareRbc {
    /// A thread that is not armed.
    pub fn new() -> (r: SoftwareRbc)
        ensures
            r == (SoftwareRbc {
                counter: DISARMED,
                active: false,
                yield_pending: false,
                yield_rip: 0,
                text_base: 0,
                cpu_count: 0,
                rbc_total: 0,
                kfunc_count: 0,
                current_timeslice: 0,
                in_structop: false,
            }),
    {
        SoftwareRbc {
            counter: DISARMED,
            active: false,
            yield_pending: false,
            yield_rip: 0,
            text_base: 0,
            cpu_count: 0,
            rbc_total: 0,
            kfunc_count: 0,
            current_timeslice: 0,
            in_structop: false,
        }
    }
}

impl StalkerGlobals {
    /// Counters at zero.
    pub fn new() -> (r: StalkerGlobals)
        ensures
            r == (StalkerGlobals {
                total_callouts: 0,
                deferred_yields: 0,
                structop_global_count: 0,
            }),
    {
        StalkerGlobals { total_callouts: 0, deferred_yields: 0, structop_global_count: 0 }
    }
}

/// A thread after a callout at the branch `addr`.
pub open spec fn after_callout(s: SoftwareRbc, addr: u64) -> SoftwareRbc {
    if s.counter == DISARMED || s.counter == 0 {
        s
    } else if s.counter == 1 {
        SoftwareRbc { counter: 0, yield_pending: true, yield_rip: addr, ..s }
    } else {
        SoftwareRbc { counter: (s.counter - 1) as u64, ..s }
    }
}

/// Inner logic for the software RBC callout.
///
/// When the counter decrements to zero, a yield is pending and the instruction
/// address is recorded, so the next kfunc-boundary yield point will perform the
/// actual yield.
pub fn software_rbc_callout_inner(
    state: &mut SoftwareRbc,
    globals: &mut StalkerGlobals,
    orig_addr: u64,
)
    ensures
        *final(state) == after_callout(*old(state), orig_addr),
        *final(globals) == (StalkerGlobals {
            total_callouts: structop::wrapping_next(old(globals).total_callouts),
            ..*old(globals)
        }),
        *final(globals) == with_callout(*old(globals)),
{
    globals.total_callouts = globals.total_callouts.wrapping_add(1);
    let current: u64 = state.counter;
    if current == DISARMED || current == 0 {
        // Disarmed or already signaled.
        return;
    }
    state.counter = current - 1;
    if current == 1 {
        state.yield_pending = true;
        state.yield_rip = orig_addr;
    }
}

/// Check and clear the deferred yield flag.
///
/// Called at kfunc boundaries. Returns `Some(rip)` if the counter has expired,
/// where `rip` is the address of the branch that triggered the yield. Then the
/// caller should perform a preemptive yield (same as one on a timer signal) and
/// re-arm the counter via [`rearm_software_rbc`]; see
/// [`maybe_yield_deferred`](crate::preempt::maybe_yield_deferred).
pub fn take_yield_pending(state: &mut SoftwareRbc, globals: &mut StalkerGlobals) -> (r: Option<u64>)
    ensures
        r == if old(state).yield_pending {
            Some(old(state).yield_rip)
        } else {
            None
        },
        *final(state) == (SoftwareRbc { yield_pending: false, ..*old(state) }),
        *final(globals) == if old(state).yield_pending {
            StalkerGlobals {
                deferred_yields: structop::wrapping_next(old(globals).deferred_yields),
                ..*old(globals)
            }
        } else {
            *old(globals)
        },
        *final(state) == without_pending(*old(state)),
        r == pending_rip(*old(state)),
        *final(globals) == with_taken(*old(state), *old(globals)),
{
    if state.yield_pending {
        state.yield_pending = false;
        globals.deferred_yields = globals.deferred_yields.wrapping_add(1);
        Some(state.yield_rip)
    } else {
        None
    }
}

/// Re-arm the software RBC counter with a new timeslice after a deferred yield.
///
/// Also clears the deferred yield flag in case it was set redundantly.
pub fn rearm_software_rbc(state: &mut SoftwareRbc, timeslice: u64)
    ensures
        *final(state) == (SoftwareRbc {
            counter: timeslice,
            yield_pending: false,
            current_timeslice: timeslice,
            ..*old(state)
        }),
{
    state.counter = timeslice;
    state.yield_pending = false;
    state.current_timeslice = timeslice;
}

/// Arm the software RBC counter with the given timeslice and `.so` text base.
///
/// The `text_base` is the base address of the scheduler `.so`'s executable
/// segment. It is used by [`rip_to_offset`] to convert absolute RIPs to
/// `.so`-relative offsets for ASLR-resilient determinism comparisons.
pub fn arm_software_rbc(state: &mut SoftwareRbc, timeslice: u64, text_base: u64)
    ensures
        *final(state) == (SoftwareRbc {
            counter: timeslice,
            active: true,
            text_base,
            current_timeslice: timeslice,
            ..*old(state)
        }),
        *final(state) == armed(*old(state), timeslice, text_base),
{
    state.counter = timeslice;
    state.active = true;
    state.text_base = text_base;
    state.current_timeslice = timeslice;
}

/// Disarm the software RBC counter.
pub fn disarm_software_rbc(state: &mut SoftwareRbc)
    ensures
        *final(state) == (SoftwareRbc {
            counter: DISARMED,
            active: false,
            yield_pending: false,
            text_base: 0,
            current_timeslice: 0,
            ..*old(state)
        }),
        *final(state) == disarmed(*old(state)),
{
    state.counter = DISARMED;
    state.active = false;
    state.yield_pending = false;
    state.text_base = 0;
    state.current_timeslice = 0;
}

/// Check whether instrumentation is active on the thread.
pub fn is_frida_active(state: &SoftwareRbc) -> (r: bool)
    ensures
        r == state.active,
{
    state.active
}

/// The address `rip` relative to the text base: `rip` itself while the base is not
/// known, zero for an address below it.
pub open spec fn text_offset(rip: u64, base: u64) -> u64 {
    if base == 0 {
        rip
    } else if rip < base {
        0
    } else {
        (rip - base) as u64
    }
}

/// Convert an absolute RIP to a `.so`-relative offset.
///
/// Subtracts the `.so` text segment base address (set by [`arm_software_rbc`])
/// from the absolute address. Returns the raw address if the text base is not set
/// (disarmed), and 0 if `rip` is below the base (shouldn't happen for instrumented
/// code).
///
/// This makes RIP values ASLR-resilient: the `.so` loads at different virtual
/// addresses in each run, but the offset within the `.so` is constant.
pub fn rip_to_offset(state: &SoftwareRbc, rip: u64) -> (r: u64)
    ensures
        r == text_offset(rip, state.text_base),
{
    let base: u64 = state.text_base;
    if base == 0 {
        return rip;
    }
    if rip < base {
        return 0;
    }
    rip - base
}

/// Return the `.so` text segment base address for the thread.
///
/// Returns 0 if the thread is not armed.
pub fn text_base(state: &SoftwareRbc) -> (r: u64)
    ensures
        r == state.text_base,
{
    state.text_base
}

/// Return the total number of callouts executed (diagnostic counter).
pub fn total_callouts(globals: &StalkerGlobals) -> (r: u64)
    ensures
        r == globals.total_callouts,
{
    globals.total_callouts
}

/// Return the total number of deferred yields consumed.
pub fn deferred_yields(globals: &StalkerGlobals) -> (r: u64)
    ensures
        r == globals.deferred_yields,
{
    globals.deferred_yields
}

/// Reset all diagnostic counters.
pub fn reset_counters(globals: &mut StalkerGlobals)
    ensures
        *final(globals) == (StalkerGlobals {
            total_callouts: 0,
            deferred_yields: 0,
            structop_global_count: 0,
        }),
{
    globals.total_callouts = 0;
    globals.deferred_yields = 0;
    globals.structop_global_count = 0;
}

// ---------------------------------------------------------------------------
// Structop tracking: per-structop RBC and kfunc counters
// ---------------------------------------------------------------------------

/// Snapshot of structop tracking state for trace output.
#[derive(Debug, Clone, Copy, PartialEq, Eq, Structural)]
pub struct StructopInfo {
    /// Per-CPU structop call number (1-based).
    pub cpu_count: u64,
    /// Global structop call number (1-based).
    pub global_count: u64,
    /// Cumulative RBC count within this structop.
    pub rbc_total: u64,
    /// Kfunc call count within this structop.
    pub kfunc_count: u64,
}

/// A thread that begins a structop.
pub open spec fn in_new_structop(s: SoftwareRbc) -> SoftwareRbc {
    SoftwareRbc {
        cpu_count: (s.cpu_count + 1) as u64,
        rbc_total: 0,
        kfunc_count: 0,
        in_structop: true,
        ..s
    }
}

/// The shared counters when a structop begins.
pub open spec fn with_new_structop(g: StalkerGlobals) -> StalkerGlobals {
    StalkerGlobals {
        structop_global_count: structop::wrapping_next(g.structop_global_count),
        ..g
    }
}

/// Begin a new structop on the thread.
///
/// Increments the per-CPU and global structop counters and resets
/// per-structop accumulators (RBC total, kfunc count). Call this
/// before entering scheduler C code for an ops callback.
pub fn begin_structop(state: &mut SoftwareRbc, globals: &mut StalkerGlobals)
    requires
        old(state).cpu_count < u64::MAX,
    ensures
        *final(state) == in_new_structop(*old(state)),
        *final(globals) == with_new_structop(*old(globals)),
{
    state.cpu_count = state.cpu_count + 1;
    globals.structop_global_count = globals.structop_global_count.wrapping_add(1);
    state.rbc_total = 0;
    state.kfunc_count = 0;
    state.in_structop = true;
}

/// Detect a structop boundary and begin a new structop if needed.
///
/// Called at kfunc entry points. If `in_ops` is true (a callback is being
/// executed) and the thread was not inside a structop, this is a new structop
/// boundary.
pub fn maybe_begin_structop(state: &mut SoftwareRbc, globals: &mut StalkerGlobals, in_ops: bool)
    requires
        in_ops && !old(state).in_structop ==> old(state).cpu_count < u64::MAX,
    ensures
        *final(state) == if in_ops && !old(state).in_structop {
            in_new_structop(*old(state))
        } else {
            SoftwareRbc { in_structop: in_ops, ..*old(state) }
        },
        *final(globals) == if in_ops && !old(state).in_structop {
            with_new_structop(*old(globals))
        } else {
            *old(globals)
        },
        *final(state) == structop_seen(*old(state), in_ops),
{
    if in_ops {
        if !state.in_structop {
            begin_structop(state, globals);
        }
    } else {
        state.in_structop = false;
    }
}

/// Record that the RBC timeslice expired within the current structop.
///
/// Adds the timeslice length to the cumulative RBC total, since the
/// counter reaching zero means exactly `timeslice` branches were retired.
pub fn record_rbc_expiry(state: &mut SoftwareRbc)
    requires
        old(state).rbc_total + old(state).current_timeslice <= u64::MAX,
    ensures
        *final(state) == (SoftwareRbc {
            rbc_total: (old(state).rbc_total + old(state).current_timeslice) as u64,
            ..*old(state)
        }),
{
    state.rbc_total = state.rbc_total + state.current_timeslice;
}

/// Increment the kfunc counter for the current structop.
pub fn inc_structop_kfunc(state: &mut SoftwareRbc)
    requires
        old(state).kfunc_count < u64::MAX,
    ensures
        *final(state) == (SoftwareRbc {
            kfunc_count: (old(state).kfunc_count + 1) as u64,
            ..*old(state)
        }),
        *final(state) == with_kfunc(*old(state)),
{
    state.kfunc_count = state.kfunc_count + 1;
}

/// Get the current structop tracking state for trace output.
pub fn structop_info(state: &SoftwareRbc, globals: &StalkerGlobals) -> (r: StructopInfo)
    ensures
        r == (StructopInfo {
            cpu_count: state.cpu_count,
            global_count: globals.structop_global_count,
            rbc_total: state.rbc_total,
            kfunc_count: state.kfunc_count,
        }),
        r == info_of(*state, *globals),
{
    StructopInfo {
        cpu_count: state.cpu_count,
        global_count: globals.structop_global_count,
        rbc_total: state.rbc_total,
        kfunc_count: state.kfunc_count,
    }
}

/// Reset per-CPU structop counter (called when a worker finishes).
pub fn reset_structop_cpu_count(state: &mut SoftwareRbc)
    ensures
        *final(state) == (SoftwareRbc { cpu_count: 0, ..*old(state) }),
{
    state.cpu_count = 0;
}

// ---------------------------------------------------------------------------
// Laws
// ---------------------------------------------------------------------------

/// A thread whose pending yield has been taken.
pub open spec fn without_pending(s: SoftwareRbc) -> SoftwareRbc {
    SoftwareRbc { yield_pending: false, ..s }
}

/// A thread that is armed with a timeslice for code at a base.
pub open spec fn armed(s: SoftwareRbc, timeslice: u64, text_base: u64) -> SoftwareRbc {
    SoftwareRbc { counter: timeslice, active: true, text_base, current_timeslice: timeslice, ..s }
}

/// A thread that is not armed any more.
pub open spec fn disarmed(s: SoftwareRbc) -> SoftwareRbc {
    SoftwareRbc {
        counter: DISARMED,
        active: false,
        yield_pending: false,
        text_base: 0,
        current_timeslice: 0,
        ..s
    }
}

/// A thread that is seen inside or outside a callback.
pub open spec fn structop_seen(s: SoftwareRbc, in_ops: bool) -> SoftwareRbc {
    if in_ops && !s.in_structop {
        in_new_structop(s)
    } else {
        SoftwareRbc { in_structop: in_ops, ..s }
    }
}

/// A thread that has called one more kfunc.
pub open spec fn with_kfunc(s: SoftwareRbc) -> SoftwareRbc {
    SoftwareRbc { kfunc_count: (s.kfunc_count + 1) as u64, ..s }
}

/// The tracking state of a thread as a snapshot.
pub open spec fn info_of(s: SoftwareRbc, g: StalkerGlobals) -> StructopInfo {
    StructopInfo {
        cpu_count: s.cpu_count,
        global_count: g.structop_global_count,
        rbc_total: s.rbc_total,
        kfunc_count: s.kfunc_count,
    }
}

/// Arming starts the countdown and says where the code lies; disarming ends both and drops
/// a pending yield. Neither touches what has been counted, and a thread that is not armed
/// counts nothing.
pub proof fn law_arming_starts_and_disarming_ends(
    s: SoftwareRbc,
    timeslice: u64,
    base: u64,
    addrs: Seq<u64>,
)
    ensures
        armed(s, timeslice, base).counter == timeslice,
        armed(s, timeslice, base).current_timeslice == timeslice,
        armed(s, timeslice, base).text_base == base,
        armed(s, timeslice, base).active,
        armed(s, timeslice, base).yield_pending == s.yield_pending,
        armed(s, timeslice, base).yield_rip == s.yield_rip,
        armed(s, timeslice, base).rbc_total == s.rbc_total,
        armed(s, timeslice, base).kfunc_count == s.kfunc_count,
        armed(s, timeslice, base).cpu_count == s.cpu_count,
        armed(s, timeslice, base).in_structop == s.in_structop,
        !disarmed(s).active && !disarmed(s).yield_pending,
        disarmed(s).text_base == 0,
        disarmed(s).current_timeslice == 0,
        disarmed(s).yield_rip == s.yield_rip,
        disarmed(s).rbc_total == s.rbc_total,
        disarmed(s).kfunc_count == s.kfunc_count,
        disarmed(s).cpu_count == s.cpu_count,
        disarmed(s).in_structop == s.in_structop,
        after_callouts(disarmed(s), addrs) == disarmed(s),
        disarmed(armed(s, timeslice, base)) == disarmed(s),
{
    law_disarmed_counts_nothing(disarmed(s), addrs);
}

/// Taking a pending yield takes the flag and nothing else.
pub proof fn law_taking_clears_only_the_flag(s: SoftwareRbc)
    ensures
        !without_pending(s).yield_pending,
        without_pending(s).counter == s.counter,
        without_pending(s).active == s.active,
        without_pending(s).yield_rip == s.yield_rip,
        without_pending(s).text_base == s.text_base,
        without_pending(s).cpu_count == s.cpu_count,
        without_pending(s).rbc_total == s.rbc_total,
        without_pending(s).kfunc_count == s.kfunc_count,
        without_pending(s).current_timeslice == s.current_timeslice,
        without_pending(s).in_structop == s.in_structop,
{
}

/// A thread is inside a structop exactly when it was last seen in a callback. Only entering
/// one counts, however often the thread is seen; kfuncs count one by one, and a snapshot
/// shows what has been counted.
pub proof fn law_thread_counts_entries(s: SoftwareRbc, g: StalkerGlobals)
    requires
        s.cpu_count < u64::MAX,
        s.kfunc_count < u64::MAX,
    ensures
        structop_seen(s, true).in_structop,
        !structop_seen(s, false).in_structop,
        !s.in_structop ==> structop_seen(s, true).cpu_count == s.cpu_count + 1,
        s.in_structop ==> structop_seen(s, true) == s,
        structop_seen(s, false).cpu_count == s.cpu_count,
        structop_seen(s, false).rbc_total == s.rbc_total,
        structop_seen(s, false).kfunc_count == s.kfunc_count,
        structop_seen(s, false).counter == s.counter,
        structop_seen(s, false).yield_pending == s.yield_pending,
        structop_seen(structop_seen(s, true), true) == structop_seen(s, true),
        with_kfunc(s).kfunc_count == s.kfunc_count + 1,
        with_kfunc(s).counter == s.counter,
        with_kfunc(s).rbc_total == s.rbc_total,
        with_kfunc(s).cpu_count == s.cpu_count,
        with_kfunc(s).yield_pending == s.yield_pending,
        info_of(s, g).cpu_count == s.cpu_count,
        info_of(s, g).global_count == g.structop_global_count,
        info_of(s, g).rbc_total == s.rbc_total,
        info_of(s, g).kfunc_count == s.kfunc_count,
{
}

/// A thread after callouts at the branches `addrs`.
pub open spec fn after_callouts(s: SoftwareRbc, addrs: Seq<u64>) -> SoftwareRbc
    decreases addrs.len(),
{
    if addrs.len() == 0 {
        s
    } else {
        after_callout(after_callouts(s, addrs.drop_last()), addrs.last())
    }
}

/// A counter armed with a timeslice counts exactly that many branches: a yield is
/// pending from the last of them on, with its address, and not before; further
/// branches change nothing.
pub proof fn law_timeslice_is_exact(s: SoftwareRbc, addrs: Seq<u64>)
    requires
        0 < s.counter < DISARMED,
        !s.yield_pending,
    ensures
        after_callouts(s, addrs).yield_pending <==> addrs.len() >= s.counter,
        after_callouts(s, addrs).counter == if addrs.len() >= s.counter {
            0int
        } else {
            s.counter - addrs.len()
        },
        addrs.len() >= s.counter ==> after_callouts(s, addrs).yield_rip == addrs[s.counter - 1],
    decreases addrs.len(),
{
    if addrs.len() > 0 {
        law_timeslice_is_exact(s, addrs.drop_last());
    }
}

/// Callouts on a thread that is not armed change nothing.
pub proof fn law_disarmed_counts_nothing(s: SoftwareRbc, addrs: Seq<u64>)
    requires
        s.counter == DISARMED,
    ensures
        after_callouts(s, addrs) == s,
    decreases addrs.len(),
{
    if addrs.len() > 0 {
        law_disarmed_counts_nothing(s, addrs.drop_last());
    }
}

/// A prefix in front of an instruction does not change whether it is a
/// conditional branch.
pub proof fn law_prefixes_do_not_matter(b: u8, bytes: Seq<u8>)
    requires
        is_prefix(b),
    ensures
        is_branch(seq![b] + bytes) == is_branch(bytes),
{
    assert((seq![b] + bytes).skip(1) =~= bytes);
}

/// The offset of an address survives a move of the code to another base.
pub proof fn law_offset_survives_move(rip: u64, from: u64, to: u64)
    requires
        0 < from <= rip,
        0 < to,
        to + (rip - from) <= u64::MAX,
    ensures
        text_offset((to + (rip - from)) as u64, to) == text_offset(rip, from),
{
}

/// A segment that is found is not empty and lies in the address space.
pub proof fn law_segment_is_in_address_space(lines: Seq<Seq<char>>, so_path: Seq<char>)
    ensures
        maps::first_segment(lines, so_path) matches Some((base, size)) ==> size > 0 && base + size
            <= usize::MAX,
    decreases lines.len(),
{
    if lines.len() > 0 {
        law_segment_is_in_address_space(lines.skip(1), so_path);
        let parts = text::words(lines[0]);
        if parts.len() > 0 {
            text::lemma_read_number_max(maps::before(parts[0], '-'), 16, usize::MAX as nat);
            if let Some(t) = maps::behind(parts[0], '-') {
                text::lemma_read_number_max(maps::before(t, '-'), 16, usize::MAX as nat);
            }
        }
    }
}

/// What counts as a conditional branch, by the high digits of the opcode: of the
/// instructions without prefixes only `7x`, the first four of `Ex`, and `0F 8x` do.
/// Every other first byte is none, whatever follows, and so is no instruction at all.
pub proof fn law_only_conditional_branches_count(bytes: Seq<u8>)
    requires
        bytes.len() > 0 ==> !is_prefix(bytes[0]),
    ensures
        bytes.len() == 0 ==> !is_branch(bytes),
        bytes.len() > 0 && bytes[0] != 0x0F ==> (is_branch(bytes) <==> bytes[0] / 0x10 == 7 || (
        bytes[0] / 0x10 == 0xE && bytes[0] % 0x10 < 4)),
        bytes.len() > 0 && bytes[0] == 0x0F ==> (is_branch(bytes) <==> bytes.len() > 1 && bytes[1]
            / 0x10 == 8),
{
}

/// No call, return or unconditional jump is a conditional branch.
pub proof fn law_other_transfers_do_not_count(op: u8, rest: Seq<u8>)
    requires
        op == 0xE8 || op == 0xE9 || op == 0xEA || op == 0xEB || op == 0xC2 || op == 0xC3 || op
            == 0xCA || op == 0xCB || op == 0xCC || op == 0xCD || op == 0xCF || op == 0xFF || op
            == 0x9A,
    ensures
        !is_branch(seq![op] + rest),
{
    let s = seq![op] + rest;
    assert(s[0] == op);
}

/// The prefixes are the segment overrides, the size overrides, the lock and repeat
/// prefixes, and REX (`4x`); no other byte is passed over.
pub proof fn law_prefixes_are_known(b: u8)
    ensures
        is_prefix(b) <==> b / 0x10 == 4 || seq![
            0x26u8,
            0x2E,
            0x36,
            0x3E,
            0x64,
            0x65,
            0x66,
            0x67,
            0xF0,
            0xF2,
            0xF3,
        ].contains(b),
{
    let all = seq![0x26u8, 0x2E, 0x36, 0x3E, 0x64, 0x65, 0x66, 0x67, 0xF0, 0xF2, 0xF3];
    assert(all[0] == 0x26 && all[1] == 0x2E && all[2] == 0x36 && all[3] == 0x3E && all[4] == 0x64
        && all[5] == 0x65 && all[6] == 0x66 && all[7] == 0x67 && all[8] == 0xF0 && all[9] == 0xF2
        && all[10] == 0xF3);
}

/// Any number of prefixes in front of an instruction leaves it what it is.
pub proof fn law_many_prefixes_do_not_matter(prefixes: Seq<u8>, bytes: Seq<u8>)
    requires
        forall|i: int| 0 <= i < prefixes.len() ==> is_prefix(#[trigger] prefixes[i]),
    ensures
        is_branch(prefixes + bytes) == is_branch(bytes),
    decreases prefixes.len(),
{
    if prefixes.len() == 0 {
        assert(prefixes + bytes =~= bytes);
    } else {
        let rest = prefixes.skip(1);
        assert forall|i: int| 0 <= i < rest.len() implies is_prefix(#[trigger] rest[i]) by {
            assert(rest[i] == prefixes[i + 1]);
        }
        law_many_prefixes_do_not_matter(rest, bytes);
        assert(is_prefix(prefixes[0]));
        law_prefixes_do_not_matter(prefixes[0], rest + bytes);
        assert(seq![prefixes[0]] + (rest + bytes) =~= prefixes + bytes);
    }
}

/// The conditions that a jump can test, each of which can also be tested for its
/// opposite.
pub open spec fn jump_conditions() -> Seq<Seq<char>> {
    seq![
        "o"@,
        "b"@,
        "c"@,
        "ae"@,
        "e"@,
        "z"@,
        "be"@,
        "a"@,
        "s"@,
        "p"@,
        "l"@,
        "ge"@,
        "le"@,
        "g"@,
    ]
}

/// The mnemonics are the jumps on each condition and on its opposite, the two more
/// names of the jumps on parity, and the five loops: no other instruction.
pub proof fn law_mnemonics_are_the_conditions(m: Seq<char>)
    ensures
        branch_mnemonics().contains(m) <==> {
            ||| exists|i: int|
                0 <= i < jump_conditions().len() && m == "j"@ + #[trigger] jump_conditions()[i]
            ||| exists|i: int|
                0 <= i < jump_conditions().len() && m == "jn"@ + #[trigger] jump_conditions()[i]
            ||| m == "jpe"@ || m == "jpo"@
            ||| m == "loop"@ || m == "loop"@ + "e"@ || m == "loop"@ + "z"@ || m == "loop"@ + "ne"@
                || m == "loop"@ + "nz"@
        },
{
    lemma_mnemonic_texts();
    let all = branch_mnemonics();
    let cs = jump_conditions();
    assert(all[0] == "j"@ + cs[0] && all[1] == "jn"@ + cs[0]);
    assert(all[2] == "j"@ + cs[1] && all[3] == "jn"@ + cs[3]);
    assert(all[4] == "j"@ + cs[2] && all[5] == "j"@ + cs[3]);
    assert(all[6] == "jn"@ + cs[1] && all[7] == "jn"@ + cs[2]);
    assert(all[8] == "j"@ + cs[4] && all[9] == "j"@ + cs[5]);
    assert(all[10] == "jn"@ + cs[4] && all[11] == "jn"@ + cs[5]);
    assert(all[12] == "j"@ + cs[6] && all[13] == "jn"@ + cs[7]);
    assert(all[14] == "j"@ + cs[7] && all[15] == "jn"@ + cs[6]);
    assert(all[16] == "j"@ + cs[8] && all[17] == "jn"@ + cs[8]);
    assert(all[18] == "j"@ + cs[9] && all[19] == "jpe"@);
    assert(all[20] == "jn"@ + cs[9] && all[21] == "jpo"@);
    assert(all[22] == "j"@ + cs[10] && all[23] == "jn"@ + cs[11]);
    assert(all[24] == "j"@ + cs[11] && all[25] == "jn"@ + cs[10]);
    assert(all[26] == "j"@ + cs[12] && all[27] == "jn"@ + cs[13]);
    assert(all[28] == "j"@ + cs[13] && all[29] == "jn"@ + cs[12]);
    assert(all[30] == "loop"@ && all[31] == "loop"@ + "e"@ && all[32] == "loop"@ + "z"@);
    assert(all[33] == "loop"@ + "ne"@ && all[34] == "loop"@ + "nz"@);
    assert(all.len() == 35 && cs.len() == 14);
}

proof fn lemma_mnemonic_texts()
    ensures
        "jo"@ == "j"@ + "o"@,
        "jno"@ == "jn"@ + "o"@,
        "jb"@ == "j"@ + "b"@,
        "jnae"@ == "jn"@ + "ae"@,
        "jc"@ == "j"@ + "c"@,
        "jae"@ == "j"@ + "ae"@,
        "jnb"@ == "jn"@ + "b"@,
        "jnc"@ == "jn"@ + "c"@,
        "je"@ == "j"@ + "e"@,
        "jz"@ == "j"@ + "z"@,
        "jne"@ == "jn"@ + "e"@,
        "jnz"@ == "jn"@ + "z"@,
        "jbe"@ == "j"@ + "be"@,
        "jna"@ == "jn"@ + "a"@,
        "ja"@ == "j"@ + "a"@,
        "jnbe"@ == "jn"@ + "be"@,
        "js"@ == "j"@ + "s"@,
        "jns"@ == "jn"@ + "s"@,
        "jp"@ == "j"@ + "p"@,
        "jnp"@ == "jn"@ + "p"@,
        "jl"@ == "j"@ + "l"@,
        "jnge"@ == "jn"@ + "ge"@,
        "jge"@ == "j"@ + "ge"@,
        "jnl"@ == "jn"@ + "l"@,
        "jle"@ == "j"@ + "le"@,
        "jng"@ == "jn"@ + "g"@,
        "jg"@ == "j"@ + "g"@,
        "jnle"@ == "jn"@ + "le"@,
        "loope"@ == "loop"@ + "e"@,
        "loopz"@ == "loop"@ + "z"@,
        "loopne"@ == "loop"@ + "ne"@,
        "loopnz"@ == "loop"@ + "nz"@,
{
    reveal_strlit("jo");
    reveal_strlit("jno");
    reveal_strlit("jb");
    reveal_strlit("jnae");
    reveal_strlit("jc");
    reveal_strlit("jae");
    reveal_strlit("jnb");
    reveal_strlit("jnc");
    reveal_strlit("je");
    reveal_strlit("jz");
    reveal_strlit("jne");
    reveal_strlit("jnz");
    reveal_strlit("jbe");
    reveal_strlit("jna");
    reveal_strlit("ja");
    reveal_strlit("jnbe");
    reveal_strlit("js");
    reveal_strlit("jns");
    reveal_strlit("jp");
    reveal_strlit("jnp");
    reveal_strlit("jl");
    reveal_strlit("jnge");
    reveal_strlit("jge");
    reveal_strlit("jnl");
    reveal_strlit("jle");
    reveal_strlit("jng");
    reveal_strlit("jg");
    reveal_strlit("jnle");
    reveal_strlit("loope");
    reveal_strlit("loopz");
    reveal_strlit("loopne");
    reveal_strlit("loopnz");
    reveal_strlit("j");
    reveal_strlit("jn");
    reveal_strlit("loop");
    reveal_strlit("o");
    reveal_strlit("b");
    reveal_strlit("c");
    reveal_strlit("ae");
    reveal_strlit("e");
    reveal_strlit("z");
    reveal_strlit("be");
    reveal_strlit("a");
    reveal_strlit("s");
    reveal_strlit("p");
    reveal_strlit("l");
    reveal_strlit("ge");
    reveal_strlit("le");
    reveal_strlit("g");
    reveal_strlit("ne");
    reveal_strlit("nz");
    assert("jo"@ =~= "j"@ + "o"@);
    assert("jno"@ =~= "jn"@ + "o"@);
    assert("jb"@ =~= "j"@ + "b"@);
    assert("jnae"@ =~= "jn"@ + "ae"@);
    assert("jc"@ =~= "j"@ + "c"@);
    assert("jae"@ =~= "j"@ + "ae"@);
    assert("jnb"@ =~= "jn"@ + "b"@);
    assert("jnc"@ =~= "jn"@ + "c"@);
    assert("je"@ =~= "j"@ + "e"@);
    assert("jz"@ =~= "j"@ + "z"@);
    assert("jne"@ =~= "jn"@ + "e"@);
    assert("jnz"@ =~= "jn"@ + "z"@);
    assert("jbe"@ =~= "j"@ + "be"@);
    assert("jna"@ =~= "jn"@ + "a"@);
    assert("ja"@ =~= "j"@ + "a"@);
    assert("jnbe"@ =~= "jn"@ + "be"@);
    assert("js"@ =~= "j"@ + "s"@);
    assert("jns"@ =~= "jn"@ + "s"@);
    assert("jp"@ =~= "j"@ + "p"@);
    assert("jnp"@ =~= "jn"@ + "p"@);
    assert("jl"@ =~= "j"@ + "l"@);
    assert("jnge"@ =~= "jn"@ + "ge"@);
    assert("jge"@ =~= "j"@ + "ge"@);
    assert("jnl"@ =~= "jn"@ + "l"@);
    assert("jle"@ =~= "j"@ + "le"@);
    assert("jng"@ =~= "jn"@ + "g"@);
    assert("jg"@ =~= "j"@ + "g"@);
    assert("jnle"@ =~= "jn"@ + "le"@);
    assert("loope"@ =~= "loop"@ + "e"@);
    assert("loopz"@ =~= "loop"@ + "z"@);
    assert("loopne"@ =~= "loop"@ + "ne"@);
    assert("loopnz"@ =~= "loop"@ + "nz"@);
}

/// A callout touches the counter and the pending yield, and nothing else; once a yield
/// is pending further callouts leave even those alone.
pub proof fn law_callout_only_counts(s: SoftwareRbc, addr: u64)
    ensures
        after_callout(s, addr).active == s.active,
        after_callout(s, addr).text_base == s.text_base,
        after_callout(s, addr).cpu_count == s.cpu_count,
        after_callout(s, addr).rbc_total == s.rbc_total,
        after_callout(s, addr).kfunc_count == s.kfunc_count,
        after_callout(s, addr).current_timeslice == s.current_timeslice,
        after_callout(s, addr).in_structop == s.in_structop,
        s.counter == 0 ==> after_callout(s, addr) == s,
        s.counter == u64::MAX ==> after_callout(s, addr) == s,
        0 < s.counter < u64::MAX ==> after_callout(s, addr).counter + 1 == s.counter,
        after_callout(s, addr).yield_pending <==> s.yield_pending || s.counter == 1,
        s.counter != 1 ==> after_callout(s, addr).yield_rip == s.yield_rip,
        s.counter == 1 ==> after_callout(s, addr).yield_rip == addr,
{
}

/// A range holds its base and what lies less than its size above it.
pub proof fn law_range_is_half_open(range: TextRange, offset: usize)
    requires
        range.base + range.size <= usize::MAX,
        range.base + offset <= usize::MAX,
    ensures
        range.has((range.base + offset) as usize) <==> offset < range.size,
        forall|addr: usize| addr < range.base ==> !#[trigger] range.has(addr),
{
}

/// The offset of an address is its distance from the base; an address below the base
/// has none, and without a base the address stands for itself.
pub proof fn law_offset_is_distance(rip: u64, base: u64)
    ensures
        0 < base <= rip ==> base + text_offset(rip, base) == rip,
        rip < base ==> text_offset(rip, base) == 0,
        text_offset(rip, 0) == rip,
{
}

/// A structop that begins is counted on its thread and among all, and its own counts
/// start at zero; the branch counter runs on.
pub proof fn law_new_structop_starts_at_zero(s: SoftwareRbc, g: StalkerGlobals)
    requires
        s.cpu_count < u64::MAX,
        g.structop_global_count < u64::MAX,
    ensures
        in_new_structop(s).cpu_count == s.cpu_count + 1,
        with_new_structop(g).structop_global_count == g.structop_global_count + 1,
        in_new_structop(s).rbc_total == 0,
        in_new_structop(s).kfunc_count == 0,
        in_new_structop(s).in_structop,
        in_new_structop(s).counter == s.counter,
        in_new_structop(s).active == s.active,
        in_new_structop(s).yield_pending == s.yield_pending,
        in_new_structop(s).yield_rip == s.yield_rip,
        in_new_structop(s).text_base == s.text_base,
        in_new_structop(s).current_timeslice == s.current_timeslice,
        with_new_structop(g).total_callouts == g.total_callouts,
        with_new_structop(g).deferred_yields == g.deferred_yields,
{
}

/// Whether a callout goes in front of an instruction.
pub open spec fn gets_callout(range: TextRange, addr: usize, bytes: Seq<u8>) -> bool {
    range.has(addr) && is_branch(bytes)
}

/// A callout goes in front of every conditional branch from the first to the last byte of the
/// scheduler's code, and of no instruction elsewhere.
pub proof fn law_callouts_cover_the_code(range: TextRange, offset: usize, bytes: Seq<u8>)
    requires
        range.base + range.size <= usize::MAX,
        range.base + offset <= usize::MAX,
    ensures
        is_branch(bytes) ==> (gets_callout(range, (range.base + offset) as usize, bytes)
            <==> offset < range.size),
        !is_branch(bytes) ==> !gets_callout(range, (range.base + offset) as usize, bytes),
        forall|addr: usize| addr < range.base ==> !#[trigger] gets_callout(range, addr, bytes),
{
}

/// The branch of a pending yield, if one is pending.
pub open spec fn pending_rip(s: SoftwareRbc) -> Option<u64> {
    if s.yield_pending {
        Some(s.yield_rip)
    } else {
        None
    }
}

/// The shared counters when the pending yield of a thread, if any, has been taken.
pub open spec fn with_taken(s: SoftwareRbc, g: StalkerGlobals) -> StalkerGlobals {
    if s.yield_pending {
        StalkerGlobals { deferred_yields: structop::wrapping_next(g.deferred_yields), ..g }
    } else {
        g
    }
}

/// The shared counters after a callout.
pub open spec fn with_callout(g: StalkerGlobals) -> StalkerGlobals {
    StalkerGlobals { total_callouts: structop::wrapping_next(g.total_callouts), ..g }
}

/// A counter armed with a timeslice gives the address of the branch that used it up, and none
/// before; taking it counts once, and a second time gives nothing. Callouts are counted one by
/// one.
pub proof fn law_pending_yield_is_taken_once(s: SoftwareRbc, g: StalkerGlobals, addrs: Seq<u64>)
    requires
        0 < s.counter < DISARMED,
        !s.yield_pending,
        g.deferred_yields < u64::MAX,
        g.total_callouts < u64::MAX,
    ensures
        ({
            let run = after_callouts(s, addrs);
            &&& addrs.len() < s.counter ==> pending_rip(run) is None && with_taken(run, g) == g
            &&& addrs.len() >= s.counter ==> pending_rip(run) == Some(addrs[s.counter - 1])
            &&& addrs.len() >= s.counter ==> with_taken(run, g).deferred_yields
                == g.deferred_yields + 1
            &&& with_taken(run, g).total_callouts == g.total_callouts
            &&& with_taken(run, g).structop_global_count == g.structop_global_count
            &&& pending_rip(without_pending(run)) is None
        }),
        with_callout(g).total_callouts == g.total_callouts + 1,
        with_callout(g).deferred_yields == g.deferred_yields,
        with_callout(g).structop_global_count == g.structop_global_count,
{
    law_timeslice_is_exact(s, addrs);
}

} // verus!
