//! Determinism checkpoints: aggressive determinism verification.
//!
//! Two runs with the same seed are compared by the sequences of their
//! checkpoints, to detect divergence and pinpoint where execution differed.

use vstd::prelude::*;

use crate::order;
use crate::order::{sort_by_sequence, Sequenced};
use crate::text;
use crate::text::{decimal_text, hexadecimal_text, pad_left};
use crate::types::CpuId;

verus! {

/// Event types that can trigger a determinism checkpoint.
#[derive(Debug, Clone, Copy, PartialEq, Eq, Structural)]
pub enum CheckpointEvent {
    /// PMU signal-triggered preemption.
    Preemption,
    /// Cooperative yield at kfunc boundary.
    CooperativeYield,
    /// ops.dispatch() callback invoked.
    Dispatch,
    /// ops.enqueue() callback invoked.
    Enqueue,
    /// ops.running() callback invoked.
    Running,
    /// ops.stopping() callback invoked.
    Stopping,
    /// ops.select_cpu() callback invoked.
    SelectCpu,
    /// ops.tick() callback invoked.
    Tick,
}

impl CheckpointEvent {
    /// The name of the event.
    pub open spec fn text(self) -> Seq<char> {
        match self {
            CheckpointEvent::Preemption => "preemption"@,
            CheckpointEvent::CooperativeYield => "coop_yield"@,
            CheckpointEvent::Dispatch => "dispatch"@,
            CheckpointEvent::Enqueue => "enqueue"@,
            CheckpointEvent::Running => "running"@,
            CheckpointEvent::Stopping => "stopping"@,
            CheckpointEvent::SelectCpu => "select_cpu"@,
            CheckpointEvent::Tick => "tick"@,
        }
    }

    /// The name of the event.
    pub fn to_string(&self) -> (r: String)
        ensures
            r@ == self.text(),
    {
        let s: &str = match self {
            CheckpointEvent::Preemption => "preemption",
            CheckpointEvent::CooperativeYield => "coop_yield",
            CheckpointEvent::Dispatch => "dispatch",
            CheckpointEvent::Enqueue => "enqueue",
            CheckpointEvent::Running => "running",
            CheckpointEvent::Stopping => "stopping",
            CheckpointEvent::SelectCpu => "select_cpu",
            CheckpointEvent::Tick => "tick",
        };
        s.to_owned()
    }
}

/// A determinism checkpoint capturing scheduler state at a key event.
///
/// Used for aggressive determinism verification: compare checkpoint sequences
/// from two runs with the same seed to detect divergence and pinpoint exactly
/// where execution differed (RIP, RBC, or memory state).
#[derive(Debug, Clone, Copy, PartialEq, Eq, Structural)]
pub struct DeterminismCheckpoint {
    /// Monotonically increasing sequence number.
    pub sequence: u64,
    /// The type of event that triggered this checkpoint.
    pub event: CheckpointEvent,
    /// Instruction pointer (RIP) at the checkpoint, if available.
    pub instruction_pointer: u64,
    /// RBC (retired branch conditional) count, if available.
    pub rbc_count: u64,
    /// FNV-1a hash of scheduler-visible memory state (DSQ contents, etc.).
    pub memory_hash: u64,
    /// CPU ID where the event occurred.
    pub cpu_id: CpuId,
}

impl Sequenced for DeterminismCheckpoint {
    open spec fn key(self) -> u64 {
        self.sequence
    }

    fn sequence_number(&self) -> (r: u64) {
        self.sequence
    }
}

/// `n` as sixteen hexadecimal digits.
pub open spec fn hex16(n: u64) -> Seq<char> {
    text::padded(text::hexadecimal(n as nat), 16, '0')
}

fn hex16_text(n: u64) -> (r: String)
    ensures
        r@ == hex16(n),
{
    pad_left(hexadecimal_text(n).as_str(), 16, '0')
}

impl DeterminismCheckpoint {
    /// The checkpoint as one line of text.
    pub open spec fn text(self) -> Seq<char> {
        "seq="@ + text::decimal(self.sequence as nat) + " event="@ + self.event.text() + " rip=0x"@
            + hex16(self.instruction_pointer) + " rbc="@ + text::decimal(self.rbc_count as nat)
            + " hash=0x"@ + hex16(self.memory_hash) + " cpu="@ + text::decimal(
            self.cpu_id.0 as nat,
        )
    }

    /// The checkpoint as one line of text.
    pub fn to_string(&self) -> (r: String)
        ensures
            r@ == self.text(),
    {
        let mut r = "seq=".to_owned();
        r.append(decimal_text(self.sequence).as_str());
        r.append(" event=");
        r.append(self.event.to_string().as_str());
        r.append(" rip=0x");
        r.append(hex16_text(self.instruction_pointer).as_str());
        r.append(" rbc=");
        r.append(decimal_text(self.rbc_count).as_str());
        r.append(" hash=0x");
        r.append(hex16_text(self.memory_hash).as_str());
        r.append(" cpu=");
        r.append(decimal_text(self.cpu_id.0 as u64).as_str());
        r
    }
}

/// Which field(s) diverged between two checkpoints.
#[derive(Debug, PartialEq, Eq)]
pub enum DivergenceType {
    /// Instruction pointer (RIP) differs.
    Rip,
    /// RBC count differs.
    Rbc,
    /// Memory hash differs.
    MemoryHash,
    /// Event type differs.
    EventType,
    /// CPU ID differs.
    CpuId,
    /// Multiple fields differ.
    Multiple(Vec<DivergenceType>),
}

impl DivergenceType {
    /// The divergences that this one consists of.
    pub open spec fn kinds(self) -> Seq<DivergenceType> {
        match self {
            DivergenceType::Multiple(types) => types@,
            _ => seq![self],
        }
    }

    /// Whether two divergences consist of the same ones, in the same order.
    pub open spec fn same_as(self, other: DivergenceType) -> bool
        decreases self,
    {
        match (self, other) {
            (DivergenceType::Multiple(a), DivergenceType::Multiple(b)) => {
                &&& a@.len() == b@.len()
                &&& forall|i: int| 0 <= i < a@.len() ==> (#[trigger] a@[i]).same_as(b@[i])
            },
            _ => self == other,
        }
    }

    /// A sentence for the divergence; several are separated by commas.
    pub open spec fn text(self) -> Seq<char>
        decreases self,
    {
        match self {
            DivergenceType::Rip => "RIP differs"@,
            DivergenceType::Rbc => "RBC count differs"@,
            DivergenceType::MemoryHash => "memory hash differs"@,
            DivergenceType::EventType => "event type differs"@,
            DivergenceType::CpuId => "CPU ID differs"@,
            DivergenceType::Multiple(types) => texts_joined(types@),
        }
    }

    /// A sentence for the divergence; several are separated by commas.
    pub fn to_string(&self) -> (r: String)
        ensures
            r@ == self.text(),
        decreases self,
    {
        match self {
            DivergenceType::Rip => "RIP differs".to_owned(),
            DivergenceType::Rbc => "RBC count differs".to_owned(),
            DivergenceType::MemoryHash => "memory hash differs".to_owned(),
            DivergenceType::EventType => "event type differs".to_owned(),
            DivergenceType::CpuId => "CPU ID differs".to_owned(),
            DivergenceType::Multiple(types) => {
                let mut r = String::new();
                let mut i: usize = 0;
                assert(types@.take(0) =~= seq![]);
                while i < types.len()
                    invariant
                        i <= types@.len(),
                        *self == DivergenceType::Multiple(*types),
                        r@ == texts_joined(types@.take(i as int)),
                    decreases types@.len() - i,
                {
                    let t: &DivergenceType = &types[i];
                    assert(decreases_to!(*self => self->Multiple_0));
                    assert(decreases_to!(*types => types@));
                    assert(decreases_to!(types@ => types@[i as int]));
                    if i > 0 {
                        r.append(", ");
                    }
                    r.append(t.to_string().as_str());
                    i += 1;
                    assert(types@.take(i as int).drop_last() =~= types@.take(i - 1));
                    assert(r@ =~= texts_joined(types@.take(i as int)));
                }
                assert(types@.take(i as int) =~= types@);
                r
            },
        }
    }
}

impl Clone for DivergenceType {
    fn clone(&self) -> (r: DivergenceType)
        ensures
            self.same_as(r),
        decreases self,
    {
        match self {
            DivergenceType::Rip => DivergenceType::Rip,
            DivergenceType::Rbc => DivergenceType::Rbc,
            DivergenceType::MemoryHash => DivergenceType::MemoryHash,
            DivergenceType::EventType => DivergenceType::EventType,
            DivergenceType::CpuId => DivergenceType::CpuId,
            DivergenceType::Multiple(types) => {
                let mut copies: Vec<DivergenceType> = Vec::new();
                let mut i: usize = 0;
                while i < types.len()
                    invariant
                        i <= types@.len(),
                        *self == DivergenceType::Multiple(*types),
                        copies@.len() == i,
                        forall|k: int| 0 <= k < i ==> (#[trigger] types@[k]).same_as(copies@[k]),
                    decreases types@.len() - i,
                {
                    let t: &DivergenceType = &types[i];
                    assert(decreases_to!(*self => self->Multiple_0));
                    assert(decreases_to!(*types => types@));
                    assert(decreases_to!(types@ => types@[i as int]));
                    copies.push(t.clone());
                    i += 1;
                }
                DivergenceType::Multiple(copies)
            },
        }
    }
}

/// The sentences for divergences, separated by commas.
pub open spec fn texts_joined(types: Seq<DivergenceType>) -> Seq<char>
    decreases types,
{
    if types.len() == 0 {
        seq![]
    } else if types.len() == 1 {
        types[0].text()
    } else {
        texts_joined(types.drop_last()) + ", "@ + types.last().text()
    }
}

/// Result of comparing two checkpoint sequences.
#[derive(Debug)]
pub struct CheckpointDivergence {
    /// Index of the first diverging checkpoint.
    pub checkpoint_index: usize,
    /// The expected checkpoint (from run 1).
    pub expected: DeterminismCheckpoint,
    /// The actual checkpoint (from run 2).
    pub actual: DeterminismCheckpoint,
    /// Which field(s) diverged.
    pub divergence_type: DivergenceType,
}

impl Clone for CheckpointDivergence {
    fn clone(&self) -> (r: CheckpointDivergence)
        ensures
            r.checkpoint_index == self.checkpoint_index,
            r.expected == self.expected,
            r.actual == self.actual,
            self.divergence_type.same_as(r.divergence_type),
    {
        CheckpointDivergence {
            checkpoint_index: self.checkpoint_index,
            expected: self.expected,
            actual: self.actual,
            divergence_type: self.divergence_type.clone(),
        }
    }
}

impl CheckpointDivergence {
    /// The divergence as three lines of text.
    pub open spec fn text(self) -> Seq<char> {
        "Divergence at checkpoint "@ + text::decimal(self.checkpoint_index as nat) + ": "@
            + self.divergence_type.text() + "\n  expected: "@ + self.expected.text()
            + "\n  actual:   "@ + self.actual.text()
    }

    /// The divergence as three lines of text.
    pub fn to_string(&self) -> (r: String)
        ensures
            r@ == self.text(),
    {
        let mut r = "Divergence at checkpoint ".to_owned();
        r.append(decimal_text(self.checkpoint_index as u64).as_str());
        r.append(": ");
        r.append(self.divergence_type.to_string().as_str());
        r.append("\n  expected: ");
        r.append(self.expected.to_string().as_str());
        r.append("\n  actual:   ");
        r.append(self.actual.to_string().as_str());
        r
    }
}

// ---------------------------------------------------------------------------
// Comparison
// ---------------------------------------------------------------------------

/// The fields in which two checkpoints differ: event type, CPU, RIP, RBC count
/// and memory hash, in this order. The sequence number does not count.
pub open spec fn differences(
    expected: DeterminismCheckpoint,
    actual: DeterminismCheckpoint,
) -> Seq<DivergenceType> {
    (if expected.event != actual.event {
        seq![DivergenceType::EventType]
    } else {
        seq![]
    }) + (if expected.cpu_id != actual.cpu_id {
        seq![DivergenceType::CpuId]
    } else {
        seq![]
    }) + (if expected.instruction_pointer != actual.instruction_pointer {
        seq![DivergenceType::Rip]
    } else {
        seq![]
    }) + (if expected.rbc_count != actual.rbc_count {
        seq![DivergenceType::Rbc]
    } else {
        seq![]
    }) + (if expected.memory_hash != actual.memory_hash {
        seq![DivergenceType::MemoryHash]
    } else {
        seq![]
    })
}

/// Whether two checkpoints agree in all fields but the sequence number.
pub open spec fn agree(a: DeterminismCheckpoint, b: DeterminismCheckpoint) -> bool {
    &&& a.event == b.event
    &&& a.cpu_id == b.cpu_id
    &&& a.instruction_pointer == b.instruction_pointer
    &&& a.rbc_count == b.rbc_count
    &&& a.memory_hash == b.memory_hash
}

/// Whether two runs left the same checkpoints.
pub open spec fn same_run(
    expected: Seq<DeterminismCheckpoint>,
    actual: Seq<DeterminismCheckpoint>,
) -> bool {
    &&& expected.len() == actual.len()
    &&& forall|i: int| 0 <= i < expected.len() ==> agree(#[trigger] expected[i], actual[i])
}

/// What stands for the checkpoint that the shorter run lacks.
pub open spec fn missing_checkpoint() -> DeterminismCheckpoint {
    DeterminismCheckpoint {
        sequence: 0,
        event: CheckpointEvent::Preemption,
        instruction_pointer: 0,
        rbc_count: 0,
        memory_hash: 0,
        cpu_id: CpuId(0),
    }
}

/// Whether `d` describes how the checkpoints number `i` of two runs differ.
pub open spec fn describes(
    d: CheckpointDivergence,
    i: int,
    expected: DeterminismCheckpoint,
    actual: DeterminismCheckpoint,
) -> bool {
    &&& d.checkpoint_index == i
    &&& d.expected == expected
    &&& d.actual == actual
    &&& d.divergence_type.kinds() == differences(expected, actual)
    &&& d.divergence_type is Multiple <==> differences(expected, actual).len() > 1
}

/// Whether `d` is the first divergence between two runs: the first checkpoint in
/// which they differ, or else the first that the shorter one lacks.
pub open spec fn is_first_divergence(
    d: CheckpointDivergence,
    expected: Seq<DeterminismCheckpoint>,
    actual: Seq<DeterminismCheckpoint>,
) -> bool {
    let i = d.checkpoint_index as int;
    &&& i <= expected.len()
    &&& i <= actual.len()
    &&& forall|j: int| 0 <= j < i ==> agree(#[trigger] expected[j], actual[j])
    &&& if i < expected.len() && i < actual.len() {
        &&& !agree(expected[i], actual[i])
        &&& describes(d, i, expected[i], actual[i])
    } else {
        &&& expected.len() != actual.len()
        &&& d.divergence_type == DivergenceType::EventType
        &&& d.expected == if i < expected.len() {
            expected[i]
        } else {
            missing_checkpoint()
        }
        &&& d.actual == if i < actual.len() {
            actual[i]
        } else {
            missing_checkpoint()
        }
    }
}

/// Compare two checkpoint sequences and return the first divergence, if any.
///
/// Returns `None` if the sequences are identical, `Some(divergence)` otherwise.
pub fn compare_checkpoints(
    expected: &[DeterminismCheckpoint],
    actual: &[DeterminismCheckpoint],
) -> (r: Option<CheckpointDivergence>)
    ensures
        match r {
            None => same_run(expected@, actual@),
            Some(d) => is_first_divergence(d, expected@, actual@) && !same_run(
                expected@,
                actual@,
            ),
        },
{
    let mut i: usize = 0;
    while i < expected.len() && i < actual.len()
        invariant
            i <= expected@.len(),
            i <= actual@.len(),
            forall|j: int| 0 <= j < i ==> agree(#[trigger] expected@[j], actual@[j]),
        decreases expected@.len() - i,
    {
        if let Some(div) = compare_single_checkpoint(i, &expected[i], &actual[i]) {
            assert(!agree(expected@[i as int], actual@[i as int]));
            return Some(div);
        }
        i += 1;
    }
    let missing = DeterminismCheckpoint {
        sequence: 0,
        event: CheckpointEvent::Preemption,
        instruction_pointer: 0,
        rbc_count: 0,
        memory_hash: 0,
        cpu_id: CpuId(0),
    };
    // If all common elements match, the divergence is at the shorter length.
    if i < expected.len() {
        Some(
            CheckpointDivergence {
                checkpoint_index: i,
                expected: expected[i],
                actual: missing,
                divergence_type: DivergenceType::EventType,
            },
        )
    } else if i < actual.len() {
        Some(
            CheckpointDivergence {
                checkpoint_index: i,
                expected: missing,
                actual: actual[i],
                divergence_type: DivergenceType::EventType,
            },
        )
    } else {
        None
    }
}

fn compare_single_checkpoint(
    index: usize,
    expected: &DeterminismCheckpoint,
    actual: &DeterminismCheckpoint,
) -> (r: Option<CheckpointDivergence>)
    ensures
        match r {
            None => agree(*expected, *actual),
            Some(d) => !agree(*expected, *actual) && describes(
                d,
                index as int,
                *expected,
                *actual,
            ),
        },
{
    let mut divergences: Vec<DivergenceType> = Vec::new();
    if expected.event != actual.event {
        divergences.push(DivergenceType::EventType);
    }
    if expected.cpu_id != actual.cpu_id {
        divergences.push(DivergenceType::CpuId);
    }
    if expected.instruction_pointer != actual.instruction_pointer {
        divergences.push(DivergenceType::Rip);
    }
    if expected.rbc_count != actual.rbc_count {
        divergences.push(DivergenceType::Rbc);
    }
    if expected.memory_hash != actual.memory_hash {
        divergences.push(DivergenceType::MemoryHash);
    }
    let ghost all = divergences@;
    assert(all =~= differences(*expected, *actual));
    let divergence_type = if divergences.len() > 1 {
        DivergenceType::Multiple(divergences)
    } else {
        match divergences.pop() {
            Some(t) => {
                assert(all =~= seq![t]);
                t
            },
            None => {
                return None;
            },
        }
    };
    Some(
        CheckpointDivergence {
            checkpoint_index: index,
            expected: *expected,
            actual: *actual,
            divergence_type,
        },
    )
}

/// To leave the same checkpoints is an equivalence between runs.
pub proof fn law_same_run_is_equivalence(
    a: Seq<DeterminismCheckpoint>,
    b: Seq<DeterminismCheckpoint>,
    c: Seq<DeterminismCheckpoint>,
)
    ensures
        same_run(a, a),
        same_run(a, b) ==> same_run(b, a),
        same_run(a, b) && same_run(b, c) ==> same_run(a, c),
{
    if same_run(a, b) {
        assert forall|i: int| 0 <= i < b.len() implies agree(#[trigger] b[i], a[i]) by {
            assert(agree(a[i], b[i]));
        }
        if same_run(b, c) {
            assert forall|i: int| 0 <= i < a.len() implies agree(#[trigger] a[i], c[i]) by {
                assert(agree(b[i], c[i]));
            }
        }
    }
}

/// Two runs have a first divergence if and only if they differ, and only one.
pub proof fn law_first_divergence(
    d: CheckpointDivergence,
    e: CheckpointDivergence,
    expected: Seq<DeterminismCheckpoint>,
    actual: Seq<DeterminismCheckpoint>,
)
    requires
        is_first_divergence(d, expected, actual),
    ensures
        !same_run(expected, actual),
        is_first_divergence(e, expected, actual) ==> {
            &&& e.checkpoint_index == d.checkpoint_index
            &&& e.expected == d.expected
            &&& e.actual == d.actual
            &&& e.divergence_type.kinds() == d.divergence_type.kinds()
        },
{
    let i = d.checkpoint_index as int;
    let j = e.checkpoint_index as int;
    if i < expected.len() && i < actual.len() {
        assert(!agree(expected[i], actual[i]));
    }
    if is_first_divergence(e, expected, actual) {
        if j < expected.len() && j < actual.len() {
            assert(!agree(expected[j], actual[j]));
        }
    }
}

// ---------------------------------------------------------------------------
// FNV-1a hash for fast memory hashing
// ---------------------------------------------------------------------------

/// FNV-1a 64-bit hash offset basis.
pub const FNV_OFFSET_BASIS: u64 = 0xcbf29ce484222325;

/// FNV-1a 64-bit prime.
pub const FNV_PRIME: u64 = 0x100000001b3;

/// The hash after one more byte.
pub open spec fn fnv_step(hash: u64, byte: u8) -> u64 {
    (((hash ^ (byte as u64)) as nat * FNV_PRIME as nat) % 0x1_0000_0000_0000_0000) as u64
}

/// The hash after the bytes, from the hash `hash`.
pub open spec fn fnv_from(hash: u64, bytes: Seq<u8>) -> u64
    decreases bytes.len(),
{
    if bytes.len() == 0 {
        hash
    } else {
        fnv_step(fnv_from(hash, bytes.drop_last()), bytes.last())
    }
}

/// The bytes of `v`, the lowest first.
pub open spec fn bytes_of(v: u64) -> Seq<u8> {
    Seq::new(8, |i: int| ((v >> (8 * i) as u64) & 0xff) as u8)
}

/// FNV-1a hash implementation (fast, non-cryptographic).
///
/// This is a simple, fast hash suitable for determinism checking.
/// It has good distribution properties for detecting state changes.
pub fn fnv1a_hash_bytes(bytes: &[u8]) -> (r: u64)
    ensures
        r == fnv_from(FNV_OFFSET_BASIS, bytes@),
{
    let mut hash: u64 = FNV_OFFSET_BASIS;
    let mut i: usize = 0;
    while i < bytes.len()
        invariant
            i <= bytes@.len(),
            hash == fnv_from(FNV_OFFSET_BASIS, bytes@.take(i as int)),
        decreases bytes@.len() - i,
    {
        assert(bytes@.take(i + 1).drop_last() =~= bytes@.take(i as int));
        hash = (hash ^ (bytes[i] as u64)).wrapping_mul(FNV_PRIME);
        i += 1;
    }
    assert(bytes@.take(i as int) =~= bytes@);
    hash
}

/// Combine multiple hashes into one (order-dependent).
pub fn fnv1a_combine(h1: u64, h2: u64) -> (r: u64)
    ensures
        r == fnv_from(h1, bytes_of(h2)),
{
    let mut hash: u64 = h1;
    let ghost bytes = bytes_of(h2);
    let mut i: u64 = 0;
    while i < 8
        invariant
            i <= 8,
            bytes == bytes_of(h2),
            hash == fnv_from(h1, bytes.take(i as int)),
        decreases 8 - i,
    {
        assert(bytes.take(i + 1).drop_last() =~= bytes.take(i as int));
        let byte: u8 = ((h2 >> (8 * i)) & 0xff) as u8;
        hash = (hash ^ (byte as u64)).wrapping_mul(FNV_PRIME);
        i += 1;
    }
    assert(bytes.take(8) =~= bytes);
    hash
}

/// Hash a u64 value.
pub fn fnv1a_hash_u64(value: u64) -> (r: u64)
    ensures
        r == fnv_from(FNV_OFFSET_BASIS, bytes_of(value)),
{
    fnv1a_combine(FNV_OFFSET_BASIS, value)
}

/// Hashing a concatenation is hashing the second part from the hash of the first.
pub proof fn law_fnv_concatenation(hash: u64, a: Seq<u8>, b: Seq<u8>)
    ensures
        fnv_from(hash, a + b) == fnv_from(fnv_from(hash, a), b),
    decreases b.len(),
{
    if b.len() == 0 {
        assert(a + b =~= a);
    } else {
        law_fnv_concatenation(hash, a, b.drop_last());
        assert((a + b).drop_last() =~= a + b.drop_last());
    }
}

/// The number that, modulo two to the 64, undoes a multiplication by the prime.
pub const FNV_PRIME_INVERSE: u64 = 0xce965057aff6957b;

/// A step of the hash loses nothing: multiplied by the inverse of the prime, the new
/// hash is the old one with the whole byte mixed into its low bits.
pub proof fn law_fnv_step_can_be_undone(hash: u64, byte: u8)
    ensures
        (fnv_step(hash, byte) * FNV_PRIME_INVERSE) % 0x1_0000_0000_0000_0000 == hash ^ (
        byte as u64),
{
    let m = 0x1_0000_0000_0000_0000int;
    let x = (hash ^ (byte as u64)) as int;
    let p = 0x100000001b3int;
    let q = 0xce965057aff6957bint;
    assert(p * q == 0xce9650590f * m + 1);
    vstd::arithmetic::div_mod::lemma_mod_multiples_vanish(0xce9650590f, 1, m);
    vstd::arithmetic::div_mod::lemma_small_mod(1, m as nat);
    vstd::arithmetic::div_mod::lemma_mul_mod_noop_left(x * p, q, m);
    vstd::arithmetic::mul::lemma_mul_is_associative(x, p, q);
    vstd::arithmetic::div_mod::lemma_mul_mod_noop_right(x, p * q, m);
    vstd::arithmetic::div_mod::lemma_small_mod(x as nat, m as nat);
    assert(x * 1 == x);
}

/// One more byte keeps apart what was apart: for one hash different bytes give
/// different hashes, and for one byte different hashes do.
pub proof fn law_fnv_step_is_injective(h1: u64, h2: u64, a: u8, b: u8)
    ensures
        a != b ==> fnv_step(h1, a) != fnv_step(h1, b),
        h1 != h2 ==> fnv_step(h1, a) != fnv_step(h2, a),
{
    law_fnv_step_can_be_undone(h1, a);
    law_fnv_step_can_be_undone(h1, b);
    law_fnv_step_can_be_undone(h2, a);
    assert(a != b ==> h1 ^ (a as u64) != h1 ^ (b as u64)) by (bit_vector);
    assert(h1 != h2 ==> h1 ^ (a as u64) != h2 ^ (a as u64)) by (bit_vector);
}

proof fn lemma_fnv_from_is_injective(h1: u64, h2: u64, bytes: Seq<u8>)
    requires
        h1 != h2,
    ensures
        fnv_from(h1, bytes) != fnv_from(h2, bytes),
    decreases bytes.len(),
{
    if bytes.len() > 0 {
        lemma_fnv_from_is_injective(h1, h2, bytes.drop_last());
        law_fnv_step_is_injective(
            fnv_from(h1, bytes.drop_last()),
            fnv_from(h2, bytes.drop_last()),
            bytes.last(),
            bytes.last(),
        );
    }
}

/// A change of one byte changes the hash, wherever it stands and whatever is hashed
/// before and behind it.
pub proof fn law_fnv_sees_every_byte(hash: u64, front: Seq<u8>, a: u8, b: u8, back: Seq<u8>)
    requires
        a != b,
    ensures
        fnv_from(hash, front.push(a) + back) != fnv_from(hash, front.push(b) + back),
{
    let h = fnv_from(hash, front);
    assert(front.push(a).drop_last() =~= front);
    assert(front.push(b).drop_last() =~= front);
    law_fnv_step_is_injective(h, h, a, b);
    law_fnv_concatenation(hash, front.push(a), back);
    law_fnv_concatenation(hash, front.push(b), back);
    lemma_fnv_from_is_injective(fnv_step(h, a), fnv_step(h, b), back);
}

/// The hash of no bytes is the offset basis.
pub proof fn law_fnv_of_nothing(hash: u64)
    ensures
        fnv_from(hash, Seq::<u8>::empty()) == hash,
        FNV_OFFSET_BASIS == 14695981039346656037,
        FNV_PRIME == 1099511628211,
{
}

/// The bytes of a number make up the number, the first counting least.
pub proof fn law_bytes_make_up_the_number(v: u64)
    ensures
        bytes_of(v).len() == 8,
        bytes_of(v)[0] + bytes_of(v)[1] * 0x100 + bytes_of(v)[2] * 0x1_0000 + bytes_of(v)[3]
            * 0x100_0000 + bytes_of(v)[4] * 0x1_0000_0000 + bytes_of(v)[5] * 0x100_0000_0000
            + bytes_of(v)[6] * 0x1_0000_0000_0000 + bytes_of(v)[7] * 0x100_0000_0000_0000 == v,
{
    assert(((v >> 0) & 0xff) + ((v >> 8) & 0xff) * 0x100 + ((v >> 16) & 0xff) * 0x1_0000 + ((v >> 24)
        & 0xff) * 0x100_0000 + ((v >> 32) & 0xff) * 0x1_0000_0000 + ((v >> 40) & 0xff)
        * 0x100_0000_0000 + ((v >> 48) & 0xff) * 0x1_0000_0000_0000 + ((v >> 56) & 0xff)
        * 0x100_0000_0000_0000 == v) by (bit_vector);
    assert(forall|x: u64| (#[trigger] (x & 0xff)) < 256) by (bit_vector);
}

/// Combining is sensitive to each byte of the second hash and to the first hash.
pub proof fn law_combining_sees_both(h1: u64, h2: u64, v: u64)
    requires
        h1 != h2,
    ensures
        fnv_from(h1, bytes_of(v)) != fnv_from(h2, bytes_of(v)),
{
    lemma_fnv_from_is_injective(h1, h2, bytes_of(v));
}

/// A divergence names exactly the fields that differ, each once, in the order in
/// which they are compared; checkpoints agree if it names none.
pub proof fn law_divergence_names_the_fields(
    expected: DeterminismCheckpoint,
    actual: DeterminismCheckpoint,
)
    ensures
        differences(expected, actual).contains(DivergenceType::EventType) <==> expected.event
            != actual.event,
        differences(expected, actual).contains(DivergenceType::CpuId) <==> expected.cpu_id.0
            != actual.cpu_id.0,
        differences(expected, actual).contains(DivergenceType::Rip)
            <==> expected.instruction_pointer != actual.instruction_pointer,
        differences(expected, actual).contains(DivergenceType::Rbc) <==> expected.rbc_count
            != actual.rbc_count,
        differences(expected, actual).contains(DivergenceType::MemoryHash)
            <==> expected.memory_hash != actual.memory_hash,
        forall|i: int|
            0 <= i < differences(expected, actual).len() ==> !((#[trigger] differences(
                expected,
                actual,
            )[i]) is Multiple),
        forall|i: int, j: int|
            0 <= i < j < differences(expected, actual).len() ==> field_rank(
                #[trigger] differences(expected, actual)[i],
            ) < field_rank(#[trigger] differences(expected, actual)[j]),
        agree(expected, actual) <==> differences(expected, actual).len() == 0,
        agree(expected, actual) <==> actual == (DeterminismCheckpoint {
            sequence: actual.sequence,
            ..expected
        }),
{
    let d = differences(expected, actual);
    let e = DivergenceType::EventType;
    let c = DivergenceType::CpuId;
    let r = DivergenceType::Rip;
    let b = DivergenceType::Rbc;
    let m = DivergenceType::MemoryHash;
    let k0 = if expected.event != actual.event { 1int } else { 0 };
    let k1 = k0 + if expected.cpu_id != actual.cpu_id { 1int } else { 0 };
    let k2 = k1 + if expected.instruction_pointer != actual.instruction_pointer { 1int } else { 0 };
    let k3 = k2 + if expected.rbc_count != actual.rbc_count { 1int } else { 0 };
    let k4 = k3 + if expected.memory_hash != actual.memory_hash { 1int } else { 0 };
    assert(d.len() == k4);
    if k0 > 0 {
        assert(d[0] == e);
    }
    if k1 > k0 {
        assert(d[k0] == c);
    }
    if k2 > k1 {
        assert(d[k1] == r);
    }
    if k3 > k2 {
        assert(d[k2] == b);
    }
    if k4 > k3 {
        assert(d[k3] == m);
    }
}

/// The place of a field in the order in which checkpoints are compared.
pub open spec fn field_rank(d: DivergenceType) -> int {
    match d {
        DivergenceType::EventType => 0,
        DivergenceType::CpuId => 1,
        DivergenceType::Rip => 2,
        DivergenceType::Rbc => 3,
        DivergenceType::MemoryHash => 4,
        DivergenceType::Multiple(_) => 5,
    }
}

/// Runs of different lengths diverge at the latest where the shorter one ends, and the
/// checkpoint that is missing is all zero.
pub proof fn law_shorter_run_diverges(
    d: CheckpointDivergence,
    expected: Seq<DeterminismCheckpoint>,
    actual: Seq<DeterminismCheckpoint>,
)
    requires
        is_first_divergence(d, expected, actual),
    ensures
        d.checkpoint_index <= expected.len(),
        d.checkpoint_index <= actual.len(),
        d.checkpoint_index < expected.len() ==> d.expected == expected[d.checkpoint_index as int],
        d.checkpoint_index < actual.len() ==> d.actual == actual[d.checkpoint_index as int],
        d.checkpoint_index == actual.len() ==> d.actual.sequence == 0 && d.actual.event
            == CheckpointEvent::Preemption && d.actual.instruction_pointer == 0
            && d.actual.rbc_count == 0 && d.actual.memory_hash == 0 && d.actual.cpu_id.0 == 0,
        d.checkpoint_index == expected.len() ==> d.expected.sequence == 0 && d.expected.event
            == CheckpointEvent::Preemption && d.expected.instruction_pointer == 0
            && d.expected.rbc_count == 0 && d.expected.memory_hash == 0 && d.expected.cpu_id.0 == 0,
        d.checkpoint_index == expected.len() || d.checkpoint_index == actual.len()
            ==> d.divergence_type == DivergenceType::EventType,
{
}

/// How many checkpoints are kept.
pub proof fn law_checkpoint_bound()
    ensures
        MAX_CHECKPOINTS == 8192,
{
}

// ---------------------------------------------------------------------------
// Checkpoint collector (for aggressive determinism mode)
// ---------------------------------------------------------------------------

/// Maximum number of checkpoints to store.
pub const MAX_CHECKPOINTS: usize = 8192;

/// State for aggressive determinism mode.
pub struct CheckpointCollector {
    enabled: bool,
    checkpoints: Vec<DeterminismCheckpoint>,
    sequence: u64,
}

/// What a [`CheckpointCollector`] holds.
#[verifier::ext_equal]
pub struct CollectorView {
    /// Whether aggressive determinism mode is enabled.
    pub enabled: bool,
    /// Collected checkpoints.
    pub checkpoints: Seq<DeterminismCheckpoint>,
    /// Sequence counter.
    pub sequence: u64,
}

impl View for CheckpointCollector {
    type V = CollectorView;

    closed spec fn view(&self) -> CollectorView {
        CollectorView {
            enabled: self.enabled,
            checkpoints: self.checkpoints@,
            sequence: self.sequence,
        }
    }
}

impl CollectorView {
    /// Whether the checkpoints are numbered from zero without a gap, and there are
    /// none while the mode is disabled.
    pub open spec fn wf(self) -> bool {
        &&& self.checkpoints.len() <= MAX_CHECKPOINTS
        &&& forall|i: int|
            0 <= i < self.checkpoints.len() ==> (#[trigger] self.checkpoints[i]).sequence == i
        &&& self.enabled ==> self.sequence == self.checkpoints.len()
        &&& !self.enabled ==> self.checkpoints.len() == 0
    }
}

impl CheckpointCollector {
    /// A collector with the mode disabled.
    pub fn new() -> (r: CheckpointCollector)
        ensures
            r@ == (CollectorView { enabled: false, checkpoints: seq![], sequence: 0 }),
            r@.wf(),
    {
        CheckpointCollector { enabled: false, checkpoints: Vec::new(), sequence: 0 }
    }
}

/// Enable aggressive determinism mode.
///
/// Call this before running a simulation to start collecting checkpoints
/// at scheduling events. Checkpoints include memory hashes for detecting
/// state divergence.
pub fn enable_determinism_mode(collector: &mut CheckpointCollector)
    ensures
        final(collector)@ == (CollectorView { enabled: true, checkpoints: seq![], sequence: 0 }),
        final(collector)@.wf(),
{
    collector.enabled = true;
    collector.checkpoints = Vec::with_capacity(MAX_CHECKPOINTS);
    collector.sequence = 0;
}

/// Disable aggressive determinism mode and drain collected checkpoints.
///
/// Returns the collected checkpoints sorted by sequence number, which is the
/// order in which they were recorded.
pub fn drain_determinism_checkpoints(collector: &mut CheckpointCollector) -> (r: Vec<
    DeterminismCheckpoint,
>)
    requires
        old(collector)@.wf(),
    ensures
        r@ == old(collector)@.checkpoints,
        order::ascending(r@, order::by_sequence::<DeterminismCheckpoint>()),
        final(collector)@ == (CollectorView {
            enabled: false,
            checkpoints: seq![],
            ..old(collector)@
        }),
        final(collector)@.wf(),
{
    collector.enabled = false;
    let mut checkpoints: Vec<DeterminismCheckpoint> = Vec::new();
    std::mem::swap(&mut collector.checkpoints, &mut checkpoints);
    proof {
        order::lemma_sort_ordered(checkpoints@, order::by_sequence::<DeterminismCheckpoint>());
    }
    sort_by_sequence(checkpoints)
}

/// Check if aggressive determinism mode is enabled.
pub fn is_determinism_mode_enabled(collector: &CheckpointCollector) -> (r: bool)
    ensures
        r == collector@.enabled,
{
    collector.enabled
}

/// Record a determinism checkpoint.
///
/// Only records if aggressive determinism mode is enabled.
/// Returns the assigned sequence number, or None if disabled/full.
pub fn record_checkpoint(
    collector: &mut CheckpointCollector,
    event: CheckpointEvent,
    instruction_pointer: u64,
    rbc_count: u64,
    memory_hash: u64,
    cpu_id: CpuId,
) -> (r: Option<u64>)
    requires
        old(collector)@.wf(),
    ensures
        final(collector)@.wf(),
        !old(collector)@.enabled || old(collector)@.checkpoints.len() >= MAX_CHECKPOINTS ==> {
            &&& r is None
            &&& final(collector)@ == old(collector)@
        },
        old(collector)@.enabled && old(collector)@.checkpoints.len() < MAX_CHECKPOINTS ==> {
            let c = DeterminismCheckpoint {
                sequence: old(collector)@.sequence,
                event,
                instruction_pointer,
                rbc_count,
                memory_hash,
                cpu_id,
            };
            &&& r == Some(old(collector)@.sequence)
            &&& final(collector)@ == (CollectorView {
                checkpoints: old(collector)@.checkpoints.push(c),
                sequence: (old(collector)@.sequence + 1) as u64,
                ..old(collector)@
            })
        },
        final(collector)@ == with_checkpoint(
            old(collector)@,
            event,
            instruction_pointer,
            rbc_count,
            memory_hash,
            cpu_id,
        ),
{
    if !collector.enabled || collector.checkpoints.len() >= MAX_CHECKPOINTS {
        return None;
    }
    let seq: u64 = collector.sequence;
    collector.sequence = seq + 1;
    collector.checkpoints.push(
        DeterminismCheckpoint {
            sequence: seq,
            event,
            instruction_pointer,
            rbc_count,
            memory_hash,
            cpu_id,
        },
    );
    Some(seq)
}

/// A collector after a checkpoint has been recorded: with one more, if it is enabled and
/// has room.
pub open spec fn with_checkpoint(
    v: CollectorView,
    event: CheckpointEvent,
    instruction_pointer: u64,
    rbc_count: u64,
    memory_hash: u64,
    cpu_id: CpuId,
) -> CollectorView {
    if v.enabled && v.checkpoints.len() < MAX_CHECKPOINTS {
        CollectorView {
            checkpoints: v.checkpoints.push(
                DeterminismCheckpoint {
                    sequence: v.sequence,
                    event,
                    instruction_pointer,
                    rbc_count,
                    memory_hash,
                    cpu_id,
                },
            ),
            sequence: (v.sequence + 1) as u64,
            ..v
        }
    } else {
        v
    }
}

/// While the mode is enabled each checkpoint is kept as it was recorded, behind those before
/// it and numbered by its place, until there are 8192; disabled, the mode keeps none.
pub proof fn law_checkpoints_are_kept_as_recorded(
    v: CollectorView,
    event: CheckpointEvent,
    instruction_pointer: u64,
    rbc_count: u64,
    memory_hash: u64,
    cpu_id: CpuId,
    i: int,
)
    requires
        v.wf(),
    ensures
        ({
            let after = with_checkpoint(
                v,
                event,
                instruction_pointer,
                rbc_count,
                memory_hash,
                cpu_id,
            );
            let n = v.checkpoints.len() as int;
            &&& after.wf()
            &&& after.enabled == v.enabled
            &&& 0 <= i < n ==> after.checkpoints[i] == v.checkpoints[i]
            &&& !v.enabled ==> after.checkpoints.len() == 0
            &&& v.enabled && n == 8192 ==> after.checkpoints.len() == n
            &&& v.enabled && n < 8192 ==> {
                &&& after.checkpoints.len() == n + 1
                &&& after.checkpoints[n].sequence == n
                &&& after.checkpoints[n].event == event
                &&& after.checkpoints[n].instruction_pointer == instruction_pointer
                &&& after.checkpoints[n].rbc_count == rbc_count
                &&& after.checkpoints[n].memory_hash == memory_hash
                &&& after.checkpoints[n].cpu_id == cpu_id
            }
        }),
{
    let after = with_checkpoint(v, event, instruction_pointer, rbc_count, memory_hash, cpu_id);
    assert forall|k: int| 0 <= k < after.checkpoints.len() implies (
    #[trigger] after.checkpoints[k]).sequence == k by {
        if k < v.checkpoints.len() {
            assert(after.checkpoints[k] == v.checkpoints[k]);
        }
    }
}

/// The sixteen digits of a number have its value.
pub proof fn law_hexadecimal_is_sixteen_wide(n: u64, i: int)
    ensures
        hex16(n).len() == 16,
        0 <= i < 16 - text::hexadecimal(n as nat).len() ==> hex16(n)[i] == '0',
        hex16(n).skip(16 - text::hexadecimal(n as nat).len()) == text::hexadecimal(n as nat),
{
    text::law_padding_fills_in_front(text::hexadecimal(n as nat), 16, '0', i);
    vstd::arithmetic::power2::lemma2_to64();
    vstd::arithmetic::power2::lemma2_to64_rest();
    lemma_hex_len(n as nat, 16);
}

proof fn lemma_hex_len(n: nat, k: nat)
    requires
        k > 0,
        n < vstd::arithmetic::power2::pow2(4 * k),
    ensures
        text::hexadecimal(n).len() <= k,
    decreases k,
{
    vstd::arithmetic::power2::lemma2_to64();
    if n >= 16 {
        let m = (k - 1) as nat;
        vstd::arithmetic::power2::lemma_pow2_adds(4 * m, 4);
        if k == 1 {
            assert(false);
        }
        let p = vstd::arithmetic::power2::pow2(4 * m);
        assert(vstd::arithmetic::power2::pow2(4 * k) == p * 16);
        assert(n / 16 < p);
        lemma_hex_len(n / 16, m);
    }
}

proof fn lemma_solid_word(name: Seq<char>, value: Seq<char>)
    requires
        text::is_solid(name),
        text::is_solid(value),
        name.len() > 0,
    ensures
        text::is_solid(name + value),
        text::words(name + value) == seq![name + value],
{
    let w = name + value;
    assert forall|i: int| 0 <= i < w.len() implies !text::is_space(#[trigger] w[i]) by {
        if i < name.len() {
            assert(w[i] == name[i]);
        } else {
            assert(w[i] == value[i - name.len()]);
        }
    }
    text::lemma_words_solid(w);
}

proof fn lemma_solid_digits(n: nat)
    ensures
        text::is_solid(text::decimal(n)),
{
    text::lemma_digits_chars(n, 10);
    let d = text::decimal(n);
    assert forall|i: int| 0 <= i < d.len() implies !text::is_space(#[trigger] d[i]) by {
        assert(text::is_digit_char(d[i]));
    }
}

proof fn lemma_solid_hex16(n: u64)
    ensures
        text::is_solid(hex16(n)),
{
    text::lemma_digits_chars(n as nat, 16);
    let h = text::hexadecimal(n as nat);
    let p = hex16(n);
    assert forall|i: int| 0 <= i < p.len() implies !text::is_space(#[trigger] p[i]) by {
        let k = i - (p.len() - h.len());
        if k >= 0 {
            assert(p[i] == h[k]);
            assert(text::is_digit_char(h[k]));
        } else {
            assert(p[i] == '0');
        }
    }
}

proof fn lemma_solid_event(e: CheckpointEvent)
    ensures
        text::is_solid(e.text()),
{
    reveal_strlit("preemption");
    reveal_strlit("coop_yield");
    reveal_strlit("dispatch");
    reveal_strlit("enqueue");
    reveal_strlit("running");
    reveal_strlit("stopping");
    reveal_strlit("select_cpu");
    reveal_strlit("tick");
}

/// A blank and a word behind a text make one more word.
proof fn lemma_one_more_word(front: Seq<char>, ws: Seq<Seq<char>>, name: Seq<char>, value: Seq<char>)
    requires
        text::words(front) == ws,
        text::is_solid(name),
        text::is_solid(value),
        name.len() > 0,
    ensures
        text::words(front + (seq![' '] + name) + value) == ws.push(name + value),
{
    lemma_solid_word(name, value);
    text::law_white_space_separates_words(front, ' ', name + value);
    assert(front + (seq![' '] + name) + value =~= front + seq![' '] + (name + value));
    assert(ws + seq![name + value] =~= ws.push(name + value));
}

/// The line that a checkpoint shows itself by has six words, each with one of its values.
pub proof fn law_checkpoint_shows_its_values(c: DeterminismCheckpoint)
    ensures
        text::words(c.text()) == seq![
            "seq="@ + text::decimal(c.sequence as nat),
            "event="@ + c.event.text(),
            "rip=0x"@ + hex16(c.instruction_pointer),
            "rbc="@ + text::decimal(c.rbc_count as nat),
            "hash=0x"@ + hex16(c.memory_hash),
            "cpu="@ + text::decimal(c.cpu_id.0 as nat),
        ],
{
    let d0 = text::decimal(c.sequence as nat);
    let d1 = c.event.text();
    let d2 = hex16(c.instruction_pointer);
    let d3 = text::decimal(c.rbc_count as nat);
    let d4 = hex16(c.memory_hash);
    let d5 = text::decimal(c.cpu_id.0 as nat);
    lemma_solid_digits(c.sequence as nat);
    lemma_solid_digits(c.rbc_count as nat);
    lemma_solid_digits(c.cpu_id.0 as nat);
    lemma_solid_hex16(c.instruction_pointer);
    lemma_solid_hex16(c.memory_hash);
    lemma_solid_event(c.event);
    lemma_field_names();
    let t0 = "seq="@ + d0;
    let t1 = t0 + " event="@ + d1;
    let t2 = t1 + " rip=0x"@ + d2;
    let t3 = t2 + " rbc="@ + d3;
    let t4 = t3 + " hash=0x"@ + d4;
    let s0 = seq!["seq="@ + d0];
    let s1 = s0.push("event="@ + d1);
    let s2 = s1.push("rip=0x"@ + d2);
    let s3 = s2.push("rbc="@ + d3);
    let s4 = s3.push("hash=0x"@ + d4);
    lemma_solid_word("seq="@, d0);
    lemma_one_more_word(t0, s0, "event="@, d1);
    lemma_one_more_word(t1, s1, "rip=0x"@, d2);
    lemma_one_more_word(t2, s2, "rbc="@, d3);
    lemma_one_more_word(t3, s3, "hash=0x"@, d4);
    lemma_one_more_word(t4, s4, "cpu="@, d5);
}

proof fn lemma_field_names()
    ensures
        "seq="@.len() > 0 && text::is_solid("seq="@),
        "event="@.len() > 0 && text::is_solid("event="@),
        "rip=0x"@.len() > 0 && text::is_solid("rip=0x"@),
        "rbc="@.len() > 0 && text::is_solid("rbc="@),
        "hash=0x"@.len() > 0 && text::is_solid("hash=0x"@),
        "cpu="@.len() > 0 && text::is_solid("cpu="@),
        " event="@ == seq![' '] + "event="@,
        " rip=0x"@ == seq![' '] + "rip=0x"@,
        " rbc="@ == seq![' '] + "rbc="@,
        " hash=0x"@ == seq![' '] + "hash=0x"@,
        " cpu="@ == seq![' '] + "cpu="@,
{
    reveal_strlit("seq=");
    reveal_strlit("event=");
    reveal_strlit(" event=");
    reveal_strlit("rip=0x");
    reveal_strlit(" rip=0x");
    reveal_strlit("rbc=");
    reveal_strlit(" rbc=");
    reveal_strlit("hash=0x");
    reveal_strlit(" hash=0x");
    reveal_strlit("cpu=");
    reveal_strlit(" cpu=");
    assert(" event="@ =~= seq![' '] + "event="@);
    assert(" rip=0x"@ =~= seq![' '] + "rip=0x"@);
    assert(" rbc="@ =~= seq![' '] + "rbc="@);
    assert(" hash=0x"@ =~= seq![' '] + "hash=0x"@);
    assert(" cpu="@ =~= seq![' '] + "cpu="@);
}

/// Divergences are told one behind the other, with a comma and a blank between each two; and
/// a report tells where, how, and what was expected and found.
pub proof fn law_divergences_are_told_in_order(
    types: Seq<DivergenceType>,
    t: DivergenceType,
    d: CheckpointDivergence,
)
    ensures
        texts_joined(Seq::<DivergenceType>::empty()).len() == 0,
        texts_joined(seq![t]) == t.text(),
        types.len() > 0 ==> texts_joined(types.push(t)) == texts_joined(types) + seq![',', ' ']
            + t.text(),
        d.text() == "Divergence at checkpoint "@ + (text::decimal(d.checkpoint_index as nat) + ": "@
            + d.divergence_type.text()) + ("\n  expected: "@ + d.expected.text()) + (
        "\n  actual:   "@ + d.actual.text()),
{
    reveal_strlit(", ");
    assert(", "@ =~= seq![',', ' ']);
    assert(types.push(t).drop_last() =~= types);
    assert(types.push(t).last() == t);
    assert(d.text() =~= "Divergence at checkpoint "@ + (text::decimal(d.checkpoint_index as nat)
        + ": "@ + d.divergence_type.text()) + ("\n  expected: "@ + d.expected.text()) + (
    "\n  actual:   "@ + d.actual.text()));
}

} // verus!
