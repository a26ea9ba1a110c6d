//! Preemption records: instrumentation for verifying determinism.

use vstd::prelude::*;

use crate::order;
use crate::order::{sort_by_sequence, Sequenced};
use crate::preempt::structop;
use crate::preempt::structop::StructopInfo;
use crate::text;
use crate::text::{decimal_text, hexadecimal_text};
use crate::types::{CpuId, OpsContext, WorkerId};

verus! {

/// Maximum number of preemption records a store holds.
pub const MAX_PREEMPTION_RECORDS: usize = 4096;

/// A record of a single preemption point (PMU or cooperative kfunc yield).
///
/// Captures all relevant state at the moment of preemption for verifying
/// that RBC-based preemption is truly deterministic: same branch count,
/// same instruction, every time. Includes structop context for correlating
/// preemptions with scheduler ops callback invocations.
#[derive(Debug, Clone, Copy, PartialEq, Eq)]
pub struct PreemptionRecord {
    /// The timeslice (retired branch conditionals) for this preemption.
    /// For cooperative (kfunc) yields this is 0.
    pub rbc_count: u64,
    /// The instruction pointer (RIP) at the preemption point.
    /// For cooperative (kfunc) yields this is 0.
    pub instruction_pointer: u64,
    /// The CPU ID of the worker that was preempted.
    pub cpu_id: CpuId,
    /// The worker that was preempted (for replay grouping).
    pub worker_id: WorkerId,
    /// Sequence number (monotonically increasing).
    pub sequence: u64,
    /// Per-worker structop count (1-based) at the time of preemption.
    pub structop_local: u64,
    /// Global structop count (1-based) at the time of preemption.
    pub structop_global: u64,
    /// Cumulative RBC within the current structop at the time of preemption.
    pub structop_rbc: u64,
    /// The callback that was preempted, as a trace names it. Records that a ring
    /// makes carry none.
    pub ops_context: OpsContext,
    /// The kfunc at which a cooperative yield happened, as a trace names it; empty if
    /// there was none. Records that a ring makes carry none.
    pub kfunc_name: &'static str,
}

/// What a [`PreemptionRecord`] says.
pub struct RecordView {
    pub rbc_count: u64,
    pub instruction_pointer: u64,
    pub cpu_id: CpuId,
    pub worker_id: WorkerId,
    pub sequence: u64,
    pub structop_local: u64,
    pub structop_global: u64,
    pub structop_rbc: u64,
    pub ops_context: OpsContext,
    pub kfunc_name: Seq<char>,
}

impl View for PreemptionRecord {
    type V = RecordView;

    open spec fn view(&self) -> RecordView {
        RecordView {
            rbc_count: self.rbc_count,
            instruction_pointer: self.instruction_pointer,
            cpu_id: self.cpu_id,
            worker_id: self.worker_id,
            sequence: self.sequence,
            structop_local: self.structop_local,
            structop_global: self.structop_global,
            structop_rbc: self.structop_rbc,
            ops_context: self.ops_context,
            kfunc_name: self.kfunc_name@,
        }
    }
}

impl Sequenced for PreemptionRecord {
    open spec fn key(self) -> u64 {
        self.sequence
    }

    fn sequence_number(&self) -> (r: u64) {
        self.sequence
    }
}

impl PreemptionRecord {
    /// The record as one line of text.
    pub open spec fn text(self) -> Seq<char> {
        "seq="@ + text::decimal(self.sequence as nat) + " structop="@ + text::decimal(
            self.structop_local as nat,
        ) + ":"@ + text::decimal(self.structop_global as nat) + " rbc="@
            + text::decimal(self.structop_rbc as nat) + " rip=0x"@
            + text::hexadecimal(self.instruction_pointer as nat) + " cpu="@
            + text::decimal(self.cpu_id.0 as nat) + " worker="@ + text::decimal(
            self.worker_id.0 as nat,
        )
    }

    /// The record as one line of text.
    pub fn to_string(&self) -> (r: String)
        ensures
            r@ == self.text(),
    {
        let mut r = "seq=".to_owned();
        r.append(decimal_text(self.sequence).as_str());
        r.append(" structop=");
        r.append(decimal_text(self.structop_local).as_str());
        r.append(":");
        r.append(decimal_text(self.structop_global).as_str());
        r.append(" rbc=");
        r.append(decimal_text(self.structop_rbc).as_str());
        r.append(" rip=0x");
        r.append(hexadecimal_text(self.instruction_pointer).as_str());
        r.append(" cpu=");
        r.append(decimal_text(self.cpu_id.0 as u64).as_str());
        r.append(" worker=");
        r.append(decimal_text(self.worker_id.0 as u64).as_str());
        r
    }
}

/// The sequence number of a preemption record, as a sort key.
pub open spec fn record_key() -> spec_fn(PreemptionRecord) -> u64 {
    order::by_sequence::<PreemptionRecord>()
}

/// Records in ascending order of their sequence numbers; those with equal
/// numbers keep their order.
pub open spec fn in_sequence(records: Seq<PreemptionRecord>) -> Seq<PreemptionRecord> {
    order::sort_by(records, record_key())
}

/// Monotonic sequence counter shared by all stores, so that sequence numbers are
/// unique and globally ordered even when several rings are created.
#[derive(Debug, Clone, Copy, PartialEq, Eq, Structural)]
pub struct PreemptionSequence {
    /// The number that the next record gets.
    pub next: u64,
}

impl PreemptionSequence {
    /// A counter at zero.
    pub fn new() -> (r: PreemptionSequence)
        ensures
            r.next == 0,
    {
        PreemptionSequence { next: 0 }
    }
}

/// Reset the preemption sequence counter.
///
/// Call before starting a new simulation to get clean sequence numbers.
pub fn reset_preemption_sequence(sequence: &mut PreemptionSequence)
    ensures
        final(sequence).next == 0,
{
    sequence.next = 0;
}

/// The record of a preemption with the given sequence number. It says how far the
/// worker has come, not in which callback or at which kfunc.
pub open spec fn record_of(
    rbc_count: u64,
    instruction_pointer: u64,
    cpu_id: CpuId,
    worker_id: WorkerId,
    sinfo: StructopInfo,
    sequence: u64,
) -> RecordView {
    RecordView {
        rbc_count,
        instruction_pointer,
        cpu_id,
        worker_id,
        sequence,
        structop_local: sinfo.cpu_count,
        structop_global: sinfo.global_count,
        structop_rbc: sinfo.rbc_total,
        ops_context: OpsContext::NoOps,
        kfunc_name: ""@,
    }
}

pub(crate) fn make_record(
    rbc_count: u64,
    instruction_pointer: u64,
    cpu_id: CpuId,
    worker_id: WorkerId,
    sinfo: StructopInfo,
    sequence: u64,
) -> (r: PreemptionRecord)
    ensures
        r@ == record_of(rbc_count, instruction_pointer, cpu_id, worker_id, sinfo, sequence),
{
    PreemptionRecord {
        rbc_count,
        instruction_pointer,
        cpu_id,
        worker_id,
        sequence,
        structop_local: sinfo.cpu_count,
        structop_global: sinfo.global_count,
        structop_rbc: sinfo.rbc_total,
        ops_context: OpsContext::NoOps,
        kfunc_name: "",
    }
}

/// Bounded storage for preemption records.
///
/// Room for all records is reserved up front, so that adding one does not
/// allocate. Records beyond [`MAX_PREEMPTION_RECORDS`] are dropped.
pub struct PreemptionRecordStore {
    records: Vec<PreemptionRecord>,
}

impl View for PreemptionRecordStore {
    type V = Seq<PreemptionRecord>;

    closed spec fn view(&self) -> Seq<PreemptionRecord> {
        self.records@
    }
}

impl PreemptionRecordStore {
    /// Whether the store is within its bound.
    #[verifier::type_invariant]
    closed spec fn bounded(self) -> bool {
        self.records@.len() <= MAX_PREEMPTION_RECORDS
    }

    /// An empty store.
    pub fn new() -> (r: PreemptionRecordStore)
        ensures
            r@ == Seq::<PreemptionRecord>::empty(),
    {
        PreemptionRecordStore { records: Vec::with_capacity(MAX_PREEMPTION_RECORDS) }
    }

    /// Add a record.
    ///
    /// Returns the sequence number assigned, or `None` if the store is full; a
    /// full store takes nothing and uses up no sequence number.
    pub fn push(
        &mut self,
        sequence: &mut PreemptionSequence,
        rbc_count: u64,
        instruction_pointer: u64,
        cpu_id: CpuId,
        worker_id: WorkerId,
        sinfo: StructopInfo,
    ) -> (r: Option<u64>)
        ensures
            old(self)@.len() >= MAX_PREEMPTION_RECORDS ==> {
                &&& r is None
                &&& final(self)@ == old(self)@
                &&& *final(sequence) == *old(sequence)
            },
            old(self)@.len() < MAX_PREEMPTION_RECORDS ==> {
                &&& r == Some(old(sequence).next)
                &&& final(sequence).next == structop::wrapping_next(
                    old(sequence).next,
                )
                &&& final(self)@.len() == old(self)@.len() + 1
                &&& final(self)@.drop_last() == old(self)@
                &&& final(self)@.last()@ == record_of(
                    rbc_count,
                    instruction_pointer,
                    cpu_id,
                    worker_id,
                    sinfo,
                    old(sequence).next,
                )
            },
    {
        if self.records.len() >= MAX_PREEMPTION_RECORDS {
            return None;
        }
        let seq: u64 = sequence.next;
        sequence.next = seq.wrapping_add(1);
        let rec = make_record(rbc_count, instruction_pointer, cpu_id, worker_id, sinfo, seq);
        let mut records: Vec<PreemptionRecord> = Vec::new();
        std::mem::swap(&mut self.records, &mut records);
        records.push(rec);
        self.records = records;
        assert(self@.drop_last() =~= old(self)@);
        Some(seq)
    }

    /// Retrieve all records, sorted by sequence number. They stay in the store.
    pub fn drain(&self) -> (r: Vec<PreemptionRecord>)
        ensures
            r@ == in_sequence(self@),
    {
        let records: Vec<PreemptionRecord> = copy_records(&self.records);
        sort_by_sequence(records)
    }
}

/// A copy of the records.
pub fn copy_records(v: &[PreemptionRecord]) -> (r: Vec<PreemptionRecord>)
    ensures
        r@ == v@,
{
    let mut r: Vec<PreemptionRecord> = Vec::with_capacity(v.len());
    let mut i: usize = 0;
    while i < v.len()
        invariant
            i <= v.len(),
            r@ == v@.take(i as int),
        decreases v.len() - i,
    {
        r.push(v[i]);
        assert(v@.take(i + 1) =~= v@.take(i as int).push(v@[i as int]));
        i += 1;
    }
    assert(v@.take(v@.len() as int) =~= v@);
    r
}

// ---------------------------------------------------------------------------
// Collection across rings
// ---------------------------------------------------------------------------

/// Collector for preemption records across all rings of a simulation run.
pub struct PreemptionCollector {
    records: Option<Vec<PreemptionRecord>>,
}

impl View for PreemptionCollector {
    type V = Option<Seq<PreemptionRecord>>;

    closed spec fn view(&self) -> Option<Seq<PreemptionRecord>> {
        match self.records {
            Some(v) => Some(v@),
            None => None,
        }
    }
}

impl PreemptionCollector {
    /// A collector that does not collect.
    pub fn new() -> (r: PreemptionCollector)
        ensures
            r@ is None,
    {
        PreemptionCollector { records: None }
    }
}

/// Enable preemption record collection.
///
/// Records are accumulated until [`drain_preemption_records`] is called.
/// Also resets the sequence counter so records start at seq=0.
pub fn enable_preemption_collection(
    collector: &mut PreemptionCollector,
    sequence: &mut PreemptionSequence,
)
    ensures
        final(collector)@ == Some(Seq::<PreemptionRecord>::empty()),
        final(sequence).next == 0,
{
    reset_preemption_sequence(sequence);
    collector.records = Some(Vec::new());
}

/// Disable and drain all collected preemption records.
///
/// Returns the collected records sorted by sequence number, or an empty Vec
/// if collection was not enabled. Also disables further collection.
pub fn drain_preemption_records(collector: &mut PreemptionCollector) -> (r: Vec<PreemptionRecord>)
    ensures
        final(collector)@ is None,
        r@ == match old(collector)@ {
            Some(records) => in_sequence(records),
            None => Seq::<PreemptionRecord>::empty(),
        },
{
    match collector.records.take() {
        Some(records) => sort_by_sequence(records),
        None => Vec::new(),
    }
}

/// Add a record to the collector; it is dropped if collection is not enabled.
pub fn maybe_collect_global(collector: &mut PreemptionCollector, record: PreemptionRecord)
    ensures
        final(collector)@ == match old(collector)@ {
            Some(records) => Some(records.push(record)),
            None => None,
        },
{
    match collector.records.take() {
        Some(mut records) => {
            records.push(record);
            collector.records = Some(records);
        },
        None => {},
    }
}

// ---------------------------------------------------------------------------
// Laws
// ---------------------------------------------------------------------------

/// The sequence number that the record number `n` gets from a counter at `start`.
pub open spec fn nth_sequence(start: u64, n: nat) -> u64
    decreases n,
{
    if n == 0 {
        start
    } else {
        structop::wrapping_next(nth_sequence(start, (n - 1) as nat))
    }
}

proof fn lemma_nth_sequence(start: u64, n: nat)
    ensures
        nth_sequence(start, n) == (start + n) % 0x1_0000_0000_0000_0000,
    decreases n,
{
    if n > 0 {
        lemma_nth_sequence(start, (n - 1) as nat);
        let m = start + n - 1;
        vstd::arithmetic::div_mod::lemma_fundamental_div_mod(m, 0x1_0000_0000_0000_0000);
        vstd::arithmetic::div_mod::lemma_fundamental_div_mod(m + 1, 0x1_0000_0000_0000_0000);
    }
}

/// Records that take their numbers from one counter, in whichever stores they
/// are, get different numbers, which ascend until the counter starts over.
pub proof fn law_sequence_numbers_are_unique(start: u64, i: nat, j: nat)
    requires
        i < j < i + 0x1_0000_0000_0000_0000,
    ensures
        nth_sequence(start, i) != nth_sequence(start, j),
        start + j <= u64::MAX ==> nth_sequence(start, i) < nth_sequence(start, j),
{
    lemma_nth_sequence(start, i);
    lemma_nth_sequence(start, j);
    let m = 0x1_0000_0000_0000_0000int;
    vstd::arithmetic::div_mod::lemma_fundamental_div_mod(start + i, m);
    vstd::arithmetic::div_mod::lemma_fundamental_div_mod(start + j, m);
    if nth_sequence(start, i) == nth_sequence(start, j) {
        let a = (start + i) / m;
        let b = (start + j) / m;
        assert(j - i == m * b - m * a);
        assert(m * b - m * a == m * (b - a)) by (nonlinear_arith);
        assert(false);
    }
    if start + j <= u64::MAX {
        vstd::arithmetic::div_mod::lemma_small_mod((start + i) as nat, m as nat);
        vstd::arithmetic::div_mod::lemma_small_mod((start + j) as nat, m as nat);
    }
}

/// Drained records are in ascending order of their numbers, and they are the
/// records that were stored.
pub proof fn law_drained_records_are_ordered(records: Seq<PreemptionRecord>)
    ensures
        order::ascending(in_sequence(records), record_key()),
        in_sequence(records).to_multiset() == records.to_multiset(),
        in_sequence(in_sequence(records)) == in_sequence(records),
{
    order::lemma_sort_by(records, record_key());
    order::lemma_sort_ordered(in_sequence(records), record_key());
}

/// Drained records ascend by the number that each of them carries; of two with the same
/// number the one that was made first comes first, and no record is lost or added.
pub proof fn law_drained_records_ascend(records: Seq<PreemptionRecord>, i: int, j: int, k: u64)
    requires
        0 <= i < j < in_sequence(records).len(),
    ensures
        in_sequence(records).len() == records.len(),
        in_sequence(records)[i].sequence <= in_sequence(records)[j].sequence,
        in_sequence(records).filter(|r: PreemptionRecord| r.sequence == k) == records.filter(
            |r: PreemptionRecord| r.sequence == k,
        ),
{
    order::lemma_sort_by(records, record_key());
    let key = record_key();
    assert(key(in_sequence(records)[i]) <= key(in_sequence(records)[j]));
    lemma_with_key_is_filter(records, k);
    lemma_with_key_is_filter(in_sequence(records), k);
    assert(order::with_key(in_sequence(records), key, k) == order::with_key(records, key, k));
}

proof fn lemma_with_key_is_filter(records: Seq<PreemptionRecord>, k: u64)
    ensures
        order::with_key(records, record_key(), k) == records.filter(
            |r: PreemptionRecord| r.sequence == k,
        ),
    decreases records.len(),
{
    let pred = |r: PreemptionRecord| r.sequence == k;
    if records.len() == 0 {
        records.lemma_filter_len(pred);
        assert(records.filter(pred) =~= records);
    } else {
        let t = records.drop_last();
        lemma_with_key_is_filter(t, k);
        t.lemma_filter_push(records.last(), pred);
        assert(t.push(records.last()) =~= records);
    }
}

/// How many records a ring keeps.
pub proof fn law_record_bound()
    ensures
        MAX_PREEMPTION_RECORDS == 4096,
{
}

} // verus!
