//! Preemption trace serialization and deserialization.
//!
//! A [`PreemptionTrace`] groups preemption records by worker for replay.
//! The text format is line-oriented and includes ASLR-resilient RIP offsets
//! so traces recorded on one run can be replayed even when the scheduler
//! .so is loaded at a different base address.

use vstd::prelude::*;
use vstd::slice::slice_subrange;

use crate::order;
use crate::order::sort_by_sequence;
use crate::perf::PmuEvent;
use crate::preempt::record;
use crate::preempt::record::{copy_records, PreemptionRecord, PreemptionRecordStore, RecordView};
use crate::text;
use crate::text::{
    chars_of, decimal_text, find_char, hexadecimal_text, parse_number, split_line, split_word,
    string_of, strip_prefix, text_eq, trim, IntError,
};
use crate::types::{CpuId, OpsContext, WorkerId};

verus! {

// ---------------------------------------------------------------------------
// Model
// ---------------------------------------------------------------------------

/// What a [`PreemptionTrace`] holds.
#[verifier::ext_equal]
pub struct TraceView {
    /// The records of each worker, in order.
    pub per_worker: Seq<Seq<RecordView>>,
    /// The event that timed the preemptions.
    pub break_on: PmuEvent,
}

/// The sequence number of a record, as a sort key.
pub open spec fn view_key() -> spec_fn(RecordView) -> u64 {
    |r: RecordView| r.sequence
}

/// What each of the records says.
pub open spec fn views(records: Seq<PreemptionRecord>) -> Seq<RecordView> {
    Seq::new(records.len(), |i: int| records[i]@)
}

/// The records of worker `w`, in order.
pub open spec fn of_worker(records: Seq<RecordView>, w: int) -> Seq<RecordView>
    decreases records.len(),
{
    if records.len() == 0 {
        records
    } else if records.last().worker_id.0 == w {
        of_worker(records.drop_last(), w).push(records.last())
    } else {
        of_worker(records.drop_last(), w)
    }
}

/// The records of each of `n` workers, ordered by sequence number; records of
/// other workers are left out.
pub open spec fn grouped(records: Seq<RecordView>, n: nat) -> Seq<Seq<RecordView>> {
    Seq::new(n, |w: int| order::sort_by(of_worker(records, w), view_key()))
}

/// The records of all workers, worker by worker.
pub open spec fn concatenated(per_worker: Seq<Seq<RecordView>>) -> Seq<RecordView>
    decreases per_worker.len(),
{
    if per_worker.len() == 0 {
        seq![]
    } else {
        concatenated(per_worker.drop_last()) + per_worker.last()
    }
}

/// The trace that a list of records makes.
pub open spec fn trace_of(records: Seq<RecordView>, n: nat, break_on: PmuEvent) -> TraceView {
    TraceView { per_worker: grouped(records, n), break_on }
}

impl TraceView {
    /// Whether each record stands with its worker, in order, and the records can
    /// be counted.
    pub open spec fn wf(self) -> bool {
        &&& self.per_worker.len() <= usize::MAX
        &&& concatenated(self.per_worker).len() <= usize::MAX
        &&& forall|w: int, i: int|
            0 <= w < self.per_worker.len() && 0 <= i < self.per_worker[w].len()
                ==> (#[trigger] self.per_worker[w][i]).worker_id.0 == w
        &&& forall|w: int|
            0 <= w < self.per_worker.len() ==> order::ascending(
                #[trigger] self.per_worker[w],
                view_key(),
            )
    }
}

// ---------------------------------------------------------------------------
// Text format
// ---------------------------------------------------------------------------

/// Words with a space between each two.
pub open spec fn joined(words: Seq<Seq<char>>) -> Seq<char>
    decreases words.len(),
{
    if words.len() == 0 {
        seq![]
    } else if words.len() == 1 {
        words[0]
    } else {
        joined(words.drop_last()) + seq![' '] + words.last()
    }
}

/// Lines with a line feed behind each.
pub open spec fn with_line_feeds(lines: Seq<Seq<char>>) -> Seq<char>
    decreases lines.len(),
{
    if lines.len() == 0 {
        seq![]
    } else {
        with_line_feeds(lines.drop_last()) + lines.last() + seq!['\n']
    }
}

/// The address `rip` relative to the base `so_base`, where a base is known and
/// not above it.
pub open spec fn relative_rip(rip: u64, so_base: u64) -> u64 {
    if so_base > 0 && rip >= so_base {
        (rip - so_base) as u64
    } else {
        rip
    }
}

/// The words for the callback and the kfunc of a record: both as soon as it has
/// one of them, where `-` stands for no kfunc; none if it has neither.
pub open spec fn context_words(r: RecordView) -> Seq<Seq<char>> {
    if r.ops_context == OpsContext::NoOps && r.kfunc_name.len() == 0 {
        seq![]
    } else {
        seq!["ops="@ + r.ops_context.name(), "kfunc="@ + kfunc_word(r.kfunc_name)]
    }
}

/// How a kfunc name is written: `-` for none.
pub open spec fn kfunc_word(name: Seq<char>) -> Seq<char> {
    if name.len() == 0 {
        "-"@
    } else {
        name
    }
}

/// The words for the place of a record: its structop, counts, addresses, CPU and
/// worker.
pub open spec fn place_words(r: RecordView, so_base: u64) -> Seq<Seq<char>> {
    seq![
        "structop="@ + text::decimal(r.structop_local as nat) + ":"@ + text::decimal(
            r.structop_global as nat,
        ),
        "rbc="@ + text::decimal(r.structop_rbc as nat),
        "timeslice="@ + text::decimal(r.rbc_count as nat),
        "rip="@ + "0x"@ + text::hexadecimal(r.instruction_pointer as nat),
        "rip_offset="@ + "0x"@ + text::hexadecimal(
            relative_rip(r.instruction_pointer, so_base) as nat,
        ),
        "cpu="@ + text::decimal(r.cpu_id.0 as nat),
        "worker="@ + text::decimal(r.worker_id.0 as nat),
    ]
}

/// The words of a record's line.
pub open spec fn record_words(r: RecordView, so_base: u64) -> Seq<Seq<char>> {
    seq!["seq="@ + text::decimal(r.sequence as nat)] + context_words(r) + place_words(r, so_base)
}

/// The line of a record.
pub open spec fn record_line(r: RecordView, so_base: u64) -> Seq<char> {
    joined(record_words(r, so_base))
}

/// The lines that introduce a trace.
pub open spec fn header_lines(t: TraceView) -> Seq<Seq<char>> {
    seq![
        "# scxsim preemption trace"@,
        "# workers: "@ + text::decimal(t.per_worker.len()),
        "# break_on: "@ + t.break_on.name(),
        "# total: "@ + text::decimal(concatenated(t.per_worker).len()),
    ]
}

/// The records of a trace in the order in which they are written.
pub open spec fn canonical(t: TraceView) -> Seq<RecordView> {
    order::sort_by(concatenated(t.per_worker), view_key())
}

/// The lines of records.
pub open spec fn record_lines(records: Seq<RecordView>, so_base: u64) -> Seq<Seq<char>> {
    Seq::new(records.len(), |i: int| record_line(records[i], so_base))
}

/// The text of a trace: the header, then one line for each record in ascending
/// order of their sequence numbers.
pub open spec fn trace_text(t: TraceView, so_base: u64) -> Seq<char> {
    with_line_feeds(header_lines(t) + record_lines(canonical(t), so_base))
}

// ---------------------------------------------------------------------------
// Reading
// ---------------------------------------------------------------------------

/// The `u64` that `s` spells in decimal.
pub open spec fn read_u64(s: Seq<char>) -> Result<u64, IntError> {
    match text::read_number(s, 10, u64::MAX as nat) {
        Ok(n) => Ok(n as u64),
        Err(e) => Err(e),
    }
}

/// The `u32` that `s` spells in decimal.
pub open spec fn read_u32(s: Seq<char>) -> Result<u32, IntError> {
    match text::read_number(s, 10, u32::MAX as nat) {
        Ok(n) => Ok(n as u32),
        Err(e) => Err(e),
    }
}

/// The `usize` that `s` spells in decimal.
pub open spec fn read_usize(s: Seq<char>) -> Result<usize, IntError> {
    match text::read_number(s, 10, usize::MAX as nat) {
        Ok(n) => Ok(n as usize),
        Err(e) => Err(e),
    }
}

/// The `u64` that `s` spells: in hexadecimal behind `0x` or `0X`, else in
/// decimal.
pub open spec fn read_hex_or_dec(s: Seq<char>) -> Result<u64, IntError> {
    let hex = if text::starts_with(s, "0x"@) {
        text::after_prefix(s, "0x"@)
    } else {
        text::after_prefix(s, "0X"@)
    };
    match hex {
        Some(h) => match text::read_number(h, 16, u64::MAX as nat) {
            Ok(n) => Ok(n as u64),
            Err(e) => Err(e),
        },
        None => read_u64(s),
    }
}

/// The values that the words of a line have set.
pub struct LineValues {
    pub seq: u64,
    pub rbc: Option<u64>,
    pub timeslice: Option<u64>,
    pub rip: u64,
    pub rip_offset: Option<u64>,
    pub cpu: u32,
    pub worker: usize,
    pub structop_local: u64,
    pub structop_global: u64,
    pub ops_context: OpsContext,
    pub kfunc_name: Seq<char>,
}

/// The values of a line without words.
pub open spec fn no_values() -> LineValues {
    LineValues {
        seq: 0,
        rbc: None,
        timeslice: None,
        rip: 0,
        rip_offset: None,
        cpu: 0,
        worker: 0,
        structop_local: 0,
        structop_global: 0,
        ops_context: OpsContext::NoOps,
        kfunc_name: seq![],
    }
}

/// The error text for a value of the field `field`.
pub open spec fn field_error(field: Seq<char>, e: IntError) -> Seq<char> {
    field + ": "@ + e.text()
}

/// The kfunc name that `s` stands for: none for `-`.
pub open spec fn kfunc_of(s: Seq<char>) -> Seq<char> {
    if s == "-"@ {
        seq![]
    } else {
        s
    }
}

/// The values after the word `w`, or an error text. A word `name=value` sets the
/// value of its name; words with other names set nothing.
#[verifier::opaque]
pub open spec fn read_word(f: LineValues, w: Seq<char>) -> Result<LineValues, Seq<char>> {
    if let Some(val) = text::after_prefix(w, "seq="@) {
        match read_u64(val) {
            Ok(seq) => Ok(LineValues { seq, ..f }),
            Err(e) => Err(field_error("seq"@, e)),
        }
    } else if let Some(val) = text::after_prefix(w, "timeslice="@) {
        match read_u64(val) {
            Ok(v) => Ok(LineValues { timeslice: Some(v), ..f }),
            Err(e) => Err(field_error("timeslice"@, e)),
        }
    } else if let Some(val) = text::after_prefix(w, "rbc="@) {
        match read_u64(val) {
            Ok(v) => Ok(LineValues { rbc: Some(v), ..f }),
            Err(e) => Err(field_error("rbc"@, e)),
        }
    } else if let Some(val) = text::after_prefix(w, "rip="@) {
        match read_hex_or_dec(val) {
            Ok(rip) => Ok(LineValues { rip, ..f }),
            Err(e) => Err(field_error("rip"@, e)),
        }
    } else if let Some(val) = text::after_prefix(w, "rip_offset="@) {
        match read_hex_or_dec(val) {
            Ok(v) => Ok(LineValues { rip_offset: Some(v), ..f }),
            Err(e) => Err(field_error("rip_offset"@, e)),
        }
    } else if let Some(val) = text::after_prefix(w, "cpu="@) {
        match read_u32(val) {
            Ok(cpu) => Ok(LineValues { cpu, ..f }),
            Err(e) => Err(field_error("cpu"@, e)),
        }
    } else if let Some(val) = text::after_prefix(w, "worker="@) {
        match read_usize(val) {
            Ok(worker) => Ok(LineValues { worker, ..f }),
            Err(e) => Err(field_error("worker"@, e)),
        }
    } else if let Some(val) = text::after_prefix(w, "structop="@) {
        let n = text::len_before(val, ':') as int;
        if n < val.len() {
            match read_u64(val.take(n)) {
                Err(e) => Err(field_error("structop local"@, e)),
                Ok(structop_local) => match read_u64(val.skip(n + 1)) {
                    Err(e) => Err(field_error("structop global"@, e)),
                    Ok(structop_global) => Ok(LineValues { structop_local, structop_global, ..f }),
                },
            }
        } else {
            Ok(f)
        }
    } else if let Some(val) = text::after_prefix(w, "ops="@) {
        Ok(LineValues { ops_context: OpsContext::named(val), ..f })
    } else if let Some(val) = text::after_prefix(w, "kfunc="@) {
        Ok(LineValues { kfunc_name: kfunc_of(val), ..f })
    } else {
        Ok(f)
    }
}

/// The values after the words `ws`, or the first error text.
pub open spec fn read_words(f: LineValues, ws: Seq<Seq<char>>) -> Result<LineValues, Seq<char>>
    decreases ws.len(),
{
    if ws.len() == 0 {
        Ok(f)
    } else {
        match read_word(f, ws[0]) {
            Ok(g) => read_words(g, ws.skip(1)),
            Err(e) => Err(e),
        }
    }
}

/// The address of an offset that was recorded relative to a base; addresses wrap
/// around at the end of the address space.
pub open spec fn absolute_rip(so_base: u64, offset: u64) -> u64 {
    ((so_base + offset) % 0x1_0000_0000_0000_0000) as u64
}

/// The record that a line's values describe. The address is taken from the
/// offset if there is one and a base is known. A line without a timeslice has
/// its raw count under `rbc`.
pub open spec fn record_from(f: LineValues, so_base: u64) -> RecordView {
    RecordView {
        rbc_count: match f.timeslice {
            Some(v) => v,
            None => match f.rbc {
                Some(v) => v,
                None => 0,
            },
        },
        instruction_pointer: match f.rip_offset {
            Some(offset) => if so_base > 0 {
                absolute_rip(so_base, offset)
            } else {
                f.rip
            },
            None => f.rip,
        },
        cpu_id: CpuId(f.cpu),
        worker_id: WorkerId(f.worker),
        sequence: f.seq,
        structop_local: f.structop_local,
        structop_global: f.structop_global,
        structop_rbc: match (f.timeslice, f.rbc) {
            (Some(_), Some(v)) => v,
            _ => 0,
        },
        ops_context: f.ops_context,
        kfunc_name: f.kfunc_name,
    }
}

/// The record of a line, or an error text.
pub open spec fn read_record(line: Seq<char>, so_base: u64) -> Result<RecordView, Seq<char>> {
    match read_words(no_values(), text::words(line)) {
        Ok(f) => Ok(record_from(f, so_base)),
        Err(e) => Err(e),
    }
}

/// What the lines of a trace have said so far.
#[verifier::ext_equal]
pub struct TraceLines {
    pub num_workers: usize,
    pub break_on: PmuEvent,
    pub records: Seq<RecordView>,
}

/// What the lines of a trace have said after one more line, or an error text.
/// White space around a line and empty lines mean nothing, nor do comments other
/// than the header's.
pub open spec fn read_line(s: TraceLines, line: Seq<char>, so_base: u64) -> Result<
    TraceLines,
    Seq<char>,
> {
    let t = text::trimmed(line);
    if t.len() == 0 {
        Ok(s)
    } else if text::starts_with(t, "#"@) {
        if let Some(rest) = text::after_prefix(t, "# workers: "@) {
            match read_usize(text::trimmed(rest)) {
                Ok(num_workers) => Ok(TraceLines { num_workers, ..s }),
                Err(e) => Err(e.text()),
            }
        } else if let Some(rest) = text::after_prefix(t, "# break_on: "@) {
            match PmuEvent::named(text::trimmed(rest)) {
                Some(break_on) => Ok(TraceLines { break_on, ..s }),
                None => Ok(s),
            }
        } else {
            Ok(s)
        }
    } else {
        match read_record(t, so_base) {
            Ok(r) => Ok(TraceLines { records: s.records.push(r), ..s }),
            Err(e) => Err("bad preemption line: "@ + e + ": "@ + t),
        }
    }
}

/// What the lines of a trace say after `ls`, or the first error text.
pub open spec fn read_lines(s: TraceLines, ls: Seq<Seq<char>>, so_base: u64) -> Result<
    TraceLines,
    Seq<char>,
>
    decreases ls.len(),
{
    if ls.len() == 0 {
        Ok(s)
    } else {
        match read_line(s, ls[0], so_base) {
            Ok(t) => read_lines(t, ls.skip(1), so_base),
            Err(e) => Err(e),
        }
    }
}

/// The largest worker number among records.
pub open spec fn max_worker(records: Seq<RecordView>) -> usize
    decreases records.len(),
{
    if records.len() == 0 {
        0
    } else {
        let m = max_worker(records.drop_last());
        if records.last().worker_id.0 > m {
            records.last().worker_id.0
        } else {
            m
        }
    }
}

/// The number of workers of a trace: as the header says, or else as many as the
/// records need.
pub open spec fn worker_count(s: TraceLines) -> nat {
    if s.num_workers == 0 && s.records.len() > 0 {
        if max_worker(s.records) == usize::MAX {
            0
        } else {
            (max_worker(s.records) + 1) as nat
        }
    } else {
        s.num_workers as nat
    }
}

/// What no lines say: traces without a header are timed by branches.
pub open spec fn no_lines() -> TraceLines {
    TraceLines {
        num_workers: 0,
        break_on: PmuEvent::RetiredBranchConditional,
        records: seq![],
    }
}

/// The trace of a text, or an error text.
pub open spec fn read_trace(text: Seq<char>, so_base: u64) -> Result<TraceView, Seq<char>> {
    match read_lines(no_lines(), text::lines(text), so_base) {
        Ok(s) => Ok(trace_of(s.records, worker_count(s), s.break_on)),
        Err(e) => Err(e),
    }
}

// ---------------------------------------------------------------------------
// Grouping
// ---------------------------------------------------------------------------

proof fn lemma_views_insert(s: Seq<PreemptionRecord>, x: PreemptionRecord)
    ensures
        views(order::insert_by(s, x, record::record_key()))
            == order::insert_by(views(s), x@, view_key()),
    decreases s.len(),
{
    let key = record::record_key();
    if s.len() == 0 || key(s.last()) <= key(x) {
        assert(views(s.push(x)) =~= views(s).push(x@));
    } else {
        lemma_views_insert(s.drop_last(), x);
        let t = order::insert_by(s.drop_last(), x, key);
        assert(views(t.push(s.last())) =~= views(t).push(s.last()@));
        assert(views(s.drop_last()) =~= views(s).drop_last());
    }
}

/// Sorting records sorts what they say.
pub proof fn lemma_views_sort(s: Seq<PreemptionRecord>)
    ensures
        views(record::in_sequence(s)) == order::sort_by(
            views(s),
            view_key(),
        ),
    decreases s.len(),
{
    if s.len() > 0 {
        lemma_views_sort(s.drop_last());
        lemma_views_insert(record::in_sequence(s.drop_last()), s.last());
        assert(views(s.drop_last()) =~= views(s).drop_last());
    } else {
        assert(views(s) =~= Seq::<RecordView>::empty());
    }
}

/// The records of a worker are records of that worker.
proof fn lemma_of_worker(records: Seq<RecordView>, w: int)
    ensures
        forall|i: int|
            0 <= i < of_worker(records, w).len() ==> (#[trigger] of_worker(
                records,
                w,
            )[i]).worker_id.0 == w,
    decreases records.len(),
{
    if records.len() > 0 {
        lemma_of_worker(records.drop_last(), w);
    }
}

proof fn lemma_grouped_step(records: Seq<RecordView>, n: nat)
    requires
        records.len() > 0,
    ensures
        concatenated(grouped(records, n)).to_multiset() == if records.last().worker_id.0 < n {
            concatenated(grouped(records.drop_last(), n)).to_multiset().insert(records.last())
        } else {
            concatenated(grouped(records.drop_last(), n)).to_multiset()
        },
    decreases n,
{
    broadcast use vstd::seq_lib::group_to_multiset_ensures;

    if n > 0 {
        let m = (n - 1) as nat;
        lemma_grouped_step(records, m);
        lemma_grouped_last(records, m);
        lemma_grouped_last(records.drop_last(), m);
        let a = concatenated(grouped(records.drop_last(), m)).to_multiset();
        let t = of_worker(records.drop_last(), m as int);
        let x = records.last();
        assert(t.push(x).to_multiset() =~= t.to_multiset().insert(x));
        assert(a.insert(x).add(t.to_multiset()) =~= a.add(t.to_multiset()).insert(x));
        assert(a.add(t.to_multiset().insert(x)) =~= a.add(t.to_multiset()).insert(x));
    }
}

proof fn lemma_grouped_last(records: Seq<RecordView>, n: nat)
    ensures
        concatenated(grouped(records, n + 1)).to_multiset() == concatenated(
            grouped(records, n),
        ).to_multiset().add(of_worker(records, n as int).to_multiset()),
{
    assert(grouped(records, n + 1).drop_last() =~= grouped(records, n));
    order::lemma_sort_by(of_worker(records, n as int), view_key());
    vstd::seq_lib::lemma_multiset_commutative(
        concatenated(grouped(records, n)),
        grouped(records, n + 1).last(),
    );
}

proof fn lemma_grouped_empty(n: nat)
    ensures
        concatenated(grouped(seq![], n)).len() == 0,
    decreases n,
{
    if n > 0 {
        let m = (n - 1) as nat;
        lemma_grouped_empty(m);
        assert(grouped(seq![], n).drop_last() =~= grouped(seq![], m));
    }
}

/// Grouping adds no records, and loses none if there is a list for each worker.
pub proof fn law_grouping_keeps_records(records: Seq<RecordView>, n: nat)
    ensures
        concatenated(grouped(records, n)).len() <= records.len(),
        (forall|i: int| 0 <= i < records.len() ==> (#[trigger] records[i]).worker_id.0 < n)
            ==> concatenated(grouped(records, n)).to_multiset() == records.to_multiset(),
    decreases records.len(),
{
    broadcast use vstd::seq_lib::group_to_multiset_ensures;

    if records.len() > 0 {
        let t = records.drop_last();
        lemma_grouped_step(records, n);
        law_grouping_keeps_records(t, n);
        let a = concatenated(grouped(t, n));
        let b = concatenated(grouped(records, n));
        assert(a.to_multiset().len() == a.len() && b.to_multiset().len() == b.len());
        if forall|i: int| 0 <= i < records.len() ==> (#[trigger] records[i]).worker_id.0 < n {
            assert forall|i: int| 0 <= i < t.len() implies (#[trigger] t[i]).worker_id.0 < n by {
                assert(t[i] == records[i]);
            }
            assert(records[records.len() - 1].worker_id.0 < n);
            assert(t.push(records.last()) =~= records);
            assert(t.push(records.last()).to_multiset() =~= t.to_multiset().insert(
                records.last(),
            ));
        }
    } else {
        assert(records =~= seq![]);
        lemma_grouped_empty(n);
        assert(concatenated(grouped(records, n)) =~= records);
    }
}

/// Grouping gives a well-formed trace.
pub proof fn lemma_trace_of_wf(records: Seq<RecordView>, n: nat, break_on: PmuEvent)
    requires
        records.len() <= usize::MAX,
        n <= usize::MAX,
    ensures
        trace_of(records, n, break_on).wf(),
{
    broadcast use vstd::seq_lib::group_to_multiset_ensures;

    let t = trace_of(records, n, break_on);
    law_grouping_keeps_records(records, n);
    assert forall|w: int, i: int|
        0 <= w < t.per_worker.len() && 0 <= i < t.per_worker[w].len() implies (
    #[trigger] t.per_worker[w][i]).worker_id.0 == w by {
        let r = of_worker(records, w);
        let x = t.per_worker[w][i];
        lemma_of_worker(records, w);
        order::lemma_sort_by(r, view_key());
        assert(t.per_worker[w].to_multiset().count(x) > 0);
        assert(r.contains(x));
    }
    assert forall|w: int| 0 <= w < t.per_worker.len() implies order::ascending(
        #[trigger] t.per_worker[w],
        view_key(),
    ) by {
        order::lemma_sort_by(of_worker(records, w), view_key());
    }
}

/// A part of the workers has no more records than all.
proof fn lemma_concatenated_take(per_worker: Seq<Seq<RecordView>>, i: int)
    requires
        0 <= i <= per_worker.len(),
    ensures
        concatenated(per_worker.take(i)).len() <= concatenated(per_worker).len(),
    decreases per_worker.len(),
{
    if i == per_worker.len() {
        assert(per_worker.take(i) =~= per_worker);
    } else {
        lemma_concatenated_take(per_worker.drop_last(), i);
        assert(per_worker.drop_last().take(i) =~= per_worker.take(i));
    }
}

/// A replayable preemption trace, grouped by worker.
///
/// During recording, preemption points are captured globally. For replay,
/// they're reorganized per-worker so each worker thread knows its own
/// sequence of target preemption points.
#[derive(Debug)]
pub struct PreemptionTrace {
    per_worker: Vec<Vec<PreemptionRecord>>,
    break_on: PmuEvent,
}

impl View for PreemptionTrace {
    type V = TraceView;

    closed spec fn view(&self) -> TraceView {
        TraceView {
            per_worker: Seq::new(
                self.per_worker@.len(),
                |w: int| views(self.per_worker@[w]@),
            ),
            break_on: self.break_on,
        }
    }
}

impl Clone for PreemptionTrace {
    fn clone(&self) -> (r: PreemptionTrace)
        ensures
            r@ == self@,
    {
        proof {
            use_type_invariant(self);
        }
        let mut per_worker: Vec<Vec<PreemptionRecord>> = Vec::new();
        let mut w: usize = 0;
        while w < self.per_worker.len()
            invariant
                w <= self.per_worker@.len(),
                per_worker@.len() == w,
                forall|v: int|
                    0 <= v < w ==> (#[trigger] per_worker@[v])@ == self.per_worker@[v]@,
            decreases self.per_worker@.len() - w,
        {
            per_worker.push(copy_records(self.per_worker[w].as_slice()));
            w += 1;
        }
        let ghost copied = Seq::new(
            per_worker@.len(),
            |v: int| views(per_worker@[v]@),
        );
        assert(copied =~= self@.per_worker);
        PreemptionTrace { per_worker, break_on: self.break_on }
    }
}

impl PreemptionTrace {
    #[verifier::type_invariant]
    closed spec fn inv(self) -> bool {
        self@.wf()
    }

    /// Build a trace from globally-collected records.
    ///
    /// Records are grouped by `worker_id` and sorted by sequence number
    /// within each group so that replay follows the recorded ordering.
    pub fn from_records(
        records: &[PreemptionRecord],
        num_workers: usize,
        break_on: PmuEvent,
    ) -> (r: PreemptionTrace)
        ensures
            r@ == trace_of(views(records@), num_workers as nat, break_on),
            r@.wf(),
    {
        let mut per_worker: Vec<Vec<PreemptionRecord>> = Vec::new();
        let ghost all = views(records@);
        let mut w: usize = 0;
        while w < num_workers
            invariant
                w <= num_workers,
                per_worker@.len() == w,
                forall|v: int| 0 <= v < w ==> (#[trigger] per_worker@[v])@.len() == 0,
            decreases num_workers - w,
        {
            per_worker.push(Vec::new());
            w += 1;
        }
        let mut i: usize = 0;
        assert forall|v: int| 0 <= v < num_workers implies views((#[trigger] per_worker@[v])@)
            == of_worker(all.take(0), v) by {
            assert(views(per_worker@[v]@) =~= of_worker(all.take(0), v));
        }
        while i < records.len()
            invariant
                i <= records.len(),
                all == views(records@),
                per_worker@.len() == num_workers,
                forall|v: int|
                    0 <= v < num_workers ==> views((#[trigger] per_worker@[v])@) == of_worker(
                        all.take(i as int),
                        v,
                    ),
            decreases records.len() - i,
        {
            let rec: PreemptionRecord = records[i];
            let wid: usize = rec.worker_id.0;
            let ghost before = per_worker@;
            if wid < num_workers {
                per_worker[wid].push(rec);
            }
            i += 1;
            proof {
                let t = all.take(i as int);
                assert(t.drop_last() =~= all.take(i - 1));
                assert(t.last() == rec@);
                assert forall|v: int| 0 <= v < num_workers implies views(
                    (#[trigger] per_worker@[v])@,
                ) == of_worker(t, v) by {
                    assert(views(before[v]@) == of_worker(all.take(i - 1), v));
                    assert(views(before[v]@.push(rec)) =~= views(before[v]@).push(rec@));
                }
            }
        }
        assert(all.take(i as int) =~= all);
        let mut ordered: Vec<Vec<PreemptionRecord>> = Vec::new();
        let mut k: usize = 0;
        while k < num_workers
            invariant
                k <= num_workers,
                per_worker@.len() == num_workers,
                ordered@.len() == k,
                forall|v: int|
                    k <= v < num_workers ==> views((#[trigger] per_worker@[v])@) == of_worker(
                        all,
                        v,
                    ),
                forall|v: int|
                    0 <= v < k ==> views((#[trigger] ordered@[v])@) == order::sort_by(
                        of_worker(all, v),
                        view_key(),
                    ),
            decreases num_workers - k,
        {
            let mut bucket: Vec<PreemptionRecord> = Vec::new();
            assert(views(per_worker@[k as int]@) == of_worker(all, k as int));
            std::mem::swap(&mut per_worker[k], &mut bucket);
            proof {
                lemma_views_sort(bucket@);
            }
            ordered.push(sort_by_sequence(bucket));
            k += 1;
        }
        proof {
            lemma_trace_of_wf(all, num_workers as nat, break_on);
            assert(Seq::new(ordered@.len(), |w: int| views(ordered@[w]@)) =~= grouped(
                all,
                num_workers as nat,
            ));
        }
        PreemptionTrace { per_worker: ordered, break_on }
    }

    /// Build a trace from the records of a [`PreemptionRecordStore`], which keeps
    /// them.
    pub fn from_store(
        store: &PreemptionRecordStore,
        num_workers: usize,
        break_on: PmuEvent,
    ) -> (r: PreemptionTrace)
        ensures
            r@ == trace_of(
                views(record::in_sequence(store@)),
                num_workers as nat,
                break_on,
            ),
            r@.wf(),
    {
        let records = store.drain();
        PreemptionTrace::from_records(&records, num_workers, break_on)
    }

    /// Get the preemption points for a specific worker: none for a worker that is
    /// not in the trace.
    pub fn worker_trace(&self, worker: WorkerId) -> (r: &[PreemptionRecord])
        ensures
            views(r@) == if worker.0 < self@.per_worker.len() {
                self@.per_worker[worker.0 as int]
            } else {
                Seq::<RecordView>::empty()
            },
    {
        if worker.0 < self.per_worker.len() {
            self.per_worker[worker.0].as_slice()
        } else {
            let none: &[PreemptionRecord] = &[];
            assert(views(none@) =~= Seq::<RecordView>::empty());
            none
        }
    }

    /// Total number of preemption points across all workers.
    pub fn len(&self) -> (r: usize)
        ensures
            r == concatenated(self@.per_worker).len(),
    {
        proof {
            use_type_invariant(self);
        }
        let ghost pw = self@.per_worker;
        let mut total: usize = 0;
        let mut w: usize = 0;
        while w < self.per_worker.len()
            invariant
                w <= self.per_worker@.len(),
                pw == self@.per_worker,
                concatenated(pw).len() <= usize::MAX,
                total == concatenated(pw.take(w as int)).len(),
            decreases self.per_worker@.len() - w,
        {
            proof {
                let t = pw.take(w as int + 1);
                assert(t.drop_last() =~= pw.take(w as int));
                lemma_concatenated_take(pw, w as int + 1);
            }
            total += self.per_worker[w].len();
            w += 1;
        }
        assert(pw.take(w as int) =~= pw);
        total
    }

    /// Whether the trace contains zero preemption points.
    pub fn is_empty(&self) -> (r: bool)
        ensures
            r == (concatenated(self@.per_worker).len() == 0),
    {
        self.len() == 0
    }

    /// Number of workers in this trace.
    pub fn num_workers(&self) -> (r: usize)
        ensures
            r == self@.per_worker.len(),
    {
        self.per_worker.len()
    }

    /// Which PMU event type was used for preemption timing.
    pub fn break_on(&self) -> (r: PmuEvent)
        ensures
            r == self@.break_on,
    {
        self.break_on
    }

    /// The records of all workers, worker by worker.
    fn flatten(&self) -> (r: Vec<PreemptionRecord>)
        ensures
            views(r@) == concatenated(self@.per_worker),
    {
        let ghost pw = self@.per_worker;
        let mut all: Vec<PreemptionRecord> = Vec::new();
        let mut w: usize = 0;
        assert(views(all@) =~= concatenated(pw.take(0)));
        while w < self.per_worker.len()
            invariant
                w <= self.per_worker@.len(),
                pw == self@.per_worker,
                views(all@) == concatenated(pw.take(w as int)),
            decreases self.per_worker@.len() - w,
        {
            let ghost before = all@;
            let mut bucket = copy_records(&self.per_worker[w]);
            all.append(&mut bucket);
            w += 1;
            proof {
                let t = pw.take(w as int);
                assert(t.drop_last() =~= pw.take(w - 1));
                assert(views(all@) =~= views(before) + t.last());
            }
        }
        assert(pw.take(w as int) =~= pw);
        all
    }
}

// ---------------------------------------------------------------------------
// Writing
// ---------------------------------------------------------------------------

/// What each of the strings holds.
pub open spec fn texts(v: Seq<String>) -> Seq<Seq<char>> {
    Seq::new(v.len(), |i: int| v[i]@)
}

/// The strings with a space between each two.
fn join_words(words: &[String]) -> (r: String)
    ensures
        r@ == joined(texts(words@)),
{
    let mut r = String::new();
    let ghost ws = texts(words@);
    let mut i: usize = 0;
    assert(ws.take(0) =~= seq![]);
    while i < words.len()
        invariant
            i <= words@.len(),
            ws == texts(words@),
            r@ == joined(ws.take(i as int)),
        decreases words@.len() - i,
    {
        if i > 0 {
            r.push(' ');
        }
        r.append(words[i].as_str());
        i += 1;
        proof {
            let t = ws.take(i as int);
            assert(t.drop_last() =~= ws.take(i - 1));
            assert(r@ =~= joined(t));
        }
    }
    assert(ws.take(i as int) =~= ws);
    r
}

/// The word `name=value`, where `name` ends with the `=`.
fn word(name: &str, value: &str) -> (r: String)
    ensures
        r@ == name@ + value@,
{
    let mut r = name.to_owned();
    r.append(value);
    r
}

/// The line of a record.
fn line_of(rec: &PreemptionRecord, so_base: u64) -> (r: String)
    ensures
        r@ == record_line(rec@, so_base),
{
    let rip_offset: u64 = if so_base > 0 && rec.instruction_pointer >= so_base {
        rec.instruction_pointer - so_base
    } else {
        rec.instruction_pointer
    };
    let mut structop = word("structop=", decimal_text(rec.structop_local).as_str());
    structop.append(":");
    structop.append(decimal_text(rec.structop_global).as_str());
    let mut rip = word("rip=", "0x");
    rip.append(hexadecimal_text(rec.instruction_pointer).as_str());
    let mut offset = word("rip_offset=", "0x");
    offset.append(hexadecimal_text(rip_offset).as_str());
    let mut words: Vec<String> = Vec::new();
    words.push(word("seq=", decimal_text(rec.sequence).as_str()));
    if rec.ops_context != OpsContext::NoOps || !rec.kfunc_name.is_empty() {
        let kfunc = if rec.kfunc_name.is_empty() {
            "-"
        } else {
            rec.kfunc_name
        };
        words.push(word("ops=", rec.ops_context.short_name()));
        words.push(word("kfunc=", kfunc));
    }
    words.push(structop);
    words.push(word("rbc=", decimal_text(rec.structop_rbc).as_str()));
    words.push(word("timeslice=", decimal_text(rec.rbc_count).as_str()));
    words.push(rip);
    words.push(offset);
    words.push(word("cpu=", decimal_text(rec.cpu_id.0 as u64).as_str()));
    words.push(word("worker=", decimal_text(rec.worker_id.0 as u64).as_str()));
    assert(texts(words@) =~= record_words(rec@, so_base));
    join_words(&words)
}

/// Append a line and a line feed.
fn write_line(text: &mut String, line: &str)
    ensures
        final(text)@ == old(text)@ + line@ + seq!['\n'],
{
    text.append(line);
    text.push('\n');
    assert(text@ =~= old(text)@ + line@ + seq!['\n']);
}

proof fn lemma_with_line_feeds_push(lines: Seq<Seq<char>>, line: Seq<char>)
    ensures
        with_line_feeds(lines.push(line)) == with_line_feeds(lines) + line + seq!['\n'],
{
    assert(lines.push(line).drop_last() =~= lines);
}

impl PreemptionTrace {
    /// Serialize the trace to a line-oriented text format.
    ///
    /// Format:
    /// ```text
    /// # scxsim preemption trace
    /// # workers: 2
    /// # break_on: rbc
    /// # total: 47
    /// seq=0 structop=1:2 rbc=10 timeslice=142 rip=0x7f3a rip_offset=0xc7c cpu=0 worker=0
    /// ```
    ///
    /// `rbc` is the cumulative RBC within the structop. `timeslice` is the
    /// raw PMU count for this preemption (used by the replay engine).
    /// A record made in a callback or at a kfunc has both `ops=` and `kfunc=`
    /// behind its number, with `kfunc=-` if there was no kfunc.
    /// `so_base` is used to compute `rip_offset` (ASLR-resilient).
    pub fn serialize(&self, so_base: u64) -> (r: String)
        ensures
            r@ == trace_text(self@, so_base),
    {
        let total: usize = self.len();
        let ghost head = header_lines(self@);
        let mut text = String::new();
        write_line(&mut text, "# scxsim preemption trace");
        let workers = word("# workers: ", decimal_text(self.per_worker.len() as u64).as_str());
        write_line(&mut text, workers.as_str());
        let break_on = word("# break_on: ", self.break_on.short_name());
        write_line(&mut text, break_on.as_str());
        let total_line = word("# total: ", decimal_text(total as u64).as_str());
        write_line(&mut text, total_line.as_str());
        proof {
            let none = Seq::<Seq<char>>::empty();
            assert(text@ =~= with_line_feeds(head)) by {
                lemma_with_line_feeds_push(none, head[0]);
                lemma_with_line_feeds_push(none.push(head[0]), head[1]);
                lemma_with_line_feeds_push(none.push(head[0]).push(head[1]), head[2]);
                lemma_with_line_feeds_push(
                    none.push(head[0]).push(head[1]).push(head[2]),
                    head[3],
                );
                assert(head =~= none.push(head[0]).push(head[1]).push(head[2]).push(head[3]));
            }
        }
        // Flatten and sort by sequence for canonical output order.
        let all = self.flatten();
        proof {
            lemma_views_sort(all@);
        }
        let all = sort_by_sequence(all);
        let ghost tail = record_lines(canonical(self@), so_base);
        let mut i: usize = 0;
        assert(head + tail.take(0) =~= head);
        while i < all.len()
            invariant
                i <= all@.len(),
                views(all@) == canonical(self@),
                tail == record_lines(canonical(self@), so_base),
                text@ == with_line_feeds(head + tail.take(i as int)),
            decreases all@.len() - i,
        {
            let line = line_of(&all[i], so_base);
            write_line(&mut text, line.as_str());
            i += 1;
            proof {
                assert(canonical(self@)[i - 1] == all@[i - 1]@);
                lemma_with_line_feeds_push(head + tail.take(i - 1), tail[i - 1]);
                assert((head + tail.take(i - 1)).push(tail[i - 1]) =~= head + tail.take(i as int));
            }
        }
        assert(tail.take(i as int) =~= tail);
        text
    }
}

// ---------------------------------------------------------------------------
// Reading a line
// ---------------------------------------------------------------------------

/// `Box::leak` on an owned copy of `s`: the characters of `s`, in a string that is
/// never freed.
#[verifier::external_body]
fn leak(s: &str) -> (r: &'static str)
    ensures
        r@ == s@,
{
    Box::leak(s.to_owned().into_boxed_str())
}

/// The kfunc name that `s` stands for.
///
/// Names that are not known are kept for the life of the program; these are a
/// small, bounded set, so that what is never freed is negligible.
fn leak_str(s: &str) -> (r: &'static str)
    ensures
        r@ == kfunc_of(s@),
{
    if text_eq(s, "-") || s.is_empty() {
        assert(""@ =~= Seq::<char>::empty()) by {
            reveal_strlit("");
        }
        assert(s@.len() == 0 ==> s@ =~= Seq::<char>::empty());
        return "";
    }
    // Known kfunc names need no copy.
    if text_eq(s, "select_cpu_dfl") {
        "select_cpu_dfl"
    } else if text_eq(s, "select_cpu_and") {
        "select_cpu_and"
    } else if text_eq(s, "dsq_insert") {
        "dsq_insert"
    } else if text_eq(s, "dsq_insert_vtime") {
        "dsq_insert_vtime"
    } else if text_eq(s, "dsq_move_to_local") {
        "dsq_move_to_local"
    } else if text_eq(s, "dsq_nr_queued") {
        "dsq_nr_queued"
    } else if text_eq(s, "now") {
        "now"
    } else if text_eq(s, "get_smp_processor_id") {
        "get_smp_processor_id"
    } else if text_eq(s, "task_cpu") {
        "task_cpu"
    } else if text_eq(s, "ktime_get_ns") {
        "ktime_get_ns"
    } else if text_eq(s, "get_current_task_btf") {
        "get_current_task_btf"
    } else if text_eq(s, "dsq_iter_begin") {
        "dsq_iter_begin"
    } else if text_eq(s, "dsq_iter_next") {
        "dsq_iter_next"
    } else if text_eq(s, "dsq_move") {
        "dsq_move"
    } else if text_eq(s, "kick_cpu") {
        "kick_cpu"
    } else if text_eq(s, "task_running") {
        "task_running"
    } else {
        leak(s)
    }
}

fn parse_u64(s: &[char]) -> (r: Result<u64, IntError>)
    ensures
        r == read_u64(s@),
{
    parse_number(s, 10, u64::MAX)
}

fn parse_u32(s: &[char]) -> (r: Result<u32, IntError>)
    ensures
        r == read_u32(s@),
{
    match parse_number(s, 10, u32::MAX as u64) {
        Ok(v) => {
            proof {
                text::lemma_read_number_max(s@, 10, u32::MAX as nat);
            }
            Ok(v as u32)
        },
        Err(e) => Err(e),
    }
}

fn parse_usize(s: &[char]) -> (r: Result<usize, IntError>)
    ensures
        r == read_usize(s@),
{
    match parse_number(s, 10, usize::MAX as u64) {
        Ok(v) => {
            proof {
                text::lemma_read_number_max(s@, 10, usize::MAX as nat);
            }
            Ok(v as usize)
        },
        Err(e) => Err(e),
    }
}

fn parse_address(s: &[char]) -> (r: Result<u64, IntError>)
    ensures
        r == read_hex_or_dec(s@),
{
    if let Some(hex) = strip_prefix(s, "0x") {
        parse_number(hex, 16, u64::MAX)
    } else if let Some(hex) = strip_prefix(s, "0X") {
        parse_number(hex, 16, u64::MAX)
    } else {
        parse_u64(s)
    }
}

/// Parse a string as hex (0x prefix) or decimal.
pub fn parse_hex_or_dec(s: &str) -> (r: Result<u64, String>)
    ensures
        match r {
            Ok(v) => read_hex_or_dec(s@) == Ok::<u64, IntError>(v),
            Err(e) => read_hex_or_dec(s@) matches Err(ie) && e@ == ie.text(),
        },
{
    let chars = chars_of(s);
    match parse_address(&chars) {
        Ok(v) => Ok(v),
        Err(e) => Err(e.message().to_owned()),
    }
}

/// The values that the words of a line have set.
struct LineFields {
    seq: u64,
    rbc: Option<u64>,
    timeslice: Option<u64>,
    rip: u64,
    rip_offset: Option<u64>,
    cpu: u32,
    worker: usize,
    structop_local: u64,
    structop_global: u64,
    ops_context: OpsContext,
    kfunc_name: &'static str,
}

impl View for LineFields {
    type V = LineValues;

    closed spec fn view(&self) -> LineValues {
        LineValues {
            seq: self.seq,
            rbc: self.rbc,
            timeslice: self.timeslice,
            rip: self.rip,
            rip_offset: self.rip_offset,
            cpu: self.cpu,
            worker: self.worker,
            structop_local: self.structop_local,
            structop_global: self.structop_global,
            ops_context: self.ops_context,
            kfunc_name: self.kfunc_name@,
        }
    }
}

fn bad_field(field: &str, e: IntError) -> (r: String)
    ensures
        r@ == field_error(field@, e),
{
    let mut r = field.to_owned();
    r.append(": ");
    r.append(e.message());
    r
}

/// The values after one more word, or an error text.
fn apply_word(f: LineFields, part: &[char]) -> (r: Result<LineFields, String>)
    ensures
        match r {
            Ok(g) => read_word(f@, part@) == Ok::<LineValues, Seq<char>>(g@),
            Err(e) => read_word(f@, part@) == Err::<LineValues, Seq<char>>(e@),
        },
{
    reveal(read_word);
    let mut f = f;
    if let Some(val) = strip_prefix(part, "seq=") {
        match parse_u64(val) {
            Ok(v) => {
                f.seq = v;
            },
            Err(e) => {
                return Err(bad_field("seq", e));
            },
        }
    } else if let Some(val) = strip_prefix(part, "timeslice=") {
        match parse_u64(val) {
            Ok(v) => {
                f.timeslice = Some(v);
            },
            Err(e) => {
                return Err(bad_field("timeslice", e));
            },
        }
    } else if let Some(val) = strip_prefix(part, "rbc=") {
        match parse_u64(val) {
            Ok(v) => {
                f.rbc = Some(v);
            },
            Err(e) => {
                return Err(bad_field("rbc", e));
            },
        }
    } else if let Some(val) = strip_prefix(part, "rip=") {
        match parse_address(val) {
            Ok(v) => {
                f.rip = v;
            },
            Err(e) => {
                return Err(bad_field("rip", e));
            },
        }
    } else if let Some(val) = strip_prefix(part, "rip_offset=") {
        match parse_address(val) {
            Ok(v) => {
                f.rip_offset = Some(v);
            },
            Err(e) => {
                return Err(bad_field("rip_offset", e));
            },
        }
    } else if let Some(val) = strip_prefix(part, "cpu=") {
        match parse_u32(val) {
            Ok(v) => {
                f.cpu = v;
            },
            Err(e) => {
                return Err(bad_field("cpu", e));
            },
        }
    } else if let Some(val) = strip_prefix(part, "worker=") {
        match parse_usize(val) {
            Ok(v) => {
                f.worker = v;
            },
            Err(e) => {
                return Err(bad_field("worker", e));
            },
        }
    } else if let Some(val) = strip_prefix(part, "structop=") {
        // "L:G" format.
        let colon: usize = find_char(val, ':');
        if colon < val.len() {
            let local = slice_subrange(val, 0, colon);
            let global = slice_subrange(val, colon + 1, val.len());
            assert(local@ =~= val@.take(colon as int));
            assert(global@ =~= val@.skip(colon + 1));
            match parse_u64(local) {
                Ok(v) => {
                    f.structop_local = v;
                },
                Err(e) => {
                    return Err(bad_field("structop local", e));
                },
            }
            match parse_u64(global) {
                Ok(v) => {
                    f.structop_global = v;
                },
                Err(e) => {
                    return Err(bad_field("structop global", e));
                },
            }
        }
    } else if let Some(val) = strip_prefix(part, "ops=") {
        f.ops_context = OpsContext::from_short_name(string_of(val).as_str());
    } else if let Some(val) = strip_prefix(part, "kfunc=") {
        f.kfunc_name = leak_str(string_of(val).as_str());
    }
    Ok(f)
}

/// The record that a line's values describe.
fn finish_line(f: LineFields, so_base: u64) -> (r: PreemptionRecord)
    ensures
        r@ == record_from(f@, so_base),
{
    // Prefer rip_offset + so_base for ASLR resilience.
    let instruction_pointer: u64 = match f.rip_offset {
        Some(offset) => if so_base > 0 {
            so_base.wrapping_add(offset)
        } else {
            f.rip
        },
        None => f.rip,
    };
    // With timeslice= that is the raw PMU count, and rbc= the cumulative structop
    // RBC; without it, rbc= is the raw PMU count.
    let rbc_count: u64 = match f.timeslice {
        Some(v) => v,
        None => match f.rbc {
            Some(v) => v,
            None => 0,
        },
    };
    let structop_rbc: u64 = match (f.timeslice, f.rbc) {
        (Some(_), Some(v)) => v,
        _ => 0,
    };
    PreemptionRecord {
        sequence: f.seq,
        rbc_count,
        instruction_pointer,
        cpu_id: CpuId(f.cpu),
        worker_id: WorkerId(f.worker),
        structop_local: f.structop_local,
        structop_global: f.structop_global,
        structop_rbc,
        ops_context: f.ops_context,
        kfunc_name: f.kfunc_name,
    }
}

fn parse_line(line: &[char], so_base: u64) -> (r: Result<PreemptionRecord, String>)
    ensures
        match r {
            Ok(rec) => read_record(line@, so_base) == Ok::<RecordView, Seq<char>>(rec@),
            Err(e) => read_record(line@, so_base) == Err::<RecordView, Seq<char>>(e@),
        },
{
    let mut f = LineFields {
        seq: 0,
        rbc: None,
        timeslice: None,
        rip: 0,
        rip_offset: None,
        cpu: 0,
        worker: 0,
        structop_local: 0,
        structop_global: 0,
        ops_context: OpsContext::NoOps,
        kfunc_name: "",
    };
    assert(f@.kfunc_name =~= Seq::<char>::empty()) by {
        reveal_strlit("");
    }
    assert(f@ == no_values());
    let mut rest: &[char] = line;
    loop
        invariant
            read_words(no_values(), text::words(line@)) == read_words(
                f@,
                text::words(rest@),
            ),
        decreases rest@.len(),
    {
        match split_word(rest) {
            None => {
                return Ok(finish_line(f, so_base));
            },
            Some((part, tail)) => {
                assert((seq![part@] + text::words(tail@)).skip(1) =~= text::words(
                    tail@,
                ));
                match apply_word(f, part) {
                    Ok(g) => {
                        f = g;
                    },
                    Err(e) => {
                        return Err(e);
                    },
                }
                rest = tail;
            },
        }
    }
}

/// Parse a single preemption trace line into a [`PreemptionRecord`].
///
/// Uses `rip_offset` to reconstruct the absolute RIP relative to the
/// current `so_base`. Falls back to the stored `rip` if offset is missing.
/// A line with `timeslice=` has the raw count there and the cumulative structop
/// RBC under `rbc=`; a line without it has the raw count under `rbc=`.
pub fn parse_preemption_line(line: &str, so_base: u64) -> (r: Result<PreemptionRecord, String>)
    ensures
        match r {
            Ok(rec) => read_record(line@, so_base) == Ok::<RecordView, Seq<char>>(rec@),
            Err(e) => read_record(line@, so_base) == Err::<RecordView, Seq<char>>(e@),
        },
{
    let chars = chars_of(line);
    parse_line(&chars, so_base)
}

// ---------------------------------------------------------------------------
// Reading a trace
// ---------------------------------------------------------------------------

/// What the lines of a trace have said so far.
struct TraceReader {
    num_workers: usize,
    break_on: PmuEvent,
    records: Vec<PreemptionRecord>,
}

impl View for TraceReader {
    type V = TraceLines;

    closed spec fn view(&self) -> TraceLines {
        TraceLines {
            num_workers: self.num_workers,
            break_on: self.break_on,
            records: views(self.records@),
        }
    }
}

impl TraceReader {
    /// Take in one more line, or give an error text.
    fn take_line(&mut self, line: &[char], so_base: u64) -> (r: Result<(), String>)
        ensures
            match r {
                Ok(_) => read_line(old(self)@, line@, so_base) == Ok::<TraceLines, Seq<char>>(
                    final(self)@,
                ),
                Err(e) => read_line(old(self)@, line@, so_base) == Err::<TraceLines, Seq<char>>(
                    e@,
                ),
            },
    {
        let line = trim(line);
        if line.len() == 0 {
            return Ok(());
        }
        if strip_prefix(line, "#").is_some() {
            // Header comments.
            if let Some(rest) = strip_prefix(line, "# workers: ") {
                match parse_usize(trim(rest)) {
                    Ok(n) => {
                        self.num_workers = n;
                    },
                    Err(e) => {
                        return Err(e.message().to_owned());
                    },
                }
            } else if let Some(rest) = strip_prefix(line, "# break_on: ") {
                if let Some(event) = PmuEvent::from_short_name(string_of(trim(rest)).as_str()) {
                    self.break_on = event;
                }
            }
            return Ok(());
        }
        match parse_line(line, so_base) {
            Ok(rec) => {
                self.records.push(rec);
                assert(views(self.records@) =~= views(old(self).records@).push(rec@));
                Ok(())
            },
            Err(e) => {
                let mut text = "bad preemption line: ".to_owned();
                text.append(e.as_str());
                text.append(": ");
                text.append(string_of(line).as_str());
                Err(text)
            },
        }
    }
}

/// The largest worker number among records.
fn largest_worker(records: &[PreemptionRecord]) -> (r: usize)
    ensures
        r == max_worker(views(records@)),
{
    let ghost all = views(records@);
    let mut m: usize = 0;
    let mut i: usize = 0;
    while i < records.len()
        invariant
            i <= records@.len(),
            all == views(records@),
            m == max_worker(all.take(i as int)),
        decreases records@.len() - i,
    {
        if records[i].worker_id.0 > m {
            m = records[i].worker_id.0;
        }
        i += 1;
        assert(all.take(i as int).drop_last() =~= all.take(i - 1));
    }
    assert(all.take(i as int) =~= all);
    m
}

impl PreemptionTrace {
    /// Deserialize a trace from the line-oriented text format.
    ///
    /// Parses the header to get the worker count and break_on event type,
    /// then each `seq=...` line into a [`PreemptionRecord`]. Uses
    /// `rip_offset` + `so_base` to reconstruct absolute RIPs if the
    /// current .so base differs from the recording.
    ///
    /// Traces without a `# break_on:` header default to `rbc`.
    pub fn deserialize(text: &str, so_base: u64) -> (r: Result<PreemptionTrace, String>)
        ensures
            match r {
                Ok(t) => read_trace(text@, so_base) == Ok::<TraceView, Seq<char>>(t@) && t@.wf(),
                Err(e) => read_trace(text@, so_base) == Err::<TraceView, Seq<char>>(e@),
            },
    {
        let chars = chars_of(text);
        let mut reader = TraceReader {
            num_workers: 0,
            break_on: PmuEvent::RetiredBranchConditional,
            records: Vec::new(),
        };
        assert(reader@ =~= no_lines());
        let mut rest: &[char] = &chars;
        loop
            invariant_except_break
                read_lines(no_lines(), text::lines(text@), so_base) == read_lines(
                    reader@,
                    text::lines(rest@),
                    so_base,
                ),
            ensures
                read_lines(no_lines(), text::lines(text@), so_base) == Ok::<
                    TraceLines,
                    Seq<char>,
                >(reader@),
            decreases rest@.len(),
        {
            match split_line(rest) {
                None => {
                    break;
                },
                Some((line, tail)) => {
                    assert((seq![line@] + text::lines(tail@)).skip(1) =~= text::lines(
                        tail@,
                    ));
                    match reader.take_line(line, so_base) {
                        Ok(_) => {},
                        Err(e) => {
                            return Err(e);
                        },
                    }
                    rest = tail;
                },
            }
        }
        let mut num_workers: usize = reader.num_workers;
        if num_workers == 0 && reader.records.len() > 0 {
            // Infer worker count from max worker_id.
            num_workers = largest_worker(&reader.records).wrapping_add(1);
        }
        Ok(PreemptionTrace::from_records(&reader.records, num_workers, reader.break_on))
    }
}

} // verus!
