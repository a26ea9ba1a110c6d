//! Laws of the trace format: what is written can be read back.

use vstd::prelude::*;

use crate::order;
use crate::perf;
use crate::perf::PmuEvent;
use crate::preempt::record::{PreemptionRecord, RecordView};
use crate::preempt::trace;
use crate::preempt::trace::{LineValues, TraceLines, TraceView};
use crate::text;
use crate::text::IntError;
use crate::types;
use crate::types::OpsContext;

verus! {

/// Whether the kfunc name of a record can be written as one word.
pub open spec fn has_word_kfunc(r: RecordView) -> bool {
    text::is_solid(r.kfunc_name)
}

/// Whether all kfunc names of a trace can be written as words.
pub open spec fn has_word_kfuncs(t: TraceView) -> bool {
    forall|w: int, i: int|
        0 <= w < t.per_worker.len() && 0 <= i < t.per_worker[w].len() ==> has_word_kfunc(
            #[trigger] t.per_worker[w][i],
        )
}

/// Whether the kfunc name of a record can be written as one word that reads back
/// as the same name.
pub open spec fn has_plain_kfunc(r: RecordView) -> bool {
    has_word_kfunc(r) && r.kfunc_name != "-"@
}

/// Whether all kfunc names of a trace can be written and read back as the same
/// names.
pub open spec fn has_plain_kfuncs(t: TraceView) -> bool {
    forall|w: int, i: int|
        0 <= w < t.per_worker.len() && 0 <= i < t.per_worker[w].len() ==> has_plain_kfunc(
            #[trigger] t.per_worker[w][i],
        )
}

/// A record in which a kfunc name `-` has given way to no name.
pub open spec fn undashed_record(r: RecordView) -> RecordView {
    RecordView { kfunc_name: trace::kfunc_of(r.kfunc_name), ..r }
}

/// A trace in which each kfunc name `-` has given way to no name.
pub open spec fn undashed_trace(t: TraceView) -> TraceView {
    TraceView {
        per_worker: Seq::new(
            t.per_worker.len(),
            |w: int| Seq::new(t.per_worker[w].len(), |i: int| undashed_record(t.per_worker[w][i])),
        ),
        break_on: t.break_on,
    }
}

/// The address `rip`, recorded relative to the base `from`, after the code has
/// moved to the base `to`.
pub open spec fn moved_rip(rip: u64, from: u64, to: u64) -> u64 {
    if to > 0 {
        trace::absolute_rip(to, trace::relative_rip(rip, from))
    } else {
        rip
    }
}

/// A record that was written with the base `from` and read with the base `to`: its
/// code has moved, and `-` stands for no kfunc name. All else is kept.
pub open spec fn reread_record(r: RecordView, from: u64, to: u64) -> RecordView {
    RecordView {
        instruction_pointer: moved_rip(r.instruction_pointer, from, to),
        ..undashed_record(r)
    }
}

/// Records that were written with one base and read with another.
pub open spec fn reread_records(s: Seq<RecordView>, from: u64, to: u64) -> Seq<RecordView> {
    Seq::new(s.len(), |i: int| reread_record(s[i], from, to))
}

/// A trace that was written with one base and read with another.
pub open spec fn reread_trace(t: TraceView, from: u64, to: u64) -> TraceView {
    TraceView {
        per_worker: Seq::new(
            t.per_worker.len(),
            |w: int| reread_records(t.per_worker[w], from, to),
        ),
        break_on: t.break_on,
    }
}

// ---------------------------------------------------------------------------
// Words
// ---------------------------------------------------------------------------

proof fn lemma_decimal_u64(n: u64)
    ensures
        trace::read_u64(text::decimal(n as nat)) == Ok::<u64, IntError>(n),
{
    text::law_number_round_trip(n as nat, 10, u64::MAX as nat);
}

proof fn lemma_address(n: u64)
    ensures
        trace::read_hex_or_dec("0x"@ + text::hexadecimal(n as nat)) == Ok::<
            u64,
            IntError,
        >(n),
{
    text::lemma_after_prefix("0x"@, text::hexadecimal(n as nat));
    text::law_number_round_trip(n as nat, 16, u64::MAX as nat);
}

/// Reading the word of the sequence number.
proof fn lemma_read_seq(f: LineValues, n: u64)
    ensures
        trace::read_word(f, "seq="@ + text::decimal(n as nat)) == Ok::<
            LineValues,
            Seq<char>,
        >(LineValues { seq: n, ..f }),
{
    reveal(trace::read_word);
    text::lemma_after_prefix("seq="@, text::decimal(n as nat));
    lemma_decimal_u64(n);
}

/// Which names the word `s` does not begin with, by one character of each.
proof fn lemma_other_names(s: Seq<char>)
    ensures
        s.len() > 0 && s[0] != 's' ==> text::after_prefix(s, "seq="@) is None
            && text::after_prefix(s, "structop="@) is None,
        s.len() > 1 && s[1] != 'e' ==> text::after_prefix(s, "seq="@) is None,
        s.len() > 0 && s[0] != 't' ==> text::after_prefix(s, "timeslice="@) is None,
        s.len() > 0 && s[0] != 'r' ==> text::after_prefix(s, "rbc="@) is None
            && text::after_prefix(s, "rip="@) is None && text::after_prefix(
            s,
            "rip_offset="@,
        ) is None,
        s.len() > 1 && s[1] != 'b' ==> text::after_prefix(s, "rbc="@) is None,
        s.len() > 3 && s[3] != '=' ==> text::after_prefix(s, "rip="@) is None,
        s.len() > 0 && s[0] != 'c' ==> text::after_prefix(s, "cpu="@) is None,
        s.len() > 0 && s[0] != 'w' ==> text::after_prefix(s, "worker="@) is None,
        s.len() > 0 && s[0] != 'o' ==> text::after_prefix(s, "ops="@) is None,
{
    reveal_strlit("seq=");
    reveal_strlit("timeslice=");
    reveal_strlit("rbc=");
    reveal_strlit("rip=");
    reveal_strlit("rip_offset=");
    reveal_strlit("cpu=");
    reveal_strlit("worker=");
    reveal_strlit("structop=");
    reveal_strlit("ops=");
    if s.len() > 0 {
        if s[0] != 's' {
            text::lemma_not_prefix(s, "seq="@, 0);
            text::lemma_not_prefix(s, "structop="@, 0);
        }
        if s[0] != 't' {
            text::lemma_not_prefix(s, "timeslice="@, 0);
        }
        if s[0] != 'r' {
            text::lemma_not_prefix(s, "rbc="@, 0);
            text::lemma_not_prefix(s, "rip="@, 0);
            text::lemma_not_prefix(s, "rip_offset="@, 0);
        }
        if s[0] != 'c' {
            text::lemma_not_prefix(s, "cpu="@, 0);
        }
        if s[0] != 'w' {
            text::lemma_not_prefix(s, "worker="@, 0);
        }
        if s[0] != 'o' {
            text::lemma_not_prefix(s, "ops="@, 0);
        }
    }
    if s.len() > 1 && s[1] != 'e' {
        text::lemma_not_prefix(s, "seq="@, 1);
    }
    if s.len() > 1 && s[1] != 'b' {
        text::lemma_not_prefix(s, "rbc="@, 1);
    }
    if s.len() > 3 && s[3] != '=' {
        text::lemma_not_prefix(s, "rip="@, 3);
    }
}

proof fn lemma_read_timeslice(f: LineValues, n: u64)
    ensures
        trace::read_word(f, "timeslice="@ + text::decimal(n as nat)) == Ok::<
            LineValues,
            Seq<char>,
        >(LineValues { timeslice: Some(n), ..f }),
{
    reveal(trace::read_word);
    reveal_strlit("timeslice=");
    lemma_other_names("timeslice="@ + text::decimal(n as nat));
    text::lemma_after_prefix("timeslice="@, text::decimal(n as nat));
    lemma_decimal_u64(n);
}

proof fn lemma_read_rbc(f: LineValues, n: u64)
    ensures
        trace::read_word(f, "rbc="@ + text::decimal(n as nat)) == Ok::<
            LineValues,
            Seq<char>,
        >(LineValues { rbc: Some(n), ..f }),
{
    reveal(trace::read_word);
    reveal_strlit("rbc=");
    lemma_other_names("rbc="@ + text::decimal(n as nat));
    text::lemma_after_prefix("rbc="@, text::decimal(n as nat));
    lemma_decimal_u64(n);
}

proof fn lemma_read_rip(f: LineValues, n: u64)
    ensures
        trace::read_word(
            f,
            "rip="@ + "0x"@ + text::hexadecimal(n as nat),
        ) == Ok::<LineValues, Seq<char>>(LineValues { rip: n, ..f }),
{
    reveal(trace::read_word);
    let v = "0x"@ + text::hexadecimal(n as nat);
    assert("rip="@ + "0x"@ + text::hexadecimal(n as nat) =~= "rip="@ + v);
    reveal_strlit("rip=");
    lemma_other_names("rip="@ + v);
    text::lemma_after_prefix("rip="@, v);
    lemma_address(n);
}

proof fn lemma_read_rip_offset(f: LineValues, n: u64)
    ensures
        trace::read_word(
            f,
            "rip_offset="@ + "0x"@ + text::hexadecimal(n as nat),
        ) == Ok::<LineValues, Seq<char>>(LineValues { rip_offset: Some(n), ..f }),
{
    reveal(trace::read_word);
    let v = "0x"@ + text::hexadecimal(n as nat);
    assert("rip_offset="@ + "0x"@ + text::hexadecimal(n as nat) =~= "rip_offset="@ + v);
    reveal_strlit("rip_offset=");
    lemma_other_names("rip_offset="@ + v);
    text::lemma_after_prefix("rip_offset="@, v);
    lemma_address(n);
}

proof fn lemma_read_cpu(f: LineValues, n: u32)
    ensures
        trace::read_word(f, "cpu="@ + text::decimal(n as nat)) == Ok::<
            LineValues,
            Seq<char>,
        >(LineValues { cpu: n, ..f }),
{
    reveal(trace::read_word);
    reveal_strlit("cpu=");
    lemma_other_names("cpu="@ + text::decimal(n as nat));
    text::lemma_after_prefix("cpu="@, text::decimal(n as nat));
    text::law_number_round_trip(n as nat, 10, u32::MAX as nat);
}

proof fn lemma_read_worker(f: LineValues, n: usize)
    ensures
        trace::read_word(f, "worker="@ + text::decimal(n as nat)) == Ok::<
            LineValues,
            Seq<char>,
        >(LineValues { worker: n, ..f }),
{
    reveal(trace::read_word);
    reveal_strlit("worker=");
    lemma_other_names("worker="@ + text::decimal(n as nat));
    text::lemma_after_prefix("worker="@, text::decimal(n as nat));
    text::law_number_round_trip(n as nat, 10, usize::MAX as nat);
}

proof fn lemma_read_structop(f: LineValues, l: u64, g: u64)
    ensures
        trace::read_word(
            f,
            "structop="@ + text::decimal(l as nat) + ":"@ + text::decimal(g as nat),
        ) == Ok::<LineValues, Seq<char>>(
            LineValues { structop_local: l, structop_global: g, ..f },
        ),
{
    reveal(trace::read_word);
    reveal_strlit("structop=");
    reveal_strlit(":");
    let dl = text::decimal(l as nat);
    let dg = text::decimal(g as nat);
    let v = dl + seq![':'] + dg;
    let s = "structop="@ + v;
    assert("structop="@ + dl + ":"@ + dg =~= s);
    lemma_other_names(s);
    text::lemma_after_prefix("structop="@, v);
    text::lemma_digits_chars(l as nat, 10);
    assert forall|i: int| 0 <= i < dl.len() implies #[trigger] dl[i] != ':' by {
        assert(text::is_digit_char(dl[i]));
    }
    text::lemma_len_before_separator(dl, ':', dg);
    assert(v.take(dl.len() as int) =~= dl);
    assert(v.skip(dl.len() as int + 1) =~= dg);
    lemma_decimal_u64(l);
    lemma_decimal_u64(g);
}

proof fn lemma_read_ops(f: LineValues, c: OpsContext)
    ensures
        trace::read_word(f, "ops="@ + c.name()) == Ok::<LineValues, Seq<char>>(
            LineValues { ops_context: c, ..f },
        ),
{
    reveal(trace::read_word);
    reveal_strlit("ops=");
    lemma_other_names("ops="@ + c.name());
    text::lemma_after_prefix("ops="@, c.name());
    types::law_ops_context_name_round_trip(c);
}

proof fn lemma_read_kfunc(f: LineValues, v: Seq<char>)
    ensures
        trace::read_word(f, "kfunc="@ + v) == Ok::<LineValues, Seq<char>>(
            LineValues { kfunc_name: trace::kfunc_of(v), ..f },
        ),
{
    reveal(trace::read_word);
    reveal_strlit("kfunc=");
    lemma_other_names("kfunc="@ + v);
    text::lemma_after_prefix("kfunc="@, v);
}

// ---------------------------------------------------------------------------
// Lines
// ---------------------------------------------------------------------------

proof fn lemma_read_words_push(f: LineValues, ws: Seq<Seq<char>>, w: Seq<char>)
    ensures
        trace::read_words(f, ws.push(w)) == match trace::read_words(
            f,
            ws,
        ) {
            Ok(g) => trace::read_word(g, w),
            Err(e) => Err(e),
        },
    decreases ws.len(),
{
    if ws.len() == 0 {
        assert(ws.push(w).skip(1) =~= Seq::<Seq<char>>::empty());
        assert(ws.push(w)[0] == w);
        reveal_with_fuel(trace::read_words, 2);
    } else {
        assert(ws.push(w).skip(1) =~= ws.skip(1).push(w));
        assert(ws.push(w)[0] == ws[0]);
        if let Ok(g) = trace::read_word(f, ws[0]) {
            lemma_read_words_push(g, ws.skip(1), w);
        }
    }
}

/// Reading words is reading the first part and then the rest.
proof fn lemma_read_words_add(f: LineValues, a: Seq<Seq<char>>, b: Seq<Seq<char>>)
    ensures
        trace::read_words(f, a + b) == match trace::read_words(f, a) {
            Ok(g) => trace::read_words(g, b),
            Err(e) => Err(e),
        },
    decreases a.len(),
{
    if a.len() == 0 {
        assert(a + b =~= b);
    } else {
        assert((a + b)[0] == a[0]);
        assert((a + b).skip(1) =~= a.skip(1) + b);
        if let Ok(g) = trace::read_word(f, a[0]) {
            lemma_read_words_add(g, a.skip(1), b);
        }
    }
}

/// Reading one word.
proof fn lemma_read_words_single(f: LineValues, w: Seq<char>)
    ensures
        trace::read_words(f, seq![w]) == trace::read_word(f, w),
{
    let none = Seq::<Seq<char>>::empty();
    lemma_read_words_push(f, none, w);
    assert(none.push(w) =~= seq![w]);
}

/// Reading the words of a record gives the record's values.
proof fn lemma_read_record_words(r: RecordView, so_base: u64) -> (f: LineValues)
    requires
        has_word_kfunc(r),
    ensures
        trace::read_words(
            trace::no_values(),
            trace::record_words(r, so_base),
        ) == Ok::<LineValues, Seq<char>>(f),
        f == (LineValues {
            seq: r.sequence,
            rbc: Some(r.structop_rbc),
            timeslice: Some(r.rbc_count),
            rip: r.instruction_pointer,
            rip_offset: Some(
                trace::relative_rip(r.instruction_pointer, so_base),
            ),
            cpu: r.cpu_id.0,
            worker: r.worker_id.0,
            structop_local: r.structop_local,
            structop_global: r.structop_global,
            ops_context: r.ops_context,
            kfunc_name: trace::kfunc_of(r.kfunc_name),
        }),
{
    let f0 = trace::no_values();
    let f1 = LineValues { seq: r.sequence, ..f0 };
    let f2 = LineValues { ops_context: r.ops_context, ..f1 };
    let f3 = LineValues { kfunc_name: trace::kfunc_of(r.kfunc_name), ..f2 };
    let w1 = seq!["seq="@ + text::decimal(r.sequence as nat)];
    let w2 = trace::context_words(r);
    let w3 = trace::place_words(r, so_base);
    lemma_read_seq(f0, r.sequence);
    lemma_read_words_single(f0, w1[0]);
    assert(trace::read_words(f1, w2) == Ok::<LineValues, Seq<char>>(f3)) by {
        reveal_strlit("-");
        assert(trace::kfunc_of(trace::kfunc_word(r.kfunc_name)) =~= trace::kfunc_of(r.kfunc_name));
        if w2.len() > 0 {
            lemma_read_ops(f1, r.ops_context);
            lemma_read_kfunc(f2, trace::kfunc_word(r.kfunc_name));
            lemma_read_words_single(f1, w2[0]);
            lemma_read_words_push(f1, seq![w2[0]], w2[1]);
            assert(w2 =~= seq![w2[0]].push(w2[1]));
        } else {
            assert(trace::kfunc_of(r.kfunc_name) =~= seq![]);
        }
    }
    let f = lemma_read_place_words(f3, r, so_base);
    lemma_read_words_add(f0, w1, w2);
    lemma_read_words_add(f0, w1 + w2, w3);
    f
}

/// Reading the words for the place of a record.
proof fn lemma_read_place_words(f3: LineValues, r: RecordView, so_base: u64) -> (f: LineValues)
    ensures
        trace::read_words(f3, trace::place_words(r, so_base)) == Ok::<LineValues, Seq<char>>(f),
        f == (LineValues {
            rbc: Some(r.structop_rbc),
            timeslice: Some(r.rbc_count),
            rip: r.instruction_pointer,
            rip_offset: Some(
                trace::relative_rip(r.instruction_pointer, so_base),
            ),
            cpu: r.cpu_id.0,
            worker: r.worker_id.0,
            structop_local: r.structop_local,
            structop_global: r.structop_global,
            ..f3
        }),
{
    let ws = trace::place_words(r, so_base);
    let f4 = LineValues {
        structop_local: r.structop_local,
        structop_global: r.structop_global,
        ..f3
    };
    let f5 = LineValues { rbc: Some(r.structop_rbc), ..f4 };
    let f6 = LineValues { timeslice: Some(r.rbc_count), ..f5 };
    let f7 = LineValues { rip: r.instruction_pointer, ..f6 };
    let offset = trace::relative_rip(r.instruction_pointer, so_base);
    let f8 = LineValues { rip_offset: Some(offset), ..f7 };
    let f9 = LineValues { cpu: r.cpu_id.0, ..f8 };
    let f10 = LineValues { worker: r.worker_id.0, ..f9 };
    lemma_read_structop(f3, r.structop_local, r.structop_global);
    lemma_read_rbc(f4, r.structop_rbc);
    lemma_read_timeslice(f5, r.rbc_count);
    lemma_read_rip(f6, r.instruction_pointer);
    lemma_read_rip_offset(f7, offset);
    lemma_read_cpu(f8, r.cpu_id.0);
    lemma_read_worker(f9, r.worker_id.0);
    let fs = seq![f3, f4, f5, f6, f7, f8, f9, f10];
    assert forall|k: int| 0 <= k < 7 implies trace::read_word(
        #[trigger] fs[k],
        ws[k],
    ) == Ok::<LineValues, Seq<char>>(fs[k + 1]) by {}
    lemma_read_words_steps(ws, fs, 7);
    assert(ws.take(7) =~= ws);
    f10
}

proof fn lemma_read_words_steps(ws: Seq<Seq<char>>, fs: Seq<LineValues>, n: int)
    requires
        0 <= n <= ws.len(),
        fs.len() == ws.len() + 1,
        forall|k: int|
            0 <= k < ws.len() ==> trace::read_word(#[trigger] fs[k], ws[k]) == Ok::<
                LineValues,
                Seq<char>,
            >(fs[k + 1]),
    ensures
        trace::read_words(fs[0], ws.take(n)) == Ok::<LineValues, Seq<char>>(fs[n]),
    decreases n,
{
    if n == 0 {
        assert(ws.take(0) =~= Seq::<Seq<char>>::empty());
    } else {
        lemma_read_words_steps(ws, fs, n - 1);
        lemma_read_words_push(fs[0], ws.take(n - 1), ws[n - 1]);
        assert(ws.take(n) =~= ws.take(n - 1).push(ws[n - 1]));
        assert(trace::read_word(fs[n - 1], ws[n - 1]) == Ok::<
            LineValues,
            Seq<char>,
        >(fs[n - 1 + 1]));
    }
}

proof fn lemma_digits_solid(n: nat, radix: nat)
    requires
        2 <= radix <= 16,
    ensures
        text::is_solid(text::digits(n, radix)),
        text::digits(n, radix).len() > 0,
{
    text::lemma_digits_chars(n, radix);
    assert forall|i: int| 0 <= i < text::digits(n, radix).len() implies
        !text::is_space(#[trigger] text::digits(n, radix)[i]) by {
        assert(text::is_digit_char(text::digits(n, radix)[i]));
    }
}

proof fn lemma_solid_add(a: Seq<char>, b: Seq<char>)
    requires
        text::is_solid(a),
        text::is_solid(b),
    ensures
        text::is_solid(a + b),
{
    assert forall|i: int| 0 <= i < (a + b).len() implies !text::is_space(
        #[trigger] (a + b)[i],
    ) by {
        if i < a.len() {
            assert((a + b)[i] == a[i]);
        } else {
            assert((a + b)[i] == b[i - a.len()]);
        }
    }
}

proof fn lemma_names_solid(c: OpsContext, e: PmuEvent)
    ensures
        text::is_solid(c.name()),
        text::is_solid(e.name()),
        e.name().len() > 0,
{
    reveal_strlit("none");
    reveal_strlit("select_cpu");
    reveal_strlit("enqueue");
    reveal_strlit("dispatch");
    reveal_strlit("running");
    reveal_strlit("stopping");
    reveal_strlit("tick");
    reveal_strlit("rbc");
    reveal_strlit("insn");
}

/// The words of a record have no white space and are not empty.
proof fn lemma_record_words_solid(r: RecordView, so_base: u64)
    requires
        has_word_kfunc(r),
    ensures
        forall|i: int|
            0 <= i < trace::record_words(r, so_base).len() ==> (
            text::is_solid(
                #[trigger] trace::record_words(r, so_base)[i],
            ) && trace::record_words(r, so_base)[i].len() > 0),
{
    reveal_strlit("seq=");
    reveal_strlit("ops=");
    reveal_strlit("kfunc=");
    reveal_strlit("structop=");
    reveal_strlit(":");
    reveal_strlit("rbc=");
    reveal_strlit("timeslice=");
    reveal_strlit("rip=");
    reveal_strlit("0x");
    reveal_strlit("rip_offset=");
    reveal_strlit("cpu=");
    reveal_strlit("worker=");
    let dl = text::decimal(r.structop_local as nat);
    let offset = trace::relative_rip(r.instruction_pointer, so_base);
    lemma_digits_solid(r.sequence as nat, 10);
    lemma_digits_solid(r.structop_local as nat, 10);
    lemma_digits_solid(r.structop_global as nat, 10);
    lemma_digits_solid(r.structop_rbc as nat, 10);
    lemma_digits_solid(r.rbc_count as nat, 10);
    lemma_digits_solid(r.instruction_pointer as nat, 16);
    lemma_digits_solid(offset as nat, 16);
    lemma_digits_solid(r.cpu_id.0 as nat, 10);
    lemma_digits_solid(r.worker_id.0 as nat, 10);
    lemma_names_solid(r.ops_context, PmuEvent::InstructionsRetired);
    lemma_solid_add("seq="@, text::decimal(r.sequence as nat));
    lemma_solid_add("ops="@, r.ops_context.name());
    reveal_strlit("-");
    lemma_solid_add("kfunc="@, trace::kfunc_word(r.kfunc_name));
    lemma_solid_add("structop="@, dl);
    lemma_solid_add("structop="@ + dl, ":"@);
    lemma_solid_add(
        "structop="@ + dl + ":"@,
        text::decimal(r.structop_global as nat),
    );
    lemma_solid_add("rbc="@, text::decimal(r.structop_rbc as nat));
    lemma_solid_add("timeslice="@, text::decimal(r.rbc_count as nat));
    lemma_solid_add("rip="@, "0x"@);
    lemma_solid_add("rip="@ + "0x"@, text::hexadecimal(r.instruction_pointer as nat));
    lemma_solid_add("rip_offset="@, "0x"@);
    lemma_solid_add("rip_offset="@ + "0x"@, text::hexadecimal(offset as nat));
    lemma_solid_add("cpu="@, text::decimal(r.cpu_id.0 as nat));
    lemma_solid_add("worker="@, text::decimal(r.worker_id.0 as nat));
    let ws = trace::record_words(r, so_base);
    let w1 = seq!["seq="@ + text::decimal(r.sequence as nat)];
    let w2 = trace::context_words(r);
    let w3 = trace::place_words(r, so_base);
    assert forall|i: int| 0 <= i < ws.len() implies text::is_solid(#[trigger] ws[i])
        && ws[i].len() > 0 by {
        if i == 0 {
            assert(ws[i] == w1[0]);
        } else if i < 1 + w2.len() {
            assert(ws[i] == w2[i - 1]);
        } else {
            assert(ws[i] == w3[i - 1 - w2.len()]);
        }
    }
}

/// Joined words are the words of the text.
proof fn lemma_words_joined(ws: Seq<Seq<char>>)
    requires
        forall|i: int|
            0 <= i < ws.len() ==> text::is_solid(#[trigger] ws[i]) && ws[i].len() > 0,
    ensures
        text::words(trace::joined(ws)) == ws,
    decreases ws.len(),
{
    if ws.len() == 0 {
        assert(text::words(trace::joined(ws)) =~= ws);
    } else {
        text::lemma_words_solid(ws.last());
        if ws.len() == 1 {
            assert(ws =~= seq![ws[0]]);
        } else {
            let t = ws.drop_last();
            assert forall|i: int| 0 <= i < t.len() implies text::is_solid(#[trigger] t[i])
                && t[i].len() > 0 by {
                assert(t[i] == ws[i]);
            }
            lemma_words_joined(t);
            text::lemma_words_add(trace::joined(t), ws.last());
            assert(t + seq![ws.last()] =~= ws);
        }
    }
}

/// Joined words begin and end as the first and the last of them do, and what
/// stands between two of them is a space.
proof fn lemma_joined_ends(ws: Seq<Seq<char>>)
    requires
        ws.len() > 0,
        forall|i: int| 0 <= i < ws.len() ==> text::is_solid(#[trigger] ws[i]) && ws[i].len() > 0,
    ensures
        trace::joined(ws).len() > 0,
        trace::joined(ws)[0] == ws[0][0],
        trace::joined(ws).last() == ws.last().last(),
        forall|i: int|
            0 <= i < trace::joined(ws).len() ==> is_solid_or_blank(#[trigger] trace::joined(ws)[i]),
    decreases ws.len(),
{
    let s = trace::joined(ws);
    let w = ws.last();
    assert(w == ws[ws.len() - 1]);
    assert(text::is_solid(w) && w.len() > 0);
    if ws.len() == 1 {
        assert(s == w);
        assert forall|i: int| 0 <= i < s.len() implies is_solid_or_blank(#[trigger] s[i]) by {
            assert(!text::is_space(w[i]));
        }
    } else {
        let t = ws.drop_last();
        assert forall|i: int| 0 <= i < t.len() implies text::is_solid(#[trigger] t[i])
            && t[i].len() > 0 by {
            assert(t[i] == ws[i]);
        }
        lemma_joined_ends(t);
        let a = trace::joined(t);
        assert(s == a + seq![' '] + w);
        assert(s[0] == a[0]);
        assert(t[0] == ws[0]);
        assert(s[s.len() - 1] == w[w.len() - 1]);
        assert forall|i: int| 0 <= i < s.len() implies is_solid_or_blank(#[trigger] s[i]) by {
            if i < a.len() {
                assert(s[i] == a[i]);
            } else if i > a.len() {
                assert(s[i] == w[i - a.len() - 1]);
                assert(!text::is_space(w[i - a.len() - 1]));
            } else {
                assert(s[i] == ' ');
            }
        }
    }
}

/// Whether a character is a space or no white space at all.
spec fn is_solid_or_blank(c: char) -> bool {
    !text::is_space(c) || c == ' '
}

/// Reading a record's line gives the record, its code moved; only a kfunc name `-`
/// is read as no name.
pub proof fn law_record_line_round_trip(r: RecordView, from: u64, to: u64)
    requires
        has_word_kfunc(r),
    ensures
        trace::read_record(trace::record_line(r, from), to) == Ok::<
            RecordView,
            Seq<char>,
        >(reread_record(r, from, to)),
{
    lemma_record_words_solid(r, from);
    lemma_words_joined(trace::record_words(r, from));
    let f = lemma_read_record_words(r, from);
}

/// A record's line is one line that trimming leaves alone and that is no comment.
proof fn lemma_record_line_shape(r: RecordView, so_base: u64)
    requires
        has_word_kfunc(r),
    ensures
        ({
            let line = trace::record_line(r, so_base);
            &&& text::trimmed(line) == line
            &&& line.len() > 0
            &&& line[0] == 's'
            &&& forall|i: int| 0 <= i < line.len() ==> #[trigger] line[i] != '\n'
            &&& line.last() != '\r'
        }),
{
    let ws = trace::record_words(r, so_base);
    let line = trace::record_line(r, so_base);
    lemma_record_words_solid(r, so_base);
    lemma_joined_ends(ws);
    reveal_strlit("seq=");
    assert(ws[0][0] == 's');
    let w = ws[ws.len() - 1];
    assert(text::is_solid(w));
    assert(!text::is_space(w[w.len() - 1]));
    text::lemma_trimmed(line);
    assert forall|i: int| 0 <= i < line.len() implies #[trigger] line[i] != '\n' by {
        assert(is_solid_or_blank(line[i]));
    }
}

// ---------------------------------------------------------------------------
// Texts
// ---------------------------------------------------------------------------

/// Whether `s` can stand on a line of its own.
spec fn is_line(s: Seq<char>) -> bool {
    &&& forall|i: int| 0 <= i < s.len() ==> #[trigger] s[i] != '\n'
    &&& s.len() > 0 ==> s.last() != '\r'
}

proof fn lemma_with_line_feeds_first(line: Seq<char>, ls: Seq<Seq<char>>)
    ensures
        trace::with_line_feeds(seq![line] + ls) == line + seq!['\n']
            + trace::with_line_feeds(ls),
    decreases ls.len(),
{
    let all = seq![line] + ls;
    if ls.len() == 0 {
        assert(all.drop_last() =~= Seq::<Seq<char>>::empty());
        reveal_with_fuel(trace::with_line_feeds, 2);
        assert(trace::with_line_feeds(all) =~= line + seq!['\n']
            + trace::with_line_feeds(ls));
    } else {
        lemma_with_line_feeds_first(line, ls.drop_last());
        assert(all.drop_last() =~= seq![line] + ls.drop_last());
        assert(trace::with_line_feeds(all) =~= line + seq!['\n']
            + trace::with_line_feeds(ls));
    }
}

/// Written lines read back as the same lines.
proof fn lemma_lines_written(ls: Seq<Seq<char>>)
    requires
        forall|i: int| 0 <= i < ls.len() ==> is_line(#[trigger] ls[i]),
    ensures
        text::lines(trace::with_line_feeds(ls)) == ls,
    decreases ls.len(),
{
    if ls.len() == 0 {
        assert(text::lines(trace::with_line_feeds(ls)) =~= ls);
    } else {
        let rest = ls.skip(1);
        assert(seq![ls[0]] + rest =~= ls);
        lemma_with_line_feeds_first(ls[0], rest);
        assert(is_line(ls[0]));
        assert forall|i: int| 0 <= i < rest.len() implies is_line(#[trigger] rest[i]) by {
            assert(rest[i] == ls[i + 1]);
        }
        lemma_lines_written(rest);
        text::lemma_lines_first(
            ls[0],
            trace::with_line_feeds(rest),
        );
    }
}

proof fn lemma_read_lines_push(s: TraceLines, ls: Seq<Seq<char>>, l: Seq<char>, so_base: u64)
    ensures
        trace::read_lines(s, ls.push(l), so_base)
            == match trace::read_lines(s, ls, so_base) {
            Ok(t) => trace::read_line(t, l, so_base),
            Err(e) => Err(e),
        },
    decreases ls.len(),
{
    if ls.len() == 0 {
        assert(ls.push(l).skip(1) =~= Seq::<Seq<char>>::empty());
        assert(ls.push(l)[0] == l);
        reveal_with_fuel(trace::read_lines, 2);
    } else {
        assert(ls.push(l).skip(1) =~= ls.skip(1).push(l));
        assert(ls.push(l)[0] == ls[0]);
        if let Ok(t) = trace::read_line(s, ls[0], so_base) {
            lemma_read_lines_push(t, ls.skip(1), l, so_base);
        }
    }
}

/// A comment line without white space at its ends.
proof fn lemma_comment(line: Seq<char>)
    requires
        line.len() > 0,
        line[0] == '#',
        !text::is_space(line.last()),
    ensures
        text::trimmed(line) == line,
        text::starts_with(line, "#"@),
{
    reveal_strlit("#");
    text::lemma_trimmed(line);
    assert(line.take(1) =~= "#"@);
}

/// Reading the line of the worker count.
proof fn lemma_read_workers(s: TraceLines, n: usize, so_base: u64)
    ensures
        trace::read_line(
            s,
            "# workers: "@ + text::decimal(n as nat),
            so_base,
        ) == Ok::<TraceLines, Seq<char>>(TraceLines { num_workers: n, ..s }),
        is_line("# workers: "@ + text::decimal(n as nat)),
{
    let d = text::decimal(n as nat);
    let line = "# workers: "@ + d;
    reveal_strlit("# workers: ");
    lemma_digits_solid(n as nat, 10);
    assert(!text::is_space(d[0]));
    assert(!text::is_space(d[d.len() - 1]));
    lemma_comment(line);
    text::lemma_after_prefix("# workers: "@, d);
    text::lemma_trimmed(d);
    text::law_number_round_trip(n as nat, 10, usize::MAX as nat);
    lemma_name_value_line("# workers: "@, d);
}

/// A name without line ends and a solid value stand on a line of their own.
proof fn lemma_name_value_line(name: Seq<char>, d: Seq<char>)
    requires
        forall|i: int| 0 <= i < name.len() ==> #[trigger] name[i] != '\n',
        text::is_solid(d),
        d.len() > 0,
    ensures
        is_line(name + d),
{
    let line = name + d;
    assert forall|i: int| 0 <= i < line.len() implies #[trigger] line[i] != '\n' by {
        if i < name.len() {
            assert(line[i] == name[i]);
        } else {
            assert(!text::is_space(d[i - name.len()]));
        }
    }
    assert(!text::is_space(d[d.len() - 1]));
}

/// Reading the line of the event.
proof fn lemma_read_break_on(s: TraceLines, e: PmuEvent, so_base: u64)
    ensures
        trace::read_line(s, "# break_on: "@ + e.name(), so_base) == Ok::<
            TraceLines,
            Seq<char>,
        >(TraceLines { break_on: e, ..s }),
        is_line("# break_on: "@ + e.name()),
{
    let d = e.name();
    let line = "# break_on: "@ + d;
    reveal_strlit("# workers: ");
    reveal_strlit("# break_on: ");
    lemma_names_solid(OpsContext::NoOps, e);
    assert(!text::is_space(d[0]));
    assert(!text::is_space(d[d.len() - 1]));
    lemma_comment(line);
    assert(line[2] == 'b');
    text::lemma_not_prefix(line, "# workers: "@, 2);
    text::lemma_after_prefix("# break_on: "@, d);
    text::lemma_trimmed(d);
    perf::law_pmu_event_name_round_trip(e);
    lemma_name_value_line("# break_on: "@, d);
}

/// Reading the title and the line of the total.
proof fn lemma_read_comments(s: TraceLines, n: nat, so_base: u64)
    ensures
        trace::read_line(s, "# scxsim preemption trace"@, so_base) == Ok::<
            TraceLines,
            Seq<char>,
        >(s),
        is_line("# scxsim preemption trace"@),
        trace::read_line(s, "# total: "@ + text::decimal(n), so_base) == Ok::<
            TraceLines,
            Seq<char>,
        >(s),
        is_line("# total: "@ + text::decimal(n)),
{
    let title = "# scxsim preemption trace"@;
    let d = text::decimal(n);
    let total = "# total: "@ + d;
    reveal_strlit("# workers: ");
    reveal_strlit("# break_on: ");
    reveal_strlit("# total: ");
    reveal_strlit("# scxsim preemption trace");
    assert(title[2] == 's' && title.last() == 'e');
    lemma_comment(title);
    text::lemma_not_prefix(title, "# workers: "@, 2);
    text::lemma_not_prefix(title, "# break_on: "@, 2);
    lemma_digits_solid(n, 10);
    assert(!text::is_space(d[d.len() - 1]));
    lemma_comment(total);
    assert(total[2] == 't');
    text::lemma_not_prefix(total, "# workers: "@, 2);
    text::lemma_not_prefix(total, "# break_on: "@, 2);
    lemma_name_value_line("# total: "@, d);
}

/// Reading the line of a record.
proof fn lemma_read_record_line(s: TraceLines, r: RecordView, from: u64, to: u64)
    requires
        has_word_kfunc(r),
    ensures
        trace::read_line(s, trace::record_line(r, from), to) == Ok::<
            TraceLines,
            Seq<char>,
        >(TraceLines { records: s.records.push(reread_record(r, from, to)), ..s }),
        is_line(trace::record_line(r, from)),
{
    let line = trace::record_line(r, from);
    lemma_record_line_shape(r, from);
    reveal_strlit("#");
    text::lemma_not_prefix(line, "#"@, 0);
    law_record_line_round_trip(r, from, to);
}

/// Reading a header and the lines of records.
proof fn lemma_read_written(t: TraceView, records: Seq<RecordView>, from: u64, to: u64)
    requires
        t.per_worker.len() <= usize::MAX,
        forall|i: int| 0 <= i < records.len() ==> has_word_kfunc(#[trigger] records[i]),
    ensures
        ({
            let ls = trace::header_lines(t)
                + trace::record_lines(records, from);
            &&& trace::read_lines(trace::no_lines(), ls, to)
                == Ok::<TraceLines, Seq<char>>(
                TraceLines {
                    num_workers: t.per_worker.len() as usize,
                    break_on: t.break_on,
                    records: reread_records(records, from, to),
                },
            )
            &&& forall|i: int| 0 <= i < ls.len() ==> is_line(#[trigger] ls[i])
        }),
    decreases records.len(),
{
    let head = trace::header_lines(t);
    let ls = head + trace::record_lines(records, from);
    let n = t.per_worker.len() as usize;
    let total = trace::concatenated(t.per_worker).len();
    let s0 = trace::no_lines();
    if records.len() == 0 {
        let s1 = TraceLines { num_workers: n, ..s0 };
        let s2 = TraceLines { break_on: t.break_on, ..s1 };
        let none = Seq::<Seq<char>>::empty();
        lemma_read_comments(s0, total, to);
        lemma_read_workers(s0, n, to);
        lemma_read_break_on(s1, t.break_on, to);
        lemma_read_comments(s2, total, to);
        lemma_read_lines_push(s0, none, head[0], to);
        lemma_read_lines_push(s0, none.push(head[0]), head[1], to);
        lemma_read_lines_push(s0, none.push(head[0]).push(head[1]), head[2], to);
        lemma_read_lines_push(s0, none.push(head[0]).push(head[1]).push(head[2]), head[3], to);
        assert(ls =~= none.push(head[0]).push(head[1]).push(head[2]).push(head[3]));
        assert(reread_records(records, from, to) =~= s2.records);
    } else {
        let rs = records.drop_last();
        let ks = head + trace::record_lines(rs, from);
        assert forall|i: int| 0 <= i < rs.len() implies has_word_kfunc(#[trigger] rs[i]) by {
            assert(rs[i] == records[i]);
        }
        lemma_read_written(t, rs, from, to);
        let s = TraceLines {
            num_workers: n,
            break_on: t.break_on,
            records: reread_records(rs, from, to),
        };
        assert(records.last() == records[records.len() - 1]);
        lemma_read_record_line(s, records.last(), from, to);
        let l = trace::record_line(records.last(), from);
        assert(ls =~= ks.push(l));
        lemma_read_lines_push(s0, ks, l, to);
        assert(reread_records(records, from, to) =~= s.records.push(
            reread_record(records.last(), from, to),
        ));
        assert forall|i: int| 0 <= i < ls.len() implies is_line(#[trigger] ls[i]) by {
            if i < ks.len() {
                assert(ls[i] == ks[i]);
            }
        }
    }
}

// ---------------------------------------------------------------------------
// Grouping
// ---------------------------------------------------------------------------

proof fn lemma_of_worker_with_key(s: Seq<RecordView>, w: int, k: u64)
    ensures
        order::with_key(
            trace::of_worker(s, w),
            trace::view_key(),
            k,
        ) == trace::of_worker(
            order::with_key(s, trace::view_key(), k),
            w,
        ),
    decreases s.len(),
{
    let key = trace::view_key();
    if s.len() > 0 {
        let t = s.drop_last();
        lemma_of_worker_with_key(t, w, k);
        let a = trace::of_worker(t, w);
        let b = order::with_key(t, key, k);
        assert(a.push(s.last()).drop_last() =~= a);
        assert(b.push(s.last()).drop_last() =~= b);
    }
}

proof fn lemma_of_worker_add(a: Seq<RecordView>, b: Seq<RecordView>, w: int)
    ensures
        trace::of_worker(a + b, w) == trace::of_worker(a, w)
            + trace::of_worker(b, w),
    decreases b.len(),
{
    if b.len() == 0 {
        assert(a + b =~= a);
        assert(trace::of_worker(a, w) + trace::of_worker(b, w)
            =~= trace::of_worker(a, w));
    } else {
        lemma_of_worker_add(a, b.drop_last(), w);
        assert((a + b).drop_last() =~= a + b.drop_last());
        assert(trace::of_worker(a + b, w) =~= trace::of_worker(a, w)
            + trace::of_worker(b, w));
    }
}

/// Of records of one worker, that worker has all and others have none.
proof fn lemma_of_worker_uniform(s: Seq<RecordView>, v: int, w: int)
    requires
        forall|i: int| 0 <= i < s.len() ==> (#[trigger] s[i]).worker_id.0 == v,
    ensures
        trace::of_worker(s, w) == if v == w {
            s
        } else {
            Seq::<RecordView>::empty()
        },
    decreases s.len(),
{
    if s.len() > 0 {
        let t = s.drop_last();
        assert forall|i: int| 0 <= i < t.len() implies (#[trigger] t[i]).worker_id.0 == v by {
            assert(t[i] == s[i]);
        }
        lemma_of_worker_uniform(t, v, w);
        assert(s[s.len() - 1].worker_id.0 == v);
        assert(t.push(s.last()) =~= s);
    } else {
        assert(s =~= Seq::<RecordView>::empty());
    }
}

/// The records of a worker in a trace are those that stand with the worker.
proof fn lemma_of_worker_concatenated(pw: Seq<Seq<RecordView>>, w: int)
    requires
        forall|v: int, i: int|
            0 <= v < pw.len() && 0 <= i < pw[v].len() ==> (#[trigger] pw[v][i]).worker_id.0 == v,
    ensures
        trace::of_worker(trace::concatenated(pw), w) == if 0 <= w
            < pw.len() {
            pw[w]
        } else {
            Seq::<RecordView>::empty()
        },
    decreases pw.len(),
{
    if pw.len() > 0 {
        let t = pw.drop_last();
        let v = pw.len() - 1;
        assert forall|u: int, i: int| 0 <= u < t.len() && 0 <= i < t[u].len() implies (
        #[trigger] t[u][i]).worker_id.0 == u by {
            assert(t[u][i] == pw[u][i]);
        }
        lemma_of_worker_concatenated(t, w);
        lemma_of_worker_add(trace::concatenated(t), pw.last(), w);
        assert forall|i: int| 0 <= i < pw.last().len() implies (
        #[trigger] pw.last()[i]).worker_id.0 == v by {
            assert(pw[v][i].worker_id.0 == v);
        }
        lemma_of_worker_uniform(pw.last(), v, w);
        assert(trace::of_worker(trace::concatenated(pw), w)
            =~= if 0 <= w < pw.len() {
            pw[w]
        } else {
            Seq::<RecordView>::empty()
        });
    }
}

/// Grouping the records of a trace gives the trace back.
pub proof fn law_grouping_restores_trace(t: TraceView)
    requires
        t.wf(),
    ensures
        trace::trace_of(
            trace::canonical(t),
            t.per_worker.len(),
            t.break_on,
        ) == t,
{
    let key = trace::view_key();
    let flat = trace::concatenated(t.per_worker);
    let all = trace::canonical(t);
    let got = trace::grouped(all, t.per_worker.len());
    assert forall|w: int| 0 <= w < t.per_worker.len() implies #[trigger] got[w]
        == t.per_worker[w] by {
        let mine = trace::of_worker(all, w);
        lemma_of_worker_concatenated(t.per_worker, w);
        order::lemma_sort_by(flat, key);
        order::lemma_sort_by(mine, key);
        assert(order::ascending(t.per_worker[w], key));
        assert forall|k: u64| #[trigger]
            order::with_key(got[w], key, k) == order::with_key(
                t.per_worker[w],
                key,
                k,
            ) by {
            assert(order::with_key(got[w], key, k) == order::with_key(mine, key, k));
            lemma_of_worker_with_key(all, w, k);
            lemma_of_worker_with_key(flat, w, k);
            assert(order::with_key(all, key, k) == order::with_key(flat, key, k));
        }
        order::lemma_ordered_unique(got[w], t.per_worker[w], key);
    }
    assert(got =~= t.per_worker);
}

// Reading a record back changes neither its worker nor its sequence number.

proof fn lemma_reread_of_worker(s: Seq<RecordView>, w: int, from: u64, to: u64)
    ensures
        trace::of_worker(reread_records(s, from, to), w) == reread_records(
            trace::of_worker(s, w),
            from,
            to,
        ),
    decreases s.len(),
{
    let m = reread_records(s, from, to);
    if s.len() > 0 {
        lemma_reread_of_worker(s.drop_last(), w, from, to);
        assert(m.drop_last() =~= reread_records(s.drop_last(), from, to));
        assert(m.last() == reread_record(s.last(), from, to));
        let a = trace::of_worker(s.drop_last(), w);
        assert(reread_records(a.push(s.last()), from, to) =~= reread_records(a, from, to).push(
            m.last(),
        ));
    } else {
        assert(m =~= s);
    }
}

proof fn lemma_reread_insert(s: Seq<RecordView>, x: RecordView, from: u64, to: u64)
    ensures
        order::insert_by(
            reread_records(s, from, to),
            reread_record(x, from, to),
            trace::view_key(),
        ) == reread_records(
            order::insert_by(s, x, trace::view_key()),
            from,
            to,
        ),
    decreases s.len(),
{
    let key = trace::view_key();
    let m = reread_records(s, from, to);
    if s.len() == 0 || key(s.last()) <= key(x) {
        assert(m.push(reread_record(x, from, to)) =~= reread_records(s.push(x), from, to));
    } else {
        lemma_reread_insert(s.drop_last(), x, from, to);
        assert(m.drop_last() =~= reread_records(s.drop_last(), from, to));
        let t = order::insert_by(s.drop_last(), x, key);
        assert(reread_records(t.push(s.last()), from, to) =~= reread_records(t, from, to).push(
            m.last(),
        ));
    }
}

proof fn lemma_reread_sort(s: Seq<RecordView>, from: u64, to: u64)
    ensures
        order::sort_by(reread_records(s, from, to), trace::view_key())
            == reread_records(
            order::sort_by(s, trace::view_key()),
            from,
            to,
        ),
    decreases s.len(),
{
    let key = trace::view_key();
    let m = reread_records(s, from, to);
    if s.len() > 0 {
        lemma_reread_sort(s.drop_last(), from, to);
        assert(m.drop_last() =~= reread_records(s.drop_last(), from, to));
        lemma_reread_insert(order::sort_by(s.drop_last(), key), s.last(), from, to);
    } else {
        assert(m =~= s);
    }
}

proof fn lemma_reread_trace_of(s: Seq<RecordView>, n: nat, e: PmuEvent, from: u64, to: u64)
    ensures
        trace::trace_of(reread_records(s, from, to), n, e) == reread_trace(
            trace::trace_of(s, n, e),
            from,
            to,
        ),
{
    let a = trace::trace_of(reread_records(s, from, to), n, e);
    let b = reread_trace(trace::trace_of(s, n, e), from, to);
    assert forall|w: int| 0 <= w < n implies #[trigger] a.per_worker[w] == b.per_worker[w] by {
        lemma_reread_of_worker(s, w, from, to);
        lemma_reread_sort(trace::of_worker(s, w), from, to);
    }
    assert(a.per_worker =~= b.per_worker);
}

/// The records of a trace stand in its lists.
proof fn lemma_canonical_words(t: TraceView)
    requires
        has_word_kfuncs(t),
    ensures
        forall|i: int|
            0 <= i < trace::canonical(t).len() ==> has_word_kfunc(
                #[trigger] trace::canonical(t)[i],
            ),
{
    broadcast use vstd::seq_lib::group_to_multiset_ensures;

    let flat = trace::concatenated(t.per_worker);
    let all = trace::canonical(t);
    order::lemma_sort_by(flat, trace::view_key());
    lemma_concatenated_words(t.per_worker);
    assert forall|i: int| 0 <= i < all.len() implies has_word_kfunc(#[trigger] all[i]) by {
        assert(all.to_multiset().count(all[i]) > 0);
        assert(flat.contains(all[i]));
    }
}

proof fn lemma_concatenated_words(pw: Seq<Seq<RecordView>>)
    requires
        forall|w: int, i: int|
            0 <= w < pw.len() && 0 <= i < pw[w].len() ==> has_word_kfunc(#[trigger] pw[w][i]),
    ensures
        forall|i: int|
            0 <= i < trace::concatenated(pw).len() ==> has_word_kfunc(
                #[trigger] trace::concatenated(pw)[i],
            ),
    decreases pw.len(),
{
    if pw.len() > 0 {
        let t = pw.drop_last();
        assert forall|w: int, i: int| 0 <= w < t.len() && 0 <= i < t[w].len() implies
            has_word_kfunc(#[trigger] t[w][i]) by {
            assert(t[w][i] == pw[w][i]);
        }
        lemma_concatenated_words(t);
        let a = trace::concatenated(t);
        let s = trace::concatenated(pw);
        assert forall|i: int| 0 <= i < s.len() implies has_word_kfunc(#[trigger] s[i]) by {
            if i < a.len() {
                assert(s[i] == a[i]);
            } else {
                assert(s[i] == pw[pw.len() - 1][i - a.len()]);
            }
        }
    }
}

/// Reading a written trace gives the trace, with the address of each record moved
/// from the base it was written with to the base it is read with.
///
/// The names of kfuncs have to be words. A record whose kfunc name is `-`, which
/// stands for no name, reads back with an empty name and every other field kept.
pub proof fn law_written_trace_reads_back(t: TraceView, from: u64, to: u64)
    requires
        t.wf(),
        has_word_kfuncs(t),
    ensures
        trace::read_trace(trace::trace_text(t, from), to) == Ok::<
            TraceView,
            Seq<char>,
        >(reread_trace(t, from, to)),
{
    let all = trace::canonical(t);
    let n = t.per_worker.len();
    let ls = trace::header_lines(t) + trace::record_lines(
        all,
        from,
    );
    lemma_canonical_words(t);
    lemma_read_written(t, all, from, to);
    lemma_lines_written(ls);
    let flat = trace::concatenated(t.per_worker);
    order::lemma_sort_by(flat, trace::view_key());
    assert(n == 0 ==> flat.len() == 0);
    lemma_reread_trace_of(all, n, t.break_on, from, to);
    law_grouping_restores_trace(t);
}

/// Whether no address of a trace lies below a base that is known.
pub open spec fn is_above(t: TraceView, so_base: u64) -> bool {
    so_base > 0 ==> forall|w: int, i: int|
        0 <= w < t.per_worker.len() && 0 <= i < t.per_worker[w].len() ==> (
        #[trigger] t.per_worker[w][i]).instruction_pointer >= so_base
}

/// A trace that is written and read with the same base is the same trace, unless
/// an address lies below the base: it has the same workers and the same event, and
/// each worker has the same records in the same order. Only a kfunc name `-` is read
/// as no name.
pub proof fn law_trace_round_trip(t: TraceView, so_base: u64)
    requires
        t.wf(),
        has_word_kfuncs(t),
        is_above(t, so_base),
    ensures
        trace::read_trace(
            trace::trace_text(t, so_base),
            so_base,
        ) == Ok::<TraceView, Seq<char>>(undashed_trace(t)),
        has_plain_kfuncs(t) ==> undashed_trace(t) == t,
{
    law_written_trace_reads_back(t, so_base, so_base);
    let m = reread_trace(t, so_base, so_base);
    let u = undashed_trace(t);
    assert forall|w: int| 0 <= w < t.per_worker.len() implies #[trigger] m.per_worker[w]
        == u.per_worker[w] by {
        assert forall|i: int| 0 <= i < t.per_worker[w].len() implies #[trigger] m.per_worker[w][i]
            == u.per_worker[w][i] by {
            let r = t.per_worker[w][i];
            assert(so_base > 0 ==> r.instruction_pointer >= so_base);
            assert(reread_record(r, so_base, so_base) == undashed_record(r));
        }
        assert(m.per_worker[w] =~= u.per_worker[w]);
    }
    assert(m.per_worker =~= u.per_worker);
    if has_plain_kfuncs(t) {
        assert forall|w: int| 0 <= w < t.per_worker.len() implies #[trigger] u.per_worker[w]
            == t.per_worker[w] by {
            assert forall|i: int| 0 <= i < t.per_worker[w].len() implies
                #[trigger] u.per_worker[w][i] == t.per_worker[w][i] by {
                assert(has_plain_kfunc(t.per_worker[w][i]));
            }
            assert(u.per_worker[w] =~= t.per_worker[w]);
        }
        assert(u.per_worker =~= t.per_worker);
    }
}

/// An address keeps its distance from the base when the code moves, as long as
/// both bases are known, the address lies above the first and the address space
/// does not end between.
pub proof fn law_moved_rip_keeps_offset(rip: u64, from: u64, to: u64)
    requires
        0 < from <= rip,
        0 < to,
        to + (rip - from) <= u64::MAX,
    ensures
        moved_rip(rip, from, to) - to == rip - from,
{
}

/// Whether a line says which event timed the preemptions.
pub open spec fn names_event(line: Seq<char>) -> bool {
    text::starts_with(text::trimmed(line), "# break_on: "@)
}

proof fn lemma_event_is_kept(s: TraceLines, ls: Seq<Seq<char>>, so_base: u64)
    requires
        forall|i: int| 0 <= i < ls.len() ==> !names_event(#[trigger] ls[i]),
    ensures
        trace::read_lines(s, ls, so_base) matches Ok(t) ==> t.break_on == s.break_on,
    decreases ls.len(),
{
    if ls.len() > 0 {
        assert(!names_event(ls[0]));
        if let Ok(t) = trace::read_line(s, ls[0], so_base) {
            let rest = ls.skip(1);
            assert forall|i: int| 0 <= i < rest.len() implies !names_event(#[trigger] rest[i]) by {
                assert(rest[i] == ls[i + 1]);
            }
            lemma_event_is_kept(t, rest, so_base);
        }
    }
}

/// A trace whose text does not say which event timed it is timed by branches.
pub proof fn law_event_defaults_to_branches(s: Seq<char>, so_base: u64)
    requires
        forall|i: int| 0 <= i < text::lines(s).len() ==> !names_event(#[trigger] text::lines(s)[i]),
    ensures
        trace::read_trace(s, so_base) matches Ok(t) ==> t.break_on
            == PmuEvent::RetiredBranchConditional,
{
    lemma_event_is_kept(trace::no_lines(), text::lines(s), so_base);
}

// ---------------------------------------------------------------------------
// Traces that were read
// ---------------------------------------------------------------------------

/// The words of a text have no white space.
proof fn lemma_words_are_solid(s: Seq<char>)
    ensures
        forall|i: int| 0 <= i < text::words(s).len() ==> text::is_solid(#[trigger] text::words(s)[i]),
    decreases s.len(),
{
    let ws = text::words(s);
    if s.len() > 0 {
        if text::is_space(s[0]) {
            lemma_words_are_solid(s.skip(1));
            assert(ws == text::words(s.skip(1)));
        } else {
            let n = text::word_len(s) as int;
            text::lemma_word_len(s);
            let rest = text::words(s.skip(n));
            lemma_words_are_solid(s.skip(n));
            assert forall|i: int| 0 <= i < ws.len() implies text::is_solid(#[trigger] ws[i]) by {
                if i == 0 {
                    assert forall|k: int| 0 <= k < ws[0].len() implies !text::is_space(
                        #[trigger] ws[0][k],
                    ) by {
                        assert(ws[0][k] == s[k]);
                    }
                } else {
                    assert(ws[i] == rest[i - 1]);
                }
            }
        }
    }
}

/// Whether a kfunc name can be written and read back.
spec fn is_plain(name: Seq<char>) -> bool {
    text::is_solid(name) && name != "-"@
}

proof fn lemma_read_word_is_plain(f: LineValues, w: Seq<char>)
    requires
        text::is_solid(w),
        is_plain(f.kfunc_name),
    ensures
        trace::read_word(f, w) matches Ok(g) ==> is_plain(g.kfunc_name),
{
    reveal(trace::read_word);
    reveal_strlit("-");
    if let Some(v) = text::after_prefix(w, "kfunc="@) {
        assert forall|i: int| 0 <= i < v.len() implies !text::is_space(#[trigger] v[i]) by {
            assert(v[i] == w[i + "kfunc="@.len()]);
        }
        assert(is_plain(trace::kfunc_of(v)));
    }
}

proof fn lemma_read_words_are_plain(f: LineValues, ws: Seq<Seq<char>>)
    requires
        forall|i: int| 0 <= i < ws.len() ==> text::is_solid(#[trigger] ws[i]),
        is_plain(f.kfunc_name),
    ensures
        trace::read_words(f, ws) matches Ok(g) ==> is_plain(g.kfunc_name),
    decreases ws.len(),
{
    if ws.len() > 0 {
        assert(text::is_solid(ws[0]));
        lemma_read_word_is_plain(f, ws[0]);
        if let Ok(g) = trace::read_word(f, ws[0]) {
            let rest = ws.skip(1);
            assert forall|i: int| 0 <= i < rest.len() implies text::is_solid(#[trigger] rest[i]) by {
                assert(rest[i] == ws[i + 1]);
            }
            lemma_read_words_are_plain(g, rest);
        }
    }
}

proof fn lemma_read_lines_are_plain(s: TraceLines, ls: Seq<Seq<char>>, so_base: u64)
    requires
        forall|i: int| 0 <= i < s.records.len() ==> has_plain_kfunc(#[trigger] s.records[i]),
    ensures
        trace::read_lines(s, ls, so_base) matches Ok(t) ==> forall|i: int|
            0 <= i < t.records.len() ==> has_plain_kfunc(#[trigger] t.records[i]),
    decreases ls.len(),
{
    if ls.len() > 0 {
        let line = text::trimmed(ls[0]);
        lemma_words_are_solid(line);
        reveal_strlit("-");
        assert("-"@.len() == 1 && trace::no_values().kfunc_name.len() == 0);
        lemma_read_words_are_plain(trace::no_values(), text::words(line));
        if let Ok(t) = trace::read_line(s, ls[0], so_base) {
            assert forall|i: int| 0 <= i < t.records.len() implies has_plain_kfunc(
                #[trigger] t.records[i],
            ) by {
                if i < s.records.len() {
                    assert(t.records[i] == s.records[i]);
                }
            }
            lemma_read_lines_are_plain(t, ls.skip(1), so_base);
        }
    }
}

/// The records of a worker are among all records.
proof fn lemma_of_worker_is_plain(records: Seq<RecordView>, w: int)
    requires
        forall|i: int| 0 <= i < records.len() ==> has_plain_kfunc(#[trigger] records[i]),
    ensures
        forall|i: int|
            0 <= i < trace::of_worker(records, w).len() ==> has_plain_kfunc(
                #[trigger] trace::of_worker(records, w)[i],
            ),
    decreases records.len(),
{
    if records.len() > 0 {
        let t = records.drop_last();
        assert forall|i: int| 0 <= i < t.len() implies has_plain_kfunc(#[trigger] t[i]) by {
            assert(t[i] == records[i]);
        }
        assert(has_plain_kfunc(records[records.len() - 1]));
        lemma_of_worker_is_plain(t, w);
        let a = trace::of_worker(t, w);
        let b = trace::of_worker(records, w);
        assert forall|i: int| 0 <= i < b.len() implies has_plain_kfunc(#[trigger] b[i]) by {
            if i < a.len() {
                assert(b[i] == a[i]);
            }
        }
    }
}

/// The kfunc names of a trace that was read can be written and read back.
pub proof fn law_read_trace_has_plain_kfuncs(s: Seq<char>, so_base: u64)
    ensures
        trace::read_trace(s, so_base) matches Ok(t) ==> has_plain_kfuncs(t),
{
    broadcast use vstd::seq_lib::group_to_multiset_ensures;

    lemma_read_lines_are_plain(trace::no_lines(), text::lines(s), so_base);
    if let Ok(r) = trace::read_lines(trace::no_lines(), text::lines(s), so_base) {
        let t = trace::trace_of(r.records, trace::worker_count(r), r.break_on);
        assert forall|w: int, i: int|
            0 <= w < t.per_worker.len() && 0 <= i < t.per_worker[w].len() implies has_plain_kfunc(
            #[trigger] t.per_worker[w][i],
        ) by {
            let mine = trace::of_worker(r.records, w);
            let x = t.per_worker[w][i];
            lemma_of_worker_is_plain(r.records, w);
            order::lemma_sort_by(mine, trace::view_key());
            assert(t.per_worker[w].to_multiset().count(x) > 0);
            assert(mine.contains(x));
        }
    }
}

/// Whatever text a trace was read from: writing the trace and reading it again, at
/// the base it was read at, gives the same trace, unless an address lies below the
/// base.
pub proof fn law_read_trace_round_trip(s: Seq<char>, so_base: u64)
    ensures
        trace::read_trace(s, so_base) matches Ok(t) ==> t.wf() && is_above(t, so_base)
            ==> trace::read_trace(trace::trace_text(t, so_base), so_base) == Ok::<
            TraceView,
            Seq<char>,
        >(t),
{
    law_read_trace_has_plain_kfuncs(s, so_base);
    if let Ok(t) = trace::read_trace(s, so_base) {
        if t.wf() && is_above(t, so_base) {
            assert(has_word_kfuncs(t)) by {
                assert forall|w: int, i: int|
                    0 <= w < t.per_worker.len() && 0 <= i < t.per_worker[w].len() implies
                    has_word_kfunc(#[trigger] t.per_worker[w][i]) by {
                    assert(has_plain_kfunc(t.per_worker[w][i]));
                }
            }
            law_trace_round_trip(t, so_base);
        }
    }
}

// ---------------------------------------------------------------------------
// Grouping and reading, value by value
// ---------------------------------------------------------------------------

proof fn lemma_of_worker_counts(records: Seq<RecordView>, w: int, x: RecordView)
    ensures
        trace::of_worker(records, w).to_multiset().count(x) == if x.worker_id.0 == w {
            records.to_multiset().count(x)
        } else {
            0
        },
    decreases records.len(),
{
    broadcast use vstd::seq_lib::group_to_multiset_ensures;

    if records.len() > 0 {
        let t = records.drop_last();
        let y = records.last();
        lemma_of_worker_counts(t, w, x);
        assert(t.push(y) =~= records);
        assert(t.push(y).to_multiset() =~= t.to_multiset().insert(y));
        let a = trace::of_worker(t, w);
        assert(a.push(y).to_multiset() =~= a.to_multiset().insert(y));
    }
}

/// A trace has a list for each of its workers. In the list of a worker stands every record
/// that was made on it, as often as it was made, and no other, in the order of their
/// numbers.
pub proof fn law_each_worker_gets_its_records(
    records: Seq<RecordView>,
    n: nat,
    event: PmuEvent,
    w: int,
    x: RecordView,
    i: int,
    j: int,
)
    requires
        0 <= w < n,
    ensures
        ({
            let t = trace::trace_of(records, n, event);
            let mine = t.per_worker[w];
            &&& t.per_worker.len() == n
            &&& t.break_on == event
            &&& mine.to_multiset().count(x) == if x.worker_id.0 == w {
                records.to_multiset().count(x)
            } else {
                0
            }
            &&& 0 <= i < j < mine.len() ==> mine[i].sequence <= mine[j].sequence
        }),
{
    let mine = trace::of_worker(records, w);
    lemma_of_worker_counts(records, w, x);
    order::lemma_sort_by(mine, trace::view_key());
    let key = trace::view_key();
    let sorted = trace::trace_of(records, n, event).per_worker[w];
    if 0 <= i < j < sorted.len() {
        assert(key(sorted[i]) <= key(sorted[j]));
    }
}

/// All records of a trace are written, in the order of their numbers.
pub proof fn law_all_records_are_written(t: TraceView, x: RecordView, i: int, j: int)
    ensures
        trace::canonical(t).len() == trace::concatenated(t.per_worker).len(),
        trace::canonical(t).to_multiset().count(x) == trace::concatenated(
            t.per_worker,
        ).to_multiset().count(x),
        0 <= i < j < trace::canonical(t).len() ==> trace::canonical(t)[i].sequence
            <= trace::canonical(t)[j].sequence,
{
    let key = trace::view_key();
    order::lemma_sort_by(trace::concatenated(t.per_worker), key);
    if 0 <= i < j < trace::canonical(t).len() {
        assert(key(trace::canonical(t)[i]) <= key(trace::canonical(t)[j]));
    }
}

/// The text of a trace has four lines of a header and one line for each record. The
/// header says what follows: the number of workers, the event, and the number of records.
pub proof fn law_trace_has_a_line_for_each_record(t: TraceView, so_base: u64)
    requires
        t.wf(),
        has_word_kfuncs(t),
    ensures
        ({
            let ls = text::lines(trace::trace_text(t, so_base));
            &&& ls.len() == 4 + trace::concatenated(t.per_worker).len()
            &&& ls[0] == "# scxsim preemption trace"@
            &&& ls[1] == "# workers: "@ + text::decimal(t.per_worker.len())
            &&& ls[2] == "# break_on: "@ + t.break_on.name()
            &&& ls[3] == "# total: "@ + text::decimal(trace::concatenated(t.per_worker).len())
            &&& forall|i: int|
                0 <= i < ls.len() - 4 ==> #[trigger] ls[i + 4] == trace::record_line(
                    trace::canonical(t)[i],
                    so_base,
                )
        }),
{
    let all = trace::canonical(t);
    let ls = trace::header_lines(t) + trace::record_lines(all, so_base);
    lemma_canonical_words(t);
    lemma_read_written(t, all, so_base, so_base);
    lemma_lines_written(ls);
    order::lemma_sort_by(trace::concatenated(t.per_worker), trace::view_key());
    assert forall|i: int| 0 <= i < ls.len() - 4 implies #[trigger] ls[i + 4] == trace::record_line(
        all[i],
        so_base,
    ) by {}
}

/// The line of a record has eight words, and ten if it was made in a callback or at a
/// kfunc; each says of one value what it is, in a fixed order.
pub proof fn law_record_line_has_its_words(r: RecordView, so_base: u64)
    requires
        has_word_kfunc(r),
    ensures
        ({
            let ws = text::words(trace::record_line(r, so_base));
            let n = ws.len() as int;
            &&& r.ops_context is NoOps && r.kfunc_name.len() == 0 ==> n == 8
            &&& !(r.ops_context is NoOps) || r.kfunc_name.len() > 0 ==> {
                &&& n == 10
                &&& ws[1] == "ops="@ + r.ops_context.name()
                &&& r.kfunc_name.len() > 0 ==> ws[2] == "kfunc="@ + r.kfunc_name
                &&& r.kfunc_name.len() == 0 ==> ws[2] == "kfunc="@ + seq!['-']
            }
            &&& ws[0] == "seq="@ + text::decimal(r.sequence as nat)
            &&& ws[n - 7] == "structop="@ + text::decimal(r.structop_local as nat) + ":"@
                + text::decimal(r.structop_global as nat)
            &&& ws[n - 6] == "rbc="@ + text::decimal(r.structop_rbc as nat)
            &&& ws[n - 5] == "timeslice="@ + text::decimal(r.rbc_count as nat)
            &&& ws[n - 4] == "rip="@ + "0x"@ + text::hexadecimal(r.instruction_pointer as nat)
            &&& 0 < so_base <= r.instruction_pointer ==> ws[n - 3] == "rip_offset="@ + "0x"@
                + text::hexadecimal((r.instruction_pointer - so_base) as nat)
            &&& so_base == 0 || r.instruction_pointer < so_base ==> ws[n - 3] == "rip_offset="@
                + "0x"@ + text::hexadecimal(r.instruction_pointer as nat)
            &&& ws[n - 2] == "cpu="@ + text::decimal(r.cpu_id.0 as nat)
            &&& ws[n - 1] == "worker="@ + text::decimal(r.worker_id.0 as nat)
        }),
{
    lemma_record_words_solid(r, so_base);
    let ws = trace::record_words(r, so_base);
    lemma_words_joined(ws);
    let w1 = seq!["seq="@ + text::decimal(r.sequence as nat)];
    let w2 = trace::context_words(r);
    let w3 = trace::place_words(r, so_base);
    reveal_strlit("-");
    assert("-"@ =~= seq!['-']);
    let n = ws.len() as int;
    assert(n == 1 + w2.len() + 7);
    assert(ws[0] == w1[0]);
    if w2.len() > 0 {
        assert(ws[1] == w2[0] && ws[2] == w2[1]);
    }
    assert(ws[n - 7] == w3[0] && ws[n - 6] == w3[1] && ws[n - 5] == w3[2] && ws[n - 4] == w3[3]);
    assert(ws[n - 3] == w3[4] && ws[n - 2] == w3[5] && ws[n - 1] == w3[6]);
}

/// An address is recorded by its distance from a base that is known and not above it, and
/// found again from there; without a base it is taken as it was recorded.
pub proof fn law_address_is_found_by_its_distance(f: LineValues, so_base: u64, offset: u64)
    requires
        so_base + offset <= u64::MAX,
    ensures
        so_base > 0 && f.rip_offset == Some(offset) ==> trace::record_from(
            f,
            so_base,
        ).instruction_pointer == so_base + offset,
        so_base == 0 ==> trace::record_from(f, so_base).instruction_pointer == f.rip,
        f.rip_offset is None ==> trace::record_from(f, so_base).instruction_pointer == f.rip,
{
    vstd::arithmetic::div_mod::lemma_small_mod(
        (so_base + offset) as nat,
        0x1_0000_0000_0000_0000,
    );
}

/// With a timeslice, that is the count of a record and `rbc` belongs to the structop;
/// without one, as in older traces, `rbc` is the count. The other values are taken over.
pub proof fn law_older_lines_have_the_count_as_rbc(f: LineValues, so_base: u64)
    ensures
        ({
            let r = trace::record_from(f, so_base);
            &&& f.timeslice matches Some(v) ==> r.rbc_count == v
            &&& f.timeslice is None ==> r.structop_rbc == 0
            &&& f.timeslice is None ==> (f.rbc matches Some(v) ==> r.rbc_count == v)
            &&& f.timeslice is Some ==> (f.rbc matches Some(v) ==> r.structop_rbc == v)
            &&& f.timeslice is None && f.rbc is None ==> r.rbc_count == 0
            &&& f.rbc is None ==> r.structop_rbc == 0
            &&& r.sequence == f.seq
            &&& r.cpu_id.0 == f.cpu
            &&& r.worker_id.0 == f.worker
            &&& r.structop_local == f.structop_local
            &&& r.structop_global == f.structop_global
            &&& r.ops_context == f.ops_context
            &&& r.kfunc_name == f.kfunc_name
        }),
{
}

/// A word sets the value that it names and no other, and fails exactly if its number
/// cannot be read.
pub proof fn law_word_sets_its_value(f: LineValues, v: Seq<char>)
    ensures
        trace::read_word(f, "seq="@ + v) is Err <==> trace::read_u64(v) is Err,
        trace::read_u64(v) matches Ok(n) ==> trace::read_word(f, "seq="@ + v) == Ok::<
            LineValues,
            Seq<char>,
        >(LineValues { seq: n, ..f }),
        trace::read_word(f, "timeslice="@ + v) is Err <==> trace::read_u64(v) is Err,
        trace::read_u64(v) matches Ok(n) ==> trace::read_word(f, "timeslice="@ + v) == Ok::<
            LineValues,
            Seq<char>,
        >(LineValues { timeslice: Some(n), ..f }),
        trace::read_word(f, "rbc="@ + v) is Err <==> trace::read_u64(v) is Err,
        trace::read_u64(v) matches Ok(n) ==> trace::read_word(f, "rbc="@ + v) == Ok::<
            LineValues,
            Seq<char>,
        >(LineValues { rbc: Some(n), ..f }),
        trace::read_word(f, "rip="@ + v) is Err <==> trace::read_hex_or_dec(v) is Err,
        trace::read_hex_or_dec(v) matches Ok(n) ==> trace::read_word(f, "rip="@ + v) == Ok::<
            LineValues,
            Seq<char>,
        >(LineValues { rip: n, ..f }),
        trace::read_word(f, "rip_offset="@ + v) is Err <==> trace::read_hex_or_dec(v) is Err,
        trace::read_hex_or_dec(v) matches Ok(n) ==> trace::read_word(f, "rip_offset="@ + v)
            == Ok::<LineValues, Seq<char>>(LineValues { rip_offset: Some(n), ..f }),
        trace::read_word(f, "cpu="@ + v) is Err <==> trace::read_u32(v) is Err,
        trace::read_u32(v) matches Ok(n) ==> trace::read_word(f, "cpu="@ + v) == Ok::<
            LineValues,
            Seq<char>,
        >(LineValues { cpu: n, ..f }),
        trace::read_word(f, "worker="@ + v) is Err <==> trace::read_usize(v) is Err,
        trace::read_usize(v) matches Ok(n) ==> trace::read_word(f, "worker="@ + v) == Ok::<
            LineValues,
            Seq<char>,
        >(LineValues { worker: n, ..f }),
        trace::read_word(f, "ops="@ + v) == Ok::<LineValues, Seq<char>>(
            LineValues { ops_context: OpsContext::named(v), ..f },
        ),
        v != seq!['-'] ==> trace::read_word(f, "kfunc="@ + v) == Ok::<LineValues, Seq<char>>(
            LineValues { kfunc_name: v, ..f },
        ),
        trace::read_word(f, "kfunc="@ + seq!['-']) == Ok::<LineValues, Seq<char>>(
            LineValues { kfunc_name: Seq::empty(), ..f },
        ),
{
    reveal(trace::read_word);
    reveal_strlit("seq=");
    reveal_strlit("timeslice=");
    reveal_strlit("rbc=");
    reveal_strlit("rip=");
    reveal_strlit("rip_offset=");
    reveal_strlit("cpu=");
    reveal_strlit("worker=");
    reveal_strlit("ops=");
    reveal_strlit("kfunc=");
    reveal_strlit("-");
    assert("-"@ =~= seq!['-']);
    text::lemma_after_prefix("seq="@, v);
    text::lemma_after_prefix("timeslice="@, v);
    text::lemma_after_prefix("rbc="@, v);
    text::lemma_after_prefix("rip="@, v);
    text::lemma_after_prefix("rip_offset="@, v);
    text::lemma_after_prefix("cpu="@, v);
    text::lemma_after_prefix("worker="@, v);
    text::lemma_after_prefix("ops="@, v);
    text::lemma_after_prefix("kfunc="@, v);
    text::lemma_after_prefix("kfunc="@, seq!['-']);
    lemma_other_names("timeslice="@ + v);
    lemma_other_names("rbc="@ + v);
    lemma_other_names("rip="@ + v);
    lemma_other_names("rip_offset="@ + v);
    lemma_other_names("cpu="@ + v);
    lemma_other_names("worker="@ + v);
    lemma_other_names("ops="@ + v);
    lemma_other_names("kfunc="@ + v);
    lemma_other_names("kfunc="@ + seq!['-']);
}

/// A word without an equals sign sets nothing.
pub proof fn law_other_words_set_nothing(f: LineValues, w: Seq<char>)
    requires
        forall|i: int| 0 <= i < w.len() ==> #[trigger] w[i] != '=',
    ensures
        trace::read_word(f, w) == Ok::<LineValues, Seq<char>>(f),
{
    reveal(trace::read_word);
    reveal_strlit("seq=");
    reveal_strlit("timeslice=");
    reveal_strlit("rbc=");
    reveal_strlit("rip=");
    reveal_strlit("rip_offset=");
    reveal_strlit("cpu=");
    reveal_strlit("worker=");
    reveal_strlit("structop=");
    reveal_strlit("ops=");
    reveal_strlit("kfunc=");
    text::lemma_not_prefix(w, "seq="@, 3);
    text::lemma_not_prefix(w, "timeslice="@, 9);
    text::lemma_not_prefix(w, "rbc="@, 3);
    text::lemma_not_prefix(w, "rip="@, 3);
    text::lemma_not_prefix(w, "rip_offset="@, 10);
    text::lemma_not_prefix(w, "cpu="@, 3);
    text::lemma_not_prefix(w, "worker="@, 6);
    text::lemma_not_prefix(w, "structop="@, 8);
    text::lemma_not_prefix(w, "ops="@, 3);
    text::lemma_not_prefix(w, "kfunc="@, 5);
}

/// An address may be written in hexadecimal behind `0x` or `0X`, or in decimal; the value
/// is what counts.
pub proof fn law_addresses_are_read_in_both_bases(n: u64)
    ensures
        trace::read_hex_or_dec(seq!['0', 'x'] + text::hexadecimal(n as nat)) == Ok::<u64, IntError>(
            n,
        ),
        trace::read_hex_or_dec(seq!['0', 'X'] + text::hexadecimal(n as nat)) == Ok::<u64, IntError>(
            n,
        ),
        trace::read_hex_or_dec(text::decimal(n as nat)) == Ok::<u64, IntError>(n),
        trace::read_u64(text::decimal(n as nat)) == Ok::<u64, IntError>(n),
{
    let h = text::hexadecimal(n as nat);
    let d = text::decimal(n as nat);
    reveal_strlit("0x");
    reveal_strlit("0X");
    assert("0x"@ =~= seq!['0', 'x']);
    assert("0X"@ =~= seq!['0', 'X']);
    lemma_address(n);
    lemma_decimal_u64(n);
    text::lemma_after_prefix("0X"@, h);
    text::lemma_not_prefix("0X"@ + h, "0x"@, 1);
    text::law_number_round_trip(n as nat, 16, u64::MAX as nat);
    text::lemma_digits_chars(n as nat, 10);
    if d.len() > 1 {
        text::law_written_digits_have_the_value(n as nat, 10);
        assert(text::digit_value(d[1], 10) is Some);
    }
    text::lemma_not_prefix(d, "0x"@, 1);
    text::lemma_not_prefix(d, "0X"@, 1);
}

proof fn lemma_max_worker(records: Seq<RecordView>)
    ensures
        forall|i: int|
            0 <= i < records.len() ==> (#[trigger] records[i]).worker_id.0 <= trace::max_worker(
                records,
            ),
        records.len() > 0 ==> exists|i: int|
            0 <= i < records.len() && (#[trigger] records[i]).worker_id.0 == trace::max_worker(
                records,
            ),
    decreases records.len(),
{
    if records.len() > 0 {
        let t = records.drop_last();
        lemma_max_worker(t);
        let m = trace::max_worker(records);
        assert forall|i: int| 0 <= i < records.len() implies (#[trigger] records[i]).worker_id.0
            <= m by {
            if i < t.len() {
                assert(t[i] == records[i]);
            }
        }
        if records.last().worker_id.0 == m {
            assert(records[records.len() - 1].worker_id.0 == m);
        } else {
            assert(t.len() == 0 ==> trace::max_worker(t) == 0);
            let i = choose|i: int|
                0 <= i < t.len() && (#[trigger] t[i]).worker_id.0 == trace::max_worker(t);
            assert(records[i].worker_id.0 == m);
        }
    }
}

/// The header decides on the number of workers. Without one there are exactly as many as
/// the records need: each record has its worker, and the last worker has a record.
pub proof fn law_workers_suffice_for_the_records(s: TraceLines, i: int)
    requires
        forall|k: int| 0 <= k < s.records.len() ==> (#[trigger] s.records[k]).worker_id.0
            < usize::MAX,
    ensures
        s.num_workers > 0 ==> trace::worker_count(s) == s.num_workers,
        s.records.len() == 0 ==> trace::worker_count(s) == s.num_workers,
        s.num_workers == 0 && 0 <= i < s.records.len() ==> s.records[i].worker_id.0
            < trace::worker_count(s),
        s.num_workers == 0 && s.records.len() > 0 ==> exists|k: int|
            0 <= k < s.records.len() && (#[trigger] s.records[k]).worker_id.0 + 1
                == trace::worker_count(s),
{
    lemma_max_worker(s.records);
    if s.records.len() > 0 {
        let k = choose|k: int|
            0 <= k < s.records.len() && (#[trigger] s.records[k]).worker_id.0 == trace::max_worker(
                s.records,
            );
        assert(s.records[k].worker_id.0 < usize::MAX);
        assert(s.records[k].worker_id.0 == trace::max_worker(s.records));
    }
}

/// A blank line and a comment that is no header say nothing; a line that is neither adds
/// one record or fails, and no line takes a record away.
pub proof fn law_lines_add_at_most_one_record(s: TraceLines, line: Seq<char>, so_base: u64)
    ensures
        text::trimmed(line).len() == 0 ==> trace::read_line(s, line, so_base) == Ok::<
            TraceLines,
            Seq<char>,
        >(s),
        text::trimmed(line).len() > 0 && text::trimmed(line)[0] == '#' ==> (trace::read_line(
            s,
            line,
            so_base,
        ) matches Ok(t) ==> t.records == s.records),
        text::trimmed(line).len() > 0 && text::trimmed(line)[0] != '#' ==> match trace::read_record(
            text::trimmed(line),
            so_base,
        ) {
            Ok(r) => trace::read_line(s, line, so_base) == Ok::<TraceLines, Seq<char>>(
                TraceLines { records: s.records + seq![r], ..s },
            ),
            Err(_) => trace::read_line(s, line, so_base) is Err,
        },
{
    reveal_strlit("#");
    let t = text::trimmed(line);
    if t.len() > 0 {
        assert(text::starts_with(t, "#"@) <==> t[0] == '#') by {
            assert("#"@ =~= seq!['#']);
            assert(t.take(1) =~= seq![t[0]]);
            assert(seq![t[0]][0] == t[0] && "#"@[0] == '#');
        }
    }
    if let Ok(r) = trace::read_record(t, so_base) {
        assert(s.records.push(r) =~= s.records + seq![r]);
    }
}

/// A trace is as long as the lists of its workers together.
pub proof fn law_trace_length_adds_up(per_worker: Seq<Seq<RecordView>>, list: Seq<RecordView>)
    ensures
        trace::concatenated(per_worker.push(list)) == trace::concatenated(per_worker) + list,
        trace::concatenated(Seq::<Seq<RecordView>>::empty()).len() == 0,
{
    assert(per_worker.push(list).drop_last() =~= per_worker);
}

/// The line that a record shows itself by has six words, each with one of its values.
pub proof fn law_record_shows_its_values(r: PreemptionRecord)
    ensures
        text::words(r.text()) == seq![
            "seq="@ + text::decimal(r.sequence as nat),
            "structop="@ + text::decimal(r.structop_local as nat) + ":"@ + text::decimal(
                r.structop_global as nat,
            ),
            "rbc="@ + text::decimal(r.structop_rbc as nat),
            "rip="@ + "0x"@ + text::hexadecimal(r.instruction_pointer as nat),
            "cpu="@ + text::decimal(r.cpu_id.0 as nat),
            "worker="@ + text::decimal(r.worker_id.0 as nat),
        ],
{
    let full = trace::place_words(
        RecordView { kfunc_name: seq![], ..r@ },
        0,
    );
    let w0 = "seq="@ + text::decimal(r.sequence as nat);
    let w1 = full[0];
    let w2 = full[1];
    let w3 = full[3];
    let w4 = full[5];
    let w5 = full[6];
    let ws = seq![w0, w1, w2, w3, w4, w5];
    let plain = RecordView { kfunc_name: seq![], ops_context: OpsContext::NoOps, ..r@ };
    lemma_record_words_solid(plain, 0);
    let all = trace::record_words(plain, 0);
    assert(all[0] == w0 && all[1] == w1 && all[2] == w2 && all[4] == w3 && all[6] == w4 && all[7]
        == w5);
    assert forall|i: int| 0 <= i < ws.len() implies text::is_solid(#[trigger] ws[i]) && ws[i].len()
        > 0 by {
        assert(ws[0] == all[0] && ws[1] == all[1] && ws[2] == all[2] && ws[3] == all[4] && ws[4]
            == all[6] && ws[5] == all[7]);
    }
    lemma_words_joined(ws);
    reveal_strlit("seq=");
    reveal_strlit(" structop=");
    reveal_strlit("structop=");
    reveal_strlit(" rbc=");
    reveal_strlit("rbc=");
    reveal_strlit(" rip=0x");
    reveal_strlit("rip=");
    reveal_strlit("0x");
    reveal_strlit(" cpu=");
    reveal_strlit("cpu=");
    reveal_strlit(" worker=");
    reveal_strlit("worker=");
    reveal_with_fuel(trace::joined, 7);
    let sp = seq![' '];
    assert(" structop="@ =~= sp + "structop="@);
    assert(" rbc="@ =~= sp + "rbc="@);
    assert(" rip=0x"@ =~= sp + ("rip="@ + "0x"@));
    assert(" cpu="@ =~= sp + "cpu="@);
    assert(" worker="@ =~= sp + "worker="@);
    let j1 = seq![w0, w1];
    let j2 = seq![w0, w1, w2];
    let j3 = seq![w0, w1, w2, w3];
    let j4 = seq![w0, w1, w2, w3, w4];
    assert(ws.drop_last() =~= j4);
    assert(j4.drop_last() =~= j3);
    assert(j3.drop_last() =~= j2);
    assert(j2.drop_last() =~= j1);
    assert(j1.drop_last() =~= seq![w0]);
    assert(r.text() =~= trace::joined(ws));
}

/// An error tells which line could not be read, and a number that could not be read is told
/// by the name of its field.
pub proof fn law_errors_tell_the_line(s: TraceLines, line: Seq<char>, so_base: u64, f: LineValues)
    requires
        text::trimmed(line).len() > 0,
        text::trimmed(line)[0] != '#',
    ensures
        trace::read_record(text::trimmed(line), so_base) matches Err(e) ==> trace::read_line(
            s,
            line,
            so_base,
        ) == Err::<TraceLines, Seq<char>>("bad preemption line: "@ + e + ": "@ + text::trimmed(line)),
        trace::read_u64(line) matches Err(e) ==> trace::read_word(f, "seq="@ + line) == Err::<
            LineValues,
            Seq<char>,
        >("seq"@ + ": "@ + e.text()),
        trace::read_u64(line) matches Err(e) ==> trace::read_word(f, "timeslice="@ + line) == Err::<
            LineValues,
            Seq<char>,
        >("timeslice"@ + ": "@ + e.text()),
        trace::read_u64(line) matches Err(e) ==> trace::read_word(f, "rbc="@ + line) == Err::<
            LineValues,
            Seq<char>,
        >("rbc"@ + ": "@ + e.text()),
        trace::read_u32(line) matches Err(e) ==> trace::read_word(f, "cpu="@ + line) == Err::<
            LineValues,
            Seq<char>,
        >("cpu"@ + ": "@ + e.text()),
        trace::read_usize(line) matches Err(e) ==> trace::read_word(f, "worker="@ + line) == Err::<
            LineValues,
            Seq<char>,
        >("worker"@ + ": "@ + e.text()),
        trace::read_hex_or_dec(line) matches Err(e) ==> trace::read_word(f, "rip="@ + line) == Err::<
            LineValues,
            Seq<char>,
        >("rip"@ + ": "@ + e.text()),
        trace::read_hex_or_dec(line) matches Err(e) ==> trace::read_word(f, "rip_offset="@ + line)
            == Err::<LineValues, Seq<char>>("rip_offset"@ + ": "@ + e.text()),
{
    reveal(trace::read_word);
    reveal_strlit("#");
    reveal_strlit("seq=");
    reveal_strlit("timeslice=");
    reveal_strlit("rbc=");
    reveal_strlit("rip=");
    reveal_strlit("rip_offset=");
    reveal_strlit("cpu=");
    reveal_strlit("worker=");
    let t = text::trimmed(line);
    text::lemma_not_prefix(t, "#"@, 0);
    text::lemma_after_prefix("seq="@, line);
    text::lemma_after_prefix("timeslice="@, line);
    text::lemma_after_prefix("rbc="@, line);
    text::lemma_after_prefix("rip="@, line);
    text::lemma_after_prefix("rip_offset="@, line);
    text::lemma_after_prefix("cpu="@, line);
    text::lemma_after_prefix("worker="@, line);
    lemma_other_names("timeslice="@ + line);
    lemma_other_names("rbc="@ + line);
    lemma_other_names("rip="@ + line);
    lemma_other_names("rip_offset="@ + line);
    lemma_other_names("cpu="@ + line);
    lemma_other_names("worker="@ + line);
}

} // verus!
