//! Compact formatting helpers for trace output.
//!
//! [`SimLayer`] formats trace events showing simulator virtual time instead of
//! wall-clock time. Each event is formatted into a fresh string and sanitized:
//! under dynamic binary instrumentation, stale bytes can get into a format buffer.

use vstd::prelude::*;
use vstd::slice::slice_subrange;

use crate::text;
use crate::text::{chars_of, decimal_text, pad_left, string_of, text_eq};
use crate::types::{CpuId, TimeNs};

verus! {

// ---------------------------------------------------------------------------
// Numbers
// ---------------------------------------------------------------------------

/// Wrapper that displays large round numbers compactly.
///
/// Exact multiples of powers of 1000 are shortened:
/// - `1_000` → `1K`
/// - `20_000_000` → `20M`
/// - `3_000_000_000` → `3B`
/// - `1_000_000_000_000` → `1T`
///
/// Non-round numbers pass through unchanged: `12345` → `12345`.
pub struct FmtN(pub u64);

/// Whether `v` is a positive multiple of `unit`.
pub open spec fn is_round(v: u64, unit: u64) -> bool {
    v >= unit && v % unit == 0
}

impl FmtN {
    /// The number in the largest unit of which it is a multiple.
    pub open spec fn text(self) -> Seq<char> {
        let v = self.0;
        if is_round(v, 1_000_000_000_000) {
            text::decimal((v / 1_000_000_000_000) as nat) + "T"@
        } else if is_round(v, 1_000_000_000) {
            text::decimal((v / 1_000_000_000) as nat) + "B"@
        } else if is_round(v, 1_000_000) {
            text::decimal((v / 1_000_000) as nat) + "M"@
        } else if is_round(v, 1_000) {
            text::decimal((v / 1_000) as nat) + "K"@
        } else {
            text::decimal(v as nat)
        }
    }

    /// The number in the largest unit of which it is a multiple.
    pub fn to_string(&self) -> (r: String)
        ensures
            r@ == self.text(),
    {
        let v: u64 = self.0;
        if v >= 1_000_000_000_000 && v % 1_000_000_000_000 == 0 {
            with_suffix(v / 1_000_000_000_000, "T")
        } else if v >= 1_000_000_000 && v % 1_000_000_000 == 0 {
            with_suffix(v / 1_000_000_000, "B")
        } else if v >= 1_000_000 && v % 1_000_000 == 0 {
            with_suffix(v / 1_000_000, "M")
        } else if v >= 1_000 && v % 1_000 == 0 {
            with_suffix(v / 1_000, "K")
        } else {
            decimal_text(v)
        }
    }
}

fn with_suffix(v: u64, suffix: &str) -> (r: String)
    ensures
        r@ == text::decimal(v as nat) + suffix@,
{
    let mut r = decimal_text(v);
    r.append(suffix);
    r
}

/// `digits` with an underscore in front of each three from the right.
pub open spec fn group_digits(digits: Seq<char>) -> Seq<char>
    decreases digits.len(),
{
    if digits.len() <= 3 {
        digits
    } else {
        group_digits(digits.take(digits.len() - 3)) + seq!['_'] + digits.skip(digits.len() - 3)
    }
}

fn grouped(digits: &[char]) -> (r: String)
    ensures
        r@ == group_digits(digits@),
    decreases digits@.len(),
{
    let len: usize = digits.len();
    if len <= 3 {
        return string_of(digits);
    }
    let front = slice_subrange(digits, 0, len - 3);
    let back = slice_subrange(digits, len - 3, len);
    assert(front@ =~= digits@.take(len - 3));
    assert(back@ =~= digits@.skip(len - 3));
    let mut r = grouped(front);
    r.push('_');
    r.append(string_of(back).as_str());
    assert(r@ =~= group_digits(digits@));
    r
}

/// Format a u64 with underscore grouping (groups of 3 from the right).
pub fn fmt_grouped(v: u64) -> (r: String)
    ensures
        r@ == group_digits(text::decimal(v as nat)),
{
    let digits = decimal_text(v);
    let chars = chars_of(digits.as_str());
    grouped(&chars)
}

/// A duration in one unit, with one decimal place for the remainder.
pub open spec fn in_unit(ns: u64, unit: u64, suffix: Seq<char>) -> Seq<char> {
    let frac = (ns as nat % unit as nat) * 10 / unit as nat;
    if frac == 0 {
        text::decimal((ns / unit) as nat) + suffix
    } else {
        text::decimal((ns / unit) as nat) + "."@ + text::decimal(frac) + suffix
    }
}

/// A duration in the largest unit that it fills.
pub open spec fn duration_text(ns: u64) -> Seq<char> {
    if ns >= 1_000_000_000 {
        in_unit(ns, 1_000_000_000, "s"@)
    } else if ns >= 1_000_000 {
        in_unit(ns, 1_000_000, "ms"@)
    } else if ns >= 1_000 {
        in_unit(ns, 1_000, "µs"@)
    } else {
        text::decimal(ns as nat) + "ns"@
    }
}

fn text_in_unit(ns: u64, unit: u64, suffix: &str) -> (r: String)
    requires
        0 < unit <= 1_000_000_000,
    ensures
        r@ == in_unit(ns, unit, suffix@),
{
    let whole: u64 = ns / unit;
    let frac: u64 = (ns % unit) * 10 / unit;
    let mut r = decimal_text(whole);
    if frac != 0 {
        r.append(".");
        r.append(decimal_text(frac).as_str());
    }
    r.append(suffix);
    r
}

/// Format a nanosecond duration as a human-readable string.
///
/// Uses the largest unit that fits without a fractional part, with one
/// decimal place for sub-unit remainders:
/// - `0` → `"0ns"`
/// - `1_500` → `"1.5µs"`
/// - `20_000_000` → `"20ms"`
/// - `3_500_000_000` → `"3.5s"`
pub fn fmt_duration_ns(ns: u64) -> (r: String)
    ensures
        r@ == duration_text(ns),
{
    if ns >= 1_000_000_000 {
        text_in_unit(ns, 1_000_000_000, "s")
    } else if ns >= 1_000_000 {
        text_in_unit(ns, 1_000_000, "ms")
    } else if ns >= 1_000 {
        text_in_unit(ns, 1_000, "µs")
    } else {
        with_suffix(ns, "ns")
    }
}

// ---------------------------------------------------------------------------
// Timestamps
// ---------------------------------------------------------------------------

/// Whether a timestamp is a per-CPU local time or a global time.
#[derive(Debug, Clone, Copy, PartialEq, Eq, Structural)]
pub enum TsKind {
    /// Per-CPU local time, optionally carrying the CPU ID and zero-pad width.
    Local(Option<CpuId>, u8),
    Global,
}

/// Timestamp formatter with underscore-grouped digits and `:cpu`/`:G` suffix.
///
/// Formats nanosecond timestamps for trace output with room for 12 digits
/// (up to ~15 seconds), grouped in 3s with underscores, right-aligned.
///
/// When a CPU ID is present, the suffix includes the zero-padded CPU number:
/// - `[  988_779_026:cpu01]` — CPU 1, 2-digit padding
/// - `[  988_779_026:cpu]`   — no CPU context (e.g. timer events)
/// - `[  988_779_026:G]`     — global timestamp
#[derive(Debug, Clone, Copy, PartialEq, Eq, Structural)]
pub struct FmtTs {
    pub ns: TimeNs,
    pub kind: TsKind,
}

impl FmtTs {
    /// A per-CPU timestamp.
    pub fn local(ns: TimeNs, cpu: Option<CpuId>, width: u8) -> (r: FmtTs)
        ensures
            r == (FmtTs { ns, kind: TsKind::Local(cpu, width) }),
    {
        FmtTs { ns, kind: TsKind::Local(cpu, width) }
    }

    /// A global timestamp.
    pub fn global(ns: TimeNs) -> (r: FmtTs)
        ensures
            r == (FmtTs { ns, kind: TsKind::Global }),
    {
        FmtTs { ns, kind: TsKind::Global }
    }

    /// The timestamp as text.
    pub open spec fn text(self) -> Seq<char> {
        let ns = text::padded(group_digits(text::decimal(self.ns as nat)), 15, ' ');
        match self.kind {
            TsKind::Local(Some(cpu), width) => ns + ":cpu"@ + text::padded(
                text::decimal(cpu.0 as nat),
                width as nat,
                '0',
            ),
            TsKind::Local(None, _) => ns + ":cpu"@,
            TsKind::Global => ns + ":G"@,
        }
    }

    /// The timestamp as text.
    pub fn to_string(&self) -> (r: String)
        ensures
            r@ == self.text(),
    {
        let mut r = pad_left(fmt_grouped(self.ns).as_str(), 15, ' ');
        match self.kind {
            TsKind::Local(Some(cpu), width) => {
                r.append(":cpu");
                let number = decimal_text(cpu.0 as u64);
                r.append(pad_left(number.as_str(), width as usize, '0').as_str());
            },
            TsKind::Local(None, _) => {
                r.append(":cpu");
            },
            TsKind::Global => {
                r.append(":G");
            },
        }
        r
    }
}

// ---------------------------------------------------------------------------
// Events
// ---------------------------------------------------------------------------

/// The level of a trace event.
#[derive(Debug, Clone, Copy, PartialEq, Eq, Structural)]
pub enum Level {
    Error,
    Warn,
    Info,
    Debug,
    Trace,
}

impl Level {
    /// The name of the level, five characters wide.
    pub open spec fn text(self) -> Seq<char> {
        match self {
            Level::Error => "ERROR"@,
            Level::Warn => " WARN"@,
            Level::Info => " INFO"@,
            Level::Debug => "DEBUG"@,
            Level::Trace => "TRACE"@,
        }
    }

    /// The escape sequence for the color of the level: red, yellow, green, blue
    /// and magenta.
    pub open spec fn color(self) -> Seq<char> {
        match self {
            Level::Error => "\x1b[31m"@,
            Level::Warn => "\x1b[33m"@,
            Level::Info => "\x1b[32m"@,
            Level::Debug => "\x1b[34m"@,
            Level::Trace => "\x1b[35m"@,
        }
    }

    fn name(self) -> (r: &'static str)
        ensures
            r@ == self.text(),
    {
        match self {
            Level::Error => "ERROR",
            Level::Warn => " WARN",
            Level::Info => " INFO",
            Level::Debug => "DEBUG",
            Level::Trace => "TRACE",
        }
    }

    fn escape(self) -> (r: &'static str)
        ensures
            r@ == self.color(),
    {
        match self {
            Level::Error => "\x1b[31m",
            Level::Warn => "\x1b[33m",
            Level::Info => "\x1b[32m",
            Level::Debug => "\x1b[34m",
            Level::Trace => "\x1b[35m",
        }
    }
}

/// What a [`FieldCollector`] has collected.
#[verifier::ext_equal]
pub struct FieldsView {
    pub message: Seq<char>,
    pub fields: Seq<(Seq<char>, Seq<char>)>,
}

/// Visitor that collects the message and key-value fields from a trace event.
pub struct FieldCollector {
    message: String,
    fields: Vec<(String, String)>,
}

impl View for FieldCollector {
    type V = FieldsView;

    closed spec fn view(&self) -> FieldsView {
        FieldsView {
            message: self.message@,
            fields: Seq::new(
                self.fields@.len(),
                |i: int| (self.fields@[i].0@, self.fields@[i].1@),
            ),
        }
    }
}

impl FieldsView {
    /// What has been collected after one more field. The message is one field by
    /// its name.
    pub open spec fn with_text(self, name: Seq<char>, value: Seq<char>) -> FieldsView {
        if name == "message"@ {
            FieldsView { message: value, ..self }
        } else {
            self.with_field(name, value)
        }
    }

    /// What has been collected after one more field that is not the message.
    pub open spec fn with_field(self, name: Seq<char>, value: Seq<char>) -> FieldsView {
        FieldsView { fields: self.fields.push((name, value)), ..self }
    }
}

/// A signed number in decimal.
pub open spec fn signed_decimal(v: int) -> Seq<char> {
    if v < 0 {
        "-"@ + text::decimal((-v) as nat)
    } else {
        text::decimal(v as nat)
    }
}

/// The name of a truth value.
pub open spec fn bool_text(v: bool) -> Seq<char> {
    if v {
        "true"@
    } else {
        "false"@
    }
}

impl FieldCollector {
    /// Nothing collected.
    pub fn new() -> (r: FieldCollector)
        ensures
            r@ == (FieldsView { message: seq![], fields: seq![] }),
    {
        let r = FieldCollector { message: String::new(), fields: Vec::new() };
        assert(r@.fields =~= seq![]);
        r
    }

    fn push(&mut self, name: &str, value: String)
        ensures
            final(self)@ == old(self)@.with_field(name@, value@),
    {
        self.fields.push((name.to_owned(), value));
        assert(self@.fields =~= old(self)@.fields.push((name@, value@)));
    }

    /// Collect a field whose value has been written for debugging.
    pub fn record_debug(&mut self, name: &str, value: &str)
        ensures
            final(self)@ == old(self)@.with_text(name@, value@),
    {
        if text_eq(name, "message") {
            self.message = value.to_owned();
            assert(self@.fields =~= old(self)@.fields);
        } else {
            self.push(name, value.to_owned());
        }
    }

    /// Collect a string.
    pub fn record_str(&mut self, name: &str, value: &str)
        ensures
            final(self)@ == old(self)@.with_text(name@, value@),
    {
        if text_eq(name, "message") {
            self.message = value.to_owned();
            assert(self@.fields =~= old(self)@.fields);
        } else {
            self.push(name, value.to_owned());
        }
    }

    /// Collect an unsigned number.
    pub fn record_u64(&mut self, name: &str, value: u64)
        ensures
            final(self)@ == old(self)@.with_field(name@, text::decimal(value as nat)),
    {
        self.push(name, decimal_text(value));
    }

    /// Collect a signed number.
    pub fn record_i64(&mut self, name: &str, value: i64)
        ensures
            final(self)@ == old(self)@.with_field(name@, signed_decimal(value as int)),
    {
        if value < 0 {
            let mut text = "-".to_owned();
            let magnitude: u64 = (-(value + 1)) as u64 + 1;
            text.append(decimal_text(magnitude).as_str());
            self.push(name, text);
        } else {
            self.push(name, decimal_text(value as u64));
        }
    }

    /// Collect a truth value.
    pub fn record_bool(&mut self, name: &str, value: bool)
        ensures
            final(self)@ == old(self)@.with_field(name@, bool_text(value)),
    {
        let text: &str = if value {
            "true"
        } else {
            "false"
        };
        self.push(name, text.to_owned());
    }
}

/// Fields as ` key=value`, in order.
pub open spec fn fields_text(fields: Seq<(Seq<char>, Seq<char>)>) -> Seq<char>
    decreases fields.len(),
{
    if fields.len() == 0 {
        seq![]
    } else {
        fields_text(fields.drop_last()) + " "@ + fields.last().0 + "="@ + fields.last().1
    }
}

/// The line of an event: timestamp, level, message and fields.
pub open spec fn event_text(
    ansi: bool,
    clock: TimeNs,
    cpu: Option<CpuId>,
    width: u8,
    level: Level,
    fields: FieldsView,
) -> Seq<char> {
    let ts = FmtTs { ns: clock, kind: TsKind::Local(cpu, width) };
    "["@ + ts.text() + "] "@ + (if ansi {
        level.color() + level.text() + "\x1b[0m "@
    } else {
        level.text() + " "@
    }) + fields.message + fields_text(fields.fields) + seq!['\n']
}

/// Custom event formatter that shows simulator virtual time instead of
/// wall-clock time and uses plain colored text (no italic/background).
pub struct SimFormat;

impl SimFormat {
    /// The line of an event, colored if `ansi`.
    pub fn format_event(
        &self,
        ansi: bool,
        clock: TimeNs,
        cpu: Option<CpuId>,
        width: u8,
        level: Level,
        visitor: &FieldCollector,
    ) -> (r: String)
        ensures
            r@ == event_text(ansi, clock, cpu, width, level, visitor@),
    {
        // Simulated timestamp
        let mut r = "[".to_owned();
        r.append(FmtTs::local(clock, cpu, width).to_string().as_str());
        r.append("] ");
        // Level with color (no italic, no background)
        let ghost stamped = r@;
        if ansi {
            r.append(level.escape());
            r.append(level.name());
            r.append("\x1b[0m ");
            assert(r@ =~= stamped + (level.color() + level.text() + "\x1b[0m "@));
        } else {
            r.append(level.name());
            r.append(" ");
            assert(r@ =~= stamped + (level.text() + " "@));
        }
        // Message first, then fields
        r.append(visitor.message.as_str());
        let ghost start = r@;
        let ghost all = visitor@.fields;
        let mut i: usize = 0;
        assert(start + fields_text(all.take(0)) =~= start);
        while i < visitor.fields.len()
            invariant
                i <= visitor.fields@.len(),
                all == visitor@.fields,
                r@ == start + fields_text(all.take(i as int)),
            decreases visitor.fields@.len() - i,
        {
            r.append(" ");
            r.append(visitor.fields[i].0.as_str());
            r.append("=");
            r.append(visitor.fields[i].1.as_str());
            i += 1;
            proof {
                let t = all.take(i as int);
                assert(t.drop_last() =~= all.take(i - 1));
                assert(r@ =~= start + fields_text(t));
            }
        }
        assert(all.take(i as int) =~= all);
        r.push('\n');
        assert(r@ =~= event_text(ansi, clock, cpu, width, level, visitor@));
        r
    }
}

/// Formats events with simulator virtual time, into a fresh string for each.
///
/// ANSI color codes are enabled when the output is a terminal.
pub struct SimLayer {
    ansi: bool,
}

impl SimLayer {
    /// Whether the layer uses colors.
    pub closed spec fn colored(self) -> bool {
        self.ansi
    }

    /// Create a new `SimLayer`, with ANSI color output if `ansi`.
    pub fn new(ansi: bool) -> (r: SimLayer)
        ensures
            r.colored() == ansi,
    {
        SimLayer { ansi }
    }

    /// Format a single event into the provided `String` buffer.
    pub fn format_event_to_buf(
        &self,
        buf: &mut String,
        clock: TimeNs,
        cpu: Option<CpuId>,
        width: u8,
        level: Level,
        visitor: &FieldCollector,
    )
        ensures
            final(buf)@ == old(buf)@ + event_text(
                self.colored(),
                clock,
                cpu,
                width,
                level,
                visitor@,
            ),
    {
        let line = SimFormat.format_event(self.ansi, clock, cpu, width, level, visitor);
        buf.append(line.as_str());
    }

    /// The bytes to write for an event: its line, sanitized.
    pub fn on_event(
        &self,
        clock: TimeNs,
        cpu: Option<CpuId>,
        width: u8,
        level: Level,
        visitor: &FieldCollector,
    ) -> (r: Vec<u8>)
        ensures
            r@ == sanitized(
                vstd::utf8::encode_utf8(
                    event_text(self.colored(), clock, cpu, width, level, visitor@),
                ),
            ),
    {
        let mut buf = String::new();
        self.format_event_to_buf(&mut buf, clock, cpu, width, level, visitor);
        assert(buf@ =~= event_text(self.colored(), clock, cpu, width, level, visitor@));
        sanitize_trace_output(buf.as_str().as_bytes())
    }
}

// ---------------------------------------------------------------------------
// Sanitizing
// ---------------------------------------------------------------------------

/// The byte that starts an ANSI escape sequence.
pub const ESC: u8 = 0x1B;

/// Whether a byte is text: printable ASCII, newline, tab or carriage return.
pub open spec fn is_text(b: u8) -> bool {
    b == 0x0A || b == 0x09 || b == 0x0D || 0x20 <= b <= 0x7E
}

/// The data without the bytes that are neither text nor an escape.
pub open spec fn sanitized(s: Seq<u8>) -> Seq<u8> {
    s.filter(|b: u8| b == ESC || is_text(b))
}

/// Sanitize trace output by removing non-printable bytes.
///
/// Replaces any byte that is not printable ASCII (0x20..=0x7E), newline (0x0A),
/// tab (0x09), or carriage return (0x0D) with nothing (strips it), EXCEPT
/// for ESC (0x1B) which starts ANSI escape sequences. ANSI sequences
/// (`ESC [` through the terminating letter) are preserved for color output: all
/// of their other bytes are printable.
pub fn sanitize_trace_output(data: &[u8]) -> (r: Vec<u8>)
    ensures
        r@ == sanitized(data@),
{
    let mut out: Vec<u8> = Vec::with_capacity(data.len());
    let ghost keep = |b: u8| b == ESC || is_text(b);
    let mut i: usize = 0;
    assert(data@.take(0) =~= Seq::<u8>::empty());
    assert(out@ =~= data@.take(0).filter(keep)) by {
        data@.take(0).lemma_filter_len(keep);
    }
    while i < data.len()
        invariant
            i <= data@.len(),
            keep == (|b: u8| b == ESC || is_text(b)),
            out@ == data@.take(i as int).filter(keep),
        decreases data@.len() - i,
    {
        let b: u8 = data[i];
        proof {
            data@.take(i as int).lemma_filter_push(b, keep);
            assert(data@.take(i + 1) =~= data@.take(i as int).push(b));
        }
        if b == ESC || b == 0x0A || b == 0x09 || b == 0x0D || (0x20 <= b && b <= 0x7E) {
            out.push(b);
        }
        i += 1;
    }
    assert(data@.take(i as int) =~= data@);
    out
}

// ---------------------------------------------------------------------------
// Laws
// ---------------------------------------------------------------------------

/// `s` without underscores.
pub open spec fn without_underscores(s: Seq<char>) -> Seq<char>
    decreases s.len(),
{
    if s.len() == 0 {
        s
    } else if s.last() == '_' {
        without_underscores(s.drop_last())
    } else {
        without_underscores(s.drop_last()).push(s.last())
    }
}

proof fn lemma_without_underscores_add(a: Seq<char>, b: Seq<char>)
    ensures
        without_underscores(a + b) == without_underscores(a) + without_underscores(b),
    decreases b.len(),
{
    if b.len() == 0 {
        assert(a + b =~= a);
        assert(without_underscores(a) + without_underscores(b) =~= without_underscores(a));
    } else {
        lemma_without_underscores_add(a, b.drop_last());
        assert((a + b).drop_last() =~= a + b.drop_last());
        assert(without_underscores(a + b) =~= without_underscores(a) + without_underscores(b));
    }
}

proof fn lemma_without_underscores_none(s: Seq<char>)
    requires
        forall|i: int| 0 <= i < s.len() ==> #[trigger] s[i] != '_',
    ensures
        without_underscores(s) == s,
    decreases s.len(),
{
    if s.len() > 0 {
        assert(s[s.len() - 1] != '_');
        lemma_without_underscores_none(s.drop_last());
        assert(s.drop_last().push(s.last()) =~= s);
    }
}

proof fn lemma_group_digits(digits: Seq<char>)
    requires
        forall|i: int| 0 <= i < digits.len() ==> #[trigger] digits[i] != '_',
    ensures
        without_underscores(group_digits(digits)) == digits,
        digits.len() > 0 ==> group_digits(digits).len() == digits.len() + (digits.len() - 1) / 3,
    decreases digits.len(),
{
    if digits.len() <= 3 {
        lemma_without_underscores_none(digits);
    } else {
        let front = digits.take(digits.len() - 3);
        let back = digits.skip(digits.len() - 3);
        assert forall|i: int| 0 <= i < back.len() implies #[trigger] back[i] != '_' by {
            assert(back[i] == digits[i + digits.len() - 3]);
        }
        lemma_group_digits(front);
        lemma_without_underscores_none(back);
        let a = group_digits(front);
        lemma_without_underscores_add(a, seq!['_']);
        lemma_without_underscores_add(a + seq!['_'], back);
        assert(seq!['_'].drop_last() =~= Seq::<char>::empty());
        assert(without_underscores(seq!['_']) =~= Seq::<char>::empty()) by {
            reveal_with_fuel(without_underscores, 2);
        }
        assert(front + back =~= digits);
        assert(front + Seq::<char>::empty() + back =~= digits);
    }
}

/// Grouping a number only adds underscores, one for each three digits behind the
/// first.
pub proof fn law_grouping_adds_underscores(v: u64)
    ensures
        without_underscores(group_digits(text::decimal(v as nat))) == text::decimal(v as nat),
        group_digits(text::decimal(v as nat)).len() == text::decimal(v as nat).len() + (
        text::decimal(v as nat).len() - 1) / 3,
{
    let d = text::decimal(v as nat);
    text::lemma_digits_chars(v as nat, 10);
    assert forall|i: int| 0 <= i < d.len() implies #[trigger] d[i] != '_' by {
        assert(text::is_digit_char(d[i]));
    }
    lemma_group_digits(d);
}

proof fn lemma_decimal_len(n: nat, k: nat)
    requires
        k > 0,
        n < vstd::arithmetic::power::pow(10, k),
    ensures
        text::decimal(n).len() <= k,
    decreases k,
{
    if n >= 10 {
        if k == 1 {
            vstd::arithmetic::power::lemma_pow1(10);
        } else {
            let m = (k - 1) as nat;
            reveal(vstd::arithmetic::power::pow);
            assert(vstd::arithmetic::power::pow(10, k) == 10 * vstd::arithmetic::power::pow(10, m));
            lemma_decimal_len(n / 10, m);
        }
    }
}

/// Timestamps of up to twelve digits are aligned: they take fifteen characters.
pub proof fn law_timestamps_are_aligned(ns: u64)
    requires
        ns < 1_000_000_000_000,
    ensures
        (FmtTs { ns, kind: TsKind::Global }).text().len() == 17,
        (FmtTs { ns, kind: TsKind::Local(None, 0) }).text().len() == 19,
{
    reveal_strlit(":G");
    reveal_strlit(":cpu");
    assert(vstd::arithmetic::power::pow(10, 12) == 1_000_000_000_000) by {
        reveal(vstd::arithmetic::power::pow);
        reveal_with_fuel(vstd::arithmetic::power::pow, 13);
    }
    lemma_decimal_len(ns as nat, 12);
    law_grouping_adds_underscores(ns);
    text::lemma_digits_chars(ns as nat, 10);
}

proof fn lemma_decimal_injective(a: nat, b: nat)
    requires
        text::decimal(a) == text::decimal(b),
    ensures
        a == b,
{
    let max = if a < b {
        b
    } else {
        a
    };
    text::law_number_round_trip(a, 10, max);
    text::law_number_round_trip(b, 10, max);
}

/// The unit of the compact form of `v`, and its suffix.
spec fn compact_unit(v: u64) -> (u64, Seq<char>) {
    if is_round(v, 1_000_000_000_000) {
        (1_000_000_000_000, seq!['T'])
    } else if is_round(v, 1_000_000_000) {
        (1_000_000_000, seq!['B'])
    } else if is_round(v, 1_000_000) {
        (1_000_000, seq!['M'])
    } else if is_round(v, 1_000) {
        (1_000, seq!['K'])
    } else {
        (1, seq![])
    }
}

proof fn lemma_compact_form(v: u64)
    ensures
        FmtN(v).text() == text::decimal((v / compact_unit(v).0) as nat) + compact_unit(v).1,
        v % compact_unit(v).0 == 0,
{
    reveal_strlit("T");
    reveal_strlit("B");
    reveal_strlit("M");
    reveal_strlit("K");
    assert("T"@ =~= seq!['T']);
    assert("B"@ =~= seq!['B']);
    assert("M"@ =~= seq!['M']);
    assert("K"@ =~= seq!['K']);
    assert(text::decimal(v as nat) + Seq::<char>::empty() =~= text::decimal(v as nat));
}

/// The compact form of a number is exact: no two numbers have the same one.
pub proof fn law_compact_form_is_exact(a: u64, b: u64)
    requires
        FmtN(a).text() == FmtN(b).text(),
    ensures
        a == b,
{
    lemma_compact_form(a);
    lemma_compact_form(b);
    let (ua, sa) = compact_unit(a);
    let (ub, sb) = compact_unit(b);
    let na = (a / ua) as nat;
    let nb = (b / ub) as nat;
    let da = text::decimal(na);
    let db = text::decimal(nb);
    let t = FmtN(a).text();
    text::lemma_digits_chars(na, 10);
    text::lemma_digits_chars(nb, 10);
    assert(text::is_digit_char(da[da.len() - 1]));
    assert(text::is_digit_char(db[db.len() - 1]));
    // The last character tells the unit.
    assert(sa.len() == 1 ==> t.last() == sa[0]);
    assert(sa.len() == 0 ==> t.last() == da.last());
    assert(sb.len() == 1 ==> t.last() == sb[0]);
    assert(sb.len() == 0 ==> t.last() == db.last());
    assert(ua == ub);
    assert(da =~= t.take(t.len() - sa.len()));
    assert(db =~= t.take(t.len() - sb.len()));
    lemma_decimal_injective(na, nb);
    vstd::arithmetic::div_mod::lemma_fundamental_div_mod(a as int, ua as int);
    vstd::arithmetic::div_mod::lemma_fundamental_div_mod(b as int, ub as int);
}

/// Data of text and escapes passes through unchanged.
pub proof fn law_clean_data_is_kept(s: Seq<u8>)
    requires
        forall|i: int| 0 <= i < s.len() ==> #[trigger] s[i] == ESC || is_text(s[i]),
    ensures
        sanitized(s) == s,
    decreases s.len(),
{
    let keep = |b: u8| b == ESC || is_text(b);
    if s.len() > 0 {
        let t = s.drop_last();
        assert forall|i: int| 0 <= i < t.len() implies #[trigger] t[i] == ESC || is_text(t[i]) by {
            assert(t[i] == s[i]);
        }
        assert(s[s.len() - 1] == ESC || is_text(s[s.len() - 1]));
        law_clean_data_is_kept(t);
        t.lemma_filter_push(s.last(), keep);
        assert(t.push(s.last()) =~= s);
    } else {
        s.lemma_filter_len(keep);
        assert(sanitized(s) =~= s);
    }
}

/// Whether `s` is an ANSI escape sequence: an escape, an opening bracket,
/// parameters, and the byte that ends the sequence.
pub open spec fn is_ansi_sequence(s: Seq<u8>) -> bool {
    &&& s.len() >= 3
    &&& s[0] == ESC
    &&& s[1] == 0x5B
    &&& forall|i: int| 2 <= i < s.len() - 1 ==> 0x20 <= #[trigger] s[i] <= 0x3F
    &&& 0x40 <= s.last() <= 0x7E
}

/// An ANSI escape sequence is preserved, wherever it stands.
pub proof fn law_ansi_sequences_are_preserved(before: Seq<u8>, s: Seq<u8>, after: Seq<u8>)
    requires
        is_ansi_sequence(s),
    ensures
        sanitized(before + s + after) == sanitized(before) + s + sanitized(after),
{
    let keep = |b: u8| b == ESC || is_text(b);
    assert forall|i: int| 0 <= i < s.len() implies #[trigger] s[i] == ESC || is_text(s[i]) by {
        if 2 <= i < s.len() - 1 {
            assert(0x20 <= s[i] <= 0x3F);
        }
    }
    law_clean_data_is_kept(s);
    Seq::filter_distributes_over_add(before + s, after, keep);
    Seq::filter_distributes_over_add(before, s, keep);
}

/// Only text and escapes are left of any data.
pub proof fn law_sanitized_data_is_clean(s: Seq<u8>)
    ensures
        forall|i: int|
            0 <= i < sanitized(s).len() ==> #[trigger] sanitized(s)[i] == ESC || is_text(
                sanitized(s)[i],
            ),
{
    let keep = |b: u8| b == ESC || is_text(b);
    assert forall|i: int| 0 <= i < sanitized(s).len() implies #[trigger] sanitized(s)[i] == ESC
        || is_text(sanitized(s)[i]) by {
        s.lemma_filter_pred(keep, i);
    }
}

/// Sanitizing sanitized data changes nothing.
pub proof fn law_sanitizing_is_idempotent(s: Seq<u8>)
    ensures
        sanitized(sanitized(s)) == sanitized(s),
{
    law_sanitized_data_is_clean(s);
    law_clean_data_is_kept(sanitized(s));
}

/// Which bytes are kept, one by one: tab, line feed, carriage return, escape, and from
/// the space to the tilde. Data is sanitized byte by byte.
pub proof fn law_sanitizing_goes_byte_by_byte(a: Seq<u8>, b: u8, c: Seq<u8>)
    ensures
        b == 9 || b == 10 || b == 13 || b == 27 || 32 <= b <= 126 ==> sanitized(
            a + seq![b] + c,
        ) == sanitized(a) + seq![b] + sanitized(c),
        !(b == 9 || b == 10 || b == 13 || b == 27 || 32 <= b <= 126) ==> sanitized(
            a + seq![b] + c,
        ) == sanitized(a) + sanitized(c),
        sanitized(Seq::<u8>::empty()) == Seq::<u8>::empty(),
{
    let keep = |x: u8| x == ESC || is_text(x);
    let none = Seq::<u8>::empty();
    Seq::filter_distributes_over_add(a + seq![b], c, keep);
    Seq::filter_distributes_over_add(a, seq![b], keep);
    none.lemma_filter_len(keep);
    none.lemma_filter_push(b, keep);
    assert(none.push(b) =~= seq![b]);
    assert(sanitized(none) =~= none);
    assert(sanitized(a) + none + sanitized(c) =~= sanitized(a) + sanitized(c));
}

/// A number of whole thousands, millions, billions or trillions, and of no larger unit,
/// is written as their number and the letter of the unit; any other number as it is.
pub proof fn law_round_numbers_have_a_letter(k: u64)
    requires
        k > 0,
    ensures
        k % 1000 != 0 ==> FmtN(k).text() == text::decimal(k as nat),
        k % 1000 != 0 && k * 1_000 <= u64::MAX ==> FmtN((k * 1_000) as u64).text()
            == text::decimal(k as nat) + "K"@,
        k % 1000 != 0 && k * 1_000_000 <= u64::MAX ==> FmtN((k * 1_000_000) as u64).text()
            == text::decimal(k as nat) + "M"@,
        k % 1000 != 0 && k * 1_000_000_000 <= u64::MAX ==> FmtN((k * 1_000_000_000) as u64).text()
            == text::decimal(k as nat) + "B"@,
        k * 1_000_000_000_000 <= u64::MAX ==> FmtN((k * 1_000_000_000_000) as u64).text()
            == text::decimal(k as nat) + "T"@,
        FmtN(0).text() == text::decimal(0),
{
}

proof fn lemma_group_places(digits: Seq<char>, i: int)
    requires
        0 <= i < group_digits(digits).len(),
        forall|j: int| 0 <= j < digits.len() ==> #[trigger] digits[j] != '_',
    ensures
        group_digits(digits)[group_digits(digits).len() - 1 - i] == '_' <==> i % 4 == 3,
    decreases digits.len(),
{
    let g = group_digits(digits);
    if digits.len() > 3 {
        let front = digits.take(digits.len() - 3);
        let back = digits.skip(digits.len() - 3);
        assert(g.len() == group_digits(front).len() + 4);
        if i >= 4 {
            lemma_group_places(front, i - 4);
            assert(g[g.len() - 1 - i] == group_digits(front)[group_digits(front).len() - 1 - (i
                - 4)]);
        } else if i < 3 {
            assert(g[g.len() - 1 - i] == back[2 - i]);
            assert(back[2 - i] == digits[digits.len() - 1 - i]);
        }
    } else {
        assert(g[g.len() - 1 - i] == digits[digits.len() - 1 - i]);
    }
}

/// Counted from the right, every fourth character of a grouped number is an underscore,
/// and no other.
pub proof fn law_underscores_stand_every_fourth(v: u64, i: int)
    requires
        0 <= i < group_digits(text::decimal(v as nat)).len(),
    ensures
        group_digits(text::decimal(v as nat))[group_digits(text::decimal(v as nat)).len() - 1 - i]
            == '_' <==> i % 4 == 3,
{
    let d = text::decimal(v as nat);
    text::lemma_digits_chars(v as nat, 10);
    assert forall|j: int| 0 <= j < d.len() implies #[trigger] d[j] != '_' by {
        assert(text::is_digit_char(d[j]));
    }
    lemma_group_places(d, i);
}

/// A duration of `whole` units, `tenths` of a unit and less than a tenth more is written
/// with the unit, and with the tenths only if there are any. The unit is the largest that
/// the duration fills: seconds, milliseconds, microseconds, or else nanoseconds.
pub proof fn law_durations_show_tenths(whole: u64, tenths: u64, rest: u64)
    requires
        whole > 0,
        tenths < 10,
    ensures
        rest < 100_000_000 && whole * 1_000_000_000 + tenths * 100_000_000 + rest <= u64::MAX
            ==> duration_text((whole * 1_000_000_000 + tenths * 100_000_000 + rest) as u64)
            == text::decimal(whole as nat) + tenths_text(tenths) + "s"@,
        whole < 1000 && rest < 100_000 ==> duration_text(
            (whole * 1_000_000 + tenths * 100_000 + rest) as u64,
        ) == text::decimal(whole as nat) + tenths_text(tenths) + "ms"@,
        whole < 1000 && rest < 100 ==> duration_text(
            (whole * 1_000 + tenths * 100 + rest) as u64,
        ) == text::decimal(whole as nat) + tenths_text(tenths) + "µs"@,
        whole < 1000 ==> duration_text(whole) == text::decimal(whole as nat) + "ns"@,
        duration_text(0) == text::decimal(0) + "ns"@,
{
    let d = text::decimal(whole as nat);
    let dot = "."@ + text::decimal(tenths as nat);
    assert(d + Seq::<char>::empty() =~= d);
    assert(d + "."@ + text::decimal(tenths as nat) =~= d + dot);
    if rest < 100_000_000 && whole * 1_000_000_000 + tenths * 100_000_000 + rest <= u64::MAX {
        let ns = (whole * 1_000_000_000 + tenths * 100_000_000 + rest) as u64;
        assert(ns / 1_000_000_000 == whole);
        assert(ns % 1_000_000_000 == tenths * 100_000_000 + rest);
    }
    if whole < 1000 && rest < 100_000 {
        let ns = (whole * 1_000_000 + tenths * 100_000 + rest) as u64;
        assert(ns / 1_000_000 == whole);
        assert(ns % 1_000_000 == tenths * 100_000 + rest);
    }
    if whole < 1000 && rest < 100 {
        let ns = (whole * 1_000 + tenths * 100 + rest) as u64;
        assert(ns / 1_000 == whole);
        assert(ns % 1_000 == tenths * 100 + rest);
    }
}

/// The tenths of a duration behind the point, if there are any.
pub open spec fn tenths_text(tenths: u64) -> Seq<char> {
    if tenths == 0 {
        Seq::empty()
    } else {
        "."@ + text::decimal(tenths as nat)
    }
}

/// A timestamp shows the grouped time, with blanks in front as far as fifteen characters
/// leave room, and then whose time it is.
pub proof fn law_timestamp_shows_the_time(ns: u64, cpu: CpuId, width: u8) -> (blanks: nat)
    ensures
        ({
            let time = Seq::new(blanks, |i: int| ' ') + group_digits(text::decimal(ns as nat));
            &&& time.len() >= 15
            &&& blanks > 0 ==> time.len() == 15
            &&& (FmtTs { ns, kind: TsKind::Global }).text() == time + ":G"@
            &&& (FmtTs { ns, kind: TsKind::Local(None, width) }).text() == time + ":cpu"@
            &&& (FmtTs { ns, kind: TsKind::Local(Some(cpu), width) }).text() == time + ":cpu"@
                + text::padded(text::decimal(cpu.0 as nat), width as nat, '0')
        }),
{
    let g = group_digits(text::decimal(ns as nat));
    let blanks = if g.len() < 15 {
        (15 - g.len()) as nat
    } else {
        0
    };
    let time = Seq::new(blanks, |i: int| ' ') + g;
    assert(text::padded(g, 15, ' ') =~= time);
    blanks
}

/// A field is collected behind those before it, under its name; only a text named
/// `message` is the message, and it leaves the fields alone.
pub proof fn law_fields_are_collected_in_order(f: FieldsView, name: Seq<char>, value: Seq<char>)
    ensures
        f.with_field(name, value).message == f.message,
        f.with_field(name, value).fields == f.fields + seq![(name, value)],
        name == "message"@ ==> f.with_text(name, value).message == value && f.with_text(
            name,
            value,
        ).fields == f.fields,
        name != "message"@ ==> f.with_text(name, value) == f.with_field(name, value),
{
    assert(f.fields.push((name, value)) =~= f.fields + seq![(name, value)]);
}

/// Fields are written one behind the other, each as a blank, its name, an equals sign and
/// its value.
pub proof fn law_fields_are_written_in_order(
    a: Seq<(Seq<char>, Seq<char>)>,
    b: Seq<(Seq<char>, Seq<char>)>,
    name: Seq<char>,
    value: Seq<char>,
)
    ensures
        fields_text(a + b) == fields_text(a) + fields_text(b),
        fields_text(seq![(name, value)]) == seq![' '] + name + seq!['='] + value,
        fields_text(Seq::<(Seq<char>, Seq<char>)>::empty()).len() == 0,
    decreases b.len(),
{
    reveal_strlit(" ");
    reveal_strlit("=");
    let one = seq![(name, value)];
    assert(one.drop_last() =~= Seq::<(Seq<char>, Seq<char>)>::empty());
    assert(fields_text(one.drop_last()) =~= Seq::<char>::empty());
    assert(fields_text(one) =~= seq![' '] + name + seq!['='] + value);
    if b.len() == 0 {
        assert(a + b =~= a);
        assert(fields_text(a) + fields_text(b) =~= fields_text(a));
    } else {
        law_fields_are_written_in_order(a, b.drop_last(), name, value);
        assert((a + b).drop_last() =~= a + b.drop_last());
        assert(fields_text(a + b) =~= fields_text(a) + fields_text(b));
    }
}

/// Values are written as they are read: a negative number as a minus sign and its
/// magnitude, a truth value by its name.
pub proof fn law_values_are_written_plainly(v: i64)
    ensures
        v >= 0 ==> signed_decimal(v as int) == text::decimal(v as nat),
        v < 0 ==> signed_decimal(v as int) == seq!['-'] + text::decimal((0 - v) as nat),
        bool_text(true) == seq!['t', 'r', 'u', 'e'],
        bool_text(false) == seq!['f', 'a', 'l', 's', 'e'],
{
    reveal_strlit("-");
    reveal_strlit("true");
    reveal_strlit("false");
    assert("-"@ =~= seq!['-']);
    assert("true"@ =~= seq!['t', 'r', 'u', 'e']);
    assert("false"@ =~= seq!['f', 'a', 'l', 's', 'e']);
}

/// The line of an event is the timestamp in brackets, the level, the message and the
/// fields, and ends with a line feed. Colors only surround the level: taken out, they
/// leave the line without colors.
pub proof fn law_event_line_has_its_parts(
    clock: TimeNs,
    cpu: Option<CpuId>,
    width: u8,
    level: Level,
    fields: FieldsView,
)
    ensures
        ({
            let stamp = seq!['['] + (FmtTs { ns: clock, kind: TsKind::Local(cpu, width) }).text()
                + seq![']', ' '];
            let end = seq![' '] + fields.message + fields_text(fields.fields) + seq!['\n'];
            &&& event_text(false, clock, cpu, width, level, fields) == stamp + level.text() + end
            &&& event_text(true, clock, cpu, width, level, fields) == stamp + level.color()
                + level.text() + "\x1b[0m"@ + end
        }),
        level.text().len() == 5,
        level.color().len() == 5,
{
    reveal_strlit("[");
    reveal_strlit("] ");
    reveal_strlit(" ");
    reveal_strlit("\x1b[0m ");
    reveal_strlit("\x1b[0m");
    reveal_strlit("ERROR");
    reveal_strlit(" WARN");
    reveal_strlit(" INFO");
    reveal_strlit("DEBUG");
    reveal_strlit("TRACE");
    reveal_strlit("\x1b[31m");
    reveal_strlit("\x1b[32m");
    reveal_strlit("\x1b[33m");
    reveal_strlit("\x1b[34m");
    reveal_strlit("\x1b[35m");
    let stamp = seq!['['] + (FmtTs { ns: clock, kind: TsKind::Local(cpu, width) }).text() + seq![
        ']',
        ' ',
    ];
    let end = seq![' '] + fields.message + fields_text(fields.fields) + seq!['\n'];
    assert("\x1b[0m "@ =~= "\x1b[0m"@ + seq![' ']);
    assert(event_text(false, clock, cpu, width, level, fields) =~= stamp + level.text() + end);
    assert(event_text(true, clock, cpu, width, level, fields) =~= stamp + level.color()
        + level.text() + "\x1b[0m"@ + end);
}

} // verus!
