//! Character-level building blocks: numbers written and read as text, words,
//! lines and prefixes.

use vstd::prelude::*;
use vstd::slice::slice_subrange;

verus! {

// ---------------------------------------------------------------------------
// Strings and character sequences
// ---------------------------------------------------------------------------

/// `String::push` appends one character to the end of the string.
pub assume_specification[ String::push ](s: &mut String, ch: char)
    ensures
        final(s)@ == old(s)@.push(ch),
;

/// Whether two strings hold the same characters.
pub fn text_eq(a: &str, b: &str) -> (r: bool)
    ensures
        r == (a@ == b@),
{
    let x: &[u8] = a.as_bytes();
    let y: &[u8] = b.as_bytes();
    proof {
        vstd::utf8::encode_utf8_decode_utf8(a@);
        vstd::utf8::encode_utf8_decode_utf8(b@);
    }
    if x.len() != y.len() {
        return false;
    }
    let mut i: usize = 0;
    while i < x.len()
        invariant
            i <= x.len(),
            x.len() == y.len(),
            x@ == vstd::utf8::encode_utf8(a@),
            y@ == vstd::utf8::encode_utf8(b@),
            forall|j: int| 0 <= j < i ==> x@[j] == y@[j],
        decreases x.len() - i,
    {
        if x[i] != y[i] {
            return false;
        }
        i += 1;
    }
    assert(x@ =~= y@);
    true
}

/// The characters of a string.
pub fn chars_of(s: &str) -> (r: Vec<char>)
    ensures
        r@ == s@,
{
    let mut r: Vec<char> = Vec::new();
    for c in it: s.chars()
        invariant
            r@ == s@.take(it.index()),
            it.seq() == s@,
    {
        r.push(c);
        assert(s@.take(it.index() + 1) =~= s@.take(it.index()).push(c));
    }
    assert(s@.take(s@.len() as int) =~= s@);
    r
}

/// The string of the given characters.
pub fn string_of(s: &[char]) -> (r: String)
    ensures
        r@ == s@,
{
    let mut r = String::new();
    let mut i: usize = 0;
    while i < s.len()
        invariant
            i <= s.len(),
            r@ == s@.take(i as int),
        decreases s.len() - i,
    {
        r.push(s[i]);
        i += 1;
        assert(s@.take(i as int) =~= s@.take(i - 1).push(s@[i - 1]));
    }
    assert(s@.take(s@.len() as int) =~= s@);
    r
}

/// Whether `s` begins with `p`.
pub open spec fn starts_with(s: Seq<char>, p: Seq<char>) -> bool {
    s.len() >= p.len() && s.take(p.len() as int) == p
}

/// What follows the prefix `p` of `s`, if `s` begins with it.
pub open spec fn after_prefix(s: Seq<char>, p: Seq<char>) -> Option<Seq<char>> {
    if starts_with(s, p) {
        Some(s.skip(p.len() as int))
    } else {
        None
    }
}

/// What follows the prefix `p` of `s`, if `s` begins with it.
pub fn strip_prefix<'a>(s: &'a [char], p: &str) -> (r: Option<&'a [char]>)
    ensures
        match r {
            Some(rest) => after_prefix(s@, p@) == Some(rest@),
            None => after_prefix(s@, p@) is None,
        },
{
    let mut i: usize = 0;
    for c in it: p.chars()
        invariant
            i == it.index(),
            it.seq() == p@,
            i <= s@.len(),
            forall|j: int| 0 <= j < i ==> s@[j] == p@[j],
    {
        if i >= s.len() {
            return None;
        }
        if s[i] != c {
            proof {
                if s@.len() >= p@.len() {
                    assert(s@.take(p@.len() as int)[i as int] != p@[i as int]);
                }
            }
            return None;
        }
        i += 1;
    }
    assert(s@.take(p@.len() as int) =~= p@);
    Some(slice_subrange(s, i, s.len()))
}

// ---------------------------------------------------------------------------
// Numbers
// ---------------------------------------------------------------------------

/// The digit for `d`: `0` to `9`, then `a` to `f`.
pub open spec fn digit_char(d: nat) -> char {
    if d < 10 {
        (48 + d) as char
    } else {
        (87 + d) as char
    }
}

/// `n` written in base `radix`, without leading zeros.
pub open spec fn digits(n: nat, radix: nat) -> Seq<char>
    decreases n,
{
    if radix < 2 || n < radix {
        seq![digit_char(n)]
    } else {
        proof {
            vstd::arithmetic::div_mod::lemma_div_decreases(n as int, radix as int);
        }
        digits(n / radix, radix).push(digit_char(n % radix))
    }
}

/// `n` in decimal.
pub open spec fn decimal(n: nat) -> Seq<char> {
    digits(n, 10)
}

/// `n` in lower-case hexadecimal.
pub open spec fn hexadecimal(n: nat) -> Seq<char> {
    digits(n, 16)
}

fn digits_text(v: u64, radix: u64) -> (r: String)
    requires
        2 <= radix <= 16,
    ensures
        r@ == digits(v as nat, radix as nat),
    decreases v,
{
    if v < radix {
        let mut r = String::new();
        r.push(digit(v));
        assert(r@ =~= digits(v as nat, radix as nat));
        r
    } else {
        proof {
            vstd::arithmetic::div_mod::lemma_div_decreases(v as int, radix as int);
        }
        let mut r = digits_text(v / radix, radix);
        r.push(digit(v % radix));
        r
    }
}

fn digit(d: u64) -> (c: char)
    requires
        d < 16,
    ensures
        c == digit_char(d as nat),
{
    if d < 10 {
        (48 + d as u8) as char
    } else {
        (87 + d as u8) as char
    }
}

/// `v` in decimal.
pub fn decimal_text(v: u64) -> (r: String)
    ensures
        r@ == decimal(v as nat),
{
    digits_text(v, 10)
}

/// `v` in lower-case hexadecimal.
pub fn hexadecimal_text(v: u64) -> (r: String)
    ensures
        r@ == hexadecimal(v as nat),
{
    digits_text(v, 16)
}

/// `s` with as many `fill` in front of it as it takes to be `width` characters
/// long.
pub open spec fn padded(s: Seq<char>, width: nat, fill: char) -> Seq<char> {
    if s.len() < width {
        Seq::new((width - s.len()) as nat, |i: int| fill) + s
    } else {
        s
    }
}

/// `s` with as many `fill` in front of it as it takes to be `width` characters
/// long.
pub fn pad_left(s: &str, width: usize, fill: char) -> (r: String)
    ensures
        r@ == padded(s@, width as nat, fill),
{
    let len: usize = chars_of(s).len();
    let mut r = String::new();
    let mut i: usize = len;
    while i < width
        invariant
            len == s@.len(),
            len <= i,
            i <= width || i == len,
            r@ =~= Seq::new((i - len) as nat, |j: int| fill),
        decreases width - i,
    {
        r.push(fill);
        i += 1;
    }
    r.append(s);
    assert(r@ =~= padded(s@, width as nat, fill));
    r
}

/// Why a text is not an unsigned number.
#[derive(Debug, Clone, Copy, PartialEq, Eq, Structural)]
pub enum IntError {
    /// There is no digit to read.
    Empty,
    /// A character is not a digit.
    InvalidDigit,
    /// The number is larger than its type holds.
    PosOverflow,
}

impl IntError {
    /// The sentence that describes the error.
    pub open spec fn text(self) -> Seq<char> {
        match self {
            IntError::Empty => "cannot parse integer from empty string"@,
            IntError::InvalidDigit => "invalid digit found in string"@,
            IntError::PosOverflow => "number too large to fit in target type"@,
        }
    }

    /// The sentence that describes the error.
    pub fn message(self) -> (r: &'static str)
        ensures
            r@ == self.text(),
    {
        match self {
            IntError::Empty => "cannot parse integer from empty string",
            IntError::InvalidDigit => "invalid digit found in string",
            IntError::PosOverflow => "number too large to fit in target type",
        }
    }
}

/// The value of `c` as a digit in base `radix` (at most 16), in either case.
pub open spec fn digit_value(c: char, radix: nat) -> Option<nat> {
    let u = c as nat;
    let d = if 48 <= u <= 57 {
        (u - 48) as nat
    } else if 97 <= u <= 102 {
        (u - 87) as nat
    } else if 65 <= u <= 70 {
        (u - 55) as nat
    } else {
        radix
    };
    if d < radix {
        Some(d)
    } else {
        None
    }
}

fn value_of_digit(c: char, radix: u64) -> (r: Option<u64>)
    requires
        radix <= 16,
    ensures
        match r {
            Some(d) => digit_value(c, radix as nat) == Some(d as nat),
            None => digit_value(c, radix as nat) is None,
        },
{
    let u: u32 = c as u32;
    let d: u64 = if 48 <= u && u <= 57 {
        (u - 48) as u64
    } else if 97 <= u && u <= 102 {
        (u - 87) as u64
    } else if 65 <= u && u <= 70 {
        (u - 55) as u64
    } else {
        radix
    };
    if d < radix {
        Some(d)
    } else {
        None
    }
}

/// The number that the digits `s` spell after `acc`, read from the left; the
/// first character that is no digit or that takes the number past `max` decides
/// the error.
pub open spec fn read_digits(s: Seq<char>, radix: nat, max: nat, acc: nat) -> Result<nat, IntError>
    decreases s.len(),
{
    if s.len() == 0 {
        Ok(acc)
    } else {
        match digit_value(s[0], radix) {
            None => Err(IntError::InvalidDigit),
            Some(d) => {
                if acc * radix + d > max {
                    Err(IntError::PosOverflow)
                } else {
                    read_digits(s.skip(1), radix, max, acc * radix + d)
                }
            },
        }
    }
}

/// The unsigned number at most `max` that `s` spells in base `radix`: digits,
/// after a `+` or without a sign.
pub open spec fn read_number(s: Seq<char>, radix: nat, max: nat) -> Result<nat, IntError> {
    if s.len() == 0 {
        Err(IntError::Empty)
    } else if s[0] == '+' && s.len() > 1 {
        read_digits(s.skip(1), radix, max, 0)
    } else {
        read_digits(s, radix, max, 0)
    }
}

/// What is read is not larger than `max`.
proof fn lemma_read_digits_max(s: Seq<char>, radix: nat, max: nat, acc: nat)
    requires
        acc <= max,
    ensures
        read_digits(s, radix, max, acc) matches Ok(n) ==> n <= max,
    decreases s.len(),
{
    if s.len() > 0 {
        if let Some(d) = digit_value(s[0], radix) {
            if acc * radix + d <= max {
                lemma_read_digits_max(s.skip(1), radix, max, acc * radix + d);
            }
        }
    }
}

/// What is read is not larger than `max`.
pub proof fn lemma_read_number_max(s: Seq<char>, radix: nat, max: nat)
    ensures
        read_number(s, radix, max) matches Ok(n) ==> n <= max,
{
    if s.len() > 0 {
        lemma_read_digits_max(s, radix, max, 0);
        lemma_read_digits_max(s.skip(1), radix, max, 0);
    }
}

/// The unsigned number at most `max` that `s` spells in base `radix`.
pub fn parse_number(s: &[char], radix: u64, max: u64) -> (r: Result<u64, IntError>)
    requires
        2 <= radix <= 16,
    ensures
        match r {
            Ok(v) => read_number(s@, radix as nat, max as nat) == Ok::<nat, IntError>(v as nat),
            Err(e) => read_number(s@, radix as nat, max as nat) == Err::<nat, IntError>(e),
        },
{
    if s.len() == 0 {
        return Err(IntError::Empty);
    }
    let mut i: usize = if s[0] == '+' && s.len() > 1 {
        1
    } else {
        0
    };
    let mut acc: u64 = 0;
    let ghost goal = read_number(s@, radix as nat, max as nat);
    assert(s@.skip(0) =~= s@);
    while i < s.len()
        invariant
            i <= s.len(),
            2 <= radix <= 16,
            acc <= max,
            goal == read_number(s@, radix as nat, max as nat),
            goal == read_digits(s@.skip(i as int), radix as nat, max as nat, acc as nat),
        decreases s.len() - i,
    {
        assert(s@.skip(i as int)[0] == s@[i as int]);
        assert(s@.skip(i as int).skip(1) =~= s@.skip(i as int + 1));
        match value_of_digit(s[i], radix) {
            None => {
                return Err(IntError::InvalidDigit);
            },
            Some(d) => {
                match acc.checked_mul(radix) {
                    None => {
                        return Err(IntError::PosOverflow);
                    },
                    Some(shifted) => {
                        if shifted > max || d > max - shifted {
                            return Err(IntError::PosOverflow);
                        }
                        acc = shifted + d;
                    },
                }
            },
        }
        i += 1;
    }
    Ok(acc)
}

// ---------------------------------------------------------------------------
// White space, words and lines
// ---------------------------------------------------------------------------

/// The Unicode white-space characters.
pub open spec fn is_space(c: char) -> bool {
    let u = c as nat;
    ||| 9 <= u <= 13
    ||| u == 0x20
    ||| u == 0x85
    ||| u == 0xa0
    ||| u == 0x1680
    ||| 0x2000 <= u <= 0x200a
    ||| u == 0x2028
    ||| u == 0x2029
    ||| u == 0x202f
    ||| u == 0x205f
    ||| u == 0x3000
}

fn white_space(c: char) -> (r: bool)
    ensures
        r == is_space(c),
{
    let u: u32 = c as u32;
    (9 <= u && u <= 13) || u == 0x20 || u == 0x85 || u == 0xa0 || u == 0x1680 || (0x2000 <= u && u
        <= 0x200a) || u == 0x2028 || u == 0x2029 || u == 0x202f || u == 0x205f || u == 0x3000
}

/// The number of characters in front of the first white space of `s`.
pub open spec fn word_len(s: Seq<char>) -> nat
    decreases s.len(),
{
    if s.len() == 0 || is_space(s[0]) {
        0
    } else {
        1 + word_len(s.skip(1))
    }
}

/// The words of `s`: its maximal runs without white space, in order.
pub open spec fn words(s: Seq<char>) -> Seq<Seq<char>>
    decreases s.len(),
    via words_decreases
{
    if s.len() == 0 {
        seq![]
    } else if is_space(s[0]) {
        words(s.skip(1))
    } else {
        seq![s.take(word_len(s) as int)] + words(s.skip(word_len(s) as int))
    }
}

#[via_fn]
proof fn words_decreases(s: Seq<char>) {
    lemma_word_len(s);
}

pub proof fn lemma_word_len(s: Seq<char>)
    ensures
        word_len(s) <= s.len(),
        s.len() > 0 && !is_space(s[0]) ==> word_len(s) > 0,
        forall|i: int| 0 <= i < word_len(s) ==> !is_space(#[trigger] s[i]),
        word_len(s) < s.len() ==> is_space(s[word_len(s) as int]),
    decreases s.len(),
{
    if s.len() > 0 && !is_space(s[0]) {
        let t = s.skip(1);
        lemma_word_len(t);
        assert forall|i: int| 0 <= i < word_len(s) implies !is_space(#[trigger] s[i]) by {
            if i > 0 {
                assert(s[i] == t[i - 1]);
            }
        }
        if word_len(s) < s.len() {
            assert(s[word_len(s) as int] == t[word_len(t) as int]);
        }
    }
}

/// `s` without the white space at its start.
pub open spec fn trim_start(s: Seq<char>) -> Seq<char>
    decreases s.len(),
{
    if s.len() > 0 && is_space(s[0]) {
        trim_start(s.skip(1))
    } else {
        s
    }
}

/// What follows the first word of `s`.
pub open spec fn behind_word(s: Seq<char>) -> Seq<char> {
    trim_start(s).skip(word_len(trim_start(s)) as int)
}

/// The first word of `s` and what follows it, if `s` has a word.
pub fn split_word<'a>(s: &'a [char]) -> (r: Option<(&'a [char], &'a [char])>)
    ensures
        match r {
            Some((w, rest)) => {
                &&& words(s@) == seq![w@] + words(rest@)
                &&& rest@ == behind_word(s@)
                &&& rest@.len() < s@.len()
            },
            None => words(s@) == Seq::<Seq<char>>::empty(),
        },
{
    let mut i: usize = 0;
    assert(s@.skip(0) =~= s@);
    while i < s.len() && white_space(s[i])
        invariant
            i <= s.len(),
            words(s@) == words(s@.skip(i as int)),
            trim_start(s@) == trim_start(s@.skip(i as int)),
        decreases s.len() - i,
    {
        assert(s@.skip(i as int).skip(1) =~= s@.skip(i as int + 1));
        i += 1;
    }
    if i == s.len() {
        return None;
    }
    let ghost t = s@.skip(i as int);
    let mut j: usize = i;
    assert(t =~= s@.skip(j as int));
    while j < s.len() && !white_space(s[j])
        invariant
            i <= j <= s.len(),
            t == s@.skip(i as int),
            word_len(t) == (j - i) + word_len(s@.skip(j as int)),
        decreases s.len() - j,
    {
        assert(s@.skip(j as int).skip(1) =~= s@.skip(j as int + 1));
        j += 1;
    }
    assert(word_len(t) == j - i);
    proof {
        lemma_word_len(t);
    }
    assert(t.take(j - i) =~= s@.subrange(i as int, j as int));
    assert(t.skip(j - i) =~= s@.subrange(j as int, s@.len() as int));
    Some((slice_subrange(s, i, j), slice_subrange(s, j, s.len())))
}

/// `s` without the white space at its end.
pub open spec fn trim_end(s: Seq<char>) -> Seq<char>
    decreases s.len(),
{
    if s.len() > 0 && is_space(s.last()) {
        trim_end(s.drop_last())
    } else {
        s
    }
}

/// `s` without the white space at its start and end.
pub open spec fn trimmed(s: Seq<char>) -> Seq<char> {
    trim_end(trim_start(s))
}

/// `s` without the white space at its start and end.
pub fn trim<'a>(s: &'a [char]) -> (r: &'a [char])
    ensures
        r@ == trimmed(s@),
{
    let mut i: usize = 0;
    assert(s@.skip(0) =~= s@);
    while i < s.len() && white_space(s[i])
        invariant
            i <= s.len(),
            trim_start(s@) == trim_start(s@.skip(i as int)),
        decreases s.len() - i,
    {
        assert(s@.skip(i as int).skip(1) =~= s@.skip(i as int + 1));
        i += 1;
    }
    let ghost t = trim_start(s@);
    let mut j: usize = s.len();
    assert(t =~= s@.subrange(i as int, j as int));
    while i < j && white_space(s[j - 1])
        invariant
            i <= j <= s.len(),
            trim_end(t) == trim_end(s@.subrange(i as int, j as int)),
        decreases j,
    {
        assert(s@.subrange(i as int, j as int).drop_last() =~= s@.subrange(i as int, j - 1));
        j -= 1;
    }
    slice_subrange(s, i, j)
}

/// The number of characters in front of the first `sep` of `s`.
pub open spec fn len_before(s: Seq<char>, sep: char) -> nat
    decreases s.len(),
{
    if s.len() == 0 || s[0] == sep {
        0
    } else {
        1 + len_before(s.skip(1), sep)
    }
}

pub proof fn lemma_len_before(s: Seq<char>, sep: char)
    ensures
        len_before(s, sep) <= s.len(),
        forall|i: int| 0 <= i < len_before(s, sep) ==> #[trigger] s[i] != sep,
        len_before(s, sep) < s.len() ==> s[len_before(s, sep) as int] == sep,
    decreases s.len(),
{
    if s.len() > 0 && s[0] != sep {
        let t = s.skip(1);
        lemma_len_before(t, sep);
        assert forall|i: int| 0 <= i < len_before(s, sep) implies #[trigger] s[i] != sep by {
            if i > 0 {
                assert(s[i] == t[i - 1]);
            }
        }
        if len_before(s, sep) < s.len() {
            assert(s[len_before(s, sep) as int] == t[len_before(t, sep) as int]);
        }
    }
}

/// The number of characters in front of the first `sep` of `s`.
pub fn find_char(s: &[char], sep: char) -> (r: usize)
    ensures
        r == len_before(s@, sep),
        r <= s@.len(),
{
    let mut i: usize = 0;
    assert(s@.skip(0) =~= s@);
    while i < s.len() && s[i] != sep
        invariant
            i <= s.len(),
            len_before(s@, sep) == i + len_before(s@.skip(i as int), sep),
        decreases s.len() - i,
    {
        assert(s@.skip(i as int).skip(1) =~= s@.skip(i as int + 1));
        i += 1;
    }
    i
}

/// A line without the carriage return at its end.
pub open spec fn without_cr(s: Seq<char>) -> Seq<char> {
    if s.len() > 0 && s.last() == '\r' {
        s.drop_last()
    } else {
        s
    }
}

/// The lines of `s`. A line ends with a line feed, or a carriage return and a
/// line feed; the last one may end with the text.
pub open spec fn lines(s: Seq<char>) -> Seq<Seq<char>>
    decreases s.len(),
    via lines_decreases
{
    let n = len_before(s, '\n') as int;
    if s.len() == 0 {
        seq![]
    } else if n >= s.len() {
        seq![s]
    } else {
        seq![without_cr(s.take(n))] + lines(s.skip(n + 1))
    }
}

#[via_fn]
proof fn lines_decreases(s: Seq<char>) {
    lemma_len_before(s, '\n');
}

/// The first line of `s` and what follows it, if `s` has a line.
pub fn split_line<'a>(s: &'a [char]) -> (r: Option<(&'a [char], &'a [char])>)
    ensures
        match r {
            Some((line, rest)) => {
                &&& lines(s@) == seq![line@] + lines(rest@)
                &&& rest@.len() < s@.len()
            },
            None => lines(s@) == Seq::<Seq<char>>::empty(),
        },
{
    if s.len() == 0 {
        return None;
    }
    let n: usize = find_char(s, '\n');
    if n == s.len() {
        let rest = slice_subrange(s, n, n);
        assert(rest@ =~= Seq::<char>::empty());
        assert(lines(s@) =~= seq![s@] + lines(rest@));
        return Some((s, rest));
    }
    let end: usize = if n > 0 && s[n - 1] == '\r' {
        n - 1
    } else {
        n
    };
    let line = slice_subrange(s, 0, end);
    let rest = slice_subrange(s, n + 1, s.len());
    assert(line@ =~= without_cr(s@.take(n as int)));
    assert(rest@ =~= s@.skip(n as int + 1));
    Some((line, rest))
}

/// Whether `p` occurs in `s`.
pub open spec fn contains_text(s: Seq<char>, p: Seq<char>) -> bool {
    exists|i: int| 0 <= i <= s.len() && #[trigger] starts_with(s.skip(i), p)
}

/// Whether `p` occurs in `s`.
pub fn contains(s: &[char], p: &str) -> (r: bool)
    ensures
        r == contains_text(s@, p@),
{
    let mut i: usize = 0;
    loop
        invariant
            i <= s.len(),
            forall|j: int| 0 <= j < i ==> !starts_with(#[trigger] s@.skip(j), p@),
        decreases s.len() - i,
    {
        let rest = slice_subrange(s, i, s.len());
        assert(rest@ =~= s@.skip(i as int));
        if strip_prefix(rest, p).is_some() {
            return true;
        }
        if i == s.len() {
            return false;
        }
        i += 1;
    }
}

// ---------------------------------------------------------------------------
// Laws
// ---------------------------------------------------------------------------

/// Whether `s` has no white space.
pub open spec fn is_solid(s: Seq<char>) -> bool {
    forall|i: int| 0 <= i < s.len() ==> !is_space(#[trigger] s[i])
}

/// Whether `c` is a digit, or a lower-case letter that is a hexadecimal digit.
pub open spec fn is_digit_char(c: char) -> bool {
    48 <= c as nat <= 57 || 97 <= c as nat <= 102
}

/// A written number is made of digits.
pub proof fn lemma_digits_chars(n: nat, radix: nat)
    requires
        2 <= radix <= 16,
    ensures
        digits(n, radix).len() > 0,
        forall|i: int|
            0 <= i < digits(n, radix).len() ==> is_digit_char(#[trigger] digits(n, radix)[i]),
    decreases n,
{
    if n >= radix {
        vstd::arithmetic::div_mod::lemma_div_decreases(n as int, radix as int);
        lemma_digits_chars(n / radix, radix);
        vstd::arithmetic::div_mod::lemma_mod_bound(n as int, radix as int);
    }
}

/// The value of the digit for `d` is `d`.
proof fn lemma_digit_value(d: nat, radix: nat)
    requires
        d < radix <= 16,
    ensures
        digit_value(digit_char(d), radix) == Some(d),
{
}

proof fn lemma_read_digits_push(s: Seq<char>, c: char, radix: nat, max: nat, acc: nat)
    ensures
        read_digits(s.push(c), radix, max, acc) == match read_digits(s, radix, max, acc) {
            Ok(m) => match digit_value(c, radix) {
                None => Err(IntError::InvalidDigit),
                Some(d) => if m * radix + d > max {
                    Err(IntError::PosOverflow)
                } else {
                    Ok(m * radix + d)
                },
            },
            Err(e) => Err(e),
        },
    decreases s.len(),
{
    if s.len() == 0 {
        assert(s.push(c).skip(1) =~= Seq::<char>::empty());
        assert(s.push(c)[0] == c);
        reveal_with_fuel(read_digits, 2);
    } else {
        assert(s.push(c).skip(1) =~= s.skip(1).push(c));
        assert(s.push(c)[0] == s[0]);
        if let Some(d) = digit_value(s[0], radix) {
            if acc * radix + d <= max {
                lemma_read_digits_push(s.skip(1), c, radix, max, acc * radix + d);
            }
        }
    }
}

/// Reading a written number gives the number back.
pub proof fn law_number_round_trip(n: nat, radix: nat, max: nat)
    requires
        2 <= radix <= 16,
        n <= max,
    ensures
        read_number(digits(n, radix), radix, max) == Ok::<nat, IntError>(n),
{
    lemma_read_digits_written(n, radix, max);
    lemma_digits_chars(n, radix);
    assert(is_digit_char(digits(n, radix)[0]));
}

proof fn lemma_read_digits_written(n: nat, radix: nat, max: nat)
    requires
        2 <= radix <= 16,
        n <= max,
    ensures
        read_digits(digits(n, radix), radix, max, 0) == Ok::<nat, IntError>(n),
    decreases n,
{
    if n < radix {
        lemma_digit_value(n, radix);
        assert(digits(n, radix).skip(1) =~= Seq::<char>::empty());
        reveal_with_fuel(read_digits, 2);
    } else {
        vstd::arithmetic::div_mod::lemma_div_decreases(n as int, radix as int);
        lemma_read_digits_written(n / radix, radix, max);
        vstd::arithmetic::div_mod::lemma_mod_bound(n as int, radix as int);
        lemma_digit_value(n % radix, radix);
        lemma_read_digits_push(digits(n / radix, radix), digit_char(n % radix), radix, max, 0);
        vstd::arithmetic::div_mod::lemma_fundamental_div_mod(n as int, radix as int);
        assert((n / radix) * radix == radix * (n / radix)) by (nonlinear_arith);
    }
}

/// What follows `p` in `p + v` is `v`.
pub proof fn lemma_after_prefix(p: Seq<char>, v: Seq<char>)
    ensures
        after_prefix(p + v, p) == Some(v),
{
    assert((p + v).take(p.len() as int) =~= p);
    assert((p + v).skip(p.len() as int) =~= v);
}

/// A text that differs from `p` in one place does not begin with it.
pub proof fn lemma_not_prefix(s: Seq<char>, p: Seq<char>, i: int)
    requires
        0 <= i < p.len(),
        i < s.len() ==> s[i] != p[i],
    ensures
        !starts_with(s, p),
        after_prefix(s, p) is None,
{
    if starts_with(s, p) {
        assert(s.take(p.len() as int)[i] == s[i]);
    }
}

proof fn lemma_word_len_before_space(a: Seq<char>, b: Seq<char>)
    ensures
        word_len(a + seq![' '] + b) == word_len(a),
    decreases a.len(),
{
    let s = a + seq![' '] + b;
    if a.len() > 0 && !is_space(a[0]) {
        lemma_word_len_before_space(a.skip(1), b);
        assert(s.skip(1) =~= a.skip(1) + seq![' '] + b);
        assert(s[0] == a[0]);
    } else if a.len() > 0 {
        assert(s[0] == a[0]);
    } else {
        assert(s[0] == ' ');
    }
}

/// A space separates words.
pub proof fn lemma_words_add(a: Seq<char>, b: Seq<char>)
    ensures
        words(a + seq![' '] + b) == words(a) + words(b),
    decreases a.len(),
{
    let s = a + seq![' '] + b;
    if a.len() == 0 {
        assert(s[0] == ' ');
        assert(s.skip(1) =~= b);
        assert(words(a) + words(b) =~= words(b));
    } else if is_space(a[0]) {
        lemma_words_add(a.skip(1), b);
        assert(s[0] == a[0]);
        assert(s.skip(1) =~= a.skip(1) + seq![' '] + b);
    } else {
        let n = word_len(a) as int;
        lemma_word_len(a);
        lemma_word_len_before_space(a, b);
        lemma_words_add(a.skip(n), b);
        assert(s[0] == a[0]);
        assert(s.take(n) =~= a.take(n));
        assert(s.skip(n) =~= a.skip(n) + seq![' '] + b);
        assert(words(s) =~= words(a) + words(b));
    }
}

/// A text without white space is one word.
pub proof fn lemma_words_solid(w: Seq<char>)
    requires
        is_solid(w),
        w.len() > 0,
    ensures
        words(w) == seq![w],
{
    lemma_word_len(w);
    assert(!is_space(w[0]));
    assert(word_len(w) == w.len());
    assert(w.take(w.len() as int) =~= w);
    assert(w.skip(w.len() as int) =~= Seq::<char>::empty());
    assert(words(w.skip(w.len() as int)) =~= seq![]);
    assert(words(w) =~= seq![w]);
}

/// A text with no white space at its ends has nothing to trim.
pub proof fn lemma_trimmed(s: Seq<char>)
    requires
        s.len() > 0 ==> !is_space(s[0]) && !is_space(s.last()),
    ensures
        trimmed(s) == s,
{
}

/// The first separator in `a + [sep] + b` is the one behind `a`.
pub proof fn lemma_len_before_separator(a: Seq<char>, sep: char, b: Seq<char>)
    requires
        forall|i: int| 0 <= i < a.len() ==> #[trigger] a[i] != sep,
    ensures
        len_before(a + seq![sep] + b, sep) == a.len(),
    decreases a.len(),
{
    let s = a + seq![sep] + b;
    if a.len() > 0 {
        assert(s[0] == a[0]);
        assert(s.skip(1) =~= a.skip(1) + seq![sep] + b);
        lemma_len_before_separator(a.skip(1), sep, b);
    } else {
        assert(s[0] == sep);
    }
}

/// A line in front of a text is its first line.
pub proof fn lemma_lines_first(line: Seq<char>, rest: Seq<char>)
    requires
        forall|i: int| 0 <= i < line.len() ==> #[trigger] line[i] != '\n',
        line.len() > 0 ==> line.last() != '\r',
    ensures
        lines(line + seq!['\n'] + rest) == seq![line] + lines(rest),
{
    let s = line + seq!['\n'] + rest;
    lemma_len_before_separator(line, '\n', rest);
    assert(s.take(line.len() as int) =~= line);
    assert(s.skip(line.len() as int + 1) =~= rest);
}

// ---------------------------------------------------------------------------
// Numbers by their value
// ---------------------------------------------------------------------------

/// The sixteen digits, in the order of their values.
pub open spec fn digit_alphabet() -> Seq<char> {
    seq!['0', '1', '2', '3', '4', '5', '6', '7', '8', '9', 'a', 'b', 'c', 'd', 'e', 'f']
}

/// The letters that stand for the last six digits in upper case.
pub open spec fn upper_digits() -> Seq<char> {
    seq!['A', 'B', 'C', 'D', 'E', 'F']
}

/// A digit is written as its place in the alphabet says, and read in either case; every
/// other character is no digit, and none is one that does not fit the base.
pub proof fn law_digits_are_the_alphabet(d: nat, c: char, radix: nat)
    requires
        2 <= radix <= 16,
    ensures
        d < 16 ==> digit_char(d) == digit_alphabet()[d as int],
        digit_value(c, radix) == Some(d) <==> d < radix && (digit_alphabet()[d as int] == c || (d
            >= 10 && upper_digits()[d - 10] == c)),
{
    let a = digit_alphabet();
    let u = upper_digits();
    assert(a[0] == '0' && a[1] == '1' && a[2] == '2' && a[3] == '3' && a[4] == '4' && a[5] == '5'
        && a[6] == '6' && a[7] == '7' && a[8] == '8' && a[9] == '9' && a[10] == 'a' && a[11] == 'b'
        && a[12] == 'c' && a[13] == 'd' && a[14] == 'e' && a[15] == 'f');
    assert(u[0] == 'A' && u[1] == 'B' && u[2] == 'C' && u[3] == 'D' && u[4] == 'E' && u[5] == 'F');
}

/// Whether every character of `s` is a digit in base `radix`.
pub open spec fn all_digits(s: Seq<char>, radix: nat) -> bool {
    forall|i: int| 0 <= i < s.len() ==> digit_value(#[trigger] s[i], radix) is Some
}

/// The value of digits, the last counting once, each other `radix` times as much as the
/// one behind it.
pub open spec fn value_of(s: Seq<char>, radix: nat) -> nat
    decreases s.len(),
{
    if s.len() == 0 {
        0
    } else {
        value_of(s.drop_last(), radix) * radix + match digit_value(s.last(), radix) {
            Some(d) => d,
            None => 0,
        }
    }
}

/// A number is written with digits that have its value, and without a leading zero.
pub proof fn law_written_digits_have_the_value(n: nat, radix: nat)
    requires
        2 <= radix <= 16,
    ensures
        digits(n, radix).len() > 0,
        all_digits(digits(n, radix), radix),
        value_of(digits(n, radix), radix) == n,
        n > 0 ==> digits(n, radix)[0] != '0',
        n == 0 ==> digits(n, radix) == seq!['0'],
        forall|i: int|
            0 <= i < digits(n, radix).len() ==> digit_alphabet().contains(
                #[trigger] digits(n, radix)[i],
            ),
    decreases n,
{
    let ds = digits(n, radix);
    if n < radix {
        lemma_digit_value(n, radix);
        law_digits_are_the_alphabet(n, '0', radix);
        assert(ds.drop_last() =~= Seq::<char>::empty());
        assert(value_of(ds.drop_last(), radix) == 0);
        assert(0 * radix == 0) by (nonlinear_arith);
        assert(ds[0] == digit_alphabet()[n as int]);
        assert(n > 0 ==> ds[0] != '0');
        if n == 0 {
            assert(ds =~= seq!['0']);
        }
    } else {
        let q = n / radix;
        let r = n % radix;
        vstd::arithmetic::div_mod::lemma_div_decreases(n as int, radix as int);
        vstd::arithmetic::div_mod::lemma_mod_bound(n as int, radix as int);
        vstd::arithmetic::div_mod::lemma_fundamental_div_mod(n as int, radix as int);
        vstd::arithmetic::div_mod::lemma_div_non_zero(n as int, radix as int);
        law_written_digits_have_the_value(q, radix);
        lemma_digit_value(r, radix);
        law_digits_are_the_alphabet(r, '0', radix);
        let front = digits(q, radix);
        assert(ds.drop_last() =~= front);
        assert(q * radix == radix * q) by (nonlinear_arith);
        assert(ds[0] == front[0]);
        assert forall|i: int| 0 <= i < ds.len() implies digit_value(#[trigger] ds[i], radix) is Some
            && digit_alphabet().contains(ds[i]) by {
            if i < front.len() {
                assert(ds[i] == front[i]);
            } else {
                assert(ds[i] == digit_alphabet()[r as int]);
            }
        }
    }
}

proof fn lemma_value_grows(s: Seq<char>, k: int, radix: nat)
    requires
        2 <= radix,
        0 <= k <= s.len(),
    ensures
        value_of(s.take(k), radix) <= value_of(s, radix),
    decreases s.len(),
{
    if k == s.len() {
        assert(s.take(k) =~= s);
    } else {
        lemma_value_grows(s.drop_last(), k, radix);
        assert(s.drop_last().take(k) =~= s.take(k));
        let a = value_of(s.drop_last(), radix);
        assert(a <= a * radix) by (nonlinear_arith)
            requires
                radix >= 2,
        ;
    }
}

/// A text reads as a number exactly if it has digits only, at least one of them, behind a
/// plus sign or none, and their value is not too large; what is read is their value. A
/// character that is no digit, with nothing too large in front of it, is reported as
/// such; digits whose value is too large are reported as too large.
pub proof fn law_reading_gives_the_value(s: Seq<char>, radix: nat, max: nat)
    requires
        2 <= radix <= 16,
        s.len() > 0,
        s[0] != '+',
    ensures
        all_digits(s, radix) && value_of(s, radix) <= max ==> {
            &&& read_number(s, radix, max) == Ok::<nat, IntError>(value_of(s, radix))
            &&& read_number(seq!['+'] + s, radix, max) == Ok::<nat, IntError>(value_of(s, radix))
        },
        all_digits(s, radix) && value_of(s, radix) > max ==> read_number(s, radix, max) == Err::<
            nat,
            IntError,
        >(IntError::PosOverflow),
        !all_digits(s, radix) ==> read_number(s, radix, max) is Err,
        !all_digits(s, radix) && value_of(s, radix) <= max ==> read_number(s, radix, max) == Err::<
            nat,
            IntError,
        >(IntError::InvalidDigit),
        read_number(Seq::<char>::empty(), radix, max) == Err::<nat, IntError>(IntError::Empty),
        read_number(seq!['+'], radix, max) == Err::<nat, IntError>(IntError::InvalidDigit),
{
    let p = seq!['+'] + s;
    assert(p.skip(1) =~= s);
    lemma_first_bad_digit(s, radix, max);
    assert(seq!['+'].skip(1) =~= Seq::<char>::empty());
    assert(digit_value('+', radix) is None);
}

proof fn lemma_first_bad_digit(s: Seq<char>, radix: nat, max: nat)
    requires
        2 <= radix <= 16,
    ensures
        all_digits(s, radix) && value_of(s, radix) <= max ==> read_digits(s, radix, max, 0) == Ok::<
            nat,
            IntError,
        >(value_of(s, radix)),
        all_digits(s, radix) && value_of(s, radix) > max ==> read_digits(s, radix, max, 0)
            == Err::<nat, IntError>(IntError::PosOverflow),
        !all_digits(s, radix) ==> read_digits(s, radix, max, 0) is Err,
        !all_digits(s, radix) && value_of(s, radix) <= max ==> read_digits(s, radix, max, 0)
            == Err::<nat, IntError>(IntError::InvalidDigit),
    decreases s.len(),
{
    if s.len() > 0 {
        let t = s.drop_last();
        lemma_first_bad_digit(t, radix, max);
        lemma_read_digits_push(t, s.last(), radix, max, 0);
        assert(t.push(s.last()) =~= s);
        lemma_value_grows(s, s.len() - 1, radix);
        assert(s.take(s.len() - 1) =~= t);
        assert(all_digits(s, radix) <==> all_digits(t, radix) && digit_value(
            s.last(),
            radix,
        ) is Some) by {
            if all_digits(s, radix) {
                assert forall|i: int| 0 <= i < t.len() implies digit_value(
                    #[trigger] t[i],
                    radix,
                ) is Some by {
                    assert(t[i] == s[i]);
                }
                assert(digit_value(s[s.len() - 1], radix) is Some);
            }
            if all_digits(t, radix) && digit_value(s.last(), radix) is Some {
                assert forall|i: int| 0 <= i < s.len() implies digit_value(
                    #[trigger] s[i],
                    radix,
                ) is Some by {
                    if i < t.len() {
                        assert(s[i] == t[i]);
                    }
                }
            }
        }
    }
}

/// Padding puts fill characters in front until the width is reached, and changes nothing
/// of what stands behind them.
pub proof fn law_padding_fills_in_front(s: Seq<char>, width: nat, fill: char, i: int)
    ensures
        padded(s, width, fill).len() == if s.len() < width {
            width
        } else {
            s.len()
        },
        padded(s, width, fill).skip(padded(s, width, fill).len() - s.len()) == s,
        0 <= i < padded(s, width, fill).len() - s.len() ==> padded(s, width, fill)[i] == fill,
{
    let p = padded(s, width, fill);
    assert(p.skip(p.len() - s.len()) =~= s);
}

// ---------------------------------------------------------------------------
// White space, words and lines by their parts
// ---------------------------------------------------------------------------

/// White space is what Unicode calls so: the controls from tab to carriage return, the
/// space, next line, and the wide and narrow spaces and separators. Nothing printable in
/// ASCII but the space is.
pub proof fn law_white_space_is_unicode(c: char)
    ensures
        c as nat <= 0x7f ==> (is_space(c) <==> c == ' ' || c == '\t' || c == '\n' || c == '\r' || c
            as nat == 11 || c as nat == 12),
        0x80 <= c as nat <= 0xff ==> (is_space(c) <==> c as nat == 133 || c as nat == 160),
        0x100 <= c as nat ==> (is_space(c) <==> c as nat == 5760 || 8192 <= c as nat <= 8202 || c
            as nat == 8232 || c as nat == 8233 || c as nat == 8239 || c as nat == 8287 || c as nat
            == 12288),
{
}

proof fn lemma_word_len_before(a: Seq<char>, c: char, b: Seq<char>)
    requires
        is_space(c),
    ensures
        word_len(a + seq![c] + b) == word_len(a),
    decreases a.len(),
{
    let s = a + seq![c] + b;
    if a.len() > 0 && !is_space(a[0]) {
        lemma_word_len_before(a.skip(1), c, b);
        assert(s.skip(1) =~= a.skip(1) + seq![c] + b);
        assert(s[0] == a[0]);
    } else if a.len() > 0 {
        assert(s[0] == a[0]);
    } else {
        assert(s[0] == c);
    }
}

/// Any white space separates words, a text without any is one word, and no text has
/// none: so words are exactly what lies between white space.
pub proof fn law_white_space_separates_words(a: Seq<char>, c: char, b: Seq<char>)
    requires
        is_space(c),
    ensures
        words(a + seq![c] + b) == words(a) + words(b),
        words(Seq::<char>::empty()).len() == 0,
        a.len() > 0 && is_solid(a) ==> words(a) == seq![a],
    decreases a.len(),
{
    let s = a + seq![c] + b;
    if a.len() > 0 && is_solid(a) {
        lemma_words_solid(a);
    }
    if a.len() == 0 {
        assert(s[0] == c);
        assert(s.skip(1) =~= b);
        assert(words(a) + words(b) =~= words(b));
    } else if is_space(a[0]) {
        law_white_space_separates_words(a.skip(1), c, b);
        assert(s[0] == a[0]);
        assert(s.skip(1) =~= a.skip(1) + seq![c] + b);
    } else {
        let n = word_len(a) as int;
        lemma_word_len(a);
        lemma_word_len_before(a, c, b);
        law_white_space_separates_words(a.skip(n), c, b);
        assert(s[0] == a[0]);
        assert(s.take(n) =~= a.take(n));
        assert(s.skip(n) =~= a.skip(n) + seq![c] + b);
        assert(words(s) =~= words(a) + words(b));
    }
}

/// Whether `s` is white space only.
pub open spec fn is_blank(s: Seq<char>) -> bool {
    forall|i: int| 0 <= i < s.len() ==> is_space(#[trigger] s[i])
}

/// What stands behind the first word of a text begins where that word ends.
pub proof fn law_behind_word(a: Seq<char>, w: Seq<char>, rest: Seq<char>)
    requires
        is_blank(a),
        is_solid(w),
        w.len() > 0,
        rest.len() > 0 ==> is_space(rest[0]),
    ensures
        behind_word(a + w + rest) == rest,
{
    let t = w + rest;
    lemma_trim_start_blank(a, t);
    assert(a + w + rest =~= a + t);
    assert(!is_space(w[0]) && t[0] == w[0]);
    lemma_word_len(t);
    let n = word_len(t) as int;
    if n < w.len() {
        assert(t[n] == w[n]);
        assert(!is_space(w[n]));
    } else if n > w.len() {
        assert(t[w.len() as int] == rest[0]);
        assert(!is_space(t[w.len() as int]));
    }
    assert(t.skip(w.len() as int) =~= rest);
}

proof fn lemma_trim_start_blank(a: Seq<char>, t: Seq<char>)
    requires
        is_blank(a),
        t.len() > 0 ==> !is_space(t[0]),
    ensures
        trim_start(a + t) == t,
    decreases a.len(),
{
    if a.len() == 0 {
        assert(a + t =~= t);
    } else {
        let r = a.skip(1);
        assert(is_space(a[0]) && (a + t)[0] == a[0]);
        assert forall|i: int| 0 <= i < r.len() implies is_space(#[trigger] r[i]) by {
            assert(r[i] == a[i + 1]);
        }
        lemma_trim_start_blank(r, t);
        assert((a + t).skip(1) =~= r + t);
    }
}

proof fn lemma_trim_end_blank(t: Seq<char>, b: Seq<char>)
    requires
        is_blank(b),
        t.len() > 0 ==> !is_space(t.last()),
    ensures
        trim_end(t + b) == t,
    decreases b.len(),
{
    if b.len() == 0 {
        assert(t + b =~= t);
    } else {
        let r = b.drop_last();
        assert(is_space(b[b.len() - 1]) && (t + b).last() == b.last());
        assert forall|i: int| 0 <= i < r.len() implies is_space(#[trigger] r[i]) by {
            assert(r[i] == b[i]);
        }
        lemma_trim_end_blank(t, r);
        assert((t + b).drop_last() =~= t + r);
    }
}

/// Trimming takes white space away from both ends and nothing else.
pub proof fn law_trimming_takes_only_the_ends(a: Seq<char>, t: Seq<char>, b: Seq<char>)
    requires
        is_blank(a),
        is_blank(b),
        t.len() > 0 ==> !is_space(t[0]) && !is_space(t.last()),
    ensures
        trimmed(a + t + b) == t,
{
    if t.len() == 0 {
        let s = a + b;
        assert(a + t + b =~= s);
        assert forall|i: int| 0 <= i < s.len() implies is_space(#[trigger] s[i]) by {
            if i < a.len() {
                assert(s[i] == a[i]);
            } else {
                assert(s[i] == b[i - a.len()]);
            }
        }
        lemma_trim_start_blank(s, t);
        assert(s + t =~= s);
    } else {
        lemma_trim_start_blank(a, t + b);
        assert(a + t + b =~= a + (t + b));
        lemma_trim_end_blank(t, b);
    }
}

/// A line ends at its line feed, in front of which one carriage return belongs to the end.
/// A text without a line feed is one line as it is, and no text has none.
pub proof fn law_lines_end_at_line_feeds(line: Seq<char>, rest: Seq<char>)
    requires
        forall|i: int| 0 <= i < line.len() ==> #[trigger] line[i] != '\n',
    ensures
        lines(line + seq!['\r', '\n'] + rest) == seq![line] + lines(rest),
        line.len() == 0 || line.last() != '\r' ==> lines(line + seq!['\n'] + rest) == seq![line]
            + lines(rest),
        line.len() > 0 ==> lines(line) == seq![line],
        lines(Seq::<char>::empty()).len() == 0,
{
    let l = line.push('\r');
    assert forall|i: int| 0 <= i < l.len() implies #[trigger] l[i] != '\n' by {
        if i < line.len() {
            assert(l[i] == line[i]);
        }
    }
    let s = l + seq!['\n'] + rest;
    assert(line + seq!['\r', '\n'] + rest =~= s);
    lemma_len_before_separator(l, '\n', rest);
    assert(s.take(l.len() as int) =~= l);
    assert(s.skip(l.len() as int + 1) =~= rest);
    assert(without_cr(l) =~= line);
    if line.len() == 0 || line.last() != '\r' {
        lemma_lines_first(line, rest);
    }
    if line.len() > 0 {
        lemma_len_before(line, '\n');
        let n = len_before(line, '\n') as int;
        if n < line.len() {
            assert(line[n] == '\n');
        }
    }
}

/// A text begins with what was put in front of it, and holds what was put into it; and
/// nothing else counts.
pub proof fn law_contained_text_has_a_place(s: Seq<char>, p: Seq<char>)
    ensures
        starts_with(s, p) <==> exists|b: Seq<char>| s == #[trigger] (p + b),
        contains_text(s, p) <==> exists|a: Seq<char>, b: Seq<char>| s == #[trigger] (a + p + b),
        after_prefix(s, p) is Some <==> starts_with(s, p),
        after_prefix(s, p) matches Some(b) ==> s == p + b,
{
    if starts_with(s, p) {
        let b = s.skip(p.len() as int);
        assert(s =~= p + b);
    }
    if exists|b: Seq<char>| s == #[trigger] (p + b) {
        let b = choose|b: Seq<char>| s == #[trigger] (p + b);
        assert((p + b).take(p.len() as int) =~= p);
    }
    if contains_text(s, p) {
        let i = choose|i: int| 0 <= i <= s.len() && #[trigger] starts_with(s.skip(i), p);
        let a = s.take(i);
        let b = s.skip(i).skip(p.len() as int);
        assert(s.skip(i).take(p.len() as int) + b =~= s.skip(i));
        assert(s =~= a + p + b);
    }
    if exists|a: Seq<char>, b: Seq<char>| s == #[trigger] (a + p + b) {
        let (a, b) = choose|a: Seq<char>, b: Seq<char>| s == #[trigger] (a + p + b);
        assert(s.skip(a.len() as int).take(p.len() as int) =~= p);
        assert(starts_with(s.skip(a.len() as int), p));
    }
}

} // verus!
