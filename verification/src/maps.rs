//! Finding the scheduler library in the memory map of the process.
//!
//! The functions take the contents of `/proc/self/maps`, which has lines like
//! ```text
//! 7f1234000000-7f1234010000 r-xp 00001000 08:01 12345  /path/to/libscx_simple.so
//! ```

use vstd::prelude::*;
use vstd::slice::slice_subrange;

use crate::text;
use crate::text::{
    chars_of, contains, find_char, parse_number, split_line, split_word, strip_prefix,
};

verus! {

/// What stands in front of the first `sep` of `s`; all of `s` if there is none.
pub open spec fn before(s: Seq<char>, sep: char) -> Seq<char> {
    s.take(text::len_before(s, sep) as int)
}

/// What stands behind the first `sep` of `s`, if there is one.
pub open spec fn behind(s: Seq<char>, sep: char) -> Option<Seq<char>> {
    let n = text::len_before(s, sep) as int;
    if n < s.len() {
        Some(s.skip(n + 1))
    } else {
        None
    }
}

fn text_before<'a>(s: &'a [char], sep: char) -> (r: &'a [char])
    ensures
        r@ == before(s@, sep),
{
    let n: usize = find_char(s, sep);
    let r = slice_subrange(s, 0, n);
    assert(r@ =~= before(s@, sep));
    r
}

fn text_behind<'a>(s: &'a [char], sep: char) -> (r: Option<&'a [char]>)
    ensures
        match r {
            Some(t) => behind(s@, sep) == Some(t@),
            None => behind(s@, sep) is None,
        },
{
    let n: usize = find_char(s, sep);
    if n < s.len() {
        let t = slice_subrange(s, n + 1, s.len());
        assert(t@ =~= s@.skip(n + 1));
        Some(t)
    } else {
        None
    }
}

// ---------------------------------------------------------------------------
// Base address
// ---------------------------------------------------------------------------

/// Whether a path names a scheduler library: it holds `libscx_` and, behind that,
/// `.so`.
pub open spec fn names_scheduler(path: Seq<char>) -> bool {
    exists|i: int|
        0 <= i <= path.len() && #[trigger] text::starts_with(path.skip(i), "libscx_"@)
            && text::contains_text(path.skip(i).skip("libscx_"@.len() as int), ".so"@)
}

/// The start address of a line that maps executable code of a scheduler library:
/// one whose permissions hold `x` and whose path, behind them, names such a library.
pub open spec fn line_base(line: Seq<char>) -> Option<u64> {
    let parts = text::words(line);
    let path = text::behind_word(text::behind_word(line));
    if parts.len() < 2 || !parts[1].contains('x') || !names_scheduler(path) {
        None
    } else {
        match text::read_number(before(parts[0], '-'), 16, u64::MAX as nat) {
            Ok(addr) => Some(addr as u64),
            Err(_) => None,
        }
    }
}

/// The start address in the first line that has one, zero if no line does.
pub open spec fn first_base(lines: Seq<Seq<char>>) -> u64
    decreases lines.len(),
{
    if lines.len() == 0 {
        0
    } else {
        match line_base(lines[0]) {
            Some(addr) => addr,
            None => first_base(lines.skip(1)),
        }
    }
}

fn is_scheduler_path(path: &[char]) -> (r: bool)
    ensures
        r == names_scheduler(path@),
{
    let mut i: usize = 0;
    loop
        invariant
            i <= path.len(),
            forall|j: int|
                0 <= j < i && #[trigger] text::starts_with(path@.skip(j), "libscx_"@)
                    ==> !text::contains_text(
                    path@.skip(j).skip("libscx_"@.len() as int),
                    ".so"@,
                ),
        decreases path.len() - i,
    {
        let rest = slice_subrange(path, i, path.len());
        assert(rest@ =~= path@.skip(i as int));
        if let Some(name) = strip_prefix(rest, "libscx_") {
            if contains(name, ".so") {
                assert(text::starts_with(path@.skip(i as int), "libscx_"@));
                return true;
            }
        }
        if i == path.len() {
            return false;
        }
        i += 1;
    }
}

fn base_of_line(line: &[char]) -> (r: Option<u64>)
    ensures
        r == line_base(line@),
{
    match split_word(line) {
        None => None,
        Some((range, rest)) => match split_word(rest) {
            None => None,
            Some((permissions, path)) => {
                proof {
                    let ghost parts = text::words(line@);
                    assert(parts[0] == range@);
                    assert(parts[1] == permissions@);
                    text::lemma_len_before(permissions@, 'x');
                    let n = text::len_before(permissions@, 'x') as int;
                    if n < permissions@.len() {
                        assert(permissions@[n] == 'x');
                    }
                }
                if find_char(permissions, 'x') == permissions.len() || !is_scheduler_path(path) {
                    return None;
                }
                match parse_number(text_before(range, '-'), 16, u64::MAX) {
                    Ok(addr) => Some(addr),
                    Err(_) => None,
                }
            },
        },
    }
}

/// Find the base address of the scheduler .so in the memory map `maps` of the
/// process.
///
/// Looks for the first executable mapping from a `libscx_*.so` file. Returns 0 if
/// not found. The result can be subtracted from an absolute RIP to get a
/// .so-relative offset that survives ASLR.
pub fn scheduler_so_base(maps: &str) -> (r: u64)
    ensures
        r == first_base(text::lines(maps@)),
{
    let chars = chars_of(maps);
    let mut rest: &[char] = &chars;
    loop
        invariant
            first_base(text::lines(maps@)) == first_base(text::lines(rest@)),
        decreases rest@.len(),
    {
        match split_line(rest) {
            None => {
                return 0;
            },
            Some((line, tail)) => {
                assert((seq![line@] + text::lines(tail@)).skip(1) =~= text::lines(tail@));
                if let Some(addr) = base_of_line(line) {
                    return addr;
                }
                rest = tail;
            },
        }
    }
}

// ---------------------------------------------------------------------------
// Executable segment
// ---------------------------------------------------------------------------

/// What a line says of the executable segment of a library.
pub enum SegmentLine {
    /// The line is not about it, or maps nothing.
    Skip,
    /// The line maps it, but its address range cannot be read.
    Bad,
    /// The line maps the addresses from `base`, `size` of them.
    Found { base: usize, size: usize },
}

/// The number that `s` spells in hexadecimal.
pub open spec fn read_hex_usize(s: Seq<char>) -> Option<nat> {
    match text::read_number(s, 16, usize::MAX as nat) {
        Ok(n) => Some(n),
        Err(_) => None,
    }
}

/// What a line says of the executable segment of the library `so_path`: it is about
/// it if it contains `so_path` and its permissions are `r-xp`.
pub open spec fn line_segment(line: Seq<char>, so_path: Seq<char>) -> SegmentLine {
    let parts = text::words(line);
    if !text::contains_text(line, so_path) || parts.len() < 2 || parts[1] != "r-xp"@ {
        SegmentLine::Skip
    } else {
        match (
            read_hex_usize(before(parts[0], '-')),
            match behind(parts[0], '-') {
                Some(t) => read_hex_usize(before(t, '-')),
                None => None,
            },
        ) {
            (Some(start), Some(end)) => if end > start {
                SegmentLine::Found { base: start as usize, size: (end - start) as usize }
            } else {
                SegmentLine::Skip
            },
            _ => SegmentLine::Bad,
        }
    }
}

/// The base and size of the segment in the first line that tells; a line that
/// cannot be read ends the search.
pub open spec fn first_segment(lines: Seq<Seq<char>>, so_path: Seq<char>) -> Option<(usize, usize)>
    decreases lines.len(),
{
    if lines.len() == 0 {
        None
    } else {
        match line_segment(lines[0], so_path) {
            SegmentLine::Skip => first_segment(lines.skip(1), so_path),
            SegmentLine::Bad => None,
            SegmentLine::Found { base, size } => Some((base, size)),
        }
    }
}

fn parse_hex_usize(s: &[char]) -> (r: Option<usize>)
    ensures
        match r {
            Some(n) => read_hex_usize(s@) == Some(n as nat),
            None => read_hex_usize(s@) is None,
        },
{
    match parse_number(s, 16, usize::MAX as u64) {
        Ok(n) => {
            proof {
                text::lemma_read_number_max(s@, 16, usize::MAX as nat);
            }
            Some(n as usize)
        },
        Err(_) => None,
    }
}

fn segment_of_line(line: &[char], so_path: &str) -> (r: SegmentLine)
    ensures
        r == line_segment(line@, so_path@),
{
    if !contains(line, so_path) {
        return SegmentLine::Skip;
    }
    match split_word(line) {
        None => SegmentLine::Skip,
        Some((range, rest)) => {
            assert(text::words(line@)[0] == range@);
            let executable = match split_word(rest) {
                None => false,
                Some((permissions, _path)) => {
                    assert(text::words(line@)[1] == permissions@);
                    match strip_prefix(permissions, "r-xp") {
                        Some(tail) => {
                            assert(permissions@ == permissions@.take("r-xp"@.len() as int) + tail@);
                            tail.len() == 0
                        },
                        None => {
                            assert(permissions@.take(permissions@.len() as int) =~= permissions@);
                            false
                        },
                    }
                },
            };
            if !executable {
                return SegmentLine::Skip;
            }
            let start = parse_hex_usize(text_before(range, '-'));
            let end = match text_behind(range, '-') {
                Some(t) => parse_hex_usize(text_before(t, '-')),
                None => None,
            };
            match (start, end) {
                (Some(start), Some(end)) => if end > start {
                    SegmentLine::Found { base: start, size: end - start }
                } else {
                    SegmentLine::Skip
                },
                _ => SegmentLine::Bad,
            }
        },
    }
}

/// The base and size of the executable segment of the library `so_path` in the
/// memory map `maps`.
pub fn find_segment(maps: &str, so_path: &str) -> (r: Option<(usize, usize)>)
    ensures
        r == first_segment(text::lines(maps@), so_path@),
{
    let chars = chars_of(maps);
    let mut rest: &[char] = &chars;
    loop
        invariant
            first_segment(text::lines(maps@), so_path@) == first_segment(
                text::lines(rest@),
                so_path@,
            ),
        decreases rest@.len(),
    {
        match split_line(rest) {
            None => {
                return None;
            },
            Some((line, tail)) => {
                assert((seq![line@] + text::lines(tail@)).skip(1) =~= text::lines(tail@));
                match segment_of_line(line, so_path) {
                    SegmentLine::Skip => {},
                    SegmentLine::Bad => {
                        return None;
                    },
                    SegmentLine::Found { base, size } => {
                        return Some((base, size));
                    },
                }
                rest = tail;
            },
        }
    }
}

// ---------------------------------------------------------------------------
// Laws
// ---------------------------------------------------------------------------

/// A path names a scheduler library exactly if `libscx_` stands somewhere in it and `.so`
/// somewhere behind that.
pub proof fn law_scheduler_library_is_named(path: Seq<char>)
    ensures
        names_scheduler(path) <==> exists|a: Seq<char>, b: Seq<char>, c: Seq<char>|
            path == #[trigger] (a + "libscx_"@ + b + ".so"@ + c),
{
    let p = "libscx_"@;
    let q = ".so"@;
    if names_scheduler(path) {
        let i = choose|i: int|
            0 <= i <= path.len() && #[trigger] text::starts_with(path.skip(i), p)
                && text::contains_text(path.skip(i).skip(p.len() as int), q);
        let tail = path.skip(i).skip(p.len() as int);
        text::law_contained_text_has_a_place(tail, q);
        let (b, c) = choose|b: Seq<char>, c: Seq<char>| tail == #[trigger] (b + q + c);
        assert(path.skip(i).take(p.len() as int) + tail =~= path.skip(i));
        assert(path.take(i) + path.skip(i) =~= path);
        assert(path.take(i) + (p + (b + q + c)) =~= path.take(i) + p + b + q + c);
    }
    if exists|a: Seq<char>, b: Seq<char>, c: Seq<char>| path == #[trigger] (a + p + b + q + c) {
        let (a, b, c) = choose|a: Seq<char>, b: Seq<char>, c: Seq<char>|
            path == #[trigger] (a + p + b + q + c);
        let i = a.len() as int;
        let tail = b + q + c;
        assert(path.skip(i) =~= p + tail);
        assert(path.skip(i).take(p.len() as int) =~= p);
        assert(path.skip(i).skip(p.len() as int) =~= tail);
        text::law_contained_text_has_a_place(tail, q);
        assert(text::starts_with(path.skip(i), p));
    }
}

proof fn lemma_hex_is_plain(n: nat)
    ensures
        text::hexadecimal(n).len() > 0,
        text::is_solid(text::hexadecimal(n)),
        forall|i: int| 0 <= i < text::hexadecimal(n).len() ==> #[trigger] text::hexadecimal(n)[i]
            != '-',
{
    text::lemma_digits_chars(n, 16);
    let h = text::hexadecimal(n);
    assert forall|i: int| 0 <= i < h.len() implies #[trigger] h[i] != '-' && !text::is_space(
        h[i],
    ) by {
        assert(text::is_digit_char(h[i]));
    }
}

/// The words of a mapping and what follows its permissions.
proof fn lemma_mapping_words(range: Seq<char>, perms: Seq<char>, rest: Seq<char>)
    requires
        range.len() > 0,
        text::is_solid(range),
        perms.len() > 0,
        text::is_solid(perms),
        rest.len() > 0 ==> text::is_space(rest[0]),
    ensures
        ({
            let line = range + seq![' '] + perms + rest;
            &&& text::words(line).len() >= 2
            &&& text::words(line)[0] == range
            &&& text::words(line)[1] == perms
            &&& text::behind_word(text::behind_word(line)) == rest
        }),
{
    let line = range + seq![' '] + perms + rest;
    let second = perms + rest;
    assert(line =~= range + seq![' '] + second);
    text::law_white_space_separates_words(range, ' ', second);
    if rest.len() > 0 {
        text::law_white_space_separates_words(perms, rest[0], rest.skip(1));
        assert(second =~= perms + seq![rest[0]] + rest.skip(1));
    } else {
        assert(second =~= perms);
        text::lemma_words_solid(perms);
    }
    text::lemma_words_solid(range);
    let none = Seq::<char>::empty();
    let blank = seq![' '];
    text::law_behind_word(none, range, blank + second);
    assert(line =~= none + range + (blank + second));
    text::law_behind_word(blank, perms, rest);
    assert(blank + second =~= blank + perms + rest);
}

/// A line of the memory map gives its start address, whatever that is, exactly if its
/// permissions hold `x` and what follows them names a scheduler library.
pub proof fn law_base_of_a_mapping(
    start: u64,
    end: Seq<char>,
    perms: Seq<char>,
    rest: Seq<char>,
)
    requires
        text::is_solid(end),
        perms.len() > 0,
        text::is_solid(perms),
        rest.len() > 0 ==> text::is_space(rest[0]),
    ensures
        line_base(text::hexadecimal(start as nat) + seq!['-'] + end + seq![' '] + perms + rest)
            == if perms.contains('x') && names_scheduler(rest) {
            Some(start)
        } else {
            None
        },
{
    let h = text::hexadecimal(start as nat);
    let range = h + seq!['-'] + end;
    lemma_hex_is_plain(start as nat);
    assert(text::is_solid(range)) by {
        assert forall|i: int| 0 <= i < range.len() implies !text::is_space(#[trigger] range[i]) by {
            if i < h.len() {
                assert(range[i] == h[i]);
            } else if i > h.len() {
                assert(range[i] == end[i - h.len() - 1]);
            }
        }
    }
    lemma_mapping_words(range, perms, rest);
    assert(h + seq!['-'] + end + seq![' '] + perms + rest =~= range + seq![' '] + perms + rest);
    text::lemma_len_before_separator(h, '-', end);
    assert(before(range, '-') =~= h);
    text::law_number_round_trip(start as nat, 16, u64::MAX as nat);
}

/// The first line that gives a base decides, and no line gives none.
pub proof fn law_first_mapping_decides(lines: Seq<Seq<char>>, i: int)
    requires
        0 <= i <= lines.len(),
        forall|j: int| 0 <= j < i ==> line_base(#[trigger] lines[j]) is None,
    ensures
        i == lines.len() ==> first_base(lines) == 0,
        i < lines.len() ==> (line_base(lines[i]) matches Some(addr) ==> first_base(lines) == addr),
    decreases i,
{
    if i > 0 {
        let rest = lines.skip(1);
        assert(line_base(lines[0]) is None);
        assert forall|j: int| 0 <= j < i - 1 implies line_base(#[trigger] rest[j]) is None by {
            assert(rest[j] == lines[j + 1]);
        }
        law_first_mapping_decides(rest, i - 1);
        if i < lines.len() {
            assert(rest[i - 1] == lines[i]);
        }
    }
}

/// A line of the memory map with the permissions `r-xp` that holds the path gives the
/// range between its two addresses, and nothing if that is empty; with other permissions,
/// or without the path, it gives nothing.
pub proof fn law_segment_of_a_mapping(
    start: usize,
    end: usize,
    perms: Seq<char>,
    rest: Seq<char>,
    so_path: Seq<char>,
)
    requires
        perms.len() > 0,
        text::is_solid(perms),
        rest.len() > 0 ==> text::is_space(rest[0]),
    ensures
        ({
            let line = text::hexadecimal(start as nat) + seq!['-'] + text::hexadecimal(end as nat)
                + seq![' '] + perms + rest;
            line_segment(line, so_path) == if perms == seq!['r', '-', 'x', 'p'] && start < end && (
            exists|a: Seq<char>, b: Seq<char>| line == #[trigger] (a + so_path + b)) {
                SegmentLine::Found { base: start, size: (end - start) as usize }
            } else {
                SegmentLine::Skip
            }
        }),
{
    let h = text::hexadecimal(start as nat);
    let e = text::hexadecimal(end as nat);
    let range = h + seq!['-'] + e;
    let line = h + seq!['-'] + e + seq![' '] + perms + rest;
    lemma_hex_is_plain(start as nat);
    lemma_hex_is_plain(end as nat);
    assert(text::is_solid(range)) by {
        assert forall|i: int| 0 <= i < range.len() implies !text::is_space(#[trigger] range[i]) by {
            if i < h.len() {
                assert(range[i] == h[i]);
            } else if i > h.len() {
                assert(range[i] == e[i - h.len() - 1]);
            }
        }
    }
    lemma_mapping_words(range, perms, rest);
    assert(line =~= range + seq![' '] + perms + rest);
    text::lemma_len_before_separator(h, '-', e);
    assert(before(range, '-') =~= h);
    assert(range.skip(h.len() as int + 1) =~= e);
    text::lemma_len_before(e, '-');
    let n = text::len_before(e, '-') as int;
    assert(n == e.len()) by {
        if n < e.len() {
            assert(e[n] == '-');
        }
    }
    assert(before(e, '-') =~= e);
    text::law_number_round_trip(start as nat, 16, usize::MAX as nat);
    text::law_number_round_trip(end as nat, 16, usize::MAX as nat);
    text::law_contained_text_has_a_place(line, so_path);
    reveal_strlit("r-xp");
    assert("r-xp"@ =~= seq!['r', '-', 'x', 'p']);
}

/// The first line that gives a segment decides, unless one in front of it is about the
/// library and cannot be read.
pub proof fn law_first_segment_decides(lines: Seq<Seq<char>>, so_path: Seq<char>, i: int)
    requires
        0 <= i <= lines.len(),
        forall|j: int| 0 <= j < i ==> line_segment(#[trigger] lines[j], so_path) is Skip,
    ensures
        i == lines.len() ==> first_segment(lines, so_path) is None,
        i < lines.len() ==> match line_segment(lines[i], so_path) {
            SegmentLine::Found { base, size } => first_segment(lines, so_path) == Some((base, size)),
            SegmentLine::Bad => first_segment(lines, so_path) is None,
            SegmentLine::Skip => true,
        },
    decreases i,
{
    if i > 0 {
        let rest = lines.skip(1);
        assert(line_segment(lines[0], so_path) is Skip);
        assert forall|j: int| 0 <= j < i - 1 implies line_segment(
            #[trigger] rest[j],
            so_path,
        ) is Skip by {
            assert(rest[j] == lines[j + 1]);
        }
        law_first_segment_decides(rest, so_path, i - 1);
        if i < lines.len() {
            assert(rest[i - 1] == lines[i]);
        }
    }
}

} // verus!
