//! Byte classes of the argument grammar and the runs they form.
//!
//! Every function here works on a byte string and an index into it. The
//! specification functions say where a run that starts at an index ends; the
//! executable functions find that place.

use vstd::prelude::*;

verus! {

pub const SPACE: u8 = 0x20;

pub const COMMA: u8 = 0x2C;

pub const TAB: u8 = 0x09;

pub const NEWLINE: u8 = 0x0A;

pub const FORM_FEED: u8 = 0x0C;

pub const QUOTE: u8 = 0x22;

pub const BACKSLASH: u8 = 0x5C;

pub const MINUS: u8 = 0x2D;

pub const PLUS: u8 = 0x2B;

pub const POINT: u8 = 0x2E;

pub const ZERO: u8 = 0x30;

/// Bytes that separate tokens and mean nothing themselves: space, comma,
/// tab, line feed and form feed.
pub open spec fn is_separator(b: u8) -> bool {
    b == SPACE || b == COMMA || b == TAB || b == NEWLINE || b == FORM_FEED
}

/// The ASCII decimal digits.
pub open spec fn is_digit(b: u8) -> bool {
    0x30 <= b <= 0x39
}

/// The ASCII hexadecimal digits, in either case.
pub open spec fn is_hex_digit(b: u8) -> bool {
    is_digit(b) || (0x41 <= b <= 0x46) || (0x61 <= b <= 0x66)
}

/// The number a hexadecimal digit stands for.
pub open spec fn hex_digit_value(b: u8) -> nat {
    if is_digit(b) {
        (b - 0x30) as nat
    } else if 0x41 <= b <= 0x46 {
        (b - 0x41 + 10) as nat
    } else {
        (b - 0x61 + 10) as nat
    }
}

/// A byte that may stand unescaped inside a quoted string: anything but the
/// quote, the backslash and the control characters below the space.
pub open spec fn is_plain(b: u8) -> bool {
    b != QUOTE && b != BACKSLASH && b >= 0x20
}

/// The byte after a backslash in a two-byte escape: one of `" \ / b f n r t`.
pub open spec fn is_simple_escape(b: u8) -> bool {
    b == QUOTE || b == BACKSLASH || b == 0x2F || b == 0x62 || b == 0x66 || b == 0x6E || b == 0x72
        || b == 0x74
}

/// The letter `e` in either case, which opens an exponent.
pub open spec fn is_exponent_mark(b: u8) -> bool {
    b == 0x65 || b == 0x45
}

/// The letter `x` in either case, which follows the `0` of a hex literal.
pub open spec fn is_hex_mark(b: u8) -> bool {
    b == 0x78 || b == 0x58
}

/// The first index at or after `i` that holds no separator.
pub open spec fn separators_end(s: Seq<u8>, i: int) -> int
    decreases s.len() - i,
{
    if 0 <= i < s.len() && is_separator(s[i]) {
        separators_end(s, i + 1)
    } else {
        i
    }
}

/// The first index at or after `i` that holds no decimal digit.
pub open spec fn digits_end(s: Seq<u8>, i: int) -> int
    decreases s.len() - i,
{
    if 0 <= i < s.len() && is_digit(s[i]) {
        digits_end(s, i + 1)
    } else {
        i
    }
}

/// The first index at or after `i` that holds no hexadecimal digit.
pub open spec fn hex_digits_end(s: Seq<u8>, i: int) -> int
    decreases s.len() - i,
{
    if 0 <= i < s.len() && is_hex_digit(s[i]) {
        hex_digits_end(s, i + 1)
    } else {
        i
    }
}

/// The first index at or after `i` that holds a separator, or the length of
/// `s` where none follows.
pub open spec fn chunk_end(s: Seq<u8>, i: int) -> int
    decreases s.len() - i,
{
    if 0 <= i < s.len() && !is_separator(s[i]) {
        chunk_end(s, i + 1)
    } else {
        i
    }
}

/// The length of the escape sequence whose backslash stands at `i`: 2 for a
/// simple escape, 6 for `\u` and four hexadecimal digits, 0 where neither
/// follows.
pub open spec fn escape_len(s: Seq<u8>, i: int) -> int {
    if i + 1 < s.len() && is_simple_escape(s[i + 1]) {
        2
    } else if i + 5 < s.len() && s[i + 1] == 0x75 && is_hex_digit(s[i + 2]) && is_hex_digit(
        s[i + 3],
    ) && is_hex_digit(s[i + 4]) && is_hex_digit(s[i + 5]) {
        6
    } else {
        0
    }
}

/// The first index at or after `i` at which the content of a quoted string
/// cannot go on: a quote, a control character, a malformed escape, or the end
/// of `s`.
pub open spec fn string_body_end(s: Seq<u8>, i: int) -> int
    decreases s.len() - i,
{
    if 0 <= i < s.len() && is_plain(s[i]) {
        string_body_end(s, i + 1)
    } else if 0 <= i < s.len() && s[i] == BACKSLASH && escape_len(s, i) > 0 {
        string_body_end(s, i + escape_len(s, i))
    } else {
        i
    }
}

/// The number that the decimal digits of `s` from `from` up to `to` spell.
pub open spec fn decimal_value(s: Seq<u8>, from: int, to: int) -> nat
    decreases to - from,
{
    if to <= from {
        0
    } else {
        decimal_value(s, from, to - 1) * 10 + (s[to - 1] - 0x30) as nat
    }
}

/// The number that the hexadecimal digits of `s` from `from` up to `to` spell.
pub open spec fn hex_value(s: Seq<u8>, from: int, to: int) -> nat
    decreases to - from,
{
    if to <= from {
        0
    } else {
        hex_value(s, from, to - 1) * 16 + hex_digit_value(s[to - 1])
    }
}

/// A run of separators ends inside the string, at a byte that is none, and
/// holds separators only.
pub proof fn lemma_separators_end(s: Seq<u8>, i: int)
    requires
        0 <= i <= s.len(),
    ensures
        i <= separators_end(s, i) <= s.len(),
        separators_end(s, i) < s.len() ==> !is_separator(s[separators_end(s, i)]),
        forall|k: int| i <= k < separators_end(s, i) ==> is_separator(#[trigger] s[k]),
    decreases s.len() - i,
{
    if i < s.len() && is_separator(s[i]) {
        lemma_separators_end(s, i + 1);
    }
}

/// A run of digits ends inside the string, at a byte that is none, and holds
/// digits only.
pub proof fn lemma_digits_end(s: Seq<u8>, i: int)
    requires
        0 <= i <= s.len(),
    ensures
        i <= digits_end(s, i) <= s.len(),
        digits_end(s, i) < s.len() ==> !is_digit(s[digits_end(s, i)]),
        forall|k: int| i <= k < digits_end(s, i) ==> is_digit(#[trigger] s[k]),
    decreases s.len() - i,
{
    if i < s.len() && is_digit(s[i]) {
        lemma_digits_end(s, i + 1);
    }
}

/// A run of hexadecimal digits ends inside the string, at a byte that is
/// none, and holds hexadecimal digits only.
pub proof fn lemma_hex_digits_end(s: Seq<u8>, i: int)
    requires
        0 <= i <= s.len(),
    ensures
        i <= hex_digits_end(s, i) <= s.len(),
        hex_digits_end(s, i) < s.len() ==> !is_hex_digit(s[hex_digits_end(s, i)]),
        forall|k: int| i <= k < hex_digits_end(s, i) ==> is_hex_digit(#[trigger] s[k]),
    decreases s.len() - i,
{
    if i < s.len() && is_hex_digit(s[i]) {
        lemma_hex_digits_end(s, i + 1);
    }
}

/// A chunk ends inside the string, at a separator or at the end, and holds
/// no separator.
pub proof fn lemma_chunk_end(s: Seq<u8>, i: int)
    requires
        0 <= i <= s.len(),
    ensures
        i <= chunk_end(s, i) <= s.len(),
        chunk_end(s, i) < s.len() ==> is_separator(s[chunk_end(s, i)]),
        forall|k: int| i <= k < chunk_end(s, i) ==> !is_separator(#[trigger] s[k]),
    decreases s.len() - i,
{
    if i < s.len() && !is_separator(s[i]) {
        lemma_chunk_end(s, i + 1);
    }
}

/// The content of a quoted string ends inside the string, and not at a byte
/// that could stand unescaped.
pub proof fn lemma_string_body_end(s: Seq<u8>, i: int)
    requires
        0 <= i <= s.len(),
    ensures
        i <= string_body_end(s, i) <= s.len(),
        string_body_end(s, i) < s.len() ==> !is_plain(s[string_body_end(s, i)]),
    decreases s.len() - i,
{
    if i < s.len() && is_plain(s[i]) {
        lemma_string_body_end(s, i + 1);
    } else if i < s.len() && s[i] == BACKSLASH && escape_len(s, i) > 0 {
        lemma_string_body_end(s, i + escape_len(s, i));
    }
}

/// The content of a quoted string holds no zero byte.
pub proof fn lemma_string_body_has_no_nul(s: Seq<u8>, i: int)
    requires
        0 <= i <= s.len(),
    ensures
        forall|k: int| i <= k < string_body_end(s, i) ==> #[trigger] s[k] != 0,
    decreases s.len() - i,
{
    if i < s.len() && is_plain(s[i]) {
        lemma_string_body_has_no_nul(s, i + 1);
    } else if i < s.len() && s[i] == BACKSLASH && escape_len(s, i) > 0 {
        lemma_string_body_has_no_nul(s, i + escape_len(s, i));
    }
}

/// Inside the window of `s` from `a` to `e`, a run of separators ends where
/// it ends in `s`, or at the end of the window where it goes on beyond that.
pub proof fn lemma_separators_end_window(s: Seq<u8>, a: int, e: int, j: int)
    requires
        0 <= a <= j <= e <= s.len(),
    ensures
        separators_end(s.subrange(a, e), j - a) == (if separators_end(s, j) <= e {
            separators_end(s, j)
        } else {
            e
        }) - a,
    decreases e - j,
{
    let t = s.subrange(a, e);
    lemma_separators_end(s, j);
    if j < e {
        assert(t[j - a] == s[j]);
        if is_separator(s[j]) {
            lemma_separators_end_window(s, a, e, j + 1);
        }
    }
}

/// Inside the window of `s` from `a` to `e`, a chunk ends where it ends in
/// `s`, or at the end of the window where it goes on beyond that.
pub proof fn lemma_chunk_end_window(s: Seq<u8>, a: int, e: int, j: int)
    requires
        0 <= a <= j <= e <= s.len(),
    ensures
        chunk_end(s.subrange(a, e), j - a) == (if chunk_end(s, j) <= e {
            chunk_end(s, j)
        } else {
            e
        }) - a,
    decreases e - j,
{
    let t = s.subrange(a, e);
    lemma_chunk_end(s, j);
    if j < e {
        assert(t[j - a] == s[j]);
        if !is_separator(s[j]) {
            lemma_chunk_end_window(s, a, e, j + 1);
        }
    }
}

/// A run of separators that reaches a place ends where the run from that
/// place ends.
pub proof fn lemma_separators_end_passes(s: Seq<u8>, i: int, n: int)
    requires
        0 <= i <= n <= separators_end(s, i),
    ensures
        separators_end(s, i) == separators_end(s, n),
    decreases n - i,
{
    if i < n {
        lemma_separators_end(s, i);
        if i < s.len() && is_separator(s[i]) {
            lemma_separators_end_passes(s, i + 1, n);
        }
    }
}

/// Digits spell the same number wherever they stand: the digits of `t` that
/// lie `d` places before those of `s` and are the same spell what those
/// spell.
pub proof fn lemma_decimal_value_moves(s: Seq<u8>, t: Seq<u8>, d: int, from: int, to: int)
    requires
        forall|k: int| from <= k < to ==> s[k] == #[trigger] t[k - d],
    ensures
        decimal_value(t, from - d, to - d) == decimal_value(s, from, to),
    decreases to - from,
{
    if from < to {
        lemma_decimal_value_moves(s, t, d, from, to - 1);
        assert(s[to - 1] == t[to - 1 - d]);
    }
}

/// Hexadecimal digits spell the same number wherever they stand.
pub proof fn lemma_hex_value_moves(s: Seq<u8>, t: Seq<u8>, d: int, from: int, to: int)
    requires
        forall|k: int| from <= k < to ==> s[k] == #[trigger] t[k - d],
    ensures
        hex_value(t, from - d, to - d) == hex_value(s, from, to),
    decreases to - from,
{
    if from < to {
        lemma_hex_value_moves(s, t, d, from, to - 1);
        assert(s[to - 1] == t[to - 1 - d]);
    }
}

/// Inside the window of `s` from `a` to `e`, a run of digits ends where it
/// ends in `s`, or at the end of the window where it goes on beyond that.
pub proof fn lemma_digits_end_window(s: Seq<u8>, a: int, e: int, j: int)
    requires
        0 <= a <= j <= e <= s.len(),
    ensures
        digits_end(s.subrange(a, e), j - a) == (if digits_end(s, j) <= e {
            digits_end(s, j)
        } else {
            e
        }) - a,
    decreases e - j,
{
    let t = s.subrange(a, e);
    lemma_digits_end(s, j);
    if j < e {
        assert(t[j - a] == s[j]);
        if is_digit(s[j]) {
            lemma_digits_end_window(s, a, e, j + 1);
        }
    }
}

/// Inside the window of `s` from `a` to `e`, a run of hexadecimal digits
/// ends where it ends in `s`, or at the end of the window where it goes on
/// beyond that.
pub proof fn lemma_hex_digits_end_window(s: Seq<u8>, a: int, e: int, j: int)
    requires
        0 <= a <= j <= e <= s.len(),
    ensures
        hex_digits_end(s.subrange(a, e), j - a) == (if hex_digits_end(s, j) <= e {
            hex_digits_end(s, j)
        } else {
            e
        }) - a,
    decreases e - j,
{
    let t = s.subrange(a, e);
    lemma_hex_digits_end(s, j);
    if j < e {
        assert(t[j - a] == s[j]);
        if is_hex_digit(s[j]) {
            lemma_hex_digits_end_window(s, a, e, j + 1);
        }
    }
}

/// An escape sequence that is whole inside the window of `s` from `a` to
/// `e` is the same escape sequence in `s`.
pub proof fn lemma_escape_len_window(s: Seq<u8>, a: int, e: int, j: int)
    requires
        0 <= a <= j < e <= s.len(),
    ensures
        escape_len(s.subrange(a, e), j - a) > 0 ==> escape_len(s.subrange(a, e), j - a)
            == escape_len(s, j),
        j + escape_len(s, j) <= e ==> escape_len(s.subrange(a, e), j - a) == escape_len(s, j),
{
    let t = s.subrange(a, e);
    if j + 1 < e {
        assert(t[j + 1 - a] == s[j + 1]);
    }
    if j + 5 < e {
        assert(t[j + 2 - a] == s[j + 2]);
        assert(t[j + 3 - a] == s[j + 3]);
        assert(t[j + 4 - a] == s[j + 4]);
        assert(t[j + 5 - a] == s[j + 5]);
    }
}

/// The content of a quoted string, read inside the window of `s` from `a`
/// to `e`, stops at a place through which the reading of `s` passes too, and
/// at the same place where the content ends inside the window.
pub proof fn lemma_string_body_end_window(s: Seq<u8>, a: int, e: int, j: int)
    requires
        0 <= a <= j <= e <= s.len(),
    ensures
        j - a <= string_body_end(s.subrange(a, e), j - a) <= e - a,
        string_body_end(s, j) == string_body_end(
            s,
            a + string_body_end(s.subrange(a, e), j - a),
        ),
        string_body_end(s, j) <= e ==> string_body_end(s.subrange(a, e), j - a)
            == string_body_end(s, j) - a,
    decreases e - j,
{
    let t = s.subrange(a, e);
    lemma_string_body_end(s, j);
    if j < e {
        assert(t[j - a] == s[j]);
        lemma_escape_len_window(s, a, e, j);
        if is_plain(s[j]) {
            lemma_string_body_end_window(s, a, e, j + 1);
        } else if s[j] == BACKSLASH && escape_len(t, j - a) > 0 {
            lemma_string_body_end_window(s, a, e, j + escape_len(s, j));
        } else if s[j] == BACKSLASH && escape_len(s, j) > 0 {
            lemma_string_body_end(s, j + escape_len(s, j));
        }
    }
}

/// Reading one digit more never makes the number smaller.
pub proof fn lemma_decimal_value_grows(s: Seq<u8>, from: int, mid: int, to: int)
    requires
        from <= mid <= to,
        forall|k: int| from <= k < to ==> is_digit(#[trigger] s[k]),
    ensures
        decimal_value(s, from, mid) <= decimal_value(s, from, to),
    decreases to - mid,
{
    if mid < to {
        lemma_decimal_value_grows(s, from, mid, to - 1);
    }
}

/// Reading one hexadecimal digit more never makes the number smaller.
pub proof fn lemma_hex_value_grows(s: Seq<u8>, from: int, mid: int, to: int)
    requires
        from <= mid <= to,
    ensures
        hex_value(s, from, mid) <= hex_value(s, from, to),
    decreases to - mid,
{
    if mid < to {
        lemma_hex_value_grows(s, from, mid, to - 1);
    }
}

pub fn byte_is_separator(b: u8) -> (r: bool)
    ensures
        r == is_separator(b),
{
    b == SPACE || b == COMMA || b == TAB || b == NEWLINE || b == FORM_FEED
}

pub fn byte_is_digit(b: u8) -> (r: bool)
    ensures
        r == is_digit(b),
{
    0x30 <= b && b <= 0x39
}

pub fn byte_is_hex_digit(b: u8) -> (r: bool)
    ensures
        r == is_hex_digit(b),
{
    (0x30 <= b && b <= 0x39) || (0x41 <= b && b <= 0x46) || (0x61 <= b && b <= 0x66)
}

pub fn byte_is_plain(b: u8) -> (r: bool)
    ensures
        r == is_plain(b),
{
    b != QUOTE && b != BACKSLASH && b >= 0x20
}

pub fn byte_is_simple_escape(b: u8) -> (r: bool)
    ensures
        r == is_simple_escape(b),
{
    b == QUOTE || b == BACKSLASH || b == 0x2F || b == 0x62 || b == 0x66 || b == 0x6E || b == 0x72
        || b == 0x74
}

/// The number a hexadecimal digit stands for.
pub fn byte_hex_value(b: u8) -> (v: u8)
    requires
        is_hex_digit(b),
    ensures
        v == hex_digit_value(b),
        v < 16,
{
    if b <= 0x39 {
        b - 0x30
    } else if b <= 0x46 {
        b - 0x41 + 10
    } else {
        b - 0x61 + 10
    }
}

/// Finds the end of the run of separators that starts at `i`.
pub fn skip_separators(input: &[u8], i: usize) -> (end: usize)
    requires
        i <= input.len(),
    ensures
        end == separators_end(input@, i as int),
        i <= end <= input.len(),
{
    let mut j: usize = i;
    while j < input.len() && byte_is_separator(input[j])
        invariant
            i <= j <= input.len(),
            separators_end(input@, i as int) == separators_end(input@, j as int),
        decreases input.len() - j,
    {
        j += 1;
    }
    j
}

/// Finds the end of the run of decimal digits that starts at `i`.
pub fn skip_digits(input: &[u8], i: usize) -> (end: usize)
    requires
        i <= input.len(),
    ensures
        end == digits_end(input@, i as int),
        i <= end <= input.len(),
{
    let mut j: usize = i;
    while j < input.len() && byte_is_digit(input[j])
        invariant
            i <= j <= input.len(),
            digits_end(input@, i as int) == digits_end(input@, j as int),
        decreases input.len() - j,
    {
        j += 1;
    }
    j
}

/// Finds the end of the run of hexadecimal digits that starts at `i`.
pub fn skip_hex_digits(input: &[u8], i: usize) -> (end: usize)
    requires
        i <= input.len(),
    ensures
        end == hex_digits_end(input@, i as int),
        i <= end <= input.len(),
{
    let mut j: usize = i;
    while j < input.len() && byte_is_hex_digit(input[j])
        invariant
            i <= j <= input.len(),
            hex_digits_end(input@, i as int) == hex_digits_end(input@, j as int),
        decreases input.len() - j,
    {
        j += 1;
    }
    j
}

/// Finds the end of the chunk of bytes without a separator that starts at `i`.
pub fn skip_chunk(input: &[u8], i: usize) -> (end: usize)
    requires
        i <= input.len(),
    ensures
        end == chunk_end(input@, i as int),
        i <= end <= input.len(),
{
    let mut j: usize = i;
    while j < input.len() && !byte_is_separator(input[j])
        invariant
            i <= j <= input.len(),
            chunk_end(input@, i as int) == chunk_end(input@, j as int),
        decreases input.len() - j,
    {
        j += 1;
    }
    j
}

/// Measures the escape sequence whose backslash stands at `i`.
pub fn measure_escape(input: &[u8], i: usize) -> (n: usize)
    requires
        i < input.len(),
    ensures
        n == escape_len(input@, i as int),
        i + n <= input.len(),
{
    let len = input.len();
    if len - i >= 2 && byte_is_simple_escape(input[i + 1]) {
        2
    } else if len - i >= 6 && input[i + 1] == 0x75 && byte_is_hex_digit(input[i + 2])
        && byte_is_hex_digit(input[i + 3]) && byte_is_hex_digit(input[i + 4])
        && byte_is_hex_digit(input[i + 5]) {
        6
    } else {
        0
    }
}

/// Finds where the content of a quoted string that starts at `i` stops.
pub fn skip_string_body(input: &[u8], i: usize) -> (end: usize)
    requires
        i <= input.len(),
    ensures
        end == string_body_end(input@, i as int),
        i <= end <= input.len(),
{
    let mut j: usize = i;
    loop
        invariant
            i <= j <= input.len(),
            string_body_end(input@, i as int) == string_body_end(input@, j as int),
        ensures
            i <= j <= input.len(),
            j == string_body_end(input@, i as int),
        decreases input.len() - j,
    {
        if j >= input.len() {
            break ;
        }
        let b = input[j];
        if byte_is_plain(b) {
            j += 1;
        } else if b == BACKSLASH {
            let n = measure_escape(input, j);
            if n == 0 {
                break ;
            }
            j += n;
        } else {
            break ;
        }
    }
    j
}

/// Reads the decimal digits from `from` up to `to` as a number, where that
/// number is at most `limit`.
pub fn read_decimal(input: &[u8], from: usize, to: usize, limit: u64) -> (r: Option<u64>)
    requires
        from <= to <= input.len(),
        limit <= 0x1_0000_0000,
        forall|k: int| from <= k < to ==> is_digit(#[trigger] input@[k]),
    ensures
        r is Some <==> decimal_value(input@, from as int, to as int) <= limit,
        r is Some ==> r->0 == decimal_value(input@, from as int, to as int),
{
    let mut acc: u64 = 0;
    let mut j: usize = from;
    while j < to
        invariant
            from <= j <= to <= input.len(),
            limit <= 0x1_0000_0000,
            acc <= limit,
            acc == decimal_value(input@, from as int, j as int),
            forall|k: int| from <= k < to ==> is_digit(#[trigger] input@[k]),
        decreases to - j,
    {
        let d: u64 = (input[j] - ZERO) as u64;
        let next: u64 = acc * 10 + d;
        assert(next == decimal_value(input@, from as int, j + 1));
        if next > limit {
            proof {
                lemma_decimal_value_grows(input@, from as int, j + 1, to as int);
            }
            return None;
        }
        acc = next;
        j += 1;
    }
    Some(acc)
}

/// Reads the hexadecimal digits from `from` up to `to` as a number, where
/// that number fits in 32 bits.
pub fn read_hex(input: &[u8], from: usize, to: usize) -> (r: Option<u32>)
    requires
        from <= to <= input.len(),
        forall|k: int| from <= k < to ==> is_hex_digit(#[trigger] input@[k]),
    ensures
        r is Some <==> hex_value(input@, from as int, to as int) <= u32::MAX,
        r is Some ==> r->0 == hex_value(input@, from as int, to as int),
{
    let mut acc: u64 = 0;
    let mut j: usize = from;
    while j < to
        invariant
            from <= j <= to <= input.len(),
            acc <= u32::MAX,
            acc == hex_value(input@, from as int, j as int),
            forall|k: int| from <= k < to ==> is_hex_digit(#[trigger] input@[k]),
        decreases to - j,
    {
        let d: u64 = byte_hex_value(input[j]) as u64;
        let next: u64 = acc * 16 + d;
        assert(next == hex_value(input@, from as int, j + 1));
        if next > 0xFFFF_FFFF {
            proof {
                lemma_hex_value_grows(input@, from as int, j + 1, to as int);
            }
            return None;
        }
        acc = next;
        j += 1;
    }
    Some(acc as u32)
}

/// Copies the bytes from `from` up to `to` into a buffer of their own.
pub fn copy_range(input: &[u8], from: usize, to: usize) -> (out: Vec<u8>)
    requires
        from <= to <= input.len(),
    ensures
        out@ == input@.subrange(from as int, to as int),
{
    let mut out: Vec<u8> = Vec::new();
    let mut j: usize = from;
    while j < to
        invariant
            from <= j <= to <= input.len(),
            out@ == input@.subrange(from as int, j as int),
        decreases to - j,
    {
        out.push(input[j]);
        assert(out@ =~= input@.subrange(from as int, j + 1));
        j += 1;
    }
    out
}

} // verus!
