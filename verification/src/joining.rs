//! Separators mean nothing but that a literal ends: two lines joined by a
//! separator hold the tokens of the first and then the tokens of the second.
//!
//! The laws here look at a window of a line, the bytes from one index up to
//! another, as a line of its own. Where the window ends at a separator or at
//! the end of the line, a literal inside the window is the same literal in
//! the line.

use crate::number::{
    exponent_end, exponent_sign_end, fraction_end, integer_end, integer_value, number_end,
    number_starts, sign_end,
};
use crate::scan::{
    chunk_end, digits_end, hex_digits_end, is_digit, is_hex_digit, is_separator, lemma_chunk_end,
    lemma_chunk_end_window, lemma_decimal_value_moves, lemma_digits_end, lemma_digits_end_window, lemma_hex_digits_end,
    lemma_hex_digits_end_window, lemma_hex_value_moves, lemma_separators_end,
    lemma_separators_end_passes, lemma_separators_end_window, lemma_string_body_end,
    lemma_string_body_end_window, separators_end, string_body_end, QUOTE,
};
use crate::token::{
    error_at, hex_starts, lemma_scan_advances, prepend, scan, spec_tokenize, token_at,
    tokens_from, Scan, TokenView, TokenizeErrorView,
};
use vstd::prelude::*;

verus! {

/// Whether a literal must end at `n` at the latest: `n` is the end of the
/// line or holds a separator.
pub open spec fn is_boundary(s: Seq<u8>, n: int) -> bool {
    n == s.len() || (0 <= n < s.len() && is_separator(s[n]))
}

/// What was found in a window that starts at `by`, said of the line: every
/// index counts from the start of the line.
pub open spec fn shift_scan(found: Scan, by: int) -> Scan {
    match found {
        Scan::End => Scan::End,
        Scan::Found { token, end } => Scan::Found { token, end: end + by },
        Scan::Invalid { start } => Scan::Invalid { start: start + by },
    }
}

/// The result for a window that starts at `by`, said of the line: the offset
/// of an error counts from the start of the line.
pub open spec fn shift_error(r: Result<Seq<TokenView>, TokenizeErrorView>, by: int) -> Result<
    Seq<TokenView>,
    TokenizeErrorView,
> {
    match r {
        Ok(tokens) => Ok(tokens),
        Err(e) => Err(TokenizeErrorView { offset: e.offset + by, offending: e.offending }),
    }
}

/// No run of digits passes a boundary.
pub proof fn lemma_digits_stop_at_boundary(s: Seq<u8>, n: int, j: int)
    requires
        0 <= j <= n <= s.len(),
        is_boundary(s, n),
    ensures
        digits_end(s, j) <= n,
        hex_digits_end(s, j) <= n,
{
    lemma_digits_end(s, j);
    lemma_hex_digits_end(s, j);
    if n < s.len() {
        if digits_end(s, j) > n {
            assert(is_digit(s[n]));
        }
        if hex_digits_end(s, j) > n {
            assert(is_hex_digit(s[n]));
        }
    }
}

/// A number inside a window that ends at a boundary is the same number in
/// the line.
pub proof fn lemma_number_in_window(s: Seq<u8>, a: int, e: int, i: int)
    requires
        0 <= a <= i < e <= s.len(),
        is_boundary(s, e),
    ensures
        sign_end(s.subrange(a, e), i - a) == sign_end(s, i) - a,
        integer_end(s.subrange(a, e), i - a) == integer_end(s, i) - a,
        number_end(s.subrange(a, e), i - a) == number_end(s, i) - a,
        number_starts(s.subrange(a, e), i - a) == number_starts(s, i),
        integer_value(s.subrange(a, e), i - a) == integer_value(s, i),
        i <= sign_end(s, i) <= integer_end(s, i) <= number_end(s, i) <= e,
{
    let w = s.subrange(a, e);
    assert(w[i - a] == s[i]);
    let d = sign_end(s, i);
    assert(sign_end(w, i - a) == d - a);
    lemma_digits_stop_at_boundary(s, e, d);
    lemma_digits_end_window(s, a, e, d);
    lemma_digits_end(s, d);
    let k = integer_end(s, i);
    assert(integer_end(w, i - a) == k - a);
    if k < e {
        assert(w[k - a] == s[k]);
        lemma_digits_stop_at_boundary(s, e, k + 1);
        lemma_digits_end_window(s, a, e, k + 1);
        lemma_digits_end(s, k + 1);
    }
    let f = fraction_end(s, k);
    assert(fraction_end(w, k - a) == f - a);
    assert(k <= f <= e);
    if f < e {
        assert(w[f - a] == s[f]);
        if f + 1 < e {
            assert(w[f + 1 - a] == s[f + 1]);
        }
        let p = exponent_sign_end(s, f + 1);
        assert(exponent_sign_end(w, f + 1 - a) == p - a);
        assert(p <= e);
        lemma_digits_stop_at_boundary(s, e, p);
        lemma_digits_end_window(s, a, e, p);
        lemma_digits_end(s, p);
    }
    assert(exponent_end(w, f - a) == exponent_end(s, f) - a);
    lemma_decimal_value_moves(s, w, a, d, k);
}

/// A literal inside a window that ends at a boundary is the same literal in
/// the line. Where the window runs to the end of the line, text in it that
/// is no literal is no literal in the line either.
pub proof fn lemma_token_in_window(s: Seq<u8>, a: int, e: int, i: int)
    requires
        0 <= a <= i < e <= s.len(),
        is_boundary(s, e),
        token_at(s.subrange(a, e), i - a) is Found || e == s.len(),
    ensures
        token_at(s, i) == shift_scan(token_at(s.subrange(a, e), i - a), a),
{
    let w = s.subrange(a, e);
    assert(w[i - a] == s[i]);
    if s[i] == QUOTE {
        lemma_string_body_end(s, i + 1);
        lemma_string_body_end(w, i + 1 - a);
        lemma_string_body_end_window(s, a, e, i + 1);
        let close_w = string_body_end(w, i + 1 - a);
        if close_w < w.len() {
            assert(w[close_w] == s[close_w + a]);
        }
        if token_at(w, i - a) is Found {
            assert(string_body_end(s, a + close_w) == a + close_w);
            assert(w.subrange(i + 1 - a, close_w) =~= s.subrange(i + 1, close_w + a));
        }
    } else {
        if i + 1 < e {
            assert(w[i + 1 - a] == s[i + 1]);
            lemma_digits_stop_at_boundary(s, e, i + 2);
            lemma_hex_digits_end_window(s, a, e, i + 2);
            lemma_hex_digits_end(s, i + 2);
        }
        assert(hex_starts(w, i - a) == hex_starts(s, i));
        if hex_starts(s, i) {
            lemma_hex_value_moves(s, w, a, i + 2, hex_digits_end(s, i + 2));
        } else {
            lemma_number_in_window(s, a, e, i);
            if number_starts(s, i) {
                assert(w.subrange(i - a, number_end(s, i) - a) =~= s.subrange(
                    i,
                    number_end(s, i),
                ));
            }
        }
    }
}

/// The error for text inside a window that runs to the end of the line is
/// the error for that text in the line, but for where the offset counts
/// from.
pub proof fn lemma_error_in_suffix(s: Seq<u8>, a: int, start: int)
    requires
        0 <= a <= start < s.len(),
    ensures
        error_at(s, start) == (TokenizeErrorView {
            offset: error_at(s.subrange(a, s.len() as int), start - a).offset + a,
            offending: error_at(s.subrange(a, s.len() as int), start - a).offending,
        }),
{
    let w = s.subrange(a, s.len() as int);
    assert(w[start - a] == s[start]);
    lemma_chunk_end(s, start);
    lemma_chunk_end_window(s, a, s.len() as int, start);
    assert(w.subrange(start - a, w.len() as int) =~= s.subrange(start, s.len() as int));
    assert(w.subrange(start - a, chunk_end(s, start) - a) =~= s.subrange(
        start,
        chunk_end(s, start),
    ));
}

/// Tokenizing the rest of a line gives what tokenizing that rest as a line
/// of its own gives.
pub proof fn lemma_tokens_in_suffix(s: Seq<u8>, a: int, pos: int)
    requires
        0 <= a <= pos <= s.len(),
    ensures
        tokens_from(s, pos) == shift_error(tokens_from(s.subrange(a, s.len() as int), pos - a), a),
    decreases s.len() - pos,
{
    let e = s.len() as int;
    let w = s.subrange(a, e);
    lemma_separators_end(s, pos);
    lemma_separators_end_window(s, a, e, pos);
    lemma_scan_advances(s, pos);
    lemma_scan_advances(w, pos - a);
    let i = separators_end(s, pos);
    if i < e {
        lemma_token_in_window(s, a, e, i);
        match token_at(s, i) {
            Scan::Found { token, end } => {
                lemma_tokens_in_suffix(s, a, end);
            },
            Scan::Invalid { start } => {
                lemma_error_in_suffix(s, a, start);
            },
            Scan::End => {},
        }
    }
}

/// Where the window of a line up to a boundary holds tokens only, the line
/// holds those tokens, and then what follows the boundary.
pub proof fn lemma_tokens_in_prefix(s: Seq<u8>, n: int, pos: int)
    requires
        0 <= pos <= n <= s.len(),
        is_boundary(s, n),
        tokens_from(s.subrange(0, n), pos) is Ok,
    ensures
        tokens_from(s, pos) == prepend(tokens_from(s.subrange(0, n), pos)->Ok_0, tokens_from(s, n)),
    decreases n - pos,
{
    let w = s.subrange(0, n);
    lemma_separators_end(s, pos);
    lemma_separators_end(s, n);
    lemma_separators_end_window(s, 0, n, pos);
    lemma_scan_advances(s, pos);
    lemma_scan_advances(s, n);
    lemma_scan_advances(w, pos);
    let i = separators_end(s, pos);
    if i >= n {
        lemma_separators_end_passes(s, pos, n);
        assert(scan(s, pos) == scan(s, n));
        assert(tokens_from(s, pos) == tokens_from(s, n));
        match tokens_from(s, n) {
            Ok(rest) => {
                assert(Seq::<TokenView>::empty() + rest =~= rest);
            },
            Err(_) => {},
        }
    } else {
        lemma_token_in_window(s, 0, n, i);
        match token_at(w, i) {
            Scan::Found { token, end } => {
                lemma_tokens_in_prefix(s, n, end);
                let head = tokens_from(w, end)->Ok_0;
                match tokens_from(s, n) {
                    Ok(rest) => {
                        assert(seq![token] + (head + rest) =~= (seq![token] + head) + rest);
                    },
                    Err(_) => {},
                }
            },
            _ => {},
        }
    }
}

/// Two lines joined by a separator hold the tokens of the first and then
/// those of the second, where the first holds tokens only. An error in the
/// second is the error of the whole, at its place in the whole.
pub proof fn lemma_join(a: Seq<u8>, sep: u8, b: Seq<u8>)
    requires
        is_separator(sep),
        spec_tokenize(a) is Ok,
    ensures
        spec_tokenize(a + seq![sep] + b) == prepend(
            spec_tokenize(a)->Ok_0,
            shift_error(spec_tokenize(b), a.len() as int + 1),
        ),
{
    let s = a + seq![sep] + b;
    let n = a.len() as int;
    assert(s.subrange(0, n) =~= a);
    assert(s.subrange(n + 1, s.len() as int) =~= b);
    assert(s[n] == sep);
    lemma_tokens_in_prefix(s, n, 0);
    lemma_separators_end(s, n + 1);
    lemma_separators_end_passes(s, n, n + 1);
    lemma_scan_advances(s, n);
    lemma_scan_advances(s, n + 1);
    assert(scan(s, n) == scan(s, n + 1));
    assert(tokens_from(s, n) == tokens_from(s, n + 1));
    lemma_tokens_in_suffix(s, n + 1, n + 1);
}

/// Separators before and after a line change nothing but where an error is
/// counted from.
pub proof fn lemma_outer_separators(sep: u8, line: Seq<u8>)
    requires
        is_separator(sep),
    ensures
        spec_tokenize(seq![sep] + line) == shift_error(spec_tokenize(line), 1),
        spec_tokenize(line) is Ok ==> spec_tokenize(line + seq![sep]) == spec_tokenize(line),
{
    let empty = Seq::<u8>::empty();
    assert(spec_tokenize(empty) == Ok::<Seq<TokenView>, TokenizeErrorView>(Seq::empty()));
    lemma_join(empty, sep, line);
    assert(empty + seq![sep] + line =~= seq![sep] + line);
    match shift_error(spec_tokenize(line), 1) {
        Ok(tokens) => {
            assert(Seq::<TokenView>::empty() + tokens =~= tokens);
        },
        Err(_) => {},
    }
    if spec_tokenize(line) is Ok {
        lemma_join(line, sep, empty);
        assert(line + seq![sep] + empty =~= line + seq![sep]);
        assert(spec_tokenize(line)->Ok_0 + Seq::<TokenView>::empty() =~= spec_tokenize(line)->Ok_0);
    }
}

} // verus!
