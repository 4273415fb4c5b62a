//! What a literal is, said of a text from its first byte to its last, and the
//! laws that tie the tokenizer to it: what the tokenizer takes at a place is
//! a literal, and no longer text at that place is one.

use crate::buffer::has_no_nul;
use crate::number::{
    exponent_end, exponent_sign_end, fraction_end, integer_end, integer_value,
    is_decimal_literal, lemma_number_bounds, lemma_number_is_literal, number_end, number_starts,
    sign_end,
};
use crate::scan::{
    digits_end, hex_digits_end, hex_value, lemma_digits_end, lemma_digits_end_window,
    lemma_hex_digits_end, lemma_hex_digits_end_window, lemma_string_body_end,
    lemma_string_body_end_window, lemma_string_body_has_no_nul, string_body_end, QUOTE,
};
use crate::token::{hex_starts, token_at, Scan, TokenView};
use vstd::prelude::*;

verus! {

/// Whether `t` is one quoted string: a quote, content that runs up to the
/// last byte, and a quote.
pub open spec fn is_string_literal(t: Seq<u8>) -> bool {
    t.len() >= 2 && t[0] == QUOTE && string_body_end(t, 1) == t.len() - 1 && t[t.len() - 1]
        == QUOTE
}

/// Whether `t` is one hex literal: `0`, `x` or `X`, and hexadecimal digits
/// up to the end.
pub open spec fn is_hex_literal(t: Seq<u8>) -> bool {
    hex_starts(t, 0) && hex_digits_end(t, 2) == t.len()
}

/// Whether `t` is one literal of any kind.
pub open spec fn is_literal(t: Seq<u8>) -> bool {
    is_string_literal(t) || is_hex_literal(t) || is_decimal_literal(t)
}

/// The index after the literal that the tokenizer takes at `i`, or `i`
/// where it finds none there.
pub open spec fn literal_end(s: Seq<u8>, i: int) -> int {
    if s[i] == QUOTE {
        if string_body_end(s, i + 1) < s.len() && s[string_body_end(s, i + 1)] == QUOTE {
            string_body_end(s, i + 1) + 1
        } else {
            i
        }
    } else if hex_starts(s, i) {
        hex_digits_end(s, i + 2)
    } else if number_starts(s, i) {
        number_end(s, i)
    } else {
        i
    }
}

/// Whether the literal at `i` spells a number that its type cannot hold: a
/// hex literal above 32 bits, or a decimal number without fraction and
/// exponent outside the signed 32-bit range.
pub open spec fn literal_overflows(s: Seq<u8>, i: int) -> bool {
    if s[i] == QUOTE {
        false
    } else if hex_starts(s, i) {
        hex_value(s, i + 2, hex_digits_end(s, i + 2)) > u32::MAX
    } else {
        &&& number_starts(s, i)
        &&& number_end(s, i) == integer_end(s, i)
        &&& !(i32::MIN <= integer_value(s, i) <= i32::MAX)
    }
}

/// A text is a literal of one kind at most.
pub proof fn lemma_literal_kinds_exclude(t: Seq<u8>)
    ensures
        !(is_string_literal(t) && is_hex_literal(t)),
        !(is_string_literal(t) && is_decimal_literal(t)),
        !(is_hex_literal(t) && is_decimal_literal(t)),
{
    if is_decimal_literal(t) && t.len() > 0 {
        lemma_number_bounds(t, 0);
        if is_string_literal(t) {
            assert(sign_end(t, 0) == 0);
            assert(digits_end(t, 0) == 0);
        }
        if is_hex_literal(t) {
            assert(sign_end(t, 0) == 0);
            assert(digits_end(t, 1) == 1);
            assert(digits_end(t, 0) == 1);
            assert(fraction_end(t, 1) == 1);
            assert(exponent_end(t, 1) == 1);
        }
    }
}

/// What the tokenizer takes at a place is a literal: the text from the
/// place to the end that it finds is a quoted string, a hex literal or a
/// decimal number as a whole.
pub proof fn lemma_literal_end_is_literal(s: Seq<u8>, i: int)
    requires
        0 <= i < s.len(),
        literal_end(s, i) != i,
    ensures
        i < literal_end(s, i) <= s.len(),
        is_literal(s.subrange(i, literal_end(s, i))),
        s[i] == QUOTE ==> is_string_literal(s.subrange(i, literal_end(s, i))),
        s[i] != QUOTE && hex_starts(s, i) ==> is_hex_literal(s.subrange(i, literal_end(s, i))),
        s[i] != QUOTE && !hex_starts(s, i) ==> is_decimal_literal(
            s.subrange(i, literal_end(s, i)),
        ),
{
    let e = literal_end(s, i);
    let t = s.subrange(i, e);
    if s[i] == QUOTE {
        lemma_string_body_end(s, i + 1);
        lemma_string_body_end_window(s, i, e, i + 1);
        assert(t[0] == s[i]);
        assert(t[e - i - 1] == s[e - 1]);
    } else if hex_starts(s, i) {
        lemma_hex_digits_end(s, i + 2);
        lemma_hex_digits_end_window(s, i, e, i + 2);
        assert(t[0] == s[i]);
        assert(t[1] == s[i + 1]);
    } else {
        lemma_number_bounds(s, i);
        lemma_number_is_literal(s, i);
    }
}

/// A decimal number that stands at a place is part of the number that the
/// tokenizer reads there.
pub proof fn lemma_decimal_prefix(s: Seq<u8>, i: int, e: int)
    requires
        0 <= i < e <= s.len(),
        is_decimal_literal(s.subrange(i, e)),
    ensures
        number_starts(s, i),
        e <= number_end(s, i),
{
    let t = s.subrange(i, e);
    assert(t[0] == s[i]);
    let d = sign_end(s, i);
    assert(sign_end(t, 0) == d - i);
    lemma_digits_end(s, d);
    lemma_digits_end_window(s, i, e, d);
    let k = integer_end(s, i);
    assert(number_starts(s, i));
    lemma_number_bounds(s, i);
    if k < e {
        assert(integer_end(t, 0) == k - i);
        assert(t[k - i] == s[k]);
        lemma_digits_end(s, k + 1);
        lemma_digits_end_window(s, i, e, k + 1);
        let f = fraction_end(s, k);
        if f < e {
            assert(fraction_end(t, k - i) == f - i);
            assert(t[f - i] == s[f]);
            if f + 1 < e {
                assert(t[f + 1 - i] == s[f + 1]);
            }
            let p = exponent_sign_end(s, f + 1);
            if p <= e {
                assert(exponent_sign_end(t, f + 1 - i) == p - i);
                lemma_digits_end(s, p);
                lemma_digits_end_window(s, i, e, p);
            }
        }
    }
}

/// The tokenizer takes the longest literal: no text that starts at a place
/// and is a literal ends after what the tokenizer finds there.
pub proof fn lemma_literal_end_is_longest(s: Seq<u8>, i: int, e: int)
    requires
        0 <= i < e <= s.len(),
        is_literal(s.subrange(i, e)),
    ensures
        e <= literal_end(s, i),
{
    let t = s.subrange(i, e);
    assert(t[0] == s[i]);
    if is_string_literal(t) {
        assert(t[e - i - 1] == s[e - 1]);
        lemma_string_body_end_window(s, i, e, i + 1);
        assert(string_body_end(s, i + 1) == string_body_end(s, e - 1));
        assert(string_body_end(s, e - 1) == e - 1);
    } else if is_hex_literal(t) {
        assert(t[1] == s[i + 1]);
        lemma_hex_digits_end(s, i + 2);
        lemma_hex_digits_end_window(s, i, e, i + 2);
    } else {
        lemma_decimal_prefix(s, i, e);
        if hex_starts(s, i) {
            lemma_hex_digits_end(s, i + 2);
            assert(digits_end(s, i + 1) == i + 1);
            assert(integer_end(s, i) == i + 1);
            assert(fraction_end(s, i + 1) == i + 1);
            assert(exponent_end(s, i + 1) == i + 1);
        }
    }
}

/// What the tokenizer finds at a place: a token that spans the longest
/// literal there, or an error where no literal starts or where the literal
/// spells a number that its type cannot hold.
pub proof fn lemma_token_spans_longest_literal(s: Seq<u8>, i: int)
    requires
        0 <= i < s.len(),
    ensures
        match token_at(s, i) {
            Scan::Found { token, end } => {
                &&& i < end <= s.len()
                &&& end == literal_end(s, i)
                &&& !literal_overflows(s, i)
            },
            Scan::Invalid { start } => {
                &&& start == i
                &&& (literal_end(s, i) == i || literal_overflows(s, i))
            },
            Scan::End => false,
        },
{
    if s[i] == QUOTE {
        lemma_string_body_end(s, i + 1);
    } else if hex_starts(s, i) {
        lemma_hex_digits_end(s, i + 2);
    } else if number_starts(s, i) {
        lemma_number_bounds(s, i);
    }
}

/// What a token holds can be handed on as it is: the content of a string
/// token holds no zero byte, so it can be terminated by one, and the text of
/// a float token is a decimal number with a fraction or an exponent.
pub proof fn lemma_token_is_sound(s: Seq<u8>, i: int)
    requires
        0 <= i < s.len(),
    ensures
        match token_at(s, i) {
            Scan::Found { token: TokenView::String(content), end } => has_no_nul(content),
            Scan::Found { token: TokenView::Float(text), end } => {
                &&& is_decimal_literal(text)
                &&& integer_end(text, 0) < text.len()
            },
            _ => true,
        },
{
    if s[i] == QUOTE {
        lemma_string_body_end(s, i + 1);
        lemma_string_body_has_no_nul(s, i + 1);
        let close = string_body_end(s, i + 1);
        let content = s.subrange(i + 1, close);
        assert forall|k: int| 0 <= k < content.len() implies #[trigger] content[k] != 0 by {
            assert(content[k] == s[i + 1 + k]);
        }
    } else if !hex_starts(s, i) && number_starts(s, i) {
        lemma_number_bounds(s, i);
        lemma_number_is_literal(s, i);
    }
}

/// A decimal number with a fraction or an exponent is never taken for an
/// integer, and one without is never taken for a float: an integer token
/// spans digits and at most a minus sign, a float token spans more.
pub proof fn lemma_float_before_integer(s: Seq<u8>, i: int)
    requires
        0 <= i < s.len(),
    ensures
        match token_at(s, i) {
            Scan::Found { token: TokenView::Integer(value), end } => {
                &&& end == integer_end(s, i)
                &&& end == number_end(s, i)
                &&& value == integer_value(s, i)
            },
            Scan::Found { token: TokenView::Float(text), end } => {
                &&& integer_end(s, i) < end
                &&& end == number_end(s, i)
                &&& text == s.subrange(i, end)
            },
            _ => true,
        },
{
    if s[i] != QUOTE && !hex_starts(s, i) && number_starts(s, i) {
        lemma_number_bounds(s, i);
    }
}

} // verus!
