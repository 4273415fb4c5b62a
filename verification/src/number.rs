//! The grammar of decimal numbers: an optional minus sign, digits, an
//! optional fraction and an optional exponent.

use crate::scan::{
    decimal_value, digits_end, is_digit, is_exponent_mark, lemma_digits_end,
    lemma_digits_end_window, skip_digits, MINUS, PLUS, POINT,
};
use vstd::prelude::*;

verus! {

/// The index after an optional minus sign at `i`.
pub open spec fn sign_end(s: Seq<u8>, i: int) -> int {
    if 0 <= i < s.len() && s[i] == MINUS {
        i + 1
    } else {
        i
    }
}

/// The index after an optional fraction at `k`: a point and at least one
/// digit.
pub open spec fn fraction_end(s: Seq<u8>, k: int) -> int {
    if 0 <= k < s.len() && s[k] == POINT && digits_end(s, k + 1) > k + 1 {
        digits_end(s, k + 1)
    } else {
        k
    }
}

/// The index after an optional sign of an exponent at `p`.
pub open spec fn exponent_sign_end(s: Seq<u8>, p: int) -> int {
    if 0 <= p < s.len() && (s[p] == PLUS || s[p] == MINUS) {
        p + 1
    } else {
        p
    }
}

/// The index after an optional exponent at `f`: `e` or `E`, an optional
/// sign and at least one digit.
pub open spec fn exponent_end(s: Seq<u8>, f: int) -> int {
    if 0 <= f < s.len() && is_exponent_mark(s[f]) && digits_end(s, exponent_sign_end(s, f + 1))
        > exponent_sign_end(s, f + 1) {
        digits_end(s, exponent_sign_end(s, f + 1))
    } else {
        f
    }
}

/// Whether a decimal number starts at `i`: an optional minus sign and at
/// least one digit.
pub open spec fn number_starts(s: Seq<u8>, i: int) -> bool {
    digits_end(s, sign_end(s, i)) > sign_end(s, i)
}

/// The index after the digits before the point of the number at `i`.
pub open spec fn integer_end(s: Seq<u8>, i: int) -> int {
    digits_end(s, sign_end(s, i))
}

/// The index after the whole number at `i`, fraction and exponent included.
pub open spec fn number_end(s: Seq<u8>, i: int) -> int {
    exponent_end(s, fraction_end(s, integer_end(s, i)))
}

/// The value of the number at `i` that has neither fraction nor exponent.
pub open spec fn integer_value(s: Seq<u8>, i: int) -> int {
    if sign_end(s, i) > i {
        -(decimal_value(s, sign_end(s, i), integer_end(s, i)) as int)
    } else {
        decimal_value(s, sign_end(s, i), integer_end(s, i)) as int
    }
}

/// Whether `t` is one decimal number from its first byte to its last.
pub open spec fn is_decimal_literal(t: Seq<u8>) -> bool {
    number_starts(t, 0) && number_end(t, 0) == t.len()
}

/// A number reaches from its start over a nonempty run of digits to its end,
/// which lies inside the line.
pub proof fn lemma_number_bounds(s: Seq<u8>, i: int)
    requires
        0 <= i < s.len(),
        number_starts(s, i),
    ensures
        i <= sign_end(s, i) < integer_end(s, i) <= number_end(s, i) <= s.len(),
        forall|k: int| sign_end(s, i) <= k < integer_end(s, i) ==> is_digit(#[trigger] s[k]),
{
    let d = sign_end(s, i);
    lemma_digits_end(s, d);
    let k = integer_end(s, i);
    if k < s.len() {
        lemma_digits_end(s, k + 1);
    }
    let f = fraction_end(s, k);
    if f < s.len() {
        let p = exponent_sign_end(s, f + 1);
        lemma_digits_end(s, p);
    }
}

/// The text of a number, cut out of its line, is a decimal literal, and has
/// a fraction or an exponent exactly where the number in the line has one.
pub proof fn lemma_number_is_literal(s: Seq<u8>, i: int)
    requires
        0 <= i < s.len(),
        number_starts(s, i),
    ensures
        is_decimal_literal(s.subrange(i, number_end(s, i))),
        integer_end(s.subrange(i, number_end(s, i)), 0) == integer_end(s, i) - i,
{
    lemma_number_bounds(s, i);
    let e = number_end(s, i);
    let t = s.subrange(i, e);
    let d = sign_end(s, i);
    let k = integer_end(s, i);
    let f = fraction_end(s, k);
    assert(t[0] == s[i]);
    assert(sign_end(t, 0) == d - i);
    lemma_digits_end_window(s, i, e, d);
    assert(integer_end(t, 0) == k - i);
    if k < s.len() {
        lemma_digits_end(s, k + 1);
    }
    if k < e {
        assert(t[k - i] == s[k]);
        lemma_digits_end_window(s, i, e, k + 1);
    }
    assert(fraction_end(t, k - i) == f - i);
    if f < s.len() {
        lemma_digits_end(s, exponent_sign_end(s, f + 1));
    }
    if f < e {
        assert(t[f - i] == s[f]);
        let p = exponent_sign_end(s, f + 1);
        if f + 1 < e {
            assert(t[f + 1 - i] == s[f + 1]);
        }
        assert(p <= e);
        assert(exponent_sign_end(t, f + 1 - i) == p - i);
        lemma_digits_end_window(s, i, e, p);
    }
    assert(exponent_end(t, f - i) == e - i);
}

/// Steps over an optional minus sign at `i`.
pub fn skip_sign(input: &[u8], i: usize) -> (end: usize)
    requires
        i <= input.len(),
    ensures
        end == sign_end(input@, i as int),
        i <= end <= input.len(),
{
    if i < input.len() && input[i] == MINUS {
        i + 1
    } else {
        i
    }
}

/// Steps over an optional fraction at `k`.
pub fn skip_fraction(input: &[u8], k: usize) -> (end: usize)
    requires
        k <= input.len(),
    ensures
        end == fraction_end(input@, k as int),
        k <= end <= input.len(),
{
    if k < input.len() && input[k] == POINT {
        let end = skip_digits(input, k + 1);
        if end > k + 1 {
            end
        } else {
            k
        }
    } else {
        k
    }
}

/// Steps over an optional exponent at `f`.
pub fn skip_exponent(input: &[u8], f: usize) -> (end: usize)
    requires
        f <= input.len(),
    ensures
        end == exponent_end(input@, f as int),
        f <= end <= input.len(),
{
    if f < input.len() && (input[f] == 0x65 || input[f] == 0x45) {
        let p = if f + 1 < input.len() && (input[f + 1] == PLUS || input[f + 1] == MINUS) {
            f + 2
        } else {
            f + 1
        };
        let end = skip_digits(input, p);
        if end > p {
            end
        } else {
            f
        }
    } else {
        f
    }
}

/// The text of a decimal number, which stands for the number itself: this
/// library holds no floating-point value. The text always is one decimal
/// number from end to end, so a reader of floating-point numbers accepts it.
#[derive(Debug, PartialEq, Eq)]
pub struct DecimalLiteral {
    text: Vec<u8>,
}

impl View for DecimalLiteral {
    type V = Seq<u8>;

    closed spec fn view(&self) -> Seq<u8> {
        self.text@
    }
}

impl Clone for DecimalLiteral {
    /// A literal of its own with the same text.
    fn clone(&self) -> (copy: DecimalLiteral)
        ensures
            copy@ == self@,
    {
        proof {
            use_type_invariant(self);
        }
        let text = self.text.clone();
        assert(text@ =~= self.text@);
        DecimalLiteral { text }
    }
}

impl DecimalLiteral {
    #[verifier::type_invariant]
    spec fn inv(self) -> bool {
        is_decimal_literal(self.text@)
    }

    /// Takes `text` as a literal where it is one decimal number from end to
    /// end; else nothing.
    pub fn new(text: Vec<u8>) -> (r: Option<DecimalLiteral>)
        ensures
            r is Some <==> is_decimal_literal(text@),
            r is Some ==> r->0@ == text@,
    {
        let input = text.as_slice();
        let first = skip_sign(input, 0);
        let whole = skip_digits(input, first);
        if whole > first {
            let end = skip_exponent(input, skip_fraction(input, whole));
            if end == input.len() {
                return Some(DecimalLiteral { text });
            }
        }
        None
    }

    /// The text of the literal.
    pub fn as_bytes(&self) -> (bytes: &[u8])
        ensures
            bytes@ == self@,
            is_decimal_literal(self@),
    {
        proof {
            use_type_invariant(self);
        }
        self.text.as_slice()
    }
}

} // verus!
