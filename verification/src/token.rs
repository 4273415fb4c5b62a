//! The argument tokenizer: one line of text becomes a sequence of typed
//! literals.
//!
//! Four kinds of literal exist. A quoted string keeps the bytes between its
//! quotes as they stand, escape sequences included. A hex literal, `0x` or
//! `0X` and hexadecimal digits, is an unsigned 32-bit number. A decimal
//! number with a fraction or an exponent is a float and keeps its text; one
//! with neither is a signed 32-bit number. Separators may stand between
//! literals and are never needed. At each place the longest literal wins, and
//! a line holds either literals only or an error.

use crate::buffer::CBuffer;
use crate::number::{
    integer_end, integer_value, lemma_number_bounds, lemma_number_is_literal, number_end,
    number_starts, skip_exponent, skip_fraction, skip_sign, DecimalLiteral,
};
use crate::scan::{
    chunk_end, copy_range, hex_digits_end, hex_value, is_hex_mark, lemma_hex_digits_end,
    lemma_separators_end, lemma_string_body_end, lemma_string_body_has_no_nul, read_decimal,
    read_hex, separators_end, skip_chunk, skip_digits, skip_hex_digits, skip_separators,
    skip_string_body, string_body_end, QUOTE, ZERO,
};
use vstd::prelude::*;

verus! {

/// One literal of an argument line.
#[derive(Clone, Debug, PartialEq, Eq)]
pub enum Token {
    /// The bytes between the quotes of a quoted string, terminated for a
    /// callee that reads them.
    String(CBuffer),
    /// The value of a hex literal.
    Hex(u32),
    /// The text of a decimal number that has a fraction or an exponent.
    Float(DecimalLiteral),
    /// The value of a decimal number that has neither.
    Integer(i32),
}

/// A token as a mathematical value.
pub enum TokenView {
    String(Seq<u8>),
    Hex(u32),
    Float(Seq<u8>),
    Integer(i32),
}

impl View for Token {
    type V = TokenView;

    open spec fn view(&self) -> TokenView {
        match self {
            Token::String(bytes) => TokenView::String(bytes@),
            Token::Hex(value) => TokenView::Hex(*value),
            Token::Float(text) => TokenView::Float(text@),
            Token::Integer(value) => TokenView::Integer(*value),
        }
    }
}

/// Why a line could not be tokenized: where the text that is no literal
/// starts, and that text.
#[derive(Clone, Debug, PartialEq, Eq)]
pub struct TokenizeError {
    pub offset: usize,
    pub offending: Vec<u8>,
}

/// A tokenizer error as a mathematical value.
pub struct TokenizeErrorView {
    pub offset: int,
    pub offending: Seq<u8>,
}

impl View for TokenizeError {
    type V = TokenizeErrorView;

    open spec fn view(&self) -> TokenizeErrorView {
        TokenizeErrorView { offset: self.offset as int, offending: self.offending@ }
    }
}

/// What stands at a place of the line.
pub enum Scan {
    /// Nothing but separators is left.
    End,
    /// A literal, and the index of the first byte after it.
    Found { token: TokenView, end: int },
    /// Text that is no literal, and the index of its first byte.
    Invalid { start: int },
}

/// Whether a hex literal starts at `i`: `0`, `x` or `X`, and at least one
/// hexadecimal digit.
pub open spec fn hex_starts(s: Seq<u8>, i: int) -> bool {
    0 <= i && i + 1 < s.len() && s[i] == ZERO && is_hex_mark(s[i + 1]) && hex_digits_end(s, i + 2)
        > i + 2
}

/// The literal that starts at `i`, where `i` holds a byte that is no
/// separator.
pub open spec fn token_at(s: Seq<u8>, i: int) -> Scan {
    if s[i] == QUOTE {
        let close = string_body_end(s, i + 1);
        if close < s.len() && s[close] == QUOTE {
            Scan::Found { token: TokenView::String(s.subrange(i + 1, close)), end: close + 1 }
        } else {
            Scan::Invalid { start: i }
        }
    } else if hex_starts(s, i) {
        let end = hex_digits_end(s, i + 2);
        if hex_value(s, i + 2, end) <= u32::MAX {
            Scan::Found { token: TokenView::Hex(hex_value(s, i + 2, end) as u32), end }
        } else {
            Scan::Invalid { start: i }
        }
    } else if number_starts(s, i) {
        if number_end(s, i) > integer_end(s, i) {
            Scan::Found {
                token: TokenView::Float(s.subrange(i, number_end(s, i))),
                end: number_end(s, i),
            }
        } else if i32::MIN <= integer_value(s, i) <= i32::MAX {
            Scan::Found {
                token: TokenView::Integer(integer_value(s, i) as i32),
                end: integer_end(s, i),
            }
        } else {
            Scan::Invalid { start: i }
        }
    } else {
        Scan::Invalid { start: i }
    }
}

/// What the tokenizer finds when it reads on from `pos`.
pub open spec fn scan(s: Seq<u8>, pos: int) -> Scan {
    if separators_end(s, pos) >= s.len() {
        Scan::End
    } else {
        token_at(s, separators_end(s, pos))
    }
}

/// The error for text that is no literal and starts at `start`. The
/// offending text runs to the next separator, or to the end of the line
/// where it opens with a quote.
pub open spec fn error_at(s: Seq<u8>, start: int) -> TokenizeErrorView {
    TokenizeErrorView {
        offset: start,
        offending: if s[start] == QUOTE {
            s.subrange(start, s.len() as int)
        } else {
            s.subrange(start, chunk_end(s, start))
        },
    }
}

/// The tokens `head` put before a result for the rest of a line: an error
/// stays the error.
pub open spec fn prepend(
    head: Seq<TokenView>,
    tail: Result<Seq<TokenView>, TokenizeErrorView>,
) -> Result<Seq<TokenView>, TokenizeErrorView> {
    match tail {
        Ok(rest) => Ok(head + rest),
        Err(e) => Err(e),
    }
}

/// The tokens of the line from `pos` on, or the first error. Every literal
/// ends after `pos` and inside the line, as `lemma_scan_advances` shows, so
/// the last branch is never taken.
pub open spec fn tokens_from(s: Seq<u8>, pos: int) -> Result<Seq<TokenView>, TokenizeErrorView>
    decreases s.len() - pos,
{
    match scan(s, pos) {
        Scan::End => Ok(Seq::empty()),
        Scan::Invalid { start } => Err(error_at(s, start)),
        Scan::Found { token, end } => if pos < end <= s.len() {
            prepend(seq![token], tokens_from(s, end))
        } else {
            Ok(Seq::empty())
        },
    }
}

/// The tokens of a whole line, or the first error.
pub open spec fn spec_tokenize(s: Seq<u8>) -> Result<Seq<TokenView>, TokenizeErrorView> {
    tokens_from(s, 0)
}

/// The tokens of a vector, each as a mathematical value.
pub open spec fn tokens_view(tokens: Seq<Token>) -> Seq<TokenView> {
    tokens.map_values(|t: Token| t@)
}

/// The result of a tokenizer run as a mathematical value.
pub open spec fn outcome_view(r: Result<Vec<Token>, TokenizeError>) -> Result<
    Seq<TokenView>,
    TokenizeErrorView,
> {
    match r {
        Ok(tokens) => Ok(tokens_view(tokens@)),
        Err(e) => Err(e@),
    }
}

/// Whatever the tokenizer finds lies after the place it read on from and
/// inside the line.
pub proof fn lemma_scan_advances(s: Seq<u8>, pos: int)
    requires
        0 <= pos <= s.len(),
    ensures
        match scan(s, pos) {
            Scan::End => true,
            Scan::Found { token, end } => pos <= separators_end(s, pos) < end <= s.len(),
            Scan::Invalid { start } => pos <= start < s.len() && start == separators_end(s, pos),
        },
{
    lemma_separators_end(s, pos);
    let i = separators_end(s, pos);
    if i < s.len() {
        if s[i] == QUOTE {
            lemma_string_body_end(s, i + 1);
        } else if hex_starts(s, i) {
            lemma_hex_digits_end(s, i + 2);
        } else if number_starts(s, i) {
            lemma_number_bounds(s, i);
        }
    }
}

/// Reads the hex literal at `i`, where one starts there: its value and the
/// index after it, or nothing where the value does not fit in 32 bits.
fn lex_hex(input: &[u8], i: usize) -> (r: Option<(Token, usize)>)
    requires
        i < input.len(),
        input@[i as int] != QUOTE,
        hex_starts(input@, i as int),
    ensures
        match token_at(input@, i as int) {
            Scan::Found { token, end } => r matches Some((t, e)) && t@ == token && e == end,
            _ => r is None,
        },
{
    let end = skip_hex_digits(input, i + 2);
    proof {
        lemma_hex_digits_end(input@, i + 2);
    }
    match read_hex(input, i + 2, end) {
        Some(value) => Some((Token::Hex(value), end)),
        None => None,
    }
}

/// Reads the decimal number at `i`, where one starts there and no hex
/// literal does: the token and the index after it, or nothing where a number
/// without fraction and exponent does not fit in 32 bits.
fn lex_number(input: &[u8], i: usize) -> (r: Option<(Token, usize)>)
    requires
        i < input.len(),
        input@[i as int] != QUOTE,
        !hex_starts(input@, i as int),
        number_starts(input@, i as int),
    ensures
        match token_at(input@, i as int) {
            Scan::Found { token, end } => r matches Some((t, e)) && t@ == token && e == end,
            _ => r is None,
        },
{
    proof {
        lemma_number_bounds(input@, i as int);
    }
    let first = skip_sign(input, i);
    let whole = skip_digits(input, first);
    let end = skip_exponent(input, skip_fraction(input, whole));
    if end > whole {
        proof {
            lemma_number_is_literal(input@, i as int);
        }
        match DecimalLiteral::new(copy_range(input, i, end)) {
            Some(literal) => Some((Token::Float(literal), end)),
            None => None,
        }
    } else if first > i {
        match read_decimal(input, first, whole, 0x8000_0000) {
            Some(magnitude) => {
                let value: i32 = (0 - (magnitude as i64)) as i32;
                Some((Token::Integer(value), whole))
            },
            None => None,
        }
    } else {
        match read_decimal(input, first, whole, 0x7FFF_FFFF) {
            Some(magnitude) => Some((Token::Integer(magnitude as i32), whole)),
            None => None,
        }
    }
}

/// Reads the literal that starts at `i`: the token and the index after it,
/// or nothing where no literal starts there.
pub fn lex_token(input: &[u8], i: usize) -> (r: Option<(Token, usize)>)
    requires
        i < input.len(),
    ensures
        match token_at(input@, i as int) {
            Scan::Found { token, end } => r matches Some((t, e)) && t@ == token && e == end,
            _ => r is None,
        },
{
    let len = input.len();
    if input[i] == QUOTE {
        let close = skip_string_body(input, i + 1);
        if close < len && input[close] == QUOTE {
            proof {
                lemma_string_body_has_no_nul(input@, i + 1);
            }
            match CBuffer::new(&input[i + 1..close]) {
                Some(content) => Some((Token::String(content), close + 1)),
                None => None,
            }
        } else {
            None
        }
    } else if input[i] == ZERO && len - i >= 2 && (input[i + 1] == 0x78 || input[i + 1] == 0x58)
        && skip_hex_digits(input, i + 2) > i + 2 {
        lex_hex(input, i)
    } else {
        let first = skip_sign(input, i);
        if skip_digits(input, first) > first {
            lex_number(input, i)
        } else {
            None
        }
    }
}

/// Builds the error for text that is no literal and starts at `start`.
pub fn error_for(input: &[u8], start: usize) -> (e: TokenizeError)
    requires
        start < input.len(),
    ensures
        e@ == error_at(input@, start as int),
{
    let end = if input[start] == QUOTE {
        input.len()
    } else {
        skip_chunk(input, start)
    };
    TokenizeError { offset: start, offending: copy_range(input, start, end) }
}

/// A tokenizer that stands at a place of a line and hands out one token at a
/// time. It holds nothing but the line and the place, so a line can be read
/// again from the start with a new one at any time.
pub struct Lexer<'a> {
    input: &'a [u8],
    pos: usize,
}

impl<'a> Lexer<'a> {
    #[verifier::type_invariant]
    spec fn inv(self) -> bool {
        self.pos <= self.input@.len()
    }

    /// The line that is read.
    pub closed spec fn source(&self) -> Seq<u8> {
        self.input@
    }

    /// The index of the next byte to read.
    pub closed spec fn position(&self) -> int {
        self.pos as int
    }

    /// A tokenizer at the start of `input`.
    pub fn new(input: &'a [u8]) -> (lexer: Lexer<'a>)
        ensures
            lexer.source() == input@,
            lexer.position() == 0,
    {
        Lexer { input, pos: 0 }
    }

    /// A tokenizer that reads `input` from the index `start` on.
    pub fn starting_at(input: &'a [u8], start: usize) -> (lexer: Lexer<'a>)
        requires
            start <= input.len(),
        ensures
            lexer.source() == input@,
            lexer.position() == start,
    {
        Lexer { input, pos: start }
    }

    /// The next token, an error for text that is no literal, or nothing at
    /// the end of the line. After an error the rest of the line is given up:
    /// every later call returns nothing. A call that returns something moves
    /// on in the line, so a line gives finitely many tokens.
    pub fn next(&mut self) -> (r: Option<Result<Token, TokenizeError>>)
        ensures
            final(self).source() == old(self).source(),
            0 <= old(self).position() <= final(self).position() <= old(self).source().len(),
            r is Some ==> old(self).position() < final(self).position(),
            match scan(old(self).source(), old(self).position()) {
                Scan::End => r is None && final(self).position() == old(self).source().len(),
                Scan::Found { token, end } => {
                    &&& r matches Some(Ok(t)) && t@ == token
                    &&& final(self).position() == end
                },
                Scan::Invalid { start } => {
                    &&& r matches Some(Err(e)) && e@ == error_at(old(self).source(), start)
                    &&& final(self).position() == old(self).source().len()
                },
            },
    {
        proof {
            use_type_invariant(&*self);
            lemma_scan_advances(self.input@, self.pos as int);
        }
        let start = skip_separators(self.input, self.pos);
        if start >= self.input.len() {
            self.pos = start;
            return None;
        }
        match lex_token(self.input, start) {
            Some((token, end)) => {
                self.pos = end;
                Some(Ok(token))
            },
            None => {
                let e = error_for(self.input, start);
                self.pos = self.input.len();
                Some(Err(e))
            },
        }
    }
}

impl Token {
    /// A tokenizer at the start of `input`.
    pub fn lexer<'a>(input: &'a [u8]) -> (lexer: Lexer<'a>)
        ensures
            lexer.source() == input@,
            lexer.position() == 0,
    {
        Lexer::new(input)
    }
}

/// Tokenizes a line from the index `start` on: all the tokens in order, or
/// the first error and no token at all.
pub fn tokenize_from(input: &[u8], start: usize) -> (r: Result<Vec<Token>, TokenizeError>)
    requires
        start <= input.len(),
    ensures
        outcome_view(r) == tokens_from(input@, start as int),
{
    let mut lexer = Lexer::starting_at(input, start);
    let mut tokens: Vec<Token> = Vec::new();
    loop
        invariant
            lexer.source() == input@,
            0 <= lexer.position() <= input@.len(),
            tokens_from(input@, start as int) == prepend(
                tokens_view(tokens@),
                tokens_from(input@, lexer.position()),
            ),
        decreases input@.len() - lexer.position(),
    {
        let ghost before = lexer.position();
        let ghost head = tokens_view(tokens@);
        proof {
            lemma_scan_advances(input@, before);
        }
        match lexer.next() {
            None => {
                assert(head + Seq::<TokenView>::empty() =~= head);
                return Ok(tokens);
            },
            Some(Err(e)) => {
                return Err(e);
            },
            Some(Ok(token)) => {
                tokens.push(token);
                proof {
                    assert(tokens_view(tokens@) =~= head.push(token@));
                    match tokens_from(input@, lexer.position()) {
                        Ok(rest) => {
                            assert(head + (seq![token@] + rest) =~= head.push(token@) + rest);
                        },
                        Err(_) => {},
                    }
                }
            },
        }
    }
}

/// Tokenizes a whole line: all its tokens in order, or the first error and
/// no token at all.
pub fn tokenize(input: &[u8]) -> (r: Result<Vec<Token>, TokenizeError>)
    ensures
        outcome_view(r) == spec_tokenize(input@),
{
    tokenize_from(input, 0)
}

} // verus!
