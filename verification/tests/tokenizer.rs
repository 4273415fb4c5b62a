use rust_plug::buffer::CBuffer;
use rust_plug::number::DecimalLiteral;
use rust_plug::token::{tokenize, tokenize_from, Lexer, Token, TokenizeError};

fn string(content: &str) -> Token {
    Token::String(CBuffer::new(content.as_bytes()).unwrap())
}

fn decimal(text: &str) -> Token {
    Token::Float(DecimalLiteral::new(text.as_bytes().to_vec()).unwrap())
}

fn text(token: Token) -> String {
    match token {
        Token::Float(literal) => String::from_utf8(literal.as_bytes().to_vec()).unwrap(),
        other => panic!("not a float: {:?}", other),
    }
}

fn float(token: Option<Result<Token, TokenizeError>>) -> f64 {
    text(token.unwrap().unwrap()).parse::<f64>().unwrap()
}

#[test]
fn test_lex_string() {
    let mut lex = Token::lexer(r#" "" "String" "#.as_bytes());

    assert_eq!(lex.next(), Some(Ok(string(""))));
    assert_eq!(lex.next(), Some(Ok(string("String"))));
    assert_eq!(lex.next(), None);
}

#[test]
fn test_lex_number() {
    let mut lex = Token::lexer(r#" 42 -123 1.14 1.23e-4 "#.as_bytes());

    assert_eq!(lex.next(), Some(Ok(Token::Integer(42))));
    assert_eq!(lex.next(), Some(Ok(Token::Integer(-123))));
    assert_eq!(float(lex.next()), 1.14);
    assert_eq!(float(lex.next()), 1.23e-4);
    assert_eq!(lex.next(), None);
}

#[test]
fn test_lex_hex() {
    let mut lex = Token::lexer(r#" 0xFF000000 0x00FF00 "#.as_bytes());

    assert_eq!(lex.next(), Some(Ok(Token::Hex(0xFF000000))));
    assert_eq!(lex.next(), Some(Ok(Token::Hex(0x00FF00))));
    assert_eq!(lex.next(), None);
}

#[test]
fn test_lex() {
    let mut lex = Token::lexer(r#" 100, 80, 90, 90"#.as_bytes());

    assert_eq!(lex.next(), Some(Ok(Token::Integer(100))));
    assert_eq!(lex.next(), Some(Ok(Token::Integer(80))));
    assert_eq!(lex.next(), Some(Ok(Token::Integer(90))));
    assert_eq!(lex.next(), Some(Ok(Token::Integer(90))));
    assert_eq!(lex.next(), None);
}

#[test]
fn tokenize_numbers_in_order() {
    let tokens = tokenize("42 -123 1.14 1.23e-4".as_bytes()).unwrap();
    assert_eq!(tokens.len(), 4);
    assert_eq!(tokens[0], Token::Integer(42));
    assert_eq!(tokens[1], Token::Integer(-123));
    assert_eq!(tokens[2], decimal("1.14"));
    assert_eq!(tokens[3], decimal("1.23e-4"));
    assert_eq!(text(tokens[2].clone()).parse::<f64>().unwrap(), 1.14);
    assert_eq!(text(tokens[3].clone()).parse::<f64>().unwrap(), 1.23e-4);
}

#[test]
fn tokenize_strings() {
    assert_eq!(
        tokenize("\"\" \"String\"".as_bytes()),
        Ok(vec![string(""), string("String")])
    );
}

#[test]
fn tokenize_hex() {
    assert_eq!(
        tokenize("0xFF000000 0x00FF00".as_bytes()),
        Ok(vec![Token::Hex(0xFF000000), Token::Hex(0x00FF00)])
    );
    assert_eq!(tokenize("0Xff".as_bytes()), Ok(vec![Token::Hex(255)]));
}

#[test]
fn tokenize_rejects_second_point() {
    assert_eq!(
        tokenize("1.2.3".as_bytes()),
        Err(TokenizeError { offset: 3, offending: ".3".as_bytes().to_vec() })
    );
}

#[test]
fn tokenize_rejects_open_quote() {
    assert_eq!(
        tokenize("7 \"abc def".as_bytes()),
        Err(TokenizeError { offset: 2, offending: "\"abc def".as_bytes().to_vec() })
    );
}

#[test]
fn tokenize_rejects_bad_escape() {
    assert_eq!(
        tokenize(r#""a\q""#.as_bytes()),
        Err(TokenizeError { offset: 0, offending: r#""a\q""#.as_bytes().to_vec() })
    );
    assert_eq!(
        tokenize(r#""\u12G4""#.as_bytes()),
        Err(TokenizeError { offset: 0, offending: r#""\u12G4""#.as_bytes().to_vec() })
    );
}

#[test]
fn tokenize_keeps_escapes_as_written() {
    assert_eq!(
        tokenize(r#""a\"b\\c\né/""#.as_bytes()),
        Ok(vec![string(r#"a\"b\\c\né/"#)])
    );
}

#[test]
fn tokenize_rejects_control_byte_in_string() {
    assert_eq!(
        tokenize("\"a\tb\"".as_bytes()),
        Err(TokenizeError { offset: 0, offending: "\"a\tb\"".as_bytes().to_vec() })
    );
}

#[test]
fn tokenize_integer_limits() {
    assert_eq!(
        tokenize("2147483647 -2147483648".as_bytes()),
        Ok(vec![Token::Integer(i32::MAX), Token::Integer(i32::MIN)])
    );
    assert_eq!(
        tokenize("1 2147483648 3".as_bytes()),
        Err(TokenizeError { offset: 2, offending: "2147483648".as_bytes().to_vec() })
    );
    assert_eq!(
        tokenize("-2147483649".as_bytes()),
        Err(TokenizeError { offset: 0, offending: "-2147483649".as_bytes().to_vec() })
    );
    assert_eq!(
        tokenize("99999999999999999999999999999999".as_bytes()),
        Err(TokenizeError {
            offset: 0,
            offending: "99999999999999999999999999999999".as_bytes().to_vec()
        })
    );
}

#[test]
fn tokenize_hex_limits() {
    assert_eq!(tokenize("0xFFFFFFFF".as_bytes()), Ok(vec![Token::Hex(u32::MAX)]));
    assert_eq!(tokenize("0x0000000001".as_bytes()), Ok(vec![Token::Hex(1)]));
    assert_eq!(
        tokenize("0x100000000".as_bytes()),
        Err(TokenizeError { offset: 0, offending: "0x100000000".as_bytes().to_vec() })
    );
}

#[test]
fn tokenize_float_forms() {
    assert_eq!(
        tokenize("1.5 1e5 -0.25E+3 7e-2".as_bytes()),
        Ok(vec![
            decimal("1.5"),
            decimal("1e5"),
            decimal("-0.25E+3"),
            decimal("7e-2"),
        ])
    );
}

#[test]
fn tokenize_longest_literal_wins() {
    // The point without a digit after it is no fraction: the number ends
    // before it, and the point itself is no literal.
    assert_eq!(
        tokenize("1.".as_bytes()),
        Err(TokenizeError { offset: 1, offending: ".".as_bytes().to_vec() })
    );
    assert_eq!(
        tokenize("1.5e".as_bytes()),
        Err(TokenizeError { offset: 3, offending: "e".as_bytes().to_vec() })
    );
    // `0x` without a digit is the number 0 and then text that is no literal.
    assert_eq!(
        tokenize("0x".as_bytes()),
        Err(TokenizeError { offset: 1, offending: "x".as_bytes().to_vec() })
    );
}

#[test]
fn tokenize_needs_no_separator() {
    assert_eq!(
        tokenize("12-3\"a\"0x1F".as_bytes()),
        Ok(vec![
            Token::Integer(12),
            Token::Integer(-3),
            string("a"),
            Token::Hex(31),
        ])
    );
}

#[test]
fn tokenize_leading_zeros() {
    assert_eq!(tokenize("007 -0".as_bytes()), Ok(vec![Token::Integer(7), Token::Integer(0)]));
}

#[test]
fn tokenize_empty_and_separators_only() {
    assert_eq!(tokenize("".as_bytes()), Ok(vec![]));
    assert_eq!(tokenize(" ,\t\n\x0c, ".as_bytes()), Ok(vec![]));
}

#[test]
fn tokenize_carriage_return_is_no_separator() {
    assert_eq!(
        tokenize("1\r2".as_bytes()),
        Err(TokenizeError { offset: 1, offending: "\r2".as_bytes().to_vec() })
    );
}

#[test]
fn tokenize_bare_word_fails() {
    assert_eq!(
        tokenize("1 abc 2".as_bytes()),
        Err(TokenizeError { offset: 2, offending: "abc".as_bytes().to_vec() })
    );
    assert_eq!(
        tokenize("- 1".as_bytes()),
        Err(TokenizeError { offset: 0, offending: "-".as_bytes().to_vec() })
    );
    assert_eq!(
        tokenize("+1".as_bytes()),
        Err(TokenizeError { offset: 0, offending: "+1".as_bytes().to_vec() })
    );
}

#[test]
fn lexer_gives_up_after_error() {
    let mut lex = Token::lexer("1 x 2".as_bytes());
    assert_eq!(lex.next(), Some(Ok(Token::Integer(1))));
    assert_eq!(
        lex.next(),
        Some(Err(TokenizeError { offset: 2, offending: "x".as_bytes().to_vec() }))
    );
    assert_eq!(lex.next(), None);
    assert_eq!(lex.next(), None);
}

#[test]
fn lexer_restarts_from_scratch() {
    let line = "5 \"x\"".as_bytes();
    let first = tokenize(line);
    let second = tokenize(line);
    assert_eq!(first, second);
    assert_eq!(first, Ok(vec![Token::Integer(5), string("x")]));
}

#[test]
fn tokenize_string_with_bytes_above_ascii() {
    assert_eq!(
        tokenize("\"h\u{e9}llo\"".as_bytes()),
        Ok(vec![string("h\u{e9}llo")])
    );
}

#[test]
fn tokenize_from_counts_offsets_from_the_start() {
    assert_eq!(tokenize_from("add 3 4".as_bytes(), 3), Ok(vec![Token::Integer(3), Token::Integer(4)]));
    assert_eq!(
        tokenize_from("add 3 x".as_bytes(), 3),
        Err(TokenizeError { offset: 6, offending: "x".as_bytes().to_vec() })
    );
    assert_eq!(tokenize_from("add".as_bytes(), 3), Ok(vec![]));
}

#[test]
fn lexer_starting_inside_a_line() {
    let mut lex = Lexer::starting_at("draw \"hello\" 0xFF0000".as_bytes(), 4);
    assert_eq!(lex.next(), Some(Ok(string("hello"))));
    assert_eq!(lex.next(), Some(Ok(Token::Hex(0xFF0000))));
    assert_eq!(lex.next(), None);
}

#[test]
fn string_token_is_terminated() {
    let tokens = tokenize("\"String\"".as_bytes()).unwrap();
    match &tokens[0] {
        Token::String(buffer) => {
            assert_eq!(buffer.as_bytes_with_nul(), "String\0".as_bytes());
            assert_eq!(buffer.to_bytes(), "String".as_bytes().to_vec());
            assert_eq!(buffer.len(), 6);
        }
        other => panic!("not a string: {:?}", other),
    }
}

fn joined(a: &str, sep: u8, b: &str) -> Vec<u8> {
    let mut line = a.as_bytes().to_vec();
    line.push(sep);
    line.extend_from_slice(b.as_bytes());
    line
}

#[test]
fn joined_lines_hold_the_tokens_of_both() {
    let pairs = [
        ("1 2", "3 4"),
        ("\"a b\"", "0x10"),
        ("1.5e3", "-7"),
        ("", "\"x\""),
        ("12", ""),
        ("0", "x1F"),
        ("1", ".5"),
        ("1e", "5"),
        ("0x1", "F"),
    ];
    for (a, b) in pairs {
        let Ok(first) = tokenize(a.as_bytes()) else {
            continue;
        };
        for sep in [0x20u8, 0x2C, 0x09, 0x0A, 0x0C] {
            let whole = tokenize(&joined(a, sep, b));
            match tokenize(b.as_bytes()) {
                Ok(second) => {
                    let mut expected = first.clone();
                    expected.extend(second);
                    assert_eq!(whole, Ok(expected), "{:?} {:?}", a, b);
                }
                Err(e) => {
                    assert_eq!(
                        whole,
                        Err(TokenizeError { offset: e.offset + a.len() + 1, offending: e.offending }),
                        "{:?} {:?}",
                        a,
                        b
                    );
                }
            }
        }
    }
}

#[test]
fn joined_without_separator_may_differ() {
    assert_eq!(tokenize("1.5".as_bytes()), Ok(vec![decimal("1.5")]));
    assert_eq!(
        tokenize("1 .5".as_bytes()),
        Err(TokenizeError { offset: 2, offending: ".5".as_bytes().to_vec() })
    );
    assert_eq!(tokenize("0x1F".as_bytes()), Ok(vec![Token::Hex(0x1F)]));
    assert_eq!(tokenize("0x1 15".as_bytes()), Ok(vec![Token::Hex(1), Token::Integer(15)]));
}

#[test]
fn outer_separators_change_nothing() {
    assert_eq!(tokenize(" 5 6".as_bytes()), tokenize("5 6".as_bytes()));
    assert_eq!(tokenize("5 6,".as_bytes()), tokenize("5 6".as_bytes()));
    assert_eq!(
        tokenize(" 5 z".as_bytes()),
        Err(TokenizeError { offset: 3, offending: "z".as_bytes().to_vec() })
    );
    assert_eq!(
        tokenize("5 z".as_bytes()),
        Err(TokenizeError { offset: 2, offending: "z".as_bytes().to_vec() })
    );
}

#[test]
fn float_is_tried_before_integer() {
    assert_eq!(tokenize("1.5".as_bytes()), Ok(vec![decimal("1.5")]));
    assert_eq!(tokenize("1e5".as_bytes()), Ok(vec![decimal("1e5")]));
    assert_eq!(tokenize("15".as_bytes()), Ok(vec![Token::Integer(15)]));
    // A float may spell a number that no 32-bit integer holds.
    assert_eq!(tokenize("99999999999.0".as_bytes()), Ok(vec![decimal("99999999999.0")]));
}

#[test]
fn hex_literal_is_longer_than_the_zero_before_it() {
    assert_eq!(tokenize("0x10".as_bytes()), Ok(vec![Token::Hex(16)]));
    assert_eq!(tokenize("0".as_bytes()), Ok(vec![Token::Integer(0)]));
    assert_eq!(tokenize("0xABCDEFabcdef 1".as_bytes()).is_err(), true);
    assert_eq!(tokenize("0xabcdef".as_bytes()), Ok(vec![Token::Hex(0xABCDEF)]));
}
