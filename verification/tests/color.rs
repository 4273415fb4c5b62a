use rust_plug::color::Color;
use rust_plug::token::{tokenize, Token};

#[test]
fn color_unpacks_red_from_the_lowest_byte() {
    let c = Color::from_packed(0x11223344);
    assert_eq!(c.red(), 0x44);
    assert_eq!(c.green(), 0x33);
    assert_eq!(c.blue(), 0x22);
    assert_eq!(c.alpha(), 0x11);
    assert_eq!(c, Color::new(0x44, 0x33, 0x22, 0x11));
}

#[test]
fn color_packs_what_it_unpacked() {
    for word in [0u32, 1, 0xFF, 0xFF00, 0x00FF00, 0xFF000000, 0xFFFFFFFF, 0x80000001, 0x12345678] {
        assert_eq!(Color::from_packed(word).packed(), word);
    }
    assert_eq!(Color::new(1, 2, 3, 4).packed(), 0x04030201);
    assert_eq!(Color::from_packed(Color::new(9, 8, 7, 6).packed()), Color::new(9, 8, 7, 6));
}

#[test]
fn color_from_hex_tokens() {
    let tokens = tokenize(" 0xFF000000 0x00FF00 ".as_bytes()).unwrap();
    match (&tokens[0], &tokens[1]) {
        (Token::Hex(opaque), Token::Hex(green)) => {
            assert_eq!(Color::from_packed(*opaque), Color::new(0, 0, 0, 0xFF));
            assert_eq!(Color::from_packed(*green), Color::new(0, 0xFF, 0, 0));
        }
        other => panic!("not two hex literals: {:?}", other),
    }
}
