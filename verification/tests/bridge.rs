use rust_plug::buffer::CBuffer;
use rust_plug::call::{arguments, function_name_end, parse_args, parse_line, CallDescriptor};
use rust_plug::error::{BridgeError, CallFailure, OsDiagnostic, Rejection};
use rust_plug::handler::DllManager;
use rust_plug::number::DecimalLiteral;
use rust_plug::token::{tokenize, Token, TokenizeError};
use rust_plug::types::{ArgumentValue, ReturnValue, TypeDescriptor};

fn diagnostic(code: i32, message: &str) -> OsDiagnostic {
    OsDiagnostic { code, message: message.to_string() }
}

fn no_error() -> OsDiagnostic {
    diagnostic(0, "")
}

fn buffer(content: &str) -> CBuffer {
    CBuffer::new(content.as_bytes()).unwrap()
}

fn literal(text: &str) -> DecimalLiteral {
    DecimalLiteral::new(text.as_bytes().to_vec()).unwrap()
}

#[test]
fn buffer_appends_one_zero_byte() {
    let b = buffer("add");
    assert_eq!(b.as_bytes_with_nul(), &[0x61, 0x64, 0x64, 0]);
    assert_eq!(b.to_bytes(), vec![0x61, 0x64, 0x64]);
    assert_eq!(b.len(), 3);
    let empty = buffer("");
    assert_eq!(empty.as_bytes_with_nul(), &[0]);
    assert_eq!(empty.len(), 0);
}

#[test]
fn buffer_refuses_inner_zero_byte() {
    assert_eq!(CBuffer::new(&[0x61, 0, 0x62]), None);
    assert_eq!(CBuffer::new(&[0]), None);
    assert_eq!(CBuffer::new(&[0x61, 0]), None);
}

#[test]
fn buffer_clone_is_equal() {
    let b = buffer("name");
    assert_eq!(b.clone(), b);
    assert_eq!(b.clone().as_bytes_with_nul(), b.as_bytes_with_nul());
}

#[test]
fn decimal_literal_accepts_numbers_only() {
    for text in ["0", "42", "-7", "1.5", "-0.25", "1e5", "1E5", "2.5e-3", "2.5E+3", "007.10"] {
        let l = DecimalLiteral::new(text.as_bytes().to_vec());
        assert!(l.is_some(), "{}", text);
        assert_eq!(l.unwrap().as_bytes(), text.as_bytes());
    }
    for text in ["", "-", "+1", ".5", "1.", "1e", "1e+", "1.5.2", " 1", "1 ", "0x10", "1e5x", "--1"] {
        assert_eq!(DecimalLiteral::new(text.as_bytes().to_vec()), None, "{}", text);
    }
}

#[test]
fn decimal_literal_reads_as_a_float() {
    let l = literal("-2.5e-3");
    let value: f64 = std::str::from_utf8(l.as_bytes()).unwrap().parse().unwrap();
    assert_eq!(value, -2.5e-3);
    assert_eq!(l.clone(), l);
}

#[test]
fn parse_args_types_each_token() {
    assert_eq!(
        parse_args(&Token::String(buffer("hello"))),
        (TypeDescriptor::Pointer, ArgumentValue::Pointer(buffer("hello")))
    );
    assert_eq!(
        parse_args(&Token::Float(literal("1.14"))),
        (TypeDescriptor::Float64, ArgumentValue::Float64(literal("1.14")))
    );
    assert_eq!(
        parse_args(&Token::Integer(-123)),
        (TypeDescriptor::Int32, ArgumentValue::Int32(-123))
    );
    assert_eq!(
        parse_args(&Token::Hex(0xFF000000)),
        (TypeDescriptor::UInt32, ArgumentValue::UInt32(0xFF000000))
    );
}

#[test]
fn arguments_keep_the_order_of_the_tokens() {
    let tokens = tokenize("\"hello\" 0xFF0000 3 1.5".as_bytes()).unwrap();
    assert_eq!(
        arguments(&tokens),
        vec![
            (TypeDescriptor::Pointer, ArgumentValue::Pointer(buffer("hello"))),
            (TypeDescriptor::UInt32, ArgumentValue::UInt32(0xFF0000)),
            (TypeDescriptor::Int32, ArgumentValue::Int32(3)),
            (TypeDescriptor::Float64, ArgumentValue::Float64(literal("1.5"))),
        ]
    );
    assert_eq!(arguments(&vec![]), vec![]);
}

#[test]
fn argument_values_know_their_type() {
    assert_eq!(ArgumentValue::Int32(1).descriptor(), TypeDescriptor::Int32);
    assert_eq!(ArgumentValue::UInt32(1).descriptor(), TypeDescriptor::UInt32);
    assert_eq!(ArgumentValue::Float32(literal("1")).descriptor(), TypeDescriptor::Float32);
    assert_eq!(ArgumentValue::Float64(literal("1")).descriptor(), TypeDescriptor::Float64);
    assert_eq!(ArgumentValue::Pointer(buffer("")).descriptor(), TypeDescriptor::Pointer);
}

#[test]
fn return_values_know_their_type() {
    assert_eq!(ReturnValue::Int32(4).descriptor(), TypeDescriptor::Int32);
    assert_eq!(ReturnValue::UInt32(4).descriptor(), TypeDescriptor::UInt32);
    assert_eq!(ReturnValue::Float32(0x3F80_0000).descriptor(), TypeDescriptor::Float32);
    assert_eq!(
        ReturnValue::Float64(0x3FF0_0000_0000_0000).descriptor(),
        TypeDescriptor::Float64
    );
    assert_eq!(ReturnValue::Pointer(0x1000).descriptor(), TypeDescriptor::Pointer);
    assert_eq!(ReturnValue::Void.descriptor(), TypeDescriptor::Void);
    assert_eq!(f64::from_bits(0x3FF0_0000_0000_0000), 1.0);
}

#[test]
fn only_void_is_no_argument_type() {
    assert!(TypeDescriptor::Int32.is_argument());
    assert!(TypeDescriptor::UInt32.is_argument());
    assert!(TypeDescriptor::Float32.is_argument());
    assert!(TypeDescriptor::Float64.is_argument());
    assert!(TypeDescriptor::Pointer.is_argument());
    assert!(!TypeDescriptor::Void.is_argument());
}

#[test]
fn descriptor_of_add() {
    let args = vec![
        (TypeDescriptor::Int32, ArgumentValue::Int32(2)),
        (TypeDescriptor::Int32, ArgumentValue::Int32(2)),
    ];
    let d = CallDescriptor::new(args, TypeDescriptor::Int32).unwrap();
    assert_eq!(d.arity(), 2);
    assert_eq!(d.arg_type(0), TypeDescriptor::Int32);
    assert_eq!(d.arg_type(1), TypeDescriptor::Int32);
    assert_eq!(d.value(0), &ArgumentValue::Int32(2));
    assert_eq!(d.value(1), &ArgumentValue::Int32(2));
    assert_eq!(d.return_type(), TypeDescriptor::Int32);
}

#[test]
fn descriptor_of_hello_world() {
    let d = CallDescriptor::new(vec![], TypeDescriptor::Void).unwrap();
    assert_eq!(d.arity(), 0);
    assert_eq!(d.return_type(), TypeDescriptor::Void);
}

#[test]
fn descriptor_refuses_void_argument() {
    let args = vec![
        (TypeDescriptor::Int32, ArgumentValue::Int32(1)),
        (TypeDescriptor::Void, ArgumentValue::Int32(2)),
        (TypeDescriptor::Void, ArgumentValue::Int32(3)),
    ];
    match CallDescriptor::new(args, TypeDescriptor::Void) {
        Err(e) => assert_eq!(e, BridgeError::CallFailed(CallFailure::VoidArgument { index: 1 })),
        Ok(d) => panic!("built {:?}", d),
    }
}

#[test]
fn descriptor_refuses_value_of_another_type() {
    let args = vec![
        (TypeDescriptor::UInt32, ArgumentValue::UInt32(1)),
        (TypeDescriptor::Pointer, ArgumentValue::Pointer(buffer("x"))),
        (TypeDescriptor::Float32, ArgumentValue::Float64(literal("1.5"))),
        (TypeDescriptor::Void, ArgumentValue::Int32(3)),
    ];
    match CallDescriptor::new(args, TypeDescriptor::Int32) {
        Err(e) => assert_eq!(e, BridgeError::CallFailed(CallFailure::Mismatch { index: 2 })),
        Ok(d) => panic!("built {:?}", d),
    }
}

#[test]
fn descriptor_from_tokens_always_builds() {
    let tokens = tokenize("\"a\" 1 0x2 3.5 , -4".as_bytes()).unwrap();
    let d = CallDescriptor::new(arguments(&tokens), TypeDescriptor::Void).unwrap();
    assert_eq!(d.arity(), 5);
    assert_eq!(d.arg_type(0), TypeDescriptor::Pointer);
    assert_eq!(d.arg_type(1), TypeDescriptor::Int32);
    assert_eq!(d.arg_type(2), TypeDescriptor::UInt32);
    assert_eq!(d.arg_type(3), TypeDescriptor::Float64);
    assert_eq!(d.arg_type(4), TypeDescriptor::Int32);
    assert_eq!(d.value(4), &ArgumentValue::Int32(-4));
}

#[test]
fn function_name_ends_at_first_space() {
    assert_eq!(function_name_end("add 3 4".as_bytes()), 3);
    assert_eq!(function_name_end("hello_world".as_bytes()), 11);
    assert_eq!(function_name_end("".as_bytes()), 0);
    assert_eq!(function_name_end(" add".as_bytes()), 0);
    assert_eq!(function_name_end("a\tb c".as_bytes()), 3);
}

#[test]
fn parse_line_splits_name_and_arguments() {
    let call = parse_line("add 3 4".as_bytes()).unwrap();
    assert_eq!(call.name, "add".as_bytes().to_vec());
    assert_eq!(
        call.args,
        vec![
            (TypeDescriptor::Int32, ArgumentValue::Int32(3)),
            (TypeDescriptor::Int32, ArgumentValue::Int32(4)),
        ]
    );

    let call = parse_line("draw \"hello\" 0xFF0000".as_bytes()).unwrap();
    assert_eq!(call.name, "draw".as_bytes().to_vec());
    assert_eq!(
        call.args,
        vec![
            (TypeDescriptor::Pointer, ArgumentValue::Pointer(buffer("hello"))),
            (TypeDescriptor::UInt32, ArgumentValue::UInt32(0xFF0000)),
        ]
    );

    let call = parse_line("hello_world".as_bytes()).unwrap();
    assert_eq!(call.name, "hello_world".as_bytes().to_vec());
    assert_eq!(call.args, vec![]);
}

#[test]
fn parse_line_reports_the_tokenizer_error() {
    match parse_line("add 1.2.3".as_bytes()) {
        Err(e) => assert_eq!(
            e,
            BridgeError::TokenizeError(TokenizeError {
                offset: 7,
                offending: ".3".as_bytes().to_vec()
            })
        ),
        Ok(call) => panic!("parsed {:?}", call),
    }
    match parse_line("puts \"open".as_bytes()) {
        Err(e) => assert_eq!(
            e,
            BridgeError::TokenizeError(TokenizeError {
                offset: 5,
                offending: "\"open".as_bytes().to_vec()
            })
        ),
        Ok(call) => panic!("parsed {:?}", call),
    }
}

#[test]
fn load_request_for_missing_file_is_path_not_found() {
    assert_eq!(
        DllManager::load_request("/no/such/lib.so".as_bytes(), false),
        Err(BridgeError::PathNotFound)
    );
    assert_eq!(DllManager::load_request("".as_bytes(), false), Err(BridgeError::PathNotFound));
}

#[test]
fn load_request_terminates_the_path() {
    let request = DllManager::load_request("./libmath.so".as_bytes(), true).unwrap();
    assert_eq!(request.as_bytes_with_nul(), "./libmath.so\0".as_bytes());
}

#[test]
fn load_request_refuses_zero_byte_in_path() {
    assert_eq!(
        DllManager::load_request("lib\0math.so".as_bytes(), true),
        Err(BridgeError::PathNotFound)
    );
}

#[test]
fn new_takes_a_handle_and_refuses_zero() {
    let manager = DllManager::new(0x7f00_1000, no_error()).unwrap();
    assert_eq!(manager.handle(), 0x7f00_1000);
    match DllManager::new(0, diagnostic(8, "Exec format error")) {
        Err(e) => assert_eq!(e, BridgeError::LoadFailed(diagnostic(8, "Exec format error"))),
        Ok(m) => panic!("opened {:?}", m),
    }
}

#[test]
fn open_then_close_releases_the_handle_that_was_given() {
    let path = "./libmath.so".as_bytes();
    let request = DllManager::load_request(path, true).unwrap();
    assert_eq!(request.to_bytes(), path.to_vec());
    let manager = DllManager::new(0x5000, no_error()).unwrap();
    assert_eq!(manager.close(), 0x5000);
    // The same path can be asked for again, and a new handle taken.
    let again = DllManager::load_request(path, true).unwrap();
    assert_eq!(again, request);
    let manager = DllManager::new(0x6000, no_error()).unwrap();
    assert_eq!(manager.close(), 0x6000);
}

#[test]
fn symbol_request_passes_the_name_as_it_stands() {
    let manager = DllManager::new(1, no_error()).unwrap();
    assert_eq!(manager.symbol_request("add".as_bytes()).unwrap().as_bytes_with_nul(), "add\0".as_bytes());
    assert_eq!(
        manager.symbol_request("_ZN4math3addE".as_bytes()).unwrap().to_bytes(),
        "_ZN4math3addE".as_bytes().to_vec()
    );
    assert_eq!(
        manager.symbol_request("a\0b".as_bytes()),
        Err(BridgeError::SymbolNotFound { name: vec![0x61, 0, 0x62], diagnostic: None })
    );
}

#[test]
fn get_func_takes_an_address_and_refuses_zero() {
    let manager = DllManager::new(1, no_error()).unwrap();
    let symbol = manager.get_func(buffer("add"), 0x4010, no_error()).unwrap();
    assert_eq!(symbol.address(), 0x4010);
    assert_eq!(symbol.name(), &buffer("add"));
    match manager.get_func(buffer("mul"), 0, diagnostic(2, "undefined symbol: mul")) {
        Err(e) => assert_eq!(
            e,
            BridgeError::SymbolNotFound {
                name: "mul".as_bytes().to_vec(),
                diagnostic: Some(diagnostic(2, "undefined symbol: mul")),
            }
        ),
        Ok(s) => panic!("resolved {:?}", s),
    }
}

#[test]
fn call_func_prepares_add() {
    let manager = DllManager::new(1, no_error()).unwrap();
    let args = vec![
        (TypeDescriptor::Int32, ArgumentValue::Int32(2)),
        (TypeDescriptor::Int32, ArgumentValue::Int32(2)),
    ];
    let (symbol, descriptor) =
        manager.call_func(buffer("add"), 0x4010, no_error(), args, TypeDescriptor::Int32).unwrap();
    assert_eq!(symbol.address(), 0x4010);
    assert_eq!(symbol.name().to_bytes(), "add".as_bytes().to_vec());
    assert_eq!(descriptor.arity(), 2);
    assert_eq!(descriptor.return_type(), TypeDescriptor::Int32);
    // What the callee gives back for these arguments, in the declared type.
    let returned = ReturnValue::Int32(4);
    assert_eq!(returned.descriptor(), descriptor.return_type());
    assert_eq!(returned, ReturnValue::Int32(4));
}

#[test]
fn call_func_prepares_hello_world() {
    let manager = DllManager::new(1, no_error()).unwrap();
    let (symbol, descriptor) = manager
        .call_func(buffer("hello_world"), 0x4020, no_error(), vec![], TypeDescriptor::Void)
        .unwrap();
    assert_eq!(symbol.address(), 0x4020);
    assert_eq!(descriptor.arity(), 0);
    assert_eq!(descriptor.return_type(), TypeDescriptor::Void);
    assert_eq!(ReturnValue::Void.descriptor(), descriptor.return_type());
}

#[test]
fn call_func_reports_missing_symbol_first() {
    let manager = DllManager::new(1, no_error()).unwrap();
    let args = vec![(TypeDescriptor::Void, ArgumentValue::Int32(2))];
    match manager.call_func(buffer("nope"), 0, diagnostic(2, "no"), args, TypeDescriptor::Int32) {
        Err(e) => assert_eq!(
            e,
            BridgeError::SymbolNotFound {
                name: "nope".as_bytes().to_vec(),
                diagnostic: Some(diagnostic(2, "no")),
            }
        ),
        Ok(p) => panic!("prepared {:?}", p),
    }
}

#[test]
fn call_func_reports_bad_descriptor() {
    let manager = DllManager::new(1, no_error()).unwrap();
    let args = vec![(TypeDescriptor::Void, ArgumentValue::Int32(2))];
    match manager.call_func(buffer("add"), 0x4010, no_error(), args, TypeDescriptor::Int32) {
        Err(e) => assert_eq!(e, BridgeError::CallFailed(CallFailure::VoidArgument { index: 0 })),
        Ok(p) => panic!("prepared {:?}", p),
    }
}

#[test]
fn rejections_are_call_failures() {
    let e = BridgeError::CallFailed(CallFailure::Rejected(Rejection::ArgType));
    assert_ne!(e, BridgeError::CallFailed(CallFailure::Rejected(Rejection::Typedef)));
    assert_ne!(e, BridgeError::CallFailed(CallFailure::TooManyArguments));
    assert_eq!(e.clone(), e);
}
