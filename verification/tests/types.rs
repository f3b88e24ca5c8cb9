use evil_json::float::{FiniteF32, FiniteF64};
use evil_json::value::Value;
use evil_json::Error;

fn to_json(value: &Value) -> String {
    String::from_utf8(evil_json::to_vec(value).unwrap()).unwrap()
}

fn s(text: &str) -> Value {
    Value::Str(text.to_string())
}

fn f32v(x: f32) -> Value {
    if x.is_finite() {
        let mut buf = ryu::Buffer::new();
        Value::F32(Some(
            FiniteF32::from_text(buf.format_finite(x).as_bytes()).unwrap(),
        ))
    } else {
        Value::F32(None)
    }
}

fn f64v(x: f64) -> Value {
    if x.is_finite() {
        let mut buf = ryu::Buffer::new();
        Value::F64(Some(
            FiniteF64::from_text(buf.format_finite(x).as_bytes()).unwrap(),
        ))
    } else {
        Value::F64(None)
    }
}

#[test]
fn null() {
    assert_eq!(to_json(&Value::Unit), "null");
    assert_eq!(to_json(&Value::OptionNone), "null");
}

#[test]
fn integer() {
    assert_eq!(to_json(&Value::Bool(false)), "false");
    assert_eq!(to_json(&Value::U32(0)), "0");
    assert_eq!(to_json(&Value::U16(u16::MAX)), "65535");
    assert_eq!(to_json(&Value::I64(-81)), "-81");
    assert_eq!(
        to_json(&Value::U128(u128::MAX)),
        "340282366920938463463374607431768211455"
    );
    assert_eq!(
        to_json(&Value::I128(i128::MIN)),
        "-170141183460469231731687303715884105728"
    );
}

#[test]
fn float() {
    assert_eq!(to_json(&f32v(3.14)), "3.14");
    assert_eq!(to_json(&f64v(-0.0)), "-0.0");
    assert_eq!(to_json(&f64v(2.718281828459045)), "2.718281828459045");
    // a non-finite float has no JSON literal: encoding fails
    assert_eq!(
        evil_json::to_vec(&f32v(f32::INFINITY)),
        Err(Error::NonFiniteFloat)
    );
    assert_eq!(
        evil_json::to_vec(&f64v(f64::INFINITY)),
        Err(Error::NonFiniteFloat)
    );
}

#[test]
fn char_no_escape() {
    assert_eq!(to_json(&Value::Char('a')), "\"a\"");
    assert_eq!(to_json(&Value::Char('é')), "\"é\"");
    assert_eq!(to_json(&Value::Char('Ａ')), "\"Ａ\"");
    assert_eq!(to_json(&Value::Char('🄫')), "\"🄫\"");
}

#[test]
fn char_escape() {
    assert_eq!(to_json(&Value::Char('\"')), "\"\\\"\"");
    assert_eq!(to_json(&Value::Char('\r')), "\"\\r\"");
    assert_eq!(to_json(&Value::Char('\\')), "\"\\\\\"");
    assert_eq!(to_json(&Value::Char('\x1f')), "\"\\u001f\"");
}

#[test]
fn string() {
    assert_eq!(to_json(&s("")), "\"\"");
    assert_eq!(to_json(&s("This is ascii text.")), "\"This is ascii text.\"");
    assert_eq!(to_json(&s("Καλιμέρα")), "\"Καλιμέρα\"");
}

#[test]
fn slice() {
    assert_eq!(to_json(&Value::Array(vec![])), "[]");
    assert_eq!(to_json(&Value::Array(vec![Value::I16(18782)])), "[18782]");
    assert_eq!(
        to_json(&Value::Array(vec![s("apple"), s("banana")])),
        "[\"apple\",\"banana\"]"
    );
    assert_eq!(
        to_json(&Value::Bytes(vec![0x03, 0x07, 0x01, 0x0a])),
        "[3,7,1,10]"
    );
}

#[test]
fn tuple() {
    assert_eq!(to_json(&Value::Array(vec![Value::I8(-1)])), "[-1]");
    assert_eq!(
        to_json(&Value::Array(vec![Value::I64(9), s("abc")])),
        "[9,\"abc\"]"
    );
    assert_eq!(
        to_json(&Value::Array(vec![
            Value::I64(9),
            Value::Array(vec![Value::U8(97), Value::U8(98), Value::U8(99)]),
        ])),
        "[9,[97,98,99]]"
    );
}

#[test]
fn float_round_trip() {
    // the emitted text parses back to the exact original value
    for x in [
        0.0f64,
        -0.0,
        1.0,
        -1.5,
        3.141592653589793,
        2.2250738585072014e-308,
        5e-324,
        1.7976931348623157e308,
        -1.7976931348623157e308,
        123456789.123456789,
    ] {
        let json = to_json(&f64v(x));
        let back: f64 = json.parse().unwrap();
        assert_eq!(back.to_bits(), x.to_bits());
    }
    for x in [0.0f32, -0.0, 3.14, f32::MIN, f32::MAX, 1e-45] {
        let json = to_json(&f32v(x));
        let back: f32 = json.parse().unwrap();
        assert_eq!(back.to_bits(), x.to_bits());
    }
}

#[test]
fn integer_round_trip() {
    for x in [i64::MIN, -81, -1, 0, 1, 81, i64::MAX] {
        let json = to_json(&Value::I64(x));
        assert_eq!(json.parse::<i64>().unwrap(), x);
        assert!(!json.starts_with('0') || x == 0);
        assert!(!json.starts_with("-0"));
    }
    for x in [0u128, 7, u128::MAX] {
        let json = to_json(&Value::U128(x));
        assert_eq!(json.parse::<u128>().unwrap(), x);
        assert!(!json.starts_with('0') || x == 0);
    }
}

#[test]
fn nested_some() {
    assert_eq!(
        to_json(&Value::OptionSome(Box::new(Value::U8(7)))),
        "7"
    );
    assert_eq!(
        to_json(&Value::OptionSome(Box::new(Value::OptionNone))),
        "null"
    );
}

#[test]
fn rejected_float_text() {
    // only plain decimal number text is accepted for a finite float
    assert!(FiniteF32::from_text(b"").is_none());
    assert!(FiniteF32::from_text(b"NaN").is_none());
    assert!(FiniteF32::from_text(b"inf").is_none());
    assert!(FiniteF64::from_text(b"1.5e3").is_some());
    assert!(FiniteF64::from_text(b"-0.0").is_some());
}
