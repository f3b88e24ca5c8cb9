use evil_json::value::Value;
use evil_json::Error;

fn to_json(value: &Value) -> String {
    String::from_utf8(evil_json::to_vec(value).unwrap()).unwrap()
}

fn s(text: &str) -> Value {
    Value::Str(text.to_string())
}

fn obj(entries: Vec<(Value, Value)>) -> Value {
    Value::Object(entries)
}

fn range(start: u32, end: u32) -> Value {
    Value::Record(vec![
        ("start".to_string(), Value::U32(start)),
        ("end".to_string(), Value::U32(end)),
    ])
}

#[test]
fn empty() {
    assert_eq!(to_json(&obj(vec![])), "{}");
    assert_eq!(to_json(&Value::Array(vec![obj(vec![])])), "[{}]");
}

#[test]
fn int_key() {
    // entries in the caller-supplied (here: sorted-key) order
    assert_eq!(
        to_json(&obj(vec![
            (Value::I32(1), Value::I32(2)),
            (Value::I32(4), Value::I32(8)),
        ])),
        r#"{"1":2,"4":8}"#
    );
    assert_eq!(
        to_json(&obj(vec![
            (Value::I16(-1), s("-3")),
            (Value::I16(5), s("15")),
        ])),
        r#"{"-1":"-3","5":"15"}"#
    );
    assert_eq!(
        to_json(&obj(vec![(Value::I128(i128::MAX), Value::Unit)])),
        r#"{"170141183460469231731687303715884105727":null}"#
    );
    assert_eq!(
        to_json(&obj(vec![
            (Value::U8(0), range(2, 4)),
            (Value::U8(1), range(4, 8)),
        ])),
        r#"{"0":{"start":2,"end":4},"1":{"start":4,"end":8}}"#
    );
    assert_eq!(
        to_json(&obj(vec![(Value::U8(255), Value::I32(-255))])),
        r#"{"255":-255}"#
    );
}

#[test]
fn nested() {
    assert_eq!(
        to_json(&obj(vec![(Value::U16(65535), obj(vec![]))])),
        r#"{"65535":{}}"#
    );
    assert_eq!(
        to_json(&obj(vec![(
            Value::U32(0),
            obj(vec![(s("baz"), s("qux")), (s("foo"), s("bar"))]),
        )])),
        r#"{"0":{"baz":"qux","foo":"bar"}}"#
    );
    assert_eq!(
        to_json(&obj(vec![
            (s("a"), obj(vec![(Value::I8(-128), s("-0x80"))])),
            (s("b"), obj(vec![(Value::I8(127), s("0x7f"))])),
        ])),
        r#"{"a":{"-128":"-0x80"},"b":{"127":"0x7f"}}"#
    );
    assert_eq!(
        to_json(&obj(vec![(
            Value::I64(1),
            obj(vec![(Value::U64(2), obj(vec![]))]),
        )])),
        r#"{"1":{"2":{}}}"#
    );
}

#[test]
fn key_escape() {
    assert_eq!(
        to_json(&obj(vec![(s("lorem\tipsum"), Value::Bool(false))])),
        r#"{"lorem\tipsum":false}"#
    );
    assert_eq!(
        to_json(&obj(vec![
            (s("\"quoted\""), Value::I32(1)),
            (s("normal"), Value::I32(0)),
        ])),
        r#"{"\"quoted\"":1,"normal":0}"#
    );
}

#[test]
fn invalid_key() {
    // a non-scalar key is refused
    assert_eq!(
        evil_json::to_vec(&obj(vec![(Value::Bool(true), Value::I32(1))])),
        Err(Error::InvalidKey)
    );
    assert_eq!(
        evil_json::to_vec(&obj(vec![(Value::Unit, Value::I32(1))])),
        Err(Error::InvalidKey)
    );
    assert_eq!(
        evil_json::to_vec(&obj(vec![(Value::Array(vec![]), Value::I32(1))])),
        Err(Error::InvalidKey)
    );
    assert_eq!(
        evil_json::to_vec(&obj(vec![(Value::OptionNone, Value::I32(1))])),
        Err(Error::InvalidKey)
    );
    // an absent finite float key fails with the float error
    assert_eq!(
        evil_json::to_vec(&obj(vec![(Value::F64(None), Value::I32(1))])),
        Err(Error::NonFiniteFloat)
    );
    // char and string keys are escaped exactly like string values
    assert_eq!(
        to_json(&obj(vec![(Value::Char('\t'), Value::I32(1))])),
        r#"{"\t":1}"#
    );
}

#[test]
fn key_escaped_like_value() {
    // a key with controls and quotes escapes identically to the same
    // text as a string value
    let nasty = "a\"b\\c\x00d\te";
    let as_value = to_json(&s(nasty));
    let as_key = to_json(&obj(vec![(s(nasty), Value::I32(0))]));
    let inner = &as_value[1..as_value.len() - 1];
    assert_eq!(as_key, format!("{{\"{}\":0}}", inner));
}
