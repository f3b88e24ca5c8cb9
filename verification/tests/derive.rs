use evil_json::float::FiniteF32;
use evil_json::value::Value;

fn to_json(value: &Value) -> String {
    String::from_utf8(evil_json::to_vec(value).unwrap()).unwrap()
}

fn s(text: &str) -> Value {
    Value::Str(text.to_string())
}

fn field(name: &str, v: Value) -> (String, Value) {
    (name.to_string(), v)
}

#[test]
fn unit_struct() {
    assert_eq!(to_json(&Value::Unit), "null");
}

#[test]
fn new_type_struct() {
    assert_eq!(to_json(&Value::I32(i32::MIN)), "-2147483648");
}

#[test]
fn empty_struct() {
    assert_eq!(to_json(&Value::Record(vec![])), "{}");
}

#[test]
fn named_struct() {
    assert_eq!(
        to_json(&Value::Record(vec![
            field("field1", Value::Unit),
            field("field2", Value::OptionSome(Box::new(s("string")))),
        ])),
        r#"{"field1":null,"field2":"string"}"#
    );
}

#[test]
fn simple_enum() {
    assert_eq!(to_json(&Value::UnitVariant("Unit".to_string())), r#""Unit""#);
    assert_eq!(
        to_json(&Value::NewtypeVariant(
            "Newtype".to_string(),
            Box::new(Value::I16(-99))
        )),
        r#"{"Newtype":-99}"#
    );
    assert_eq!(
        to_json(&Value::TupleVariant("EmptyTuple".to_string(), vec![])),
        r#"{"EmptyTuple":[]}"#
    );
    assert_eq!(
        to_json(&Value::StructVariant("EmptyStruct".to_string(), vec![])),
        r#"{"EmptyStruct":{}}"#
    );
    assert_eq!(
        to_json(&Value::TupleVariant(
            "Tuple".to_string(),
            vec![Value::U8(255), s("val")]
        )),
        r#"{"Tuple":[255,"val"]}"#
    );
    assert_eq!(
        to_json(&Value::StructVariant(
            "Struct".to_string(),
            vec![field("inner", Value::Unit)]
        )),
        r#"{"Struct":{"inner":null}}"#
    );
}

#[test]
fn tagged() {
    assert_eq!(
        to_json(&Value::Record(vec![
            field("type", s("A")),
            field("value", Value::I16(32767)),
        ])),
        r#"{"type":"A","value":32767}"#
    );
    assert_eq!(
        to_json(&Value::Record(vec![
            field("type", s("B")),
            field("value", Value::I32(-1)),
        ])),
        r#"{"type":"B","value":-1}"#
    );
}

#[test]
fn adjacent() {
    assert_eq!(
        to_json(&Value::Record(vec![
            field("t", s("Owned")),
            field("c", s("foo\r\nbar")),
        ])),
        r#"{"t":"Owned","c":"foo\r\nbar"}"#
    );
    assert_eq!(
        to_json(&Value::Record(vec![
            field("t", s("Borrowed")),
            field("c", s("タグ付きEnum")),
        ])),
        r#"{"t":"Borrowed","c":"タグ付きEnum"}"#
    );
}

#[test]
fn untagged() {
    assert_eq!(to_json(&Value::U64(0)), "0");
    assert_eq!(
        to_json(&Value::Array(vec![s("foo"), s("")])),
        r#"["foo",""]"#
    );
}

#[test]
fn struct_key_escape() {
    assert_eq!(
        to_json(&Value::Record(vec![field(
            "line\nbreak",
            Value::Array(vec![Value::I32(10), s("name")]),
        )])),
        r#"{"line\nbreak":[10,"name"]}"#
    );
}

#[test]
fn unit_variant_escape() {
    assert_eq!(
        to_json(&Value::UnitVariant("null\x08".to_string())),
        r#""null\b""#
    );
}

#[test]
fn newtype_variant_escape() {
    assert_eq!(
        to_json(&Value::NewtypeVariant(
            "back\\slash".to_string(),
            Box::new(Value::Bool(true))
        )),
        r#"{"back\\slash":true}"#
    );
}

#[test]
fn tuple_variant_escape() {
    assert_eq!(
        to_json(&Value::TupleVariant(
            "r\tg\tb".to_string(),
            vec![Value::U8(13), Value::U8(92), Value::U8(8)]
        )),
        r#"{"r\tg\tb":[13,92,8]}"#
    );
}

#[test]
fn struct_variant_escape() {
    let mut buf = ryu::Buffer::new();
    let v = Value::F32(Some(
        FiniteF32::from_text(buf.format_finite(-1.0f32).as_bytes()).unwrap(),
    ));
    assert_eq!(
        to_json(&Value::StructVariant(
            "\x00".to_string(),
            vec![("\x01".to_string(), v)]
        )),
        r#"{"\u0000":{"\u0001":-1.0}}"#
    );
}
