use evil_json::records::{Area, Color, Empty, Price, SeatCategory};
use evil_json::ser::{MapKeySerializer, MapSerializer, SeqSerializer, Serializer, StructSerializer};
use evil_json::suffix::{MapSuffix, RootSuffix, SeqSuffix, Suffix, SuffixKind};
use evil_json::value::Value;
use evil_json::Error;

fn to_json(value: &Value) -> String {
    String::from_utf8(evil_json::to_vec(value).unwrap()).unwrap()
}

#[test]
fn suffix_kinds() {
    assert_eq!(RootSuffix::kind(), SuffixKind::Root);
    assert_eq!(SeqSuffix::kind(), SuffixKind::SeqElement);
    assert_eq!(MapSuffix::kind(), SuffixKind::MapEntry);
}

#[test]
fn serializer_protocol_scalars() {
    let mut out: Vec<u8> = Vec::new();
    let ser = Serializer::new();
    ser.serialize(&mut out, &Value::Bool(true)).unwrap();
    assert_eq!(out, b"true");
}

#[test]
fn seq_serializer_protocol() {
    let mut out: Vec<u8> = Vec::new();
    let mut sq = SeqSerializer::begin(&mut out, SuffixKind::Root).unwrap();
    sq.serialize_element(&mut out, &Value::U8(1)).unwrap();
    sq.serialize_element(&mut out, &Value::U8(2)).unwrap();
    sq.serialize_element(&mut out, &Value::U8(3)).unwrap();
    sq.end(&mut out).unwrap();
    assert_eq!(out, b"[1,2,3]");

    let mut empty_out: Vec<u8> = Vec::new();
    let sq2 = SeqSerializer::begin(&mut empty_out, SuffixKind::Root).unwrap();
    sq2.end(&mut empty_out).unwrap();
    assert_eq!(empty_out, b"[]");
}

#[test]
fn struct_serializer_protocol() {
    // declared field order is kept: b before a
    let mut out: Vec<u8> = Vec::new();
    let mut st = StructSerializer::begin(&mut out, SuffixKind::Root).unwrap();
    st.serialize_field(&mut out, "b", &Value::U8(2)).unwrap();
    st.serialize_field(&mut out, "a", &Value::U8(1)).unwrap();
    st.end(&mut out).unwrap();
    assert_eq!(out, br#"{"b":2,"a":1}"#);

    let mut empty_out: Vec<u8> = Vec::new();
    let st2 = StructSerializer::begin(&mut empty_out, SuffixKind::Root).unwrap();
    st2.end(&mut empty_out).unwrap();
    assert_eq!(empty_out, b"{}");
}

#[test]
fn map_serializer_protocol() {
    let mut out: Vec<u8> = Vec::new();
    let mut m = MapSerializer::begin(&mut out, SuffixKind::Root).unwrap();
    m.serialize_key(&mut out, &Value::U8(1)).unwrap();
    m.serialize_value(&mut out, &Value::Str("one".to_string())).unwrap();
    m.serialize_key(&mut out, &Value::Str("two".to_string())).unwrap();
    m.serialize_value(&mut out, &Value::U8(2)).unwrap();
    m.end(&mut out).unwrap();
    assert_eq!(out, br#"{"1":"one","two":2}"#);
}

#[test]
fn map_key_serializer_protocol() {
    let mut out: Vec<u8> = Vec::new();
    MapKeySerializer::serialize(&mut out, &Value::I32(-7)).unwrap();
    assert_eq!(out, br#"-7":"#);
    let mut bad: Vec<u8> = Vec::new();
    assert!(MapKeySerializer::serialize(&mut bad, &Value::Unit).is_err());
    assert_eq!(bad, b"");
}

#[test]
fn nested_protocol_matches_engine() {
    // driving the protocol by hand gives the same bytes as encoding
    // the equivalent value in one call
    let mut out: Vec<u8> = Vec::new();
    let mut st = StructSerializer::begin(&mut out, SuffixKind::Root).unwrap();
    st.serialize_field(&mut out, "xs", &Value::Array(vec![Value::U8(1), Value::U8(2)]))
        .unwrap();
    st.serialize_field(&mut out, "name", &Value::Str("n".to_string()))
        .unwrap();
    st.end(&mut out).unwrap();

    let v = Value::Record(vec![
        ("xs".to_string(), Value::Array(vec![Value::U8(1), Value::U8(2)])),
        ("name".to_string(), Value::Str("n".to_string())),
    ]);
    assert_eq!(out, evil_json::to_vec(&v).unwrap());
}

#[test]
fn record_order_kept() {
    let v = Value::Record(vec![
        ("b".to_string(), Value::U8(2)),
        ("a".to_string(), Value::U8(1)),
    ]);
    assert_eq!(to_json(&v), r#"{"b":2,"a":1}"#);
}

#[test]
fn empty_payload() {
    assert_eq!(to_json(&Empty.to_value()), "[]");
}

#[test]
fn color_hex() {
    let c = Color::new(0x10ABFF);
    assert_eq!(c.as_text(), b"10ABFF");
    assert_eq!(c.to_json(), b"\"10ABFF\"");
    let black = Color::new(0);
    assert_eq!(black.as_text(), b"000000");
}

#[test]
fn price_record() {
    let p = Price { amount: 90250, audience_sub_category_id: 338937235, seat_category_id: 338937295 };
    assert_eq!(
        to_json(&p.to_value()),
        r#"{"amount":90250,"audienceSubCategoryId":338937235,"seatCategoryId":338937295}"#
    );
}

#[test]
fn seat_category_record() {
    let sc = SeatCategory {
        areas: vec![
            Area { area_id: 205705999, block_ids: Empty },
            Area { area_id: 205705998, block_ids: Empty },
        ],
        seat_category_id: 338937295,
    };
    assert_eq!(
        to_json(&sc.to_value()),
        r#"{"areas":[{"areaId":205705999,"blockIds":[]},{"areaId":205705998,"blockIds":[]}],"seatCategoryId":338937295}"#
    );
}

#[test]
fn error_messages() {
    assert_eq!(Error::InvalidKey.message(), "Invalid key type for JSON");
    assert_eq!(
        Error::NonFiniteFloat.message(),
        "non-finite float is not allowed in JSON."
    );
    assert_eq!(Error::custom("boom".to_string()), Error::Custom("boom".to_string()));
    assert_eq!(Error::Custom("boom".to_string()).message(), "boom");
}

#[test]
fn separator_count() {
    // an n-element sequence has exactly n - 1 interior commas
    for n in 0..6usize {
        let v = Value::Array((0..n).map(|i| Value::U8(i as u8)).collect());
        let json = to_json(&v);
        let commas = json.bytes().filter(|b| *b == b',').count();
        if n == 0 {
            assert_eq!(json, "[]");
        }
        assert_eq!(commas, n.saturating_sub(1));
    }
}
