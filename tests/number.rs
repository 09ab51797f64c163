use dynomite_schema::attribute::{AttributeValue, CodecError};
use dynomite_schema::codec::{FieldType, Value};
use dynomite_schema::number::{format_decimal, parse_decimal};

fn text(s: &str) -> String {
    s.to_string()
}

#[test]
fn formats_decimal() {
    assert_eq!(format_decimal(0), "0");
    assert_eq!(format_decimal(7), "7");
    assert_eq!(format_decimal(1234), "1234");
    assert_eq!(format_decimal(u64::MAX), "18446744073709551615");
}

#[test]
fn parses_canonical_decimal() {
    assert_eq!(parse_decimal(&text("0")), Some(0));
    assert_eq!(parse_decimal(&text("1234")), Some(1234));
    assert_eq!(parse_decimal(&text("18446744073709551615")), Some(u64::MAX));
}

#[test]
fn rejects_other_text() {
    assert_eq!(parse_decimal(&text("")), None);
    assert_eq!(parse_decimal(&text("007")), None);
    assert_eq!(parse_decimal(&text("00")), None);
    assert_eq!(parse_decimal(&text("-1")), None);
    assert_eq!(parse_decimal(&text("12a")), None);
    assert_eq!(parse_decimal(&text("1.5")), None);
    assert_eq!(parse_decimal(&text("18446744073709551616")), None);
    assert_eq!(parse_decimal(&text("99999999999999999999999")), None);
}

#[test]
fn decimal_round_trip_samples() {
    for n in [0u64, 1, 9, 10, 99, 100, 65535, 4294967296, u64::MAX - 1, u64::MAX] {
        assert_eq!(parse_decimal(&format_decimal(n)), Some(n));
    }
}

#[test]
fn number_field_codec() {
    assert_eq!(FieldType::Num.encode(Value::Num(42)), AttributeValue::N(text("42")));
    assert_eq!(FieldType::Num.decode(AttributeValue::N(text("42"))), Ok(Value::Num(42)));
    assert_eq!(FieldType::Num.decode(AttributeValue::N(text("4x2"))), Err(CodecError::InvalidFormat));
    assert_eq!(FieldType::Num.decode(AttributeValue::S(text("42"))), Err(CodecError::InvalidType));
}
