use dynomite_schema::attribute::{AttributeValue, CodecError, MappingError};
use dynomite_schema::attribute_map::AttributeMap;
use dynomite_schema::codec::{EnumCodec, FieldType, Value};
use dynomite_schema::mapping::Record;
use dynomite_schema::schema::{
    derive_attribute, derive_item, Data, FieldDef, Fields, ItemSchema, KeyRole, TypeDecl,
    Visibility,
};

fn field(name: &str, ty: FieldType, role: Option<KeyRole>) -> FieldDef {
    FieldDef { name: name.to_string(), ty, role }
}

fn record_decl(name: &str, fields: Vec<FieldDef>) -> TypeDecl {
    TypeDecl {
        name: name.to_string(),
        vis: Visibility::Public,
        data: Data::Struct(Fields::Named(fields)),
    }
}

fn color_codec() -> EnumCodec {
    derive_attribute(TypeDecl {
        name: "Color".to_string(),
        vis: Visibility::Public,
        data: Data::Enum(vec!["A".to_string(), "B".to_string(), "C".to_string()]),
    })
    .unwrap()
}

fn person_schema() -> ItemSchema {
    derive_item(record_decl(
        "Person",
        vec![
            field("id", FieldType::Str, Some(KeyRole::Hash)),
            field("name", FieldType::Str, None),
        ],
    ))
    .unwrap()
}

fn event_schema() -> ItemSchema {
    derive_item(record_decl(
        "Event",
        vec![
            field("topic", FieldType::Str, Some(KeyRole::Hash)),
            field("payload", FieldType::Bin, None),
            field("seq", FieldType::Str, Some(KeyRole::Range)),
            field("urgent", FieldType::Bool, None),
            field("color", FieldType::Enum(color_codec()), None),
            field("count", FieldType::Num, None),
        ],
    ))
    .unwrap()
}

fn event() -> Record {
    Record {
        values: vec![
            Value::Str("orders".to_string()),
            Value::Bin(vec![0, 1, 255]),
            Value::Str("0007".to_string()),
            Value::Bool(true),
            Value::Variant(2),
            Value::Num(1200),
        ],
    }
}

fn key(s: &str) -> String {
    s.to_string()
}

fn s(v: &str) -> AttributeValue {
    AttributeValue::S(v.to_string())
}

#[test]
fn person_end_to_end() {
    let schema = person_schema();
    let person = Record { values: vec![Value::Str("123".to_string()), Value::Str("Ann".to_string())] };
    let m = schema.def.to_attributes(Record {
        values: vec![Value::Str("123".to_string()), Value::Str("Ann".to_string())],
    });
    assert_eq!(m.len(), 2);
    assert_eq!(m.get(&key("id")), Some(&s("123")));
    assert_eq!(m.get(&key("name")), Some(&s("Ann")));

    let key_def = schema.key_def.as_ref().unwrap();
    assert_eq!(key_def.name, "PersonKey");
    assert_eq!(key_def.fields.len(), 1);
    assert_eq!(key_def.fields[0].name, "id");

    let k = schema.extract_key(&person).unwrap();
    assert_eq!(k.len(), 1);
    assert_eq!(k.get(&key("id")), Some(&s("123")));

    let mut km = AttributeMap::new();
    km.insert(key("id"), s("123"));
    let pk = key_def.from_attributes(km).unwrap();
    assert_eq!(pk, Record { values: vec![Value::Str("123".to_string())] });
}

#[test]
fn round_trip_all_field_types() {
    let schema = event_schema();
    let m = schema.def.to_attributes(event());
    assert_eq!(m.len(), 6);
    assert_eq!(m.get(&key("count")), Some(&AttributeValue::N("1200".to_string())));
    assert_eq!(m.get(&key("payload")), Some(&AttributeValue::B(vec![0, 1, 255])));
    assert_eq!(m.get(&key("urgent")), Some(&AttributeValue::Bool(true)));
    assert_eq!(m.get(&key("color")), Some(&s("C")));
    assert_eq!(schema.def.from_attributes(m), Ok(event()));
}

#[test]
fn key_with_hash_and_range() {
    let schema = event_schema();
    let r = event();
    let k = schema.extract_key(&r).unwrap();
    assert_eq!(k.len(), 2);
    assert_eq!(k.get(&key("topic")), Some(&s("orders")));
    assert_eq!(k.get(&key("seq")), Some(&s("0007")));
    assert!(!k.contains_key(&key("payload")));

    let key_def = schema.key_def.as_ref().unwrap();
    assert_eq!(key_def.name, "EventKey");
    assert_eq!(key_def.fields[0].name, "topic");
    assert_eq!(key_def.fields[0].role, Some(KeyRole::Hash));
    assert_eq!(key_def.fields[1].name, "seq");
    assert_eq!(key_def.fields[1].role, Some(KeyRole::Range));

    let kr = schema.key_record(&r).unwrap();
    assert_eq!(
        kr,
        Record { values: vec![Value::Str("orders".to_string()), Value::Str("0007".to_string())] }
    );
    let km = key_def.to_attributes(kr);
    assert_eq!(km.len(), 2);
    assert_eq!(km.get(&key("topic")), Some(&s("orders")));
    assert_eq!(km.get(&key("seq")), Some(&s("0007")));
}

#[test]
fn missing_each_field() {
    let schema = event_schema();
    for name in ["topic", "payload", "seq", "urgent", "color", "count"] {
        let mut m = schema.def.to_attributes(event());
        assert!(m.remove(&key(name)).is_some());
        assert_eq!(
            schema.def.from_attributes(m),
            Err(MappingError::MissingField { name: name.to_string() })
        );
    }
}

#[test]
fn first_missing_field_wins() {
    let schema = person_schema();
    assert_eq!(
        schema.def.from_attributes(AttributeMap::new()),
        Err(MappingError::MissingField { name: "id".to_string() })
    );
}

#[test]
fn unknown_key_is_ignored() {
    let schema = person_schema();
    let mut m = AttributeMap::new();
    m.insert(key("id"), s("123"));
    m.insert(key("name"), s("Ann"));
    m.insert(key("extra"), AttributeValue::N("42".to_string()));
    assert_eq!(
        schema.def.from_attributes(m),
        Ok(Record { values: vec![Value::Str("123".to_string()), Value::Str("Ann".to_string())] })
    );
}

#[test]
fn invalid_field_reports_name_and_cause() {
    let schema = event_schema();
    let mut m = schema.def.to_attributes(event());
    m.insert(key("urgent"), s("yes"));
    assert_eq!(
        schema.def.from_attributes(m),
        Err(MappingError::InvalidField { name: "urgent".to_string(), cause: CodecError::InvalidType })
    );
    let mut m = schema.def.to_attributes(event());
    m.insert(key("color"), s("Z"));
    assert_eq!(
        schema.def.from_attributes(m),
        Err(MappingError::InvalidField { name: "color".to_string(), cause: CodecError::InvalidFormat })
    );
}

#[test]
fn record_without_hash_has_no_key() {
    let schema = derive_item(record_decl(
        "Note",
        vec![field("text", FieldType::Str, None), field("at", FieldType::Str, Some(KeyRole::Range))],
    ))
    .unwrap();
    assert!(schema.key_def.is_none());
    assert!(schema.keys.hash.is_none());
    assert_eq!(schema.keys.range, Some(1));
    let r = Record { values: vec![Value::Str("hi".to_string()), Value::Str("noon".to_string())] };
    assert!(schema.extract_key(&r).is_none());
    assert!(schema.key_record(&r).is_none());
}

#[test]
fn conforms_checks_types_and_arity() {
    let schema = event_schema();
    assert!(schema.def.conforms(&event()));
    let short = Record { values: vec![Value::Str("orders".to_string())] };
    assert!(!schema.def.conforms(&short));
    let mut bad = event();
    bad.values[4] = Value::Variant(3);
    assert!(!schema.def.conforms(&bad));
    let mut bad = event();
    bad.values[3] = Value::Str("true".to_string());
    assert!(!schema.def.conforms(&bad));
}

#[test]
fn empty_record_maps_to_empty_map() {
    let schema = derive_item(record_decl("Empty", vec![])).unwrap();
    let m = schema.def.to_attributes(Record { values: vec![] });
    assert_eq!(m.len(), 0);
    assert_eq!(schema.def.from_attributes(m), Ok(Record { values: vec![] }));
    assert!(schema.key_def.is_none());
}
