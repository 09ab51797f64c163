use dynomite_schema::attribute::{AttributeValue, CodecError};
use dynomite_schema::attribute_map::AttributeMap;
use dynomite_schema::codec::{FieldType, Value};
use dynomite_schema::schema::{
    classify, derive_attribute, derive_item, field_with_attribute, Data, DefinitionError,
    FieldDef, Fields, KeyRole, TypeDecl, Visibility,
};

fn field(name: &str, role: Option<KeyRole>) -> FieldDef {
    FieldDef { name: name.to_string(), ty: FieldType::Str, role }
}

fn record_decl(fields: Vec<FieldDef>) -> TypeDecl {
    TypeDecl { name: "Rec".to_string(), vis: Visibility::Crate, data: Data::Struct(Fields::Named(fields)) }
}

fn enum_decl(variants: &[&str]) -> TypeDecl {
    TypeDecl {
        name: "Kind".to_string(),
        vis: Visibility::Public,
        data: Data::Enum(variants.iter().map(|v| v.to_string()).collect()),
    }
}

#[test]
fn duplicate_hash_is_rejected() {
    let r = derive_item(record_decl(vec![
        field("a", Some(KeyRole::Hash)),
        field("b", Some(KeyRole::Hash)),
    ]));
    assert_eq!(r.unwrap_err(), DefinitionError::DuplicateHashKey);
}

#[test]
fn duplicate_range_is_rejected() {
    let r = derive_item(record_decl(vec![
        field("a", Some(KeyRole::Hash)),
        field("b", Some(KeyRole::Range)),
        field("c", Some(KeyRole::Range)),
    ]));
    assert_eq!(r.unwrap_err(), DefinitionError::DuplicateRangeKey);
}

#[test]
fn duplicate_hash_reported_before_range() {
    let fields = vec![
        field("a", Some(KeyRole::Range)),
        field("b", Some(KeyRole::Range)),
        field("c", Some(KeyRole::Hash)),
        field("d", Some(KeyRole::Hash)),
    ];
    assert_eq!(classify(&fields).unwrap_err(), DefinitionError::DuplicateHashKey);
}

#[test]
fn classify_finds_roles() {
    let fields = vec![field("a", None), field("b", Some(KeyRole::Range)), field("c", Some(KeyRole::Hash))];
    let keys = classify(&fields).unwrap();
    assert_eq!(keys.hash, Some(2));
    assert_eq!(keys.range, Some(1));
    assert_eq!(field_with_attribute(&fields, KeyRole::Hash), Ok(Some(2)));
    let plain = vec![field("a", None)];
    assert_eq!(field_with_attribute(&plain, KeyRole::Range), Ok(None));
    assert_eq!(
        field_with_attribute(&vec![field("x", Some(KeyRole::Range)), field("y", Some(KeyRole::Range))], KeyRole::Range),
        Err(DefinitionError::DuplicateRangeKey)
    );
}

#[test]
fn duplicate_field_name_is_rejected() {
    let r = derive_item(record_decl(vec![field("a", None), field("b", None), field("a", None)]));
    assert_eq!(r.unwrap_err(), DefinitionError::DuplicateField { name: "a".to_string() });
}

#[test]
fn non_records_are_rejected() {
    assert_eq!(derive_item(enum_decl(&["A"])).unwrap_err(), DefinitionError::NotARecordType);
    let unnamed = TypeDecl {
        name: "Pair".to_string(),
        vis: Visibility::Private,
        data: Data::Struct(Fields::Unnamed(vec![FieldType::Str, FieldType::Bool])),
    };
    assert_eq!(derive_item(unnamed).unwrap_err(), DefinitionError::NoNamedFields);
    let unit = TypeDecl { name: "Unit".to_string(), vis: Visibility::Private, data: Data::Struct(Fields::Unit) };
    assert_eq!(derive_item(unit).unwrap_err(), DefinitionError::NoNamedFields);
}

#[test]
fn key_type_keeps_name_and_visibility() {
    let schema = derive_item(record_decl(vec![field("a", None), field("b", Some(KeyRole::Hash))])).unwrap();
    let k = schema.key_def.as_ref().unwrap();
    assert_eq!(k.name, "RecKey");
    assert_eq!(k.vis, Visibility::Crate);
    assert_eq!(k.fields.len(), 1);
    assert_eq!(k.fields[0].name, "b");
    let again = derive_item(TypeDecl {
        name: k.name.clone(),
        vis: k.vis,
        data: Data::Struct(Fields::Named(vec![field("b", Some(KeyRole::Hash))])),
    })
    .unwrap();
    assert_eq!(again.keys.hash, Some(0));
    assert_eq!(again.key_def.unwrap().name, "RecKeyKey");
}

#[test]
fn enum_codec_closure() {
    let c = derive_attribute(enum_decl(&["A", "B", "C"])).unwrap();
    assert_eq!(c.len(), 3);
    assert_eq!(c.label(1), "B");
    let b = c.encode(1);
    assert_eq!(b, AttributeValue::S("B".to_string()));
    assert_eq!(c.decode(b), Ok(1));
    assert_eq!(c.decode(AttributeValue::S("Z".to_string())), Err(CodecError::InvalidFormat));
    assert_eq!(c.decode(AttributeValue::N("1".to_string())), Err(CodecError::InvalidType));
    assert_eq!(c.decode(AttributeValue::Null), Err(CodecError::InvalidType));
}

#[test]
fn enum_labels_are_case_sensitive() {
    let c = derive_attribute(enum_decl(&["Red", "Green"])).unwrap();
    assert_eq!(c.decode(AttributeValue::S("red".to_string())), Err(CodecError::InvalidFormat));
    assert_eq!(c.decode(AttributeValue::S("Green".to_string())), Ok(1));
}

#[test]
fn empty_enum_decodes_nothing() {
    let c = derive_attribute(enum_decl(&[])).unwrap();
    assert_eq!(c.len(), 0);
    assert_eq!(c.decode(AttributeValue::S("A".to_string())), Err(CodecError::InvalidFormat));
}

#[test]
fn duplicate_variant_is_rejected() {
    assert_eq!(
        derive_attribute(enum_decl(&["A", "B", "A"])).unwrap_err(),
        DefinitionError::DuplicateVariant { name: "A".to_string() }
    );
    assert_eq!(
        derive_attribute(record_decl(vec![])).unwrap_err(),
        DefinitionError::NotAnEnumType
    );
}

#[test]
fn field_codecs_check_the_variant() {
    assert_eq!(FieldType::Str.decode(AttributeValue::B(vec![1])), Err(CodecError::InvalidType));
    assert_eq!(FieldType::Bin.decode(AttributeValue::S("x".to_string())), Err(CodecError::InvalidType));
    assert_eq!(FieldType::Bool.decode(AttributeValue::Bool(false)), Ok(Value::Bool(false)));
    assert_eq!(FieldType::Bin.encode(Value::Bin(vec![7, 8])), AttributeValue::B(vec![7, 8]));
    let c = derive_attribute(enum_decl(&["X", "Y"])).unwrap();
    let t = FieldType::Enum(c);
    assert_eq!(t.encode(Value::Variant(0)), AttributeValue::S("X".to_string()));
    assert_eq!(t.decode(AttributeValue::S("Y".to_string())), Ok(Value::Variant(1)));
    let copy = t.copy();
    assert_eq!(copy.decode(AttributeValue::S("Y".to_string())), Ok(Value::Variant(1)));
    let v = Value::Bin(vec![1, 2, 3]);
    assert_eq!(v.copy(), v);
}

#[test]
fn attribute_map_insert_replaces() {
    let mut m = AttributeMap::new();
    m.insert("k".to_string(), AttributeValue::Bool(true));
    m.insert("k".to_string(), AttributeValue::Null);
    assert_eq!(m.len(), 1);
    assert_eq!(m.get(&"k".to_string()), Some(&AttributeValue::Null));
    assert_eq!(m.remove(&"k".to_string()), Some(AttributeValue::Null));
    assert_eq!(m.remove(&"k".to_string()), None);
    assert_eq!(m.len(), 0);
    assert!(!m.contains_key(&"k".to_string()));
}

#[test]
fn attribute_map_entries() {
    let mut m = AttributeMap::new();
    m.insert("a".to_string(), AttributeValue::Bool(true));
    m.insert("b".to_string(), AttributeValue::N("1".to_string()));
    m.insert("a".to_string(), AttributeValue::Bool(false));
    let mut e = m.into_entries();
    e.sort_by(|x, y| x.0.cmp(&y.0));
    assert_eq!(
        e,
        vec![
            ("a".to_string(), AttributeValue::Bool(false)),
            ("b".to_string(), AttributeValue::N("1".to_string())),
        ]
    );
}
