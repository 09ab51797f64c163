//! Schema-driven mapping between typed records and string-keyed attribute maps.
//!
//! A host declares a record type as a [`TypeDecl`](schema::TypeDecl): its name and
//! an ordered list of named, typed fields, where at most one field is tagged as the
//! hash key and at most one as the range key. [`derive_item`](schema::derive_item)
//! validates such a declaration once and returns an
//! [`ItemSchema`](schema::ItemSchema), which converts records to and from
//! [`AttributeMap`](attribute_map::AttributeMap)s and projects a record onto its key.
//! [`derive_attribute`](schema::derive_attribute) does the same for an enumerated
//! type, whose variants travel as string attributes.
//!
//! The key type of a record, named after it with `Key` appended, holds its hash
//! field and its range field if it has one. Those fields keep their roles, so
//! classifying the key type again finds the same hash and range fields.

pub mod attribute;
pub mod attribute_map;
pub mod codec;
pub mod laws;
pub mod mapping;
pub mod number;
pub mod schema;
