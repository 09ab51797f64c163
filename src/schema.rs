//! Record and enumeration declarations, their validation, and the choice of
//! key fields.
use vstd::prelude::*;

use crate::codec::{type_wf, EnumCodec, FieldType, FieldTypeView};

verus! {

/// The two key roles that a field may carry.
#[derive(Debug, Clone, Copy, PartialEq, Eq, Structural)]
pub enum KeyRole {
    /// The partition key: required for a record to have a key.
    Hash,
    /// The optional sort key.
    Range,
}

/// Who may see a declared type; carried over to its key type.
#[derive(Debug, Clone, Copy, PartialEq, Eq, Structural)]
pub enum Visibility {
    Public,
    Crate,
    Private,
}

/// A named, typed field, with the key role it carries, if any.
#[derive(Debug)]
pub struct FieldDef {
    pub name: String,
    pub ty: FieldType,
    pub role: Option<KeyRole>,
}

/// The mathematical content of a [`FieldDef`].
pub struct FieldView {
    pub name: Seq<char>,
    pub ty: FieldTypeView,
    pub role: Option<KeyRole>,
}

impl View for FieldDef {
    type V = FieldView;

    open spec fn view(&self) -> FieldView {
        FieldView { name: self.name@, ty: self.ty@, role: self.role }
    }
}

/// The content of a list of fields.
pub open spec fn fields_view(fs: Seq<FieldDef>) -> Seq<FieldView> {
    fs.map_values(|f: FieldDef| f@)
}

/// The shape of a declared struct's fields.
#[derive(Debug)]
pub enum Fields {
    /// Named fields, in declaration order.
    Named(Vec<FieldDef>),
    /// Positional fields.
    Unnamed(Vec<FieldType>),
    /// No fields at all.
    Unit,
}

/// What a declared type is.
#[derive(Debug)]
pub enum Data {
    Struct(Fields),
    /// An enumeration, by the names of its variants.
    Enum(Vec<String>),
}

/// A type declaration handed over by the host.
#[derive(Debug)]
pub struct TypeDecl {
    pub name: String,
    pub vis: Visibility,
    pub data: Data,
}

/// A record type: a name and an ordered list of named fields.
#[derive(Debug)]
pub struct RecordDef {
    pub name: String,
    pub vis: Visibility,
    pub fields: Vec<FieldDef>,
}

impl RecordDef {
    /// The content of the fields.
    pub open spec fn fields_view(&self) -> Seq<FieldView> {
        fields_view(self.fields@)
    }
}

/// A declaration that cannot be given a schema.
#[derive(Debug, PartialEq, Eq)]
pub enum DefinitionError {
    /// Records are derived from structs only.
    NotARecordType,
    /// Records need named fields.
    NoNamedFields,
    /// Attribute codecs are derived from enumerations only.
    NotAnEnumType,
    /// Two fields carry the hash role.
    DuplicateHashKey,
    /// Two fields carry the range role.
    DuplicateRangeKey,
    /// Two fields share this name.
    DuplicateField { name: String },
    /// Two variants share this name.
    DuplicateVariant { name: String },
}

/// The positions of the hash and range fields of a record, where present.
#[derive(Debug, Clone, Copy)]
pub struct KeyFields {
    pub hash: Option<usize>,
    pub range: Option<usize>,
}

/// Whether `fs[i]` carries `role`.
pub open spec fn has_role(fs: Seq<FieldView>, i: int, role: KeyRole) -> bool {
    fs[i].role == Some(role)
}

/// Whether two fields carry `role`.
pub open spec fn role_repeated(fs: Seq<FieldView>, role: KeyRole) -> bool {
    exists|i: int, j: int|
        0 <= i < j < fs.len() && #[trigger] has_role(fs, i, role) && #[trigger] has_role(fs, j, role)
}

/// Whether `idx` is where the field with `role` stands, or `None` where no field has it.
pub open spec fn role_at(fs: Seq<FieldView>, role: KeyRole, idx: Option<usize>) -> bool {
    match idx {
        Some(i) => i < fs.len() && has_role(fs, i as int, role),
        None => forall|i: int| 0 <= i < fs.len() ==> !#[trigger] has_role(fs, i, role),
    }
}

/// The error for a role that two fields carry.
pub open spec fn repeated_role_error(role: KeyRole) -> DefinitionError {
    match role {
        KeyRole::Hash => DefinitionError::DuplicateHashKey,
        KeyRole::Range => DefinitionError::DuplicateRangeKey,
    }
}

/// Whether no two fields share a name.
pub open spec fn names_distinct(fs: Seq<FieldView>) -> bool {
    forall|i: int, j: int|
        0 <= i < fs.len() && 0 <= j < fs.len() && i != j ==> #[trigger] fs[i].name
            != #[trigger] fs[j].name
}

/// Whether a list of fields makes a record type: names are distinct and every
/// codec is sound.
pub open spec fn record_wf(fs: Seq<FieldView>) -> bool {
    &&& names_distinct(fs)
    &&& forall|i: int| 0 <= i < fs.len() ==> type_wf(#[trigger] fs[i].ty)
}

/// Whether `keys` is the outcome of classifying `fs`.
pub open spec fn classified(fs: Seq<FieldView>, keys: KeyFields) -> bool {
    &&& !role_repeated(fs, KeyRole::Hash)
    &&& !role_repeated(fs, KeyRole::Range)
    &&& role_at(fs, KeyRole::Hash, keys.hash)
    &&& role_at(fs, KeyRole::Range, keys.range)
}

/// The fields of the key type: the hash field, then the range field if there
/// is one; none when there is no hash field. They keep their roles.
pub open spec fn key_fields(fs: Seq<FieldView>, keys: KeyFields) -> Seq<FieldView> {
    match keys.hash {
        Some(h) => match keys.range {
            Some(g) => seq![fs[h as int], fs[g as int]],
            None => seq![fs[h as int]],
        },
        None => seq![],
    }
}

/// Finds the one field that carries `role`. Fails when two fields carry it.
pub fn field_with_attribute(fields: &Vec<FieldDef>, role: KeyRole) -> (r: Result<
    Option<usize>,
    DefinitionError,
>)
    ensures
        match r {
            Ok(idx) => !role_repeated(fields_view(fields@), role) && role_at(
                fields_view(fields@),
                role,
                idx,
            ),
            Err(e) => role_repeated(fields_view(fields@), role) && e == repeated_role_error(role),
        },
{
    let ghost fs = fields_view(fields@);
    let mut found: Option<usize> = None;
    let mut i: usize = 0;
    while i < fields.len()
        invariant
            fs == fields_view(fields@),
            i <= fs.len(),
            forall|a: int, b: int|
                0 <= a < b < i ==> !(#[trigger] has_role(fs, a, role) && #[trigger] has_role(
                    fs,
                    b,
                    role,
                )),
            match found {
                Some(f) => f < i && has_role(fs, f as int, role) && forall|a: int|
                    0 <= a < i && a != f ==> !#[trigger] has_role(fs, a, role),
                None => forall|a: int| 0 <= a < i ==> !#[trigger] has_role(fs, a, role),
            },
        decreases fields@.len() - i,
    {
        let here = match fields[i].role {
            Some(r) => r == role,
            None => false,
        };
        assert(here == has_role(fs, i as int, role));
        if here {
            if let Some(f) = found {
                assert(has_role(fs, f as int, role) && has_role(fs, i as int, role));
                return Err(
                    match role {
                        KeyRole::Hash => DefinitionError::DuplicateHashKey,
                        KeyRole::Range => DefinitionError::DuplicateRangeKey,
                    },
                );
            }
            found = Some(i);
        }
        i = i + 1;
    }
    Ok(found)
}

/// Picks out the hash and range fields of a record. A role carried by two
/// fields is an error, the hash role's first.
pub fn classify(fields: &Vec<FieldDef>) -> (r: Result<KeyFields, DefinitionError>)
    ensures
        match r {
            Ok(keys) => classified(fields_view(fields@), keys),
            Err(e) => {
                ||| role_repeated(fields_view(fields@), KeyRole::Hash) && e
                    == DefinitionError::DuplicateHashKey
                ||| !role_repeated(fields_view(fields@), KeyRole::Hash) && role_repeated(
                    fields_view(fields@),
                    KeyRole::Range,
                ) && e == DefinitionError::DuplicateRangeKey
            },
        },
{
    let hash = match field_with_attribute(fields, KeyRole::Hash) {
        Ok(h) => h,
        Err(e) => return Err(e),
    };
    let range = match field_with_attribute(fields, KeyRole::Range) {
        Ok(g) => g,
        Err(e) => return Err(e),
    };
    Ok(KeyFields { hash, range })
}

/// Whether some two entries of `names` are equal.
pub open spec fn has_repeat(names: Seq<Seq<char>>) -> bool {
    exists|i: int, j: int| 0 <= i < j < names.len() && #[trigger] names[i] == #[trigger] names[j]
}

/// Whether `name` occurs twice in `names`.
pub open spec fn repeated(names: Seq<Seq<char>>, name: Seq<char>) -> bool {
    exists|i: int, j: int|
        0 <= i < j < names.len() && #[trigger] names[i] == name && #[trigger] names[j] == name
}

/// The names of a list of fields.
pub open spec fn field_names(fs: Seq<FieldView>) -> Seq<Seq<char>> {
    fs.map_values(|f: FieldView| f.name)
}

/// The contents of a list of strings.
pub open spec fn strings_view(v: Seq<String>) -> Seq<Seq<char>> {
    v.map_values(|s: String| s@)
}

/// Finds a name that occurs twice, as the position of its second occurrence.
fn find_repeat(names: &Vec<String>) -> (r: Option<usize>)
    ensures
        match r {
            Some(j) => j < names@.len() && repeated(strings_view(names@), names@[j as int]@),
            None => !has_repeat(strings_view(names@)),
        },
{
    let ghost v = strings_view(names@);
    let mut j: usize = 0;
    while j < names.len()
        invariant
            v == strings_view(names@),
            j <= v.len(),
            forall|a: int, b: int| 0 <= a < b < j ==> #[trigger] v[a] != #[trigger] v[b],
        decreases names@.len() - j,
    {
        let mut i: usize = 0;
        while i < j
            invariant
                v == strings_view(names@),
                i <= j < v.len(),
                forall|a: int| 0 <= a < i ==> #[trigger] v[a] != v[j as int],
            decreases j - i,
        {
            if names[i] == names[j] {
                assert(v[i as int] == names@[j as int]@ && v[j as int] == names@[j as int]@);
                return Some(j);
            }
            i = i + 1;
        }
        j = j + 1;
    }
    None
}

/// A field with the same content.
fn copy_field(f: &FieldDef) -> (r: FieldDef)
    ensures
        r@ == f@,
{
    FieldDef { name: f.name.clone(), ty: f.ty.copy(), role: f.role }
}

/// The key type of a record: named after it with `Key` appended, holding its
/// hash field and, if there is one, its range field. A record without a hash
/// field has no key type.
pub fn get_key_struct(def: &RecordDef, keys: KeyFields) -> (r: Option<RecordDef>)
    requires
        classified(def.fields_view(), keys),
    ensures
        match r {
            Some(k) => {
                &&& keys.hash.is_some()
                &&& k.name@ == def.name@ + "Key"@
                &&& k.vis == def.vis
                &&& k.fields_view() == key_fields(def.fields_view(), keys)
            },
            None => keys.hash.is_none(),
        },
{
    match keys.hash {
        Some(h) => {
            let mut fields: Vec<FieldDef> = Vec::new();
            fields.push(copy_field(&def.fields[h]));
            if let Some(g) = keys.range {
                fields.push(copy_field(&def.fields[g]));
            }
            let name = def.name.clone().concat("Key");
            let k = RecordDef { name, vis: def.vis, fields };
            assert(k.fields_view() =~= key_fields(def.fields_view(), keys));
            Some(k)
        },
        None => None,
    }
}

/// A validated record type, with its key fields and its key type.
#[derive(Debug)]
pub struct ItemSchema {
    pub def: RecordDef,
    pub keys: KeyFields,
    pub key_def: Option<RecordDef>,
}

impl ItemSchema {
    /// The record type is sound, its key fields are the ones that carry the
    /// roles, and the key type is synthesized from them.
    pub open spec fn wf(&self) -> bool {
        let fs = self.def.fields_view();
        &&& record_wf(fs)
        &&& classified(fs, self.keys)
        &&& match self.key_def {
            Some(k) => {
                &&& self.keys.hash.is_some()
                &&& k.name@ == self.def.name@ + "Key"@
                &&& k.vis == self.def.vis
                &&& k.fields_view() == key_fields(fs, self.keys)
            },
            None => self.keys.hash.is_none(),
        }
    }
}

/// Validates a struct declaration as a record type: it must be a struct with
/// named fields, the names distinct, and each key role carried by at most one
/// field. Returns the record type with its key fields and key type.
pub fn derive_item(decl: TypeDecl) -> (r: Result<ItemSchema, DefinitionError>)
    ensures
        match decl.data {
            Data::Struct(Fields::Named(fields)) => {
                let fs = fields_view(fields@);
                match r {
                    Ok(s) => {
                        &&& s.wf()
                        &&& s.def.name@ == decl.name@
                        &&& s.def.vis == decl.vis
                        &&& s.def.fields_view() == fs
                    },
                    Err(DefinitionError::DuplicateField { name }) => repeated(
                        field_names(fs),
                        name@,
                    ),
                    Err(e) => {
                        &&& names_distinct(fs)
                        &&& {
                            ||| role_repeated(fs, KeyRole::Hash) && e
                                == DefinitionError::DuplicateHashKey
                            ||| !role_repeated(fs, KeyRole::Hash) && role_repeated(
                                fs,
                                KeyRole::Range,
                            ) && e == DefinitionError::DuplicateRangeKey
                        }
                    },
                }
            },
            Data::Struct(_) => r == Err::<ItemSchema, DefinitionError>(
                DefinitionError::NoNamedFields,
            ),
            Data::Enum(_) => r == Err::<ItemSchema, DefinitionError>(
                DefinitionError::NotARecordType,
            ),
        },
{
    let TypeDecl { name, vis, data } = decl;
    let fields = match data {
        Data::Struct(Fields::Named(fields)) => fields,
        Data::Struct(_) => return Err(DefinitionError::NoNamedFields),
        Data::Enum(_) => return Err(DefinitionError::NotARecordType),
    };
    let ghost fs = fields_view(fields@);
    let mut names: Vec<String> = Vec::new();
    let mut i: usize = 0;
    while i < fields.len()
        invariant
            fs == fields_view(fields@),
            i <= fs.len(),
            names@.len() == i,
            forall|a: int| 0 <= a < i ==> #[trigger] names@[a]@ == fs[a].name,
            forall|a: int| 0 <= a < i ==> type_wf(#[trigger] fs[a].ty),
        decreases fields@.len() - i,
    {
        fields[i].ty.establish_wf();
        names.push(fields[i].name.clone());
        i = i + 1;
    }
    assert(strings_view(names@) =~= field_names(fs));
    if let Some(j) = find_repeat(&names) {
        return Err(DefinitionError::DuplicateField { name: names[j].clone() });
    }
    assert(names_distinct(fs)) by {
        assert forall|a: int, b: int| 0 <= a < fs.len() && 0 <= b < fs.len() && a != b implies #[trigger] fs[a].name
            != #[trigger] fs[b].name by {
            let v = field_names(fs);
            if a < b {
                assert(!(v[a] == v[b]));
            } else {
                assert(!(v[b] == v[a]));
            }
        }
    }
    let keys = match classify(&fields) {
        Ok(keys) => keys,
        Err(e) => return Err(e),
    };
    let def = RecordDef { name, vis, fields };
    let key_def = get_key_struct(&def, keys);
    Ok(ItemSchema { def, keys, key_def })
}

/// Builds the codec of an enumeration whose variants are stored by name.
/// Fails on any other declaration, and on a variant name given twice.
pub fn derive_attribute(decl: TypeDecl) -> (r: Result<EnumCodec, DefinitionError>)
    ensures
        match decl.data {
            Data::Enum(variants) => match r {
                Ok(c) => c@ == strings_view(variants@),
                Err(DefinitionError::DuplicateVariant { name }) => repeated(
                    strings_view(variants@),
                    name@,
                ),
                Err(_) => false,
            },
            Data::Struct(_) => r == Err::<EnumCodec, DefinitionError>(
                DefinitionError::NotAnEnumType,
            ),
        },
{
    let variants = match decl.data {
        Data::Enum(variants) => variants,
        Data::Struct(_) => return Err(DefinitionError::NotAnEnumType),
    };
    if let Some(j) = find_repeat(&variants) {
        return Err(DefinitionError::DuplicateVariant { name: variants[j].clone() });
    }
    proof {
        let v = strings_view(variants@);
        assert forall|a: int, b: int| 0 <= a < v.len() && 0 <= b < v.len() && a != b implies #[trigger] v[a]
            != #[trigger] v[b] by {
            if a < b {
                assert(!(v[a] == v[b]));
            } else {
                assert(!(v[b] == v[a]));
            }
        }
    }
    Ok(EnumCodec::new(variants))
}

} // verus!
