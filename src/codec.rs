//! Codecs between native field values and attribute values.
use vstd::prelude::*;

use crate::attribute::{AttrView, AttributeValue, CodecError};
use crate::number::{decimal, decimal_value_of, format_decimal, parse_decimal};

verus! {

/// The closed set of labels of an enumerated type, one per variant, in
/// declaration order. A variant is identified by its position.
#[derive(Debug)]
pub struct EnumCodec {
    labels: Vec<String>,
}

/// Whether no label occurs twice.
pub open spec fn labels_distinct(labels: Seq<Seq<char>>) -> bool {
    forall|i: int, j: int|
        0 <= i < labels.len() && 0 <= j < labels.len() && i != j ==> #[trigger] labels[i]
            != #[trigger] labels[j]
}

/// The variant whose label is `s`, if there is one.
pub open spec fn variant_of(labels: Seq<Seq<char>>, s: Seq<char>) -> Option<nat> {
    if exists|k: int| 0 <= k < labels.len() && #[trigger] labels[k] == s {
        Some((choose|k: int| 0 <= k < labels.len() && #[trigger] labels[k] == s) as nat)
    } else {
        None
    }
}

/// What decoding an attribute value as a variant of an enumeration with these
/// labels gives.
pub open spec fn decode_variant(labels: Seq<Seq<char>>, a: AttrView) -> Result<nat, CodecError> {
    match a {
        AttrView::S(s) => match variant_of(labels, s) {
            Some(k) => Ok(k),
            None => Err(CodecError::InvalidFormat),
        },
        _ => Err(CodecError::InvalidType),
    }
}

impl View for EnumCodec {
    type V = Seq<Seq<char>>;

    closed spec fn view(&self) -> Seq<Seq<char>> {
        Seq::new(self.labels@.len(), |i: int| self.labels@[i]@)
    }
}

impl EnumCodec {
    /// Labels are distinct, so that each one names a single variant.
    #[verifier::type_invariant]
    spec fn inv(&self) -> bool {
        labels_distinct(self@)
    }

    /// A codec with these labels.
    pub(crate) fn new(labels: Vec<String>) -> (r: EnumCodec)
        requires
            labels_distinct(labels@.map_values(|l: String| l@)),
        ensures
            r@ == labels@.map_values(|l: String| l@),
    {
        assert(Seq::new(labels@.len(), |j: int| labels@[j]@) =~= labels@.map_values(|l: String| l@));
        EnumCodec { labels }
    }

    /// The number of variants.
    pub fn len(&self) -> (r: usize)
        ensures
            r == self@.len(),
    {
        self.labels.len()
    }

    /// The label of variant `k`.
    pub fn label(&self, k: usize) -> (r: &String)
        requires
            k < self@.len(),
        ensures
            r@ == self@[k as int],
    {
        &self.labels[k]
    }

    /// A codec with the same labels.
    pub fn copy(&self) -> (r: EnumCodec)
        ensures
            r@ == self@,
    {
        proof {
            use_type_invariant(self);
        }
        let mut labels: Vec<String> = Vec::new();
        let mut i: usize = 0;
        while i < self.labels.len()
            invariant
                i <= self.labels@.len(),
                labels@.len() == i,
                forall|j: int| 0 <= j < i ==> #[trigger] labels@[j]@ == self.labels@[j]@,
            decreases self.labels@.len() - i,
        {
            labels.push(self.labels[i].clone());
            i = i + 1;
        }
        assert(Seq::new(labels@.len(), |j: int| labels@[j]@) =~= self@);
        EnumCodec { labels }
    }

    /// Encodes variant `k` as its label, held in a string attribute.
    pub fn encode(&self, k: usize) -> (r: AttributeValue)
        requires
            k < self@.len(),
        ensures
            r@ == AttrView::S(self@[k as int]),
    {
        AttributeValue::S(self.labels[k].clone())
    }

    /// Decodes a string attribute into the variant that it labels. A value of
    /// another kind is an `InvalidType`; a string that labels no variant is
    /// an `InvalidFormat`.
    pub fn decode(&self, a: AttributeValue) -> (r: Result<usize, CodecError>)
        ensures
            match r {
                Ok(k) => decode_variant(self@, a@) == Ok::<nat, CodecError>(k as nat),
                Err(e) => decode_variant(self@, a@) == Err::<nat, CodecError>(e),
            },
    {
        proof {
            use_type_invariant(self);
        }
        match a {
            AttributeValue::S(s) => {
                let mut i: usize = 0;
                while i < self.labels.len()
                    invariant
                        labels_distinct(self@),
                        a@ == AttrView::S(s@),
                        i <= self@.len(),
                        self@.len() == self.labels@.len(),
                        forall|j: int| 0 <= j < i ==> #[trigger] self@[j] != s@,
                    decreases self.labels@.len() - i,
                {
                    if self.labels[i] == s {
                        proof {
                            let l = self@;
                            assert(l[i as int] == s@);
                            let c = choose|k: int| 0 <= k < l.len() && #[trigger] l[k] == s@;
                            assert(l[c] == l[i as int]);
                            assert(c == i);
                        }
                        return Ok(i);
                    }
                    i = i + 1;
                }
                Err(CodecError::InvalidFormat)
            },
            _ => Err(CodecError::InvalidType),
        }
    }
}

/// A native field value.
#[derive(Debug, PartialEq, Eq)]
pub enum Value {
    /// A string.
    Str(String),
    /// An unsigned integer.
    Num(u64),
    /// Binary data.
    Bin(Vec<u8>),
    /// A boolean.
    Bool(bool),
    /// A variant of an enumerated type, by position.
    Variant(usize),
}

/// The mathematical content of a [`Value`].
pub enum ValueView {
    Str(Seq<char>),
    Num(u64),
    Bin(Seq<u8>),
    Bool(bool),
    Variant(nat),
}

impl View for Value {
    type V = ValueView;

    open spec fn view(&self) -> ValueView {
        match self {
            Value::Str(s) => ValueView::Str(s@),
            Value::Num(n) => ValueView::Num(*n),
            Value::Bin(b) => ValueView::Bin(b@),
            Value::Bool(b) => ValueView::Bool(*b),
            Value::Variant(k) => ValueView::Variant(*k as nat),
        }
    }
}

impl Value {
    /// A value with the same content.
    pub fn copy(&self) -> (r: Value)
        ensures
            r@ == self@,
    {
        match self {
            Value::Str(s) => Value::Str(s.clone()),
            Value::Num(n) => Value::Num(*n),
            Value::Bin(b) => {
                let mut c: Vec<u8> = Vec::new();
                let mut i: usize = 0;
                while i < b.len()
                    invariant
                        i <= b@.len(),
                        c@ == b@.subrange(0, i as int),
                    decreases b@.len() - i,
                {
                    c.push(b[i]);
                    i = i + 1;
                    assert(c@ =~= b@.subrange(0, i as int));
                }
                assert(c@ =~= b@);
                Value::Bin(c)
            },
            Value::Bool(b) => Value::Bool(*b),
            Value::Variant(k) => Value::Variant(*k),
        }
    }
}

/// The declared type of a field, which decides its codec.
#[derive(Debug)]
pub enum FieldType {
    /// Stored as a string attribute.
    Str,
    /// Stored as a number attribute, in decimal.
    Num,
    /// Stored as a binary attribute.
    Bin,
    /// Stored as a boolean attribute.
    Bool,
    /// An enumerated type, stored as the string label of its variant.
    Enum(EnumCodec),
}

/// The mathematical content of a [`FieldType`].
pub enum FieldTypeView {
    Str,
    Num,
    Bin,
    Bool,
    Enum(Seq<Seq<char>>),
}

impl View for FieldType {
    type V = FieldTypeView;

    open spec fn view(&self) -> FieldTypeView {
        match self {
            FieldType::Str => FieldTypeView::Str,
            FieldType::Num => FieldTypeView::Num,
            FieldType::Bin => FieldTypeView::Bin,
            FieldType::Bool => FieldTypeView::Bool,
            FieldType::Enum(c) => FieldTypeView::Enum(c@),
        }
    }
}

/// Whether a field type has a sound codec: an enumeration's labels are distinct.
pub open spec fn type_wf(t: FieldTypeView) -> bool {
    match t {
        FieldTypeView::Enum(labels) => labels_distinct(labels),
        _ => true,
    }
}

/// Whether `v` is a value of type `t`.
pub open spec fn admits(t: FieldTypeView, v: ValueView) -> bool {
    match (t, v) {
        (FieldTypeView::Str, ValueView::Str(_)) => true,
        (FieldTypeView::Num, ValueView::Num(_)) => true,
        (FieldTypeView::Bin, ValueView::Bin(_)) => true,
        (FieldTypeView::Bool, ValueView::Bool(_)) => true,
        (FieldTypeView::Enum(labels), ValueView::Variant(k)) => k < labels.len(),
        _ => false,
    }
}

/// The attribute value that a value of type `t` is stored as.
pub open spec fn encode_value(t: FieldTypeView, v: ValueView) -> AttrView {
    match v {
        ValueView::Str(s) => AttrView::S(s),
        ValueView::Num(n) => AttrView::N(decimal(n as nat)),
        ValueView::Bin(b) => AttrView::B(b),
        ValueView::Bool(b) => AttrView::Bool(b),
        ValueView::Variant(k) => match t {
            FieldTypeView::Enum(labels) => AttrView::S(labels[k as int]),
            _ => AttrView::Null,
        },
    }
}

/// What reading an attribute value as a value of type `t` gives.
pub open spec fn decode_value(t: FieldTypeView, a: AttrView) -> Result<ValueView, CodecError> {
    match t {
        FieldTypeView::Str => match a {
            AttrView::S(s) => Ok(ValueView::Str(s)),
            _ => Err(CodecError::InvalidType),
        },
        FieldTypeView::Num => match a {
            AttrView::N(t) => match decimal_value_of(t) {
                Some(n) => Ok(ValueView::Num(n)),
                None => Err(CodecError::InvalidFormat),
            },
            _ => Err(CodecError::InvalidType),
        },
        FieldTypeView::Bin => match a {
            AttrView::B(b) => Ok(ValueView::Bin(b)),
            _ => Err(CodecError::InvalidType),
        },
        FieldTypeView::Bool => match a {
            AttrView::Bool(b) => Ok(ValueView::Bool(b)),
            _ => Err(CodecError::InvalidType),
        },
        FieldTypeView::Enum(labels) => match decode_variant(labels, a) {
            Ok(k) => Ok(ValueView::Variant(k)),
            Err(e) => Err(e),
        },
    }
}

impl FieldType {
    /// A field type with the same content.
    pub fn copy(&self) -> (r: FieldType)
        ensures
            r@ == self@,
    {
        match self {
            FieldType::Str => FieldType::Str,
            FieldType::Num => FieldType::Num,
            FieldType::Bin => FieldType::Bin,
            FieldType::Bool => FieldType::Bool,
            FieldType::Enum(c) => FieldType::Enum(c.copy()),
        }
    }

    /// Brings the codec's invariant into view: every field type that exists
    /// has a sound codec.
    pub(crate) fn establish_wf(&self)
        ensures
            type_wf(self@),
    {
        if let FieldType::Enum(c) = self {
            proof {
                use_type_invariant(c);
            }
        }
    }

    /// Whether `v` is a value of this type.
    pub fn admits(&self, v: &Value) -> (r: bool)
        ensures
            r == admits(self@, v@),
    {
        match (self, v) {
            (FieldType::Str, Value::Str(_)) => true,
            (FieldType::Num, Value::Num(_)) => true,
            (FieldType::Bin, Value::Bin(_)) => true,
            (FieldType::Bool, Value::Bool(_)) => true,
            (FieldType::Enum(c), Value::Variant(k)) => *k < c.len(),
            _ => false,
        }
    }

    /// Encodes a value of this type. Never fails.
    pub fn encode(&self, v: Value) -> (r: AttributeValue)
        requires
            admits(self@, v@),
        ensures
            r@ == encode_value(self@, v@),
    {
        match v {
            Value::Str(s) => AttributeValue::S(s),
            Value::Num(n) => AttributeValue::N(format_decimal(n)),
            Value::Bin(b) => AttributeValue::B(b),
            Value::Bool(b) => AttributeValue::Bool(b),
            Value::Variant(k) => match self {
                FieldType::Enum(c) => c.encode(k),
                _ => AttributeValue::Null,
            },
        }
    }

    /// Decodes an attribute value as a value of this type.
    pub fn decode(&self, a: AttributeValue) -> (r: Result<Value, CodecError>)
        ensures
            match r {
                Ok(v) => decode_value(self@, a@) == Ok::<ValueView, CodecError>(v@),
                Err(e) => decode_value(self@, a@) == Err::<ValueView, CodecError>(e),
            },
    {
        match self {
            FieldType::Str => match a {
                AttributeValue::S(s) => Ok(Value::Str(s)),
                _ => Err(CodecError::InvalidType),
            },
            FieldType::Num => match a {
                AttributeValue::N(t) => match parse_decimal(&t) {
                    Some(n) => Ok(Value::Num(n)),
                    None => Err(CodecError::InvalidFormat),
                },
                _ => Err(CodecError::InvalidType),
            },
            FieldType::Bin => match a {
                AttributeValue::B(b) => Ok(Value::Bin(b)),
                _ => Err(CodecError::InvalidType),
            },
            FieldType::Bool => match a {
                AttributeValue::Bool(b) => Ok(Value::Bool(b)),
                _ => Err(CodecError::InvalidType),
            },
            FieldType::Enum(c) => match c.decode(a) {
                Ok(k) => Ok(Value::Variant(k)),
                Err(e) => Err(e),
            },
        }
    }
}

} // verus!
