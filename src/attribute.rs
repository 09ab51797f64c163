//! Attribute values, the tagged scalars and collections that records map to,
//! and the errors raised when turning them back into native values.
use vstd::prelude::*;

verus! {

/// A tagged value understood by the storage host.
#[derive(Debug, PartialEq, Eq)]
pub enum AttributeValue {
    /// A string.
    S(String),
    /// A number, in its decimal text form.
    N(String),
    /// Binary data.
    B(Vec<u8>),
    /// A boolean.
    Bool(bool),
    /// A set of strings.
    SS(Vec<String>),
    /// A list of values.
    L(Vec<AttributeValue>),
    /// A nested map, as key / value pairs.
    M(Vec<(String, AttributeValue)>),
    /// The null value.
    Null,
}

/// Why an attribute value could not be decoded into a native value.
#[derive(Debug, Clone, Copy, PartialEq, Eq, Structural)]
pub enum CodecError {
    /// The value carries a variant other than the one the type is stored as.
    InvalidType,
    /// The value has the expected variant but its payload is not acceptable.
    InvalidFormat,
}

/// Why an attribute map could not be turned into a record.
#[derive(Debug, PartialEq, Eq)]
pub enum MappingError {
    /// The map holds no value under a declared field name.
    MissingField { name: String },
    /// The value under a declared field name failed to decode.
    InvalidField { name: String, cause: CodecError },
}

} // verus!

verus! {

/// The mathematical content of an [`AttributeValue`].
pub enum AttrView {
    S(Seq<char>),
    N(Seq<char>),
    B(Seq<u8>),
    Bool(bool),
    SS(Seq<Seq<char>>),
    L(Seq<AttrView>),
    M(Seq<(Seq<char>, AttrView)>),
    Null,
}

/// The content of an attribute value.
pub open spec fn attr_view(a: AttributeValue) -> AttrView
    decreases a,
{
    match a {
        AttributeValue::S(s) => AttrView::S(s@),
        AttributeValue::N(s) => AttrView::N(s@),
        AttributeValue::B(b) => AttrView::B(b@),
        AttributeValue::Bool(b) => AttrView::Bool(b),
        AttributeValue::SS(v) => AttrView::SS(Seq::new(v@.len(), |i: int| v@[i]@)),
        AttributeValue::L(v) => AttrView::L(
            Seq::new(v@.len(), |i: int| if 0 <= i < v@.len() { attr_view(v@[i]) } else { AttrView::Null }),
        ),
        AttributeValue::M(v) => AttrView::M(
            Seq::new(
                v@.len(),
                |i: int|
                    if 0 <= i < v@.len() {
                        (v@[i].0@, attr_view(v@[i].1))
                    } else {
                        (Seq::empty(), AttrView::Null)
                    },
            ),
        ),
        AttributeValue::Null => AttrView::Null,
    }
}

impl View for AttributeValue {
    type V = AttrView;

    open spec fn view(&self) -> AttrView {
        attr_view(*self)
    }
}

/// The mathematical content of a [`MappingError`].
pub enum MappingErrorView {
    MissingField(Seq<char>),
    InvalidField(Seq<char>, CodecError),
}

impl View for MappingError {
    type V = MappingErrorView;

    open spec fn view(&self) -> MappingErrorView {
        match self {
            MappingError::MissingField { name } => MappingErrorView::MissingField(name@),
            MappingError::InvalidField { name, cause } => MappingErrorView::InvalidField(
                name@,
                *cause,
            ),
        }
    }
}

} // verus!
