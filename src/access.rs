//! Deserializer handles over captured values, and the access to an
//! externally tagged enum value (`"Name"` or `{"Name": payload}`).
use vstd::prelude::*;
use crate::content::{views, Content, Shown, Unexpected, Value};
use crate::error::{outcome, DecodeError, Expected, Fault};
use crate::shape::{decode, decode_value, invalid_type, Shape};

verus! {

/// A captured value handed out once, by value.
#[derive(Debug)]
pub struct ContentDeserializer<'de> {
    pub content: Content<'de>,
}

impl<'de> ContentDeserializer<'de> {
    pub fn new(content: Content<'de>) -> (r: Self)
        ensures
            r.content == content,
    {
        ContentDeserializer { content }
    }

    /// Decodes the held value as type `shape`.
    pub fn deserialize(self, shape: &Shape) -> (r: Result<Content<'de>, DecodeError>)
        ensures
            outcome(r) == decode_value(*shape, self.content@),
    {
        decode(shape, &self.content)
    }
}

/// A captured value lent out, so that it can be decoded again.
#[derive(Debug)]
pub struct ContentRefDeserializer<'a, 'de> {
    pub content: &'a Content<'de>,
}

impl<'a, 'de> ContentRefDeserializer<'a, 'de> {
    pub fn new(content: &'a Content<'de>) -> (r: Self)
        ensures
            r.content == content,
    {
        ContentRefDeserializer { content }
    }

    /// Decodes the lent value as type `shape`.
    pub fn deserialize(&self, shape: &Shape) -> (r: Result<Content<'de>, DecodeError>)
        ensures
            outcome(r) == decode_value(*shape, self.content@),
    {
        decode(shape, self.content)
    }
}

/// An externally tagged enum value split into its variant name and payload.
#[derive(Debug)]
pub struct EnumDeserializer<'de> {
    pub variant: Content<'de>,
    pub value: Option<Content<'de>>,
}

/// The payload of an externally tagged enum value.
#[derive(Debug)]
pub struct VariantDeserializer<'de> {
    pub value: Option<Content<'de>>,
}

/// Splitting an externally tagged enum value: a map of exactly one entry
/// gives the key as variant and the value as payload; a string is a variant
/// without payload.
pub open spec fn enum_parts(v: Value) -> Result<(Value, Option<Value>), Fault> {
    match v {
        Value::Mapping(entries) => if entries.len() == 1 {
            Ok((entries[0].0, Some(entries[0].1)))
        } else {
            Err(Fault::InvalidValue { unexpected: Shown::Mapping, expected: Expected::SingleKeyMap })
        },
        Value::String(_) => Ok((v, None)),
        Value::Str(_) => Ok((v, None)),
        _ => Err(invalid_type(v, Expected::StringOrMap)),
    }
}

pub open spec fn payload_view<'de>(p: Option<Content<'de>>) -> Option<Value> {
    match p {
        Some(c) => Some(c@),
        None => None,
    }
}

/// The failure for a payload of the wrong kind.
pub open spec fn payload_refusal(p: Option<Value>, expected: Expected) -> Fault {
    match p {
        Some(v) => invalid_type(v, expected),
        None => Fault::InvalidType { unexpected: Shown::UnitVariant, expected },
    }
}

impl<'de> EnumDeserializer<'de> {
    pub fn new(variant: Content<'de>, value: Option<Content<'de>>) -> (r: Self)
        ensures
            r.variant == variant,
            r.value == value,
    {
        EnumDeserializer { variant, value }
    }

    /// Splits an externally tagged enum value.
    pub fn from_content(c: Content<'de>) -> (r: Result<Self, DecodeError>)
        ensures
            match r {
                Ok(d) => enum_parts(c@) == Ok::<(Value, Option<Value>), Fault>(
                    (d.variant@, payload_view(d.value)),
                ),
                Err(e) => enum_parts(c@) == Err::<(Value, Option<Value>), Fault>(e@),
            },
    {
        let ghost whole = c@;
        match c {
            Content::Mapping(entries) => {
                proof {
                    crate::content::lemma_entry_views_index(entries@);
                }
                if entries.len() == 1 {
                    let mut entries = entries;
                    let (k, v) = entries.remove(0);
                    Ok(EnumDeserializer { variant: k, value: Some(v) })
                } else {
                    Err(
                        DecodeError::InvalidValue {
                            unexpected: Unexpected::Mapping,
                            expected: Expected::SingleKeyMap,
                        },
                    )
                }
            },
            Content::String(s) => Ok(EnumDeserializer { variant: Content::String(s), value: None }),
            Content::Str(s) => Ok(EnumDeserializer { variant: Content::Str(s), value: None }),
            other => Err(
                DecodeError::InvalidType { unexpected: other.unexpected(), expected: Expected::StringOrMap },
            ),
        }
    }

    /// The variant name, and access to the payload.
    pub fn variant_seed(self) -> (r: (Content<'de>, VariantDeserializer<'de>))
        ensures
            r.0 == self.variant,
            r.1.value == self.value,
    {
        (self.variant, VariantDeserializer { value: self.value })
    }
}

fn refuse_payload(p: &Option<Content>, expected: Expected) -> (r: DecodeError)
    ensures
        r@ == payload_refusal(payload_view(*p), expected),
{
    match p {
        Some(c) => DecodeError::InvalidType { unexpected: c.unexpected(), expected },
        None => DecodeError::InvalidType { unexpected: Unexpected::UnitVariant, expected },
    }
}

impl<'de> VariantDeserializer<'de> {
    /// A unit variant takes no payload, or a unit one.
    pub fn unit_variant(&self) -> (r: Result<(), DecodeError>)
        ensures
            match payload_view(self.value) {
                None => r is Ok,
                Some(v) => match decode_value(Shape::Unit, v) {
                    Ok(_) => r is Ok,
                    Err(f) => (r matches Err(e) && e@ == f),
                },
            },
    {
        match &self.value {
            Some(v) => match decode(&Shape::Unit, v) {
                Ok(_) => Ok(()),
                Err(e) => Err(e),
            },
            None => Ok(()),
        }
    }

    /// A newtype variant needs a payload.
    pub fn newtype_variant(self) -> (r: Result<Content<'de>, DecodeError>)
        ensures
            match self.value {
                Some(c) => r == Ok::<Content<'de>, DecodeError>(c),
                None => (r matches Err(e) && e@ == payload_refusal(None, Expected::NewtypeVariantValue)),
            },
    {
        match self.value {
            Some(value) => Ok(value),
            None => Err(
                DecodeError::InvalidType {
                    unexpected: Unexpected::UnitVariant,
                    expected: Expected::NewtypeVariantValue,
                },
            ),
        }
    }

    /// A tuple variant needs a sequence payload; its elements are returned.
    pub fn tuple_variant(self) -> (r: Result<Vec<Content<'de>>, DecodeError>)
        ensures
            match payload_view(self.value) {
                Some(Value::Sequence(items)) => (r matches Ok(v) && views(v@) == items),
                p => (r matches Err(e) && e@ == payload_refusal(p, Expected::TupleVariantValue)),
            },
    {
        match self.value {
            Some(Content::Sequence(v)) => Ok(v),
            other => Err(refuse_payload(&other, Expected::TupleVariantValue)),
        }
    }

    /// A struct variant needs a map or sequence payload, returned whole.
    pub fn struct_variant(self) -> (r: Result<Content<'de>, DecodeError>)
        ensures
            match payload_view(self.value) {
                Some(Value::Mapping(_)) => r == Ok::<Content<'de>, DecodeError>(self.value->0),
                Some(Value::Sequence(_)) => r == Ok::<Content<'de>, DecodeError>(self.value->0),
                p => (r matches Err(e) && e@ == payload_refusal(p, Expected::StructVariantValue)),
            },
    {
        match self.value {
            Some(Content::Mapping(v)) => Ok(Content::Mapping(v)),
            Some(Content::Sequence(v)) => Ok(Content::Sequence(v)),
            other => Err(refuse_payload(&other, Expected::StructVariantValue)),
        }
    }
}

} // verus!
