//! Errors that decoding and variant resolution report.
use vstd::prelude::*;
use crate::content::{Shown, Unexpected};
use crate::shape::IntKind;

verus! {

/// What a failed decode was looking for.
#[derive(Clone, Copy, Debug, PartialEq, Eq, Structural)]
pub enum Expected {
    Bool,
    Int(IntKind),
    Char,
    Str,
    Unit,
    Optional,
    Sequence,
    Tuple(usize),
    Mapping,
    /// A sequence of exactly this many elements.
    ElementsInSequence(usize),
    FieldIdentifier,
    /// The struct-shaped variant at this position of its union.
    StructVariant(usize),
    /// The tuple-shaped variant at this position of its union.
    TupleVariant(usize),
    /// A map, or a scalar that the union's catch-all variant takes.
    Union,
    UnitVariant,
    /// One of the two field names of an adjacently tagged value.
    TagOrContent,
    /// A map with a single entry.
    SingleKeyMap,
    /// A string or a map.
    StringOrMap,
    /// The payload of a newtype variant.
    NewtypeVariantValue,
    /// The payload of a tuple variant.
    TupleVariantValue,
    /// The payload of a struct variant.
    StructVariantValue,
}

/// A decode or resolution failure.
#[derive(Debug, PartialEq)]
pub enum DecodeError {
    /// The value has the wrong kind for the target.
    InvalidType { unexpected: Unexpected, expected: Expected },
    /// The value has the right kind but cannot be represented by the target.
    InvalidValue { unexpected: Unexpected, expected: Expected },
    /// A sequence has the wrong number of elements.
    InvalidLength { len: usize, expected: Expected },
    /// No key of the map decoded as a discriminant and no catch-all exists.
    MissingTag,
    /// A second key decoded as a discriminant, at this entry position.
    DuplicateTag { position: usize },
    /// Neither a tagged candidate nor a structural one took the value.
    NoVariantMatched,
    /// A declared field of the variant appeared twice.
    DuplicateField { variant: usize, field: usize },
    /// A declared field of the variant that cannot be absent did not appear.
    MissingField { variant: usize, field: usize },
    /// A failure after the resolver committed to this variant.
    InVariant { variant: usize, cause: Box<DecodeError> },
}

/// Mathematical model of [`DecodeError`].
pub enum Fault {
    InvalidType { unexpected: Shown, expected: Expected },
    InvalidValue { unexpected: Shown, expected: Expected },
    InvalidLength { len: usize, expected: Expected },
    MissingTag,
    DuplicateTag { position: usize },
    NoVariantMatched,
    DuplicateField { variant: usize, field: usize },
    MissingField { variant: usize, field: usize },
    InVariant { variant: usize, cause: Box<Fault> },
}

impl View for DecodeError {
    type V = Fault;

    open spec fn view(&self) -> Fault
        decreases *self,
    {
        match *self {
            DecodeError::InvalidType { unexpected, expected } => Fault::InvalidType {
                unexpected: unexpected@,
                expected,
            },
            DecodeError::InvalidValue { unexpected, expected } => Fault::InvalidValue {
                unexpected: unexpected@,
                expected,
            },
            DecodeError::InvalidLength { len, expected } => Fault::InvalidLength { len, expected },
            DecodeError::MissingTag => Fault::MissingTag,
            DecodeError::DuplicateTag { position } => Fault::DuplicateTag { position },
            DecodeError::NoVariantMatched => Fault::NoVariantMatched,
            DecodeError::DuplicateField { variant, field } => Fault::DuplicateField { variant, field },
            DecodeError::MissingField { variant, field } => Fault::MissingField { variant, field },
            DecodeError::InVariant { variant, cause } => Fault::InVariant {
                variant,
                cause: Box::new((*cause).view()),
            },
        }
    }
}

/// The model of a decode outcome.
pub open spec fn outcome<T: View>(r: Result<T, DecodeError>) -> Result<T::V, Fault> {
    match r {
        Ok(x) => Ok(x@),
        Err(e) => Err(e@),
    }
}

} // verus!
