//! A union's schema as the resolver reads it, and decoding of a whole input
//! into the selected variant and its field values.
use vstd::prelude::*;
use crate::content::{views, Content, Value};
use crate::error::{DecodeError, Fault};
use crate::keyed::{
    named_fields, resolve_keyed, tag_names, texts, decode_named_fields, Fallthrough, Selected,
    TaggedContentVisitor, Variant,
};
use crate::positional::{resolve_tuple, resolve_tuple_variant, TupleVariant};
use crate::shape::{decode, decode_value};

verus! {

/// How a union's variants are written.
#[derive(Debug)]
pub enum Style {
    /// Tuple-shaped variants, resolved by position.
    Tuple(Vec<TupleVariant>),
    /// Struct-shaped variants, resolved by key, with an optional catch-all.
    Struct { variants: Vec<Variant>, fallthrough: Option<Fallthrough> },
}

/// A union type: its name and its variants in declaration order.
#[derive(Debug)]
pub struct Enum {
    pub ident: String,
    pub vars: Style,
}

/// The outcome of decoding: the variant selected and its field values in
/// declaration order.
#[derive(Debug, PartialEq)]
pub struct Decoded<'de> {
    pub variant: Selected,
    pub fields: Vec<Content<'de>>,
}

/// Decoding `v` as the union `e`.
pub open spec fn decode_union(e: Enum, v: Value) -> Result<(Selected, Seq<Value>), Fault> {
    match e.vars {
        Style::Tuple(vars) => match resolve_tuple(vars@, v) {
            Ok((k, xs)) => Ok((Selected::Variant(k), xs)),
            Err(f) => Err(f),
        },
        Style::Struct { variants, fallthrough } => match resolve_keyed(
            tag_names(variants@),
            fallthrough is Some,
            v,
        ) {
            Err(f) => Err(f),
            Ok((Selected::Variant(k), rest)) => if k < variants@.len() {
                match named_fields(variants@[k as int].fields@, k, rest) {
                    Ok(xs) => Ok((Selected::Variant(k), xs)),
                    Err(f) => Err(f),
                }
            } else {
                Err(Fault::MissingTag)
            },
            Ok((Selected::Fallthrough, rest)) => match fallthrough {
                Some(ft) => match decode_value(ft.field.shape, rest) {
                    Ok(x) => Ok((Selected::Fallthrough, seq![x])),
                    Err(f) => Err(f),
                },
                None => Err(Fault::MissingTag),
            },
        },
    }
}

impl<'de> Decoded<'de> {
    pub open spec fn model(self) -> (Selected, Seq<Value>) {
        (self.variant, views(self.fields@))
    }
}

/// The tag field names of the variants, in order.
fn tags_of(variants: &Vec<Variant>) -> (r: Vec<String>)
    ensures
        texts(r@) == tag_names(variants@),
{
    let mut out: Vec<String> = Vec::new();
    let mut i: usize = 0;
    while i < variants.len()
        invariant
            i <= variants@.len(),
            out@.len() == i,
            forall|j: int| 0 <= j < i ==> #[trigger] out@[j]@ == variants@[j].tag@,
        decreases variants@.len() - i,
    {
        out.push(variants[i].tag.clone());
        i += 1;
    }
    assert(texts(out@) =~= tag_names(variants@));
    out
}

impl Enum {
    /// Decodes a captured input as this union: resolves the variant, then
    /// decodes that variant's fields from the residual value.
    pub fn deserialize<'de>(&self, input: Content<'de>) -> (r: Result<Decoded<'de>, DecodeError>)
        ensures
            match r {
                Ok(d) => decode_union(*self, input@) == Ok::<(Selected, Seq<Value>), Fault>(
                    d.model(),
                ),
                Err(e) => decode_union(*self, input@) == Err::<(Selected, Seq<Value>), Fault>(e@),
            },
    {
        match &self.vars {
            Style::Tuple(vars) => match resolve_tuple_variant(vars, &input) {
                Ok((k, xs)) => Ok(Decoded { variant: Selected::Variant(k), fields: xs }),
                Err(e) => Err(e),
            },
            Style::Struct { variants, fallthrough } => {
                let visitor = TaggedContentVisitor::new(tags_of(variants), fallthrough.is_some());
                match visitor.visit(input) {
                    Err(e) => Err(e),
                    Ok((Selected::Variant(k), rest)) => {
                        match decode_named_fields(&variants[k].fields, k, rest) {
                            Ok(xs) => Ok(Decoded { variant: Selected::Variant(k), fields: xs }),
                            Err(e) => Err(e),
                        }
                    },
                    Ok((Selected::Fallthrough, rest)) => match fallthrough {
                        Some(ft) => match decode(&ft.field.shape, &rest) {
                            Ok(x) => {
                                let mut xs: Vec<Content<'de>> = Vec::new();
                                xs.push(x);
                                proof {
                                    crate::content::lemma_views_push(Seq::empty(), x);
                                    assert(xs@ =~= Seq::<Content<'de>>::empty().push(x));
                                    assert(views(Seq::<Content<'de>>::empty()) == Seq::<Value>::empty());
                                    assert(Seq::<Value>::empty().push(x@) =~= seq![x@]);
                                }
                                Ok(Decoded { variant: Selected::Fallthrough, fields: xs })
                            },
                            Err(e) => Err(e),
                        },
                        None => Err(DecodeError::MissingTag),
                    },
                }
            },
        }
    }
}

} // verus!
