//! Tuple-shaped unions: trial of each candidate's tag position in
//! declaration order, commit on the first success, and the structural
//! fallback over flatten variants.
use vstd::prelude::*;
use crate::content::{views, Content, Value};
use crate::error::{DecodeError, Expected, Fault};
use crate::shape::{decode, decode_tuple, decode_tuple_value, decode_value, Shape};

verus! {

/// A tuple-shaped variant: its field types, the position of the field that
/// identifies it, and whether it is a structural (flatten) variant whose one
/// field takes the whole input.
#[derive(Debug)]
pub struct TupleVariant {
    pub ident: String,
    pub fields: Vec<Shape>,
    pub tag_index: usize,
    pub has_flatten: bool,
}

/// Whether the trial of candidate `var` succeeds on `v`: the element at its
/// tag position exists and decodes as its tag type. A single-field variant
/// also probes a value that is not a sequence as a whole.
pub open spec fn probe(var: TupleVariant, v: Value) -> bool {
    match v {
        Value::Sequence(items) => {
            &&& var.tag_index < var.fields@.len()
            &&& var.tag_index < items.len()
            &&& decode_value(var.fields@[var.tag_index as int], items[var.tag_index as int]) is Ok
        },
        _ => var.fields@.len() == 1 && decode_value(var.fields@[0], v) is Ok,
    }
}

/// Whether flatten variant `var` takes the whole value `v`.
pub open spec fn takes_whole(var: TupleVariant, v: Value) -> bool {
    var.fields@.len() >= 1 && decode_value(var.fields@[0], v) is Ok
}

/// The first tagged candidate, from position `i` on, whose trial succeeds.
pub open spec fn first_candidate(vars: Seq<TupleVariant>, v: Value, i: int) -> Option<usize>
    decreases vars.len() - i,
{
    if i < 0 || i >= vars.len() {
        None
    } else if !vars[i].has_flatten && probe(vars[i], v) {
        Some(i as usize)
    } else {
        first_candidate(vars, v, i + 1)
    }
}

/// The first flatten variant, from position `i` on, that takes `v`.
pub open spec fn first_flatten(vars: Seq<TupleVariant>, v: Value, i: int) -> Option<usize>
    decreases vars.len() - i,
{
    if i < 0 || i >= vars.len() {
        None
    } else if vars[i].has_flatten && takes_whole(vars[i], v) {
        Some(i as usize)
    } else {
        first_flatten(vars, v, i + 1)
    }
}

/// Positional resolution of `v`: the variant selected and its field values.
/// After a commit, a failure is terminal and names the committed variant.
pub open spec fn resolve_tuple(vars: Seq<TupleVariant>, v: Value) -> Result<
    (usize, Seq<Value>),
    Fault,
> {
    match first_candidate(vars, v, 0) {
        Some(k) => match v {
            Value::Sequence(_) => match decode_tuple(
                vars[k as int].fields@,
                v,
                Expected::TupleVariant(k),
                Some(k),
            ) {
                Ok(Value::Sequence(xs)) => Ok((k, xs)),
                Ok(_) => Err(Fault::NoVariantMatched),
                Err(e) => Err(e),
            },
            _ => match decode_value(vars[k as int].fields@[0], v) {
                Ok(x) => Ok((k, seq![x])),
                Err(e) => Err(e),
            },
        },
        None => match first_flatten(vars, v, 0) {
            Some(k) => match decode_value(vars[k as int].fields@[0], v) {
                Ok(x) => Ok((k, seq![x])),
                Err(e) => Err(e),
            },
            None => Err(Fault::NoVariantMatched),
        },
    }
}

fn single<'de>(x: Content<'de>) -> (r: Vec<Content<'de>>)
    ensures
        views(r@) == seq![x@],
{
    let mut out: Vec<Content<'de>> = Vec::new();
    out.push(x);
    proof {
        crate::content::lemma_views_push(Seq::empty(), x);
        assert(views(Seq::<Content<'de>>::empty()) == Seq::<Value>::empty());
        assert(out@ =~= Seq::<Content<'de>>::empty().push(x));
        assert(Seq::<Value>::empty().push(x@) =~= seq![x@]);
    }
    out
}

/// Runs the trial of candidate `var` on `c`.
pub fn probe_variant(var: &TupleVariant, c: &Content) -> (r: bool)
    ensures
        r == probe(*var, c@),
{
    match c {
        Content::Sequence(items) => {
            proof {
                crate::content::lemma_views_index(items@);
            }
            if var.tag_index < var.fields.len() && var.tag_index < items.len() {
                decode(&var.fields[var.tag_index], &items[var.tag_index]).is_ok()
            } else {
                false
            }
        },
        _ => var.fields.len() == 1 && decode(&var.fields[0], c).is_ok(),
    }
}

/// Resolves tuple-shaped input against `variants` and decodes the fields of
/// the variant selected.
pub fn resolve_tuple_variant<'de>(variants: &Vec<TupleVariant>, input: &Content<'de>) -> (r: Result<
    (usize, Vec<Content<'de>>),
    DecodeError,
>)
    ensures
        match r {
            Ok((k, xs)) => resolve_tuple(variants@, input@) == Ok::<(usize, Seq<Value>), Fault>(
                (k, views(xs@)),
            ),
            Err(e) => resolve_tuple(variants@, input@) == Err::<(usize, Seq<Value>), Fault>(e@),
        },
{
    let mut i: usize = 0;
    while i < variants.len()
        invariant
            i <= variants@.len(),
            first_candidate(variants@, input@, 0) == first_candidate(variants@, input@, i as int),
        decreases variants@.len() - i,
    {
        let var = &variants[i];
        if !var.has_flatten && probe_variant(var, input) {
            match input {
                Content::Sequence(_) => {
                    let decoded = decode_tuple_value(
                        &var.fields,
                        input,
                        Expected::TupleVariant(i),
                        Some(i),
                    );
                    return match decoded {
                        Ok(Content::Sequence(xs)) => {
                            proof {
                                crate::content::lemma_views_index(xs@);
                            }
                            Ok((i, xs))
                        },
                        Ok(_) => Err(DecodeError::NoVariantMatched),
                        Err(e) => Err(e),
                    };
                },
                _ => {
                    return match decode(&var.fields[0], input) {
                        Ok(x) => {
                            let out = single(x);
                            Ok((i, out))
                        },
                        Err(e) => Err(e),
                    };
                },
            }
        }
        i += 1;
    }
    let mut j: usize = 0;
    while j < variants.len()
        invariant
            j <= variants@.len(),
            first_candidate(variants@, input@, 0) is None,
            first_flatten(variants@, input@, 0) == first_flatten(variants@, input@, j as int),
        decreases variants@.len() - j,
    {
        let var = &variants[j];
        if var.has_flatten && var.fields.len() >= 1 {
            match decode(&var.fields[0], input) {
                Ok(x) => {
                    let out = single(x);
                    return Ok((j, out));
                },
                Err(_) => {},
            }
        }
        j += 1;
    }
    Err(DecodeError::NoVariantMatched)
}

} // verus!
