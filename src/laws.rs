//! Properties of resolution that hold for every input.
use vstd::prelude::*;
use crate::content::Value;
use crate::error::{Expected, Fault};
use crate::keyed::{
    field_key, field_names, fill_slots, find_from, finish_slots, key_tag, named_fields,
    resolve_keyed, scan_tags, tag_names, Field, Selected, Variant,
};
use crate::union::{decode_union, Enum, Style};
use crate::positional::{first_candidate, probe, resolve_tuple, TupleVariant};
use crate::shape::{
    decode_entries, decode_fields, decode_items, decode_key, decode_tuple, decode_value, int_of,
    int_value, Shape,
};

verus! {

proof fn lemma_scan_none(tags: Seq<Seq<char>>, entries: Seq<(Value, Value)>, n: int)
    requires
        0 <= n <= entries.len(),
        forall|j: int| 0 <= j < n ==> key_tag(tags, #[trigger] entries[j].0) is None,
    ensures
        scan_tags(tags, entries.take(n)) == Ok::<Option<usize>, Fault>(None),
    decreases n,
{
    if n > 0 {
        assert(entries.take(n).drop_last() =~= entries.take(n - 1));
        lemma_scan_none(tags, entries, n - 1);
    }
}

proof fn lemma_scan_one(tags: Seq<Seq<char>>, entries: Seq<(Value, Value)>, p: int, n: int)
    requires
        0 <= p < n <= entries.len(),
        key_tag(tags, entries[p].0) is Some,
        forall|j: int| 0 <= j < n && j != p ==> key_tag(tags, #[trigger] entries[j].0) is None,
    ensures
        scan_tags(tags, entries.take(n)) == Ok::<Option<usize>, Fault>(key_tag(tags, entries[p].0)),
    decreases n,
{
    assert(entries.take(n).drop_last() =~= entries.take(n - 1));
    if n - 1 == p {
        lemma_scan_none(tags, entries, p);
    } else {
        lemma_scan_one(tags, entries, p, n - 1);
    }
}

/// A map with exactly one key that names a tag resolves to that tag, and its
/// residual is the whole map, every entry kept in input order.
pub proof fn lemma_single_tag_resolves(
    tags: Seq<Seq<char>>,
    fallthrough: bool,
    entries: Seq<(Value, Value)>,
    p: int,
)
    requires
        0 <= p < entries.len(),
        key_tag(tags, entries[p].0) is Some,
        forall|j: int|
            0 <= j < entries.len() && j != p ==> key_tag(tags, #[trigger] entries[j].0) is None,
    ensures
        resolve_keyed(tags, fallthrough, Value::Mapping(entries)) == Ok::<(Selected, Value), Fault>(
            (Selected::Variant(key_tag(tags, entries[p].0)->0), Value::Mapping(entries)),
        ),
{
    lemma_scan_one(tags, entries, p, entries.len() as int);
    assert(entries.take(entries.len() as int) =~= entries);
}

/// A map with no key that names a tag fails with a missing tag, unless the
/// union has a catch-all, which then takes the whole map.
pub proof fn lemma_no_tag_falls_through(
    tags: Seq<Seq<char>>,
    fallthrough: bool,
    entries: Seq<(Value, Value)>,
)
    requires
        forall|j: int| 0 <= j < entries.len() ==> key_tag(tags, #[trigger] entries[j].0) is None,
    ensures
        !fallthrough ==> resolve_keyed(tags, fallthrough, Value::Mapping(entries)) == Err::<
            (Selected, Value),
            Fault,
        >(Fault::MissingTag),
        fallthrough ==> resolve_keyed(tags, fallthrough, Value::Mapping(entries)) == Ok::<
            (Selected, Value),
            Fault,
        >((Selected::Fallthrough, Value::Mapping(entries))),
{
    lemma_scan_none(tags, entries, entries.len() as int);
    assert(entries.take(entries.len() as int) =~= entries);
}

proof fn lemma_scan_two(tags: Seq<Seq<char>>, entries: Seq<(Value, Value)>, p: int, q: int, n: int)
    requires
        0 <= p < q < n <= entries.len(),
        key_tag(tags, entries[p].0) is Some,
        key_tag(tags, entries[q].0) is Some,
        forall|j: int| 0 <= j < q && j != p ==> key_tag(tags, #[trigger] entries[j].0) is None,
    ensures
        scan_tags(tags, entries.take(n)) == Err::<Option<usize>, Fault>(
            Fault::DuplicateTag { position: q as usize },
        ),
    decreases n,
{
    assert(entries.take(n).drop_last() =~= entries.take(n - 1));
    if n - 1 == q {
        lemma_scan_one(tags, entries, p, q);
    } else {
        lemma_scan_two(tags, entries, p, q, n - 1);
    }
}

/// A map with two or more keys that name tags fails with a duplicate tag,
/// which cites the second such key in input order.
pub proof fn lemma_two_tags_conflict(
    tags: Seq<Seq<char>>,
    fallthrough: bool,
    entries: Seq<(Value, Value)>,
    p: int,
    q: int,
)
    requires
        0 <= p < q < entries.len(),
        key_tag(tags, entries[p].0) is Some,
        key_tag(tags, entries[q].0) is Some,
        forall|j: int| 0 <= j < q && j != p ==> key_tag(tags, #[trigger] entries[j].0) is None,
    ensures
        resolve_keyed(tags, fallthrough, Value::Mapping(entries)) == Err::<(Selected, Value), Fault>(
            Fault::DuplicateTag { position: q as usize },
        ),
{
    lemma_scan_two(tags, entries, p, q, entries.len() as int);
    assert(entries.take(entries.len() as int) =~= entries);
}

proof fn lemma_candidate_at_most(vars: Seq<TupleVariant>, v: Value, a: int, i: int)
    requires
        0 <= i <= a < vars.len() <= usize::MAX,
        !vars[a].has_flatten,
        probe(vars[a], v),
    ensures
        first_candidate(vars, v, i) matches Some(k) && i <= k <= a,
    decreases a - i,
{
    if i < a && !(!vars[i].has_flatten && probe(vars[i], v)) {
        lemma_candidate_at_most(vars, v, a, i + 1);
    }
}

/// Once a tagged candidate's trial succeeds, no later candidate is ever
/// selected: resolution commits to that candidate or to an earlier one, and
/// its outcome, success or failure, is that commit's.
pub proof fn lemma_earlier_candidate_wins(vars: Seq<TupleVariant>, v: Value, a: int, b: int)
    requires
        0 <= a < b < vars.len() <= usize::MAX,
        !vars[a].has_flatten,
        probe(vars[a], v),
    ensures
        first_candidate(vars, v, 0) matches Some(k) && k <= a,
        resolve_tuple(vars, v) matches Ok((k, _)) ==> k != b && k <= a,
{
    lemma_candidate_at_most(vars, v, a, 0);
}


/// Whether `v` is the canonical value of type `shape`: the form in which
/// decoding produces values of that type.
pub open spec fn conforms(shape: Shape, v: Value) -> bool
    decreases shape,
{
    match shape {
        Shape::Any => true,
        Shape::Bool => v is Bool,
        Shape::Int(k) => int_of(v) matches Some(x) && k.holds(x) && v == int_value(k, x),
        Shape::Char => v is Char,
        Shape::Str => v is String,
        Shape::Unit => v is Unit,
        Shape::Optional(inner) => match v {
            Value::Absent => true,
            Value::Present(x) => conforms(*inner, *x),
            _ => false,
        },
        Shape::Sequence(inner) => match v {
            Value::Sequence(items) => forall|i: int|
                0 <= i < items.len() ==> conforms(*inner, #[trigger] items[i]),
            _ => false,
        },
        Shape::Tuple(shapes) => match v {
            Value::Sequence(items) => items.len() == shapes@.len() && forall|i: int|
                0 <= i < items.len() ==> conforms(shapes@[i], #[trigger] items[i]),
            _ => false,
        },
        Shape::Mapping(ks, vs) => match v {
            Value::Mapping(entries) => forall|i: int|
                0 <= i < entries.len() ==> conforms(*ks, (#[trigger] entries[i]).0) && conforms(
                    *vs,
                    entries[i].1,
                ),
            _ => false,
        },
    }
}

proof fn lemma_items_canonical(parent: Shape, items: Seq<Value>, n: int)
    requires
        parent is Sequence,
        0 <= n <= items.len(),
        forall|i: int| 0 <= i < items.len() ==> conforms(*parent->Sequence_0, #[trigger] items[i]),
    ensures
        decode_items(parent, items.take(n)) == Ok::<Seq<Value>, Fault>(items.take(n)),
    decreases parent, 1nat, n,
{
    if n > 0 {
        assert(items.take(n).drop_last() =~= items.take(n - 1));
        assert(items.take(n).last() == items[n - 1]);
        lemma_items_canonical(parent, items, n - 1);
        lemma_decode_canonical(*parent->Sequence_0, items[n - 1]);
        assert(items.take(n - 1).push(items[n - 1]) =~= items.take(n));
    } else {
        assert(items.take(0) =~= Seq::<Value>::empty());
    }
}

proof fn lemma_entries_canonical(parent: Shape, entries: Seq<(Value, Value)>, n: int)
    requires
        parent is Mapping,
        0 <= n <= entries.len(),
        forall|i: int|
            0 <= i < entries.len() ==> conforms(*parent->Mapping_0, (#[trigger] entries[i]).0)
                && conforms(*parent->Mapping_1, entries[i].1),
    ensures
        decode_entries(parent, entries.take(n)) == Ok::<Seq<(Value, Value)>, Fault>(
            entries.take(n),
        ),
    decreases parent, 1nat, n,
{
    if n > 0 {
        assert(entries.take(n).drop_last() =~= entries.take(n - 1));
        assert(entries.take(n).last() == entries[n - 1]);
        lemma_entries_canonical(parent, entries, n - 1);
        lemma_key_canonical(*parent->Mapping_0, entries[n - 1].0);
        lemma_decode_canonical(*parent->Mapping_1, entries[n - 1].1);
        assert(entries.take(n - 1).push((entries[n - 1].0, entries[n - 1].1)) =~= entries.take(n));
    } else {
        assert(entries.take(0) =~= Seq::<(Value, Value)>::empty());
    }
}

proof fn lemma_key_canonical(shape: Shape, k: Value)
    requires
        conforms(shape, k),
    ensures
        decode_key(shape, k) == Ok::<Value, Fault>(k),
    decreases shape, 3nat, 0nat,
{
    lemma_decode_canonical(shape, k);
}

proof fn lemma_fields_canonical(
    shapes: Seq<Shape>,
    items: Seq<Value>,
    n: nat,
    expected: Expected,
    wrap: Option<usize>,
)
    requires
        n <= shapes.len(),
        items.len() == shapes.len(),
        forall|i: int| 0 <= i < items.len() ==> conforms(shapes[i], #[trigger] items[i]),
    ensures
        decode_fields(shapes, items, n, expected, wrap) == Ok::<Seq<Value>, Fault>(
            items.take(n as int),
        ),
    decreases shapes, 1nat, n,
{
    if n > 0 {
        lemma_fields_canonical(shapes, items, (n - 1) as nat, expected, wrap);
        lemma_decode_canonical(shapes[n - 1], items[n - 1]);
        assert(decode_value(shapes[n - 1], items[n - 1]) == Ok::<Value, Fault>(items[n - 1]));
        assert(!(n - 1 >= items.len()));
        assert(items.take(n - 1).push(items[n - 1]) =~= items.take(n as int));
    } else {
        assert(items.take(0) =~= Seq::<Value>::empty());
    }
}

/// Decoding a canonical value of a type gives back that very value.
pub proof fn lemma_decode_canonical(shape: Shape, v: Value)
    requires
        conforms(shape, v),
    ensures
        decode_value(shape, v) == Ok::<Value, Fault>(v),
    decreases shape, 2nat, 0nat,
{
    match shape {
        Shape::Optional(inner) => {
            if let Value::Present(x) = v {
                lemma_decode_canonical(*inner, *x);
                assert(decode_value(*inner, *x) == Ok::<Value, Fault>(*x));
                assert(Value::Present(Box::new(*x)) == v);
                assert(decode_value(shape, v) == Ok::<Value, Fault>(Value::Present(Box::new(*x))));
            } else {
                assert(v is Absent);
                assert(decode_value(shape, v) == Ok::<Value, Fault>(Value::Absent));
            }
        },
        Shape::Sequence(inner) => {
            if let Value::Sequence(items) = v {
                lemma_items_canonical(shape, items, items.len() as int);
                assert(items.take(items.len() as int) =~= items);
                assert(decode_value(shape, v) == Ok::<Value, Fault>(v));
            }
        },
        Shape::Tuple(shapes) => {
            if let Value::Sequence(items) = v {
                lemma_fields_canonical(
                    shapes@,
                    items,
                    shapes@.len(),
                    Expected::Tuple(shapes@.len() as usize),
                    None,
                );
                assert(items.take(items.len() as int) =~= items);
                assert(decode_tuple(shapes@, v, Expected::Tuple(shapes@.len() as usize), None)
                    == Ok::<Value, Fault>(v));
                assert(decode_value(shape, v) == Ok::<Value, Fault>(v));
            }
        },
        Shape::Mapping(_, _) => {
            if let Value::Mapping(entries) = v {
                lemma_entries_canonical(shape, entries, entries.len() as int);
                assert(entries.take(entries.len() as int) =~= entries);
                assert(decode_value(shape, v) == Ok::<Value, Fault>(v));
            }
        },
        Shape::Int(k) => {
            assert(int_of(v) is Some);
        },
        _ => {},
    }
}

/// How a tuple-shaped variant with field values `xs` is written: one field
/// bare, several as a sequence.
pub open spec fn encode_tuple(var: TupleVariant, xs: Seq<Value>) -> Value {
    if var.fields@.len() == 1 {
        xs[0]
    } else {
        Value::Sequence(xs)
    }
}

proof fn lemma_candidate_is(vars: Seq<TupleVariant>, v: Value, k: int, i: int)
    requires
        0 <= i <= k < vars.len() <= usize::MAX,
        !vars[k].has_flatten,
        probe(vars[k], v),
        forall|j: int| 0 <= j < k ==> !(!vars[j].has_flatten && #[trigger] probe(vars[j], v)),
    ensures
        first_candidate(vars, v, i) == Some(k as usize),
    decreases k - i,
{
    if i < k {
        lemma_candidate_is(vars, v, k, i + 1);
    }
}

/// Round trip: writing a tagged variant's canonical field values and
/// decoding the result gives back that variant and those values, unless an
/// earlier candidate's trial also succeeds on it (the overlap hazard).
pub proof fn lemma_tuple_round_trip(vars: Seq<TupleVariant>, k: int, xs: Seq<Value>)
    requires
        0 <= k < vars.len() <= usize::MAX,
        !vars[k].has_flatten,
        vars[k].tag_index < vars[k].fields@.len(),
        xs.len() == vars[k].fields@.len(),
        forall|i: int| 0 <= i < xs.len() ==> conforms(vars[k].fields@[i], #[trigger] xs[i]),
        vars[k].fields@.len() == 1 ==> xs[0] !is Sequence,
        forall|j: int|
            0 <= j < k ==> !(!vars[j].has_flatten && #[trigger] probe(
                vars[j],
                encode_tuple(vars[k], xs),
            )),
    ensures
        resolve_tuple(vars, encode_tuple(vars[k], xs)) == Ok::<(usize, Seq<Value>), Fault>(
            (k as usize, xs),
        ),
{
    let var = vars[k];
    let v = encode_tuple(var, xs);
    lemma_decode_canonical(var.fields@[var.tag_index as int], xs[var.tag_index as int]);
    lemma_candidate_is(vars, v, k, 0);
    if var.fields@.len() != 1 {
        lemma_fields_canonical(
            var.fields@,
            xs,
            var.fields@.len(),
            Expected::TupleVariant(k as usize),
            Some(k as usize),
        );
        assert(xs.take(xs.len() as int) =~= xs);
    } else {
        assert(seq![xs[0]] =~= xs);
    }
}


/// How a struct-shaped variant with field values `xs` is written: a map from
/// each field's name to its value, in declaration order.
pub open spec fn encode_struct(fields: Seq<Field>, xs: Seq<Value>) -> Value {
    Value::Mapping(Seq::new(fields.len(), |j: int| (Value::String(fields[j].ident@), xs[j])))
}

/// The struct-shaped variants of a union.
pub open spec fn struct_variants(e: Enum) -> Seq<Variant> {
    match e.vars {
        Style::Struct { variants, .. } => variants@,
        _ => Seq::empty(),
    }
}

proof fn lemma_find_unique(names: Seq<Seq<char>>, n: int, i: int)
    requires
        0 <= i <= n < names.len(),
        forall|a: int, b: int| 0 <= a < b < names.len() ==> names[a] != names[b],
    ensures
        find_from(names, names[n], i) == Some(n as usize),
    decreases n - i,
{
    if i < n {
        lemma_find_unique(names, n, i + 1);
    }
}

pub open spec fn filled_slots(xs: Seq<Value>, len: int, n: int) -> Seq<Option<Value>> {
    Seq::new(len as nat, |j: int| if j < n { Some(xs[j]) } else { None })
}

proof fn lemma_fill_all(fields: Seq<Field>, variant: usize, xs: Seq<Value>, n: int)
    requires
        0 <= n <= fields.len() <= usize::MAX,
        xs.len() == fields.len(),
        forall|a: int, b: int|
            0 <= a < b < fields.len() ==> fields[a].ident@ != fields[b].ident@,
        forall|j: int| 0 <= j < xs.len() ==> conforms(fields[j].shape, #[trigger] xs[j]),
    ensures
        fill_slots(fields, variant, encode_struct(fields, xs)->Mapping_0.take(n)) == Ok::<
            Seq<Option<Value>>,
            Fault,
        >(filled_slots(xs, fields.len() as int, n)),
    decreases n,
{
    let entries = encode_struct(fields, xs)->Mapping_0;
    if n == 0 {
        assert(entries.take(0) =~= Seq::<(Value, Value)>::empty());
        assert(filled_slots(xs, fields.len() as int, 0) =~= Seq::new(
            fields.len(),
            |i: int| None::<Value>,
        ));
    } else {
        lemma_fill_all(fields, variant, xs, n - 1);
        assert(entries.take(n).drop_last() =~= entries.take(n - 1));
        let names = field_names(fields);
        assert forall|a: int, b: int| 0 <= a < b < names.len() implies names[a] != names[b] by {
            assert(names[a] == fields[a].ident@ && names[b] == fields[b].ident@);
        }
        lemma_find_unique(names, n - 1, 0);
        assert(entries.take(n).last() == (Value::String(fields[n - 1].ident@), xs[n - 1]));
        assert(field_key(names, Value::String(fields[n - 1].ident@)) == Ok::<Option<usize>, Fault>(
            Some((n - 1) as usize),
        ));
        lemma_decode_canonical(fields[n - 1].shape, xs[n - 1]);
        assert(filled_slots(xs, fields.len() as int, n - 1).update(n - 1, Some(xs[n - 1]))
            =~= filled_slots(xs, fields.len() as int, n));
    }
}

proof fn lemma_finish_all(fields: Seq<Field>, variant: usize, xs: Seq<Value>, n: nat)
    requires
        n <= fields.len(),
        xs.len() == fields.len(),
    ensures
        finish_slots(fields, variant, filled_slots(xs, fields.len() as int, fields.len() as int), n)
            == Ok::<Seq<Value>, Fault>(xs.take(n as int)),
    decreases n,
{
    if n > 0 {
        lemma_finish_all(fields, variant, xs, (n - 1) as nat);
        assert(xs.take(n - 1).push(xs[n - 1]) =~= xs.take(n as int));
    } else {
        assert(xs.take(0) =~= Seq::<Value>::empty());
    }
}

/// Round trip: writing a struct-shaped variant's canonical field values as a
/// map and decoding it gives back that variant and those values, as long as
/// the variant's field names are distinct and the only key that names a tag
/// is its own tag field (else the overlap hazard applies).
pub proof fn lemma_struct_round_trip(e: Enum, k: int, t: int, xs: Seq<Value>)
    requires
        e.vars is Struct,
        0 <= k < struct_variants(e).len() <= usize::MAX,
        0 <= t < struct_variants(e)[k].fields@.len() <= usize::MAX,
        xs.len() == struct_variants(e)[k].fields@.len(),
        forall|a: int, b: int|
            0 <= a < b < xs.len() ==> struct_variants(e)[k].fields@[a].ident@
                != struct_variants(e)[k].fields@[b].ident@,
        forall|j: int|
            0 <= j < xs.len() ==> conforms(
                struct_variants(e)[k].fields@[j].shape,
                #[trigger] xs[j],
            ),
        key_tag(
            tag_names(struct_variants(e)),
            Value::String(struct_variants(e)[k].fields@[t].ident@),
        ) == Some(k as usize),
        forall|j: int|
            0 <= j < xs.len() && j != t ==> key_tag(
                tag_names(struct_variants(e)),
                Value::String(#[trigger] struct_variants(e)[k].fields@[j].ident@),
            ) is None,
    ensures
        decode_union(e, encode_struct(struct_variants(e)[k].fields@, xs)) == Ok::<
            (Selected, Seq<Value>),
            Fault,
        >((Selected::Variant(k as usize), xs)),
{
    let variants = struct_variants(e);
    let fields = variants[k].fields@;
    let v = encode_struct(fields, xs);
    let entries = v->Mapping_0;
    let tags = tag_names(variants);
    let ft = e.vars->Struct_fallthrough is Some;
    assert forall|j: int| 0 <= j < entries.len() && j != t implies key_tag(
        tags,
        #[trigger] entries[j].0,
    ) is None by {
        assert(entries[j].0 == Value::String(fields[j].ident@));
    }
    assert(entries[t].0 == Value::String(fields[t].ident@));
    lemma_single_tag_resolves(tags, ft, entries, t);
    lemma_fill_all(fields, k as usize, xs, fields.len() as int);
    assert(entries.take(fields.len() as int) =~= entries);
    lemma_finish_all(fields, k as usize, xs, fields.len());
    assert(xs.take(xs.len() as int) =~= xs);
    assert(named_fields(fields, k as usize, v) == Ok::<Seq<Value>, Fault>(xs));
}

} // verus!

