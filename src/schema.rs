//! Building a union's schema from its declaration, with the rules a
//! declaration must follow: one tag per struct-shaped variant, a catch-all
//! only last and with one field, distinct tags, and flatten variants last,
//! with one field that is not also a tag.
use vstd::prelude::*;
use crate::keyed::{Fallthrough, Field, Variant};
use crate::positional::TupleVariant;
use crate::shape::Shape;
use crate::union::{Enum, Style};

verus! {

/// A declared field: its name (empty in a tuple-shaped variant), its type,
/// and whether it is annotated as the tag or as flattened.
#[derive(Debug)]
pub struct FieldDecl {
    pub ident: String,
    pub shape: Shape,
    pub tag: bool,
    pub flatten: bool,
}

/// The fields of a declared variant.
#[derive(Debug)]
pub enum FieldsDecl {
    Named(Vec<FieldDecl>),
    Unnamed(Vec<FieldDecl>),
    Unit,
}

/// A declared variant.
#[derive(Debug)]
pub struct VariantDecl {
    pub ident: String,
    pub fields: FieldsDecl,
}

/// A rule of the declaration that a variant breaks.
#[derive(Clone, Copy, Debug, PartialEq, Eq, Structural)]
pub enum SchemaError {
    /// A struct-shaped union holds a variant of another shape.
    NotStructVariant { variant: usize },
    /// A tuple-shaped union holds a variant of another shape.
    NotTupleVariant { variant: usize },
    /// The first variant has no fields.
    UnitVariant { variant: usize },
    /// A struct-shaped variant other than the last has no tag.
    MissingTag { variant: usize },
    /// A variant has more than one tag annotation.
    MultipleTags { variant: usize },
    /// The untagged last variant does not have exactly one field.
    FallthroughFields { variant: usize },
    /// A variant's tag name is the tag name of an earlier variant.
    DuplicateTags { variant: usize },
    /// A tuple-shaped variant has no fields.
    EmptyTupleVariant { variant: usize },
    /// A flatten variant does not have exactly one field.
    FlattenFields { variant: usize },
    /// A field is annotated both as tag and as flattened.
    TagAndFlatten { variant: usize },
    /// A tagged variant follows a flatten variant.
    FlattenNotLast { variant: usize },
}

pub open spec fn count_tags(fs: Seq<FieldDecl>) -> nat
    decreases fs.len(),
{
    if fs.len() == 0 {
        0
    } else {
        count_tags(fs.drop_last()) + if fs.last().tag {
            1nat
        } else {
            0nat
        }
    }
}

pub open spec fn count_flatten(fs: Seq<FieldDecl>) -> nat
    decreases fs.len(),
{
    if fs.len() == 0 {
        0
    } else {
        count_flatten(fs.drop_last()) + if fs.last().flatten {
            1nat
        } else {
            0nat
        }
    }
}

/// The position of the first tagged field from `i` on, or the length.
pub open spec fn first_tag(fs: Seq<FieldDecl>, i: int) -> int
    decreases fs.len() - i,
{
    if i < 0 || i >= fs.len() {
        fs.len() as int
    } else if fs[i].tag {
        i
    } else {
        first_tag(fs, i + 1)
    }
}

/// The tag position of a tuple-shaped variant: its tagged field, or 0.
pub open spec fn tag_position(fs: Seq<FieldDecl>) -> int {
    if count_tags(fs) == 0 {
        0
    } else {
        first_tag(fs, 0)
    }
}

pub open spec fn named_of(d: VariantDecl) -> Seq<FieldDecl> {
    match d.fields {
        FieldsDecl::Named(fs) => fs@,
        FieldsDecl::Unnamed(fs) => fs@,
        FieldsDecl::Unit => Seq::empty(),
    }
}

/// The tag name of a struct-shaped variant.
pub open spec fn decl_tag(d: VariantDecl) -> Seq<char> {
    named_of(d)[first_tag(named_of(d), 0)].ident@
}

/// The rule, if any, that struct-shaped variant `d` at position `i` breaks.
pub open spec fn struct_fault(d: VariantDecl, i: int, last: bool) -> Option<SchemaError> {
    match d.fields {
        FieldsDecl::Named(fs) => {
            let c = count_tags(fs@);
            if c == 0 {
                if !last {
                    Some(SchemaError::MissingTag { variant: i as usize })
                } else if fs@.len() != 1 {
                    Some(SchemaError::FallthroughFields { variant: i as usize })
                } else {
                    None
                }
            } else if c > 1 {
                Some(SchemaError::MultipleTags { variant: i as usize })
            } else {
                None
            }
        },
        _ => Some(SchemaError::NotStructVariant { variant: i as usize }),
    }
}

/// Whether the variant at position `k` follows the struct-shaped rules.
pub open spec fn struct_ok(ds: Seq<VariantDecl>, k: int) -> bool {
    struct_fault(ds[k], k, k == ds.len() - 1) is None
}

pub open spec fn scan_struct(ds: Seq<VariantDecl>, i: int) -> Option<SchemaError>
    decreases ds.len() - i,
{
    if i < 0 || i >= ds.len() {
        None
    } else {
        match struct_fault(ds[i], i, i == ds.len() - 1) {
            Some(e) => Some(e),
            None => scan_struct(ds, i + 1),
        }
    }
}

/// How many variants carry a tag: all, or all but an untagged last one.
pub open spec fn tagged_len(ds: Seq<VariantDecl>) -> int {
    if ds.len() > 0 && count_tags(named_of(ds.last())) == 0 {
        ds.len() - 1
    } else {
        ds.len() as int
    }
}

/// The first tagged variant, from `j` on, whose tag an earlier one has.
pub open spec fn first_duplicate(ds: Seq<VariantDecl>, m: int, j: int) -> Option<SchemaError>
    decreases m - j,
{
    if j < 0 || j >= m {
        None
    } else if exists|i: int| 0 <= i < j && decl_tag(#[trigger] ds[i]) == decl_tag(ds[j]) {
        Some(SchemaError::DuplicateTags { variant: j as usize })
    } else {
        first_duplicate(ds, m, j + 1)
    }
}

pub open spec fn struct_schema_fault(ds: Seq<VariantDecl>) -> Option<SchemaError> {
    match scan_struct(ds, 0) {
        Some(e) => Some(e),
        None => first_duplicate(ds, tagged_len(ds), 1),
    }
}

/// The rule, if any, that tuple-shaped variant `d` at position `i` breaks;
/// `after` says whether a flatten variant came before it.
pub open spec fn tuple_fault(d: VariantDecl, i: int, after: bool) -> Option<SchemaError> {
    match d.fields {
        FieldsDecl::Unnamed(fs) => if fs@.len() == 0 {
            Some(SchemaError::EmptyTupleVariant { variant: i as usize })
        } else if count_tags(fs@) > 1 {
            Some(SchemaError::MultipleTags { variant: i as usize })
        } else if count_flatten(fs@) > 0 {
            if fs@.len() != 1 {
                Some(SchemaError::FlattenFields { variant: i as usize })
            } else if fs@[0].tag {
                Some(SchemaError::TagAndFlatten { variant: i as usize })
            } else {
                None
            }
        } else if after {
            Some(SchemaError::FlattenNotLast { variant: i as usize })
        } else {
            None
        },
        _ => Some(SchemaError::NotTupleVariant { variant: i as usize }),
    }
}

pub open spec fn scan_tuple(ds: Seq<VariantDecl>, i: int, after: bool) -> Option<SchemaError>
    decreases ds.len() - i,
{
    if i < 0 || i >= ds.len() {
        None
    } else {
        match tuple_fault(ds[i], i, after) {
            Some(e) => Some(e),
            None => scan_tuple(ds, i + 1, after || count_flatten(named_of(ds[i])) > 0),
        }
    }
}

/// The fields built from declared fields, one for one.
pub open spec fn fields_built(out: Seq<Field>, fs: Seq<FieldDecl>) -> bool {
    &&& out.len() == fs.len()
    &&& forall|j: int|
        0 <= j < fs.len() ==> (#[trigger] out[j]).ident == fs[j].ident && out[j].shape
            == fs[j].shape
}

pub open spec fn variant_built(v: Variant, d: VariantDecl) -> bool {
    &&& v.ident == d.ident
    &&& v.tag@ == decl_tag(d)
    &&& fields_built(v.fields@, named_of(d))
}

pub open spec fn tuple_built(v: TupleVariant, d: VariantDecl) -> bool {
    let fs = named_of(d);
    &&& v.ident == d.ident
    &&& v.fields@.len() == fs.len()
    &&& (forall|j: int| 0 <= j < fs.len() ==> #[trigger] v.fields@[j] == fs[j].shape)
    &&& v.tag_index == tag_position(fs)
    &&& v.has_flatten == (count_flatten(fs) > 0)
}

/// The struct-shaped schema built from valid declarations.
pub open spec fn struct_built(s: Style, ds: Seq<VariantDecl>) -> bool {
    match s {
        Style::Struct { variants, fallthrough } => {
            &&& variants@.len() == tagged_len(ds)
            &&& forall|i: int|
                0 <= i < tagged_len(ds) ==> variant_built(#[trigger] variants@[i], ds[i])
            &&& match fallthrough {
                Some(ft) => tagged_len(ds) < ds.len() && ft.ident == ds.last().ident && ft.field.ident
                    == named_of(ds.last())[0].ident && ft.field.shape == named_of(ds.last())[0].shape,
                None => tagged_len(ds) == ds.len(),
            }
        },
        _ => false,
    }
}

/// The tuple-shaped schema built from valid declarations.
pub open spec fn tuple_schema_built(s: Style, ds: Seq<VariantDecl>) -> bool {
    match s {
        Style::Tuple(vars) => vars@.len() == ds.len() && forall|i: int|
            0 <= i < ds.len() ==> tuple_built(#[trigger] vars@[i], ds[i]),
        _ => false,
    }
}

} // verus!

verus! {

proof fn lemma_count_tags_witness(fs: Seq<FieldDecl>)
    requires
        count_tags(fs) > 0,
    ensures
        exists|j: int| 0 <= j < fs.len() && (#[trigger] fs[j]).tag,
    decreases fs.len(),
{
    if !fs.last().tag {
        lemma_count_tags_witness(fs.drop_last());
        let j = choose|j: int| 0 <= j < fs.drop_last().len() && (#[trigger] fs.drop_last()[j]).tag;
        assert(fs[j] == fs.drop_last()[j]);
    } else {
        assert(fs[fs.len() - 1].tag);
    }
}

proof fn lemma_first_tag_from(fs: Seq<FieldDecl>, i: int, j: int)
    requires
        0 <= i <= j < fs.len(),
        fs[j].tag,
    ensures
        i <= first_tag(fs, i) <= j,
        fs[first_tag(fs, i)].tag,
    decreases j - i,
{
    if !fs[i].tag {
        lemma_first_tag_from(fs, i + 1, j);
    }
}

/// A variant with a tag annotation has its first tagged field in range.
proof fn lemma_first_tag_found(fs: Seq<FieldDecl>)
    requires
        count_tags(fs) > 0,
    ensures
        0 <= first_tag(fs, 0) < fs.len(),
{
    lemma_count_tags_witness(fs);
    let j = choose|j: int| 0 <= j < fs.len() && (#[trigger] fs[j]).tag;
    lemma_first_tag_from(fs, 0, j);
}

proof fn lemma_scan_struct_ok(ds: Seq<VariantDecl>, i: int)
    requires
        0 <= i,
        scan_struct(ds, i) is None,
    ensures
        forall|k: int|
            i <= k < ds.len() ==> #[trigger] struct_ok(ds, k),
    decreases ds.len() - i,
{
    if i < ds.len() {
        lemma_scan_struct_ok(ds, i + 1);
    }
}

proof fn lemma_scan_tuple_ok(ds: Seq<VariantDecl>, i: int, after: bool)
    requires
        0 <= i,
        scan_tuple(ds, i, after) is None,
    ensures
        forall|k: int| i <= k < ds.len() ==> (#[trigger] ds[k]).fields is Unnamed,
    decreases ds.len() - i,
{
    if i < ds.len() {
        lemma_scan_tuple_ok(ds, i + 1, after || count_flatten(named_of(ds[i])) > 0);
    }
}

fn count_tags_of(fs: &Vec<FieldDecl>) -> (r: usize)
    ensures
        r == count_tags(fs@),
{
    let mut n: usize = 0;
    let mut i: usize = 0;
    while i < fs.len()
        invariant
            i <= fs@.len(),
            n <= i,
            n == count_tags(fs@.take(i as int)),
        decreases fs@.len() - i,
    {
        assert(fs@.take(i + 1).drop_last() =~= fs@.take(i as int));
        if fs[i].tag {
            n += 1;
        }
        i += 1;
    }
    assert(fs@.take(i as int) =~= fs@);
    n
}

fn count_flatten_of(fs: &Vec<FieldDecl>) -> (r: usize)
    ensures
        r == count_flatten(fs@),
{
    let mut n: usize = 0;
    let mut i: usize = 0;
    while i < fs.len()
        invariant
            i <= fs@.len(),
            n <= i,
            n == count_flatten(fs@.take(i as int)),
        decreases fs@.len() - i,
    {
        assert(fs@.take(i + 1).drop_last() =~= fs@.take(i as int));
        if fs[i].flatten {
            n += 1;
        }
        i += 1;
    }
    assert(fs@.take(i as int) =~= fs@);
    n
}

fn first_tag_of(fs: &Vec<FieldDecl>) -> (r: usize)
    ensures
        r == first_tag(fs@, 0),
{
    let mut i: usize = 0;
    while i < fs.len()
        invariant
            i <= fs@.len(),
            first_tag(fs@, 0) == first_tag(fs@, i as int),
        decreases fs@.len() - i,
    {
        if fs[i].tag {
            return i;
        }
        i += 1;
    }
    i
}

fn fields_of(d: &VariantDecl) -> (r: Option<&Vec<FieldDecl>>)
    ensures
        d.fields is Unit <==> r is None,
        r matches Some(fs) ==> fs@ == named_of(*d),
{
    match &d.fields {
        FieldsDecl::Named(fs) => Some(fs),
        FieldsDecl::Unnamed(fs) => Some(fs),
        FieldsDecl::Unit => None,
    }
}

fn count_tags_in(d: &VariantDecl) -> (r: usize)
    ensures
        r == count_tags(named_of(*d)),
{
    match fields_of(d) {
        Some(fs) => count_tags_of(fs),
        None => 0,
    }
}

fn count_flatten_in(d: &VariantDecl) -> (r: usize)
    ensures
        r == count_flatten(named_of(*d)),
{
    match fields_of(d) {
        Some(fs) => count_flatten_of(fs),
        None => 0,
    }
}

fn struct_fault_of(d: &VariantDecl, i: usize, last: bool) -> (r: Option<SchemaError>)
    ensures
        r == struct_fault(*d, i as int, last),
{
    match &d.fields {
        FieldsDecl::Named(fs) => {
            let c = count_tags_of(fs);
            if c == 0 {
                if !last {
                    Some(SchemaError::MissingTag { variant: i })
                } else if fs.len() != 1 {
                    Some(SchemaError::FallthroughFields { variant: i })
                } else {
                    None
                }
            } else if c > 1 {
                Some(SchemaError::MultipleTags { variant: i })
            } else {
                None
            }
        },
        _ => Some(SchemaError::NotStructVariant { variant: i }),
    }
}

fn tuple_fault_of(d: &VariantDecl, i: usize, after: bool) -> (r: Option<SchemaError>)
    ensures
        r == tuple_fault(*d, i as int, after),
{
    match &d.fields {
        FieldsDecl::Unnamed(fs) => {
            if fs.len() == 0 {
                Some(SchemaError::EmptyTupleVariant { variant: i })
            } else if count_tags_of(fs) > 1 {
                Some(SchemaError::MultipleTags { variant: i })
            } else if count_flatten_of(fs) > 0 {
                if fs.len() != 1 {
                    Some(SchemaError::FlattenFields { variant: i })
                } else if fs[0].tag {
                    Some(SchemaError::TagAndFlatten { variant: i })
                } else {
                    None
                }
            } else if after {
                Some(SchemaError::FlattenNotLast { variant: i })
            } else {
                None
            }
        },
        _ => Some(SchemaError::NotTupleVariant { variant: i }),
    }
}

/// The tag field's name of a tagged struct-shaped variant.
fn tag_ident(d: &VariantDecl) -> (r: &String)
    requires
        d.fields is Named,
        count_tags(named_of(*d)) > 0,
    ensures
        r@ == decl_tag(*d),
{
    match &d.fields {
        FieldsDecl::Named(fs) => {
            proof {
                lemma_first_tag_found(fs@);
            }
            let k = first_tag_of(fs);
            &fs[k].ident
        },
        _ => {
            proof {
                assert(false);
            }
            &d.ident
        },
    }
}

/// Checks struct-shaped declarations, first variant to last, then that the
/// tags are distinct.
pub fn check_struct(ds: &Vec<VariantDecl>) -> (r: Option<SchemaError>)
    ensures
        r == struct_schema_fault(ds@),
{
    let n = ds.len();
    let mut i: usize = 0;
    while i < n
        invariant
            i <= n == ds@.len(),
            scan_struct(ds@, 0) == scan_struct(ds@, i as int),
        decreases n - i,
    {
        let fault = struct_fault_of(&ds[i], i, i + 1 == n);
        if fault.is_some() {
            return fault;
        }
        i += 1;
    }
    proof {
        lemma_scan_struct_ok(ds@, 0);
    }
    let m: usize = if n > 0 && count_tags_in(&ds[n - 1]) == 0 {
        n - 1
    } else {
        n
    };
    assert(m == tagged_len(ds@));
    let mut j: usize = 1;
    while j < m
        invariant
            1 <= j,
            m <= n == ds@.len(),
            m == tagged_len(ds@),
            scan_struct(ds@, 0) is None,
            forall|k: int|
                0 <= k < ds@.len() ==> #[trigger] struct_ok(ds@, k),
            first_duplicate(ds@, m as int, 1) == first_duplicate(ds@, m as int, j as int),
        decreases m - j,
    {
        assert(struct_ok(ds@, j as int));
        let tj = tag_ident(&ds[j]);
        let mut i: usize = 0;
        while i < j
            invariant
                i <= j < m <= n == ds@.len(),
                1 <= j,
                m == tagged_len(ds@),
                scan_struct(ds@, 0) is None,
                first_duplicate(ds@, m as int, 1) == first_duplicate(ds@, m as int, j as int),
                forall|k: int|
                    0 <= k < ds@.len() ==> #[trigger] struct_ok(ds@, k),
                tj@ == decl_tag(ds@[j as int]),
                forall|k: int| 0 <= k < i ==> decl_tag(#[trigger] ds@[k]) != decl_tag(ds@[j as int]),
            decreases j - i,
        {
            assert(struct_ok(ds@, i as int));
            let ti = tag_ident(&ds[i]);
            if *ti == *tj {
                assert(decl_tag(ds@[i as int]) == decl_tag(ds@[j as int]));
                return Some(SchemaError::DuplicateTags { variant: j });
            }
            i += 1;
        }
        j += 1;
    }
    None
}

/// Checks tuple-shaped declarations, first variant to last.
pub fn check_tuple(ds: &Vec<VariantDecl>) -> (r: Option<SchemaError>)
    ensures
        r == scan_tuple(ds@, 0, false),
{
    let mut after = false;
    let mut i: usize = 0;
    while i < ds.len()
        invariant
            i <= ds@.len(),
            scan_tuple(ds@, 0, false) == scan_tuple(ds@, i as int, after),
        decreases ds@.len() - i,
    {
        let fault = tuple_fault_of(&ds[i], i, after);
        if fault.is_some() {
            return fault;
        }
        after = after || count_flatten_in(&ds[i]) > 0;
        i += 1;
    }
    None
}

} // verus!

verus! {

/// What reading declarations `ds` of the union named `ident` gives: the
/// shape is set by the first variant; the first rule broken is reported,
/// else the schema built from the declarations.
pub open spec fn parsed(ident: String, ds: Seq<VariantDecl>, r: Result<Enum, SchemaError>) -> bool {
    if ds.len() == 0 {
        r matches Ok(e) && e.ident == ident && tuple_schema_built(e.vars, ds)
    } else {
        match ds[0].fields {
            FieldsDecl::Unit => r == Err::<Enum, SchemaError>(
                SchemaError::UnitVariant { variant: 0 },
            ),
            FieldsDecl::Named(_) => match struct_schema_fault(ds) {
                Some(f) => r == Err::<Enum, SchemaError>(f),
                None => r matches Ok(e) && e.ident == ident && struct_built(e.vars, ds),
            },
            FieldsDecl::Unnamed(_) => match scan_tuple(ds, 0, false) {
                Some(f) => r == Err::<Enum, SchemaError>(f),
                None => r matches Ok(e) && e.ident == ident && tuple_schema_built(e.vars, ds),
            },
        }
    }
}

fn into_fields(fs: Vec<FieldDecl>) -> (r: Vec<Field>)
    ensures
        fields_built(r@, fs@),
{
    let ghost orig = fs@;
    let mut rest = fs;
    let mut out: Vec<Field> = Vec::new();
    while rest.len() > 0
        invariant
            out@.len() + rest@.len() == orig.len(),
            rest@ == orig.skip(out@.len() as int),
            forall|j: int|
                0 <= j < out@.len() ==> (#[trigger] out@[j]).ident == orig[j].ident
                    && out@[j].shape == orig[j].shape,
        decreases rest@.len(),
    {
        let ghost k = out@.len() as int;
        let f = rest.remove(0);
        proof {
            assert(orig.skip(k).remove(0) =~= orig.skip(k + 1));
        }
        out.push(Field { ident: f.ident, shape: f.shape });
    }
    out
}

fn into_shapes(fs: Vec<FieldDecl>) -> (r: Vec<Shape>)
    ensures
        r@.len() == fs@.len(),
        forall|j: int| 0 <= j < fs@.len() ==> #[trigger] r@[j] == fs@[j].shape,
{
    let ghost orig = fs@;
    let mut rest = fs;
    let mut out: Vec<Shape> = Vec::new();
    while rest.len() > 0
        invariant
            out@.len() + rest@.len() == orig.len(),
            rest@ == orig.skip(out@.len() as int),
            forall|j: int| 0 <= j < out@.len() ==> #[trigger] out@[j] == orig[j].shape,
        decreases rest@.len(),
    {
        let ghost k = out@.len() as int;
        let f = rest.remove(0);
        proof {
            assert(orig.skip(k).remove(0) =~= orig.skip(k + 1));
        }
        out.push(f.shape);
    }
    out
}

fn build_struct(ds: Vec<VariantDecl>) -> (r: Style)
    requires
        struct_schema_fault(ds@) is None,
    ensures
        struct_built(r, ds@),
{
    let ghost orig = ds@;
    proof {
        lemma_scan_struct_ok(orig, 0);
    }
    let n = ds.len();
    let m: usize = if n > 0 && count_tags_in(&ds[n - 1]) == 0 {
        n - 1
    } else {
        n
    };
    let mut rest = ds;
    let mut variants: Vec<Variant> = Vec::new();
    let mut fallthrough: Option<Fallthrough> = None;
    let mut k: usize = 0;
    while k < n
        invariant
            k <= n == orig.len(),
            m == tagged_len(orig),
            rest@ == orig.skip(k as int),
            forall|q: int| 0 <= q < orig.len() ==> #[trigger] struct_ok(orig, q),
            variants@.len() == if k <= m {
                k
            } else {
                m
            },
            forall|i: int|
                0 <= i < variants@.len() ==> variant_built(#[trigger] variants@[i], orig[i]),
            k <= m ==> fallthrough is None,
            k > m ==> (fallthrough matches Some(ft) && ft.ident == orig.last().ident
                && ft.field.ident == named_of(orig.last())[0].ident && ft.field.shape
                == named_of(orig.last())[0].shape),
        decreases n - k,
    {
        let d = rest.remove(0);
        proof {
            assert(orig.skip(k as int).remove(0) =~= orig.skip(k + 1));
            assert(d == orig[k as int]);
            assert(struct_ok(orig, k as int));
        }
        if k < m {
            let tag = tag_ident(&d).clone();
            let VariantDecl { ident, fields } = d;
            match fields {
                FieldsDecl::Named(fs) => {
                    let fields = into_fields(fs);
                    variants.push(Variant { ident, tag, fields });
                },
                _ => {
                    proof {
                        assert(false);
                    }
                },
            }
        } else {
            let VariantDecl { ident, fields } = d;
            match fields {
                FieldsDecl::Named(fs) => {
                    let mut fs = fs;
                    let f = fs.remove(0);
                    fallthrough = Some(
                        Fallthrough { ident, field: Field { ident: f.ident, shape: f.shape } },
                    );
                },
                _ => {
                    proof {
                        assert(false);
                    }
                },
            }
        }
        k += 1;
    }
    Style::Struct { variants, fallthrough }
}

fn build_tuple(ds: Vec<VariantDecl>) -> (r: Style)
    requires
        scan_tuple(ds@, 0, false) is None,
    ensures
        tuple_schema_built(r, ds@),
{
    let ghost orig = ds@;
    proof {
        lemma_scan_tuple_ok(orig, 0, false);
    }
    let n = ds.len();
    let mut rest = ds;
    let mut vars: Vec<TupleVariant> = Vec::new();
    let mut k: usize = 0;
    while k < n
        invariant
            k <= n == orig.len(),
            rest@ == orig.skip(k as int),
            forall|q: int| 0 <= q < orig.len() ==> (#[trigger] orig[q]).fields is Unnamed,
            vars@.len() == k,
            forall|i: int| 0 <= i < k ==> tuple_built(#[trigger] vars@[i], orig[i]),
        decreases n - k,
    {
        let d = rest.remove(0);
        proof {
            assert(orig.skip(k as int).remove(0) =~= orig.skip(k + 1));
            assert(d == orig[k as int]);
        }
        let VariantDecl { ident, fields } = d;
        match fields {
            FieldsDecl::Unnamed(fs) => {
                let tag_index = if count_tags_of(&fs) == 0 {
                    0
                } else {
                    first_tag_of(&fs)
                };
                let has_flatten = count_flatten_of(&fs) > 0;
                let shapes = into_shapes(fs);
                vars.push(TupleVariant { ident, fields: shapes, tag_index, has_flatten });
            },
            _ => {
                proof {
                    assert(false);
                }
            },
        }
        k += 1;
    }
    Style::Tuple(vars)
}

/// Reads the declaration of the union named `ident`: its first variant sets
/// whether it is struct-shaped or tuple-shaped, every variant is checked
/// against that shape's rules, and the schema is built from them.
pub fn parse_data(ident: String, decls: Vec<VariantDecl>) -> (r: Result<Enum, SchemaError>)
    ensures
        parsed(ident, decls@, r),
{
    if decls.len() == 0 {
        return Ok(Enum { ident, vars: Style::Tuple(Vec::new()) });
    }
    match &decls[0].fields {
        FieldsDecl::Unit => Err(SchemaError::UnitVariant { variant: 0 }),
        FieldsDecl::Named(_) => match check_struct(&decls) {
            Some(f) => Err(f),
            None => Ok(Enum { ident, vars: build_struct(decls) }),
        },
        FieldsDecl::Unnamed(_) => match check_tuple(&decls) {
            Some(f) => Err(f),
            None => Ok(Enum { ident, vars: build_tuple(decls) }),
        },
    }
}

} // verus!
