//! Struct-shaped unions: the keyed tag search over map entries, and the
//! decoding of the selected variant's named fields from what remains.
use vstd::prelude::*;
use vstd::string::StrSliceExecFns;
use crate::content::{char_text, copy_str, entry_views, shown_of, text_of, views, Content, Value};
use crate::error::{DecodeError, Expected, Fault};
use crate::shape::{decode, decode_value, invalid_type, Shape};

verus! {

/// A named field and its declared type.
#[derive(Debug)]
pub struct Field {
    pub ident: String,
    pub shape: Shape,
}

/// A struct-shaped variant; `tag` names the field whose key identifies it.
#[derive(Debug)]
pub struct Variant {
    pub ident: String,
    pub tag: String,
    pub fields: Vec<Field>,
}

/// The catch-all variant of a struct-shaped union: one field, which takes
/// whatever no tag claimed.
#[derive(Debug)]
pub struct Fallthrough {
    pub ident: String,
    pub field: Field,
}

/// Which variant a resolution selected.
#[derive(Clone, Copy, Debug, PartialEq, Eq, Structural)]
pub enum Selected {
    Variant(usize),
    Fallthrough,
}

pub open spec fn tag_names(vs: Seq<Variant>) -> Seq<Seq<char>> {
    Seq::new(vs.len(), |i: int| vs[i].tag@)
}

pub open spec fn field_names(fs: Seq<Field>) -> Seq<Seq<char>> {
    Seq::new(fs.len(), |i: int| fs[i].ident@)
}

/// The first position, from `i` on, of `t` among `names`.
pub open spec fn find_from(names: Seq<Seq<char>>, t: Seq<char>, i: int) -> Option<usize>
    decreases names.len() - i,
{
    if i < 0 || i >= names.len() {
        None
    } else if names[i] == t {
        Some(i as usize)
    } else {
        find_from(names, t, i + 1)
    }
}

/// The variant whose tag a map key names: keys that are text, or bytes that
/// are valid UTF-8 text, are probed; other keys are ordinary data.
pub open spec fn key_tag(tags: Seq<Seq<char>>, key: Value) -> Option<usize> {
    match text_of(key) {
        Some(t) => find_from(tags, t, 0),
        None => None,
    }
}

/// Scanning entries in input order for tag keys: the tag found, if any, or
/// a duplicate at the position of the second tag key.
pub open spec fn scan_tags(tags: Seq<Seq<char>>, entries: Seq<(Value, Value)>) -> Result<
    Option<usize>,
    Fault,
>
    decreases entries.len(),
{
    if entries.len() == 0 {
        Ok(None)
    } else {
        match scan_tags(tags, entries.drop_last()) {
            Err(e) => Err(e),
            Ok(found) => match key_tag(tags, entries.last().0) {
                None => Ok(found),
                Some(t) => if found is Some {
                    Err(Fault::DuplicateTag { position: (entries.len() - 1) as usize })
                } else {
                    Ok(Some(t))
                },
            },
        }
    }
}

/// Keyed resolution of `v`: a map is searched for its tag, and kept whole as
/// the residual; a bare string or integer goes to the catch-all, if any.
pub open spec fn resolve_keyed(tags: Seq<Seq<char>>, fallthrough: bool, v: Value) -> Result<
    (Selected, Value),
    Fault,
> {
    let scalar = match v {
        Value::String(s) => Some(Value::String(s)),
        Value::Str(s) => Some(Value::String(s)),
        Value::Char(c) => Some(Value::String(seq![c])),
        Value::U8(n) => Some(Value::U64(n as u64)),
        Value::U16(n) => Some(Value::U64(n as u64)),
        Value::U32(n) => Some(Value::U64(n as u64)),
        Value::U64(n) => Some(Value::U64(n)),
        Value::I8(n) => Some(Value::I64(n as i64)),
        Value::I16(n) => Some(Value::I64(n as i64)),
        Value::I32(n) => Some(Value::I64(n as i64)),
        Value::I64(n) => Some(Value::I64(n)),
        _ => None,
    };
    match v {
        Value::Mapping(entries) => match scan_tags(tags, entries) {
            Err(e) => Err(e),
            Ok(Some(t)) => Ok((Selected::Variant(t), v)),
            Ok(None) => if fallthrough {
                Ok((Selected::Fallthrough, v))
            } else {
                Err(Fault::MissingTag)
            },
        },
        _ => match scalar {
            Some(x) => if fallthrough {
                Ok((Selected::Fallthrough, x))
            } else {
                Err(Fault::InvalidType { unexpected: shown_of(x), expected: Expected::Union })
            },
            None => Err(invalid_type(v, Expected::Union)),
        },
    }
}

} // verus!

verus! {

/// The texts of a list of strings.
pub open spec fn texts(v: Seq<String>) -> Seq<Seq<char>> {
    Seq::new(v.len(), |i: int| v[i]@)
}

/// Reading a map key as a field identifier: text names a declared field or
/// is ignored; other keys are not identifiers.
pub open spec fn field_key(names: Seq<Seq<char>>, key: Value) -> Result<Option<usize>, Fault> {
    match key {
        Value::Char(c) => Ok(find_from(names, seq![c], 0)),
        Value::String(_) | Value::Str(_) | Value::ByteBuf(_) | Value::Bytes(_) => match text_of(
            key,
        ) {
            Some(t) => Ok(find_from(names, t, 0)),
            None => Ok(None),
        },
        _ => Err(invalid_type(key, Expected::FieldIdentifier)),
    }
}

/// Filling the field slots from the entries in input order: a field seen
/// twice fails, unknown keys are skipped, values decode as their field's type.
pub open spec fn fill_slots(fields: Seq<Field>, variant: usize, entries: Seq<(Value, Value)>) -> Result<
    Seq<Option<Value>>,
    Fault,
>
    decreases entries.len(),
{
    if entries.len() == 0 {
        Ok(Seq::new(fields.len(), |i: int| None))
    } else {
        match fill_slots(fields, variant, entries.drop_last()) {
            Err(e) => Err(e),
            Ok(slots) => match field_key(field_names(fields), entries.last().0) {
                Err(e) => Err(e),
                Ok(None) => Ok(slots),
                Ok(Some(i)) => if slots[i as int] is Some {
                    Err(Fault::DuplicateField { variant, field: i })
                } else {
                    match decode_value(fields[i as int].shape, entries.last().1) {
                        Err(e) => Err(e),
                        Ok(x) => Ok(slots.update(i as int, Some(x))),
                    }
                },
            },
        }
    }
}

/// The values of the first `n` fields: a field that did not appear is
/// absent if its type allows that, and missing otherwise.
pub open spec fn finish_slots(fields: Seq<Field>, variant: usize, slots: Seq<Option<Value>>, n: nat) -> Result<
    Seq<Value>,
    Fault,
>
    decreases n,
{
    if n == 0 || n > fields.len() || n > slots.len() {
        Ok(Seq::empty())
    } else {
        match finish_slots(fields, variant, slots, (n - 1) as nat) {
            Err(e) => Err(e),
            Ok(xs) => match slots[n - 1] {
                Some(x) => Ok(xs.push(x)),
                None => if fields[n - 1].shape is Optional {
                    Ok(xs.push(Value::Absent))
                } else {
                    Err(Fault::MissingField { variant, field: (n - 1) as usize })
                },
            },
        }
    }
}

/// Decoding the named fields of struct-shaped variant `variant` from the
/// residual `v`, which must be a map.
pub open spec fn named_fields(fields: Seq<Field>, variant: usize, v: Value) -> Result<
    Seq<Value>,
    Fault,
> {
    match v {
        Value::Mapping(entries) => match fill_slots(fields, variant, entries) {
            Err(e) => Err(e),
            Ok(slots) => finish_slots(fields, variant, slots, fields.len()),
        },
        _ => Err(invalid_type(v, Expected::StructVariant(variant))),
    }
}

pub open spec fn slot_views<'de>(s: Seq<Option<Content<'de>>>) -> Seq<Option<Value>> {
    Seq::new(
        s.len(),
        |i: int|
            match s[i] {
                Some(c) => Some(c@),
                None => None,
            },
    )
}

proof fn lemma_scan_stop(tags: Seq<Seq<char>>, s: Seq<(Value, Value)>, i: int)
    requires
        0 <= i <= s.len(),
        scan_tags(tags, s.take(i)) is Err,
    ensures
        scan_tags(tags, s) == scan_tags(tags, s.take(i)),
    decreases s.len() - i,
{
    if i < s.len() {
        assert(s.take(i + 1).drop_last() =~= s.take(i));
        lemma_scan_stop(tags, s, i + 1);
    } else {
        assert(s.take(i) =~= s);
    }
}

proof fn lemma_fill_stop(fields: Seq<Field>, variant: usize, s: Seq<(Value, Value)>, i: int)
    requires
        0 <= i <= s.len(),
        fill_slots(fields, variant, s.take(i)) is Err,
    ensures
        fill_slots(fields, variant, s) == fill_slots(fields, variant, s.take(i)),
    decreases s.len() - i,
{
    if i < s.len() {
        assert(s.take(i + 1).drop_last() =~= s.take(i));
        lemma_fill_stop(fields, variant, s, i + 1);
    } else {
        assert(s.take(i) =~= s);
    }
}

proof fn lemma_finish_stop(
    fields: Seq<Field>,
    variant: usize,
    slots: Seq<Option<Value>>,
    n: nat,
    m: nat,
)
    requires
        n <= m <= fields.len(),
        m <= slots.len(),
        finish_slots(fields, variant, slots, n) is Err,
    ensures
        finish_slots(fields, variant, slots, m) == finish_slots(fields, variant, slots, n),
    decreases m - n,
{
    if n < m {
        lemma_finish_stop(fields, variant, slots, n, (m - 1) as nat);
    }
}

/// The first position of `t` among `names`.
pub fn find_name(names: &Vec<String>, t: &str) -> (r: Option<usize>)
    ensures
        r == find_from(texts(names@), t@, 0),
        r matches Some(k) ==> k < names@.len(),
{
    let target = copy_str(t);
    let mut i: usize = 0;
    while i < names.len()
        invariant
            i <= names@.len(),
            target@ == t@,
            find_from(texts(names@), t@, 0) == find_from(texts(names@), t@, i as int),
        decreases names@.len() - i,
    {
        if names[i] == target {
            return Some(i);
        }
        i += 1;
    }
    None
}

/// The first position of the one-character text `c` among `names`.
fn find_char_name(names: &Vec<String>, c: char) -> (r: Option<usize>)
    ensures
        r == find_from(texts(names@), seq![c], 0),
{
    let mut i: usize = 0;
    while i < names.len()
        invariant
            i <= names@.len(),
            find_from(texts(names@), seq![c], 0) == find_from(texts(names@), seq![c], i as int),
        decreases names@.len() - i,
    {
        let name = names[i].as_str();
        if name.unicode_len() == 1 {
            if name.get_char(0) == c {
                assert(name@ =~= seq![c]);
                return Some(i);
            }
        }
        proof {
            if texts(names@)[i as int] == seq![c] {
                assert(name@.len() == 1 && name@[0] == c);
            }
        }
        i += 1;
    }
    None
}

/// Searches map-shaped input for the key that names a variant's tag, and
/// otherwise hands bare strings and integers to the catch-all variant.
#[derive(Debug)]
pub struct TaggedContentVisitor {
    /// The tag field name of each variant, in declaration order.
    pub tags: Vec<String>,
    /// Whether the union has a catch-all variant.
    pub fallthrough: bool,
}

impl TaggedContentVisitor {
    pub fn new(tags: Vec<String>, fallthrough: bool) -> (r: Self)
        ensures
            r.tags == tags,
            r.fallthrough == fallthrough,
    {
        TaggedContentVisitor { tags, fallthrough }
    }

    pub open spec fn tag_texts(&self) -> Seq<Seq<char>> {
        texts(self.tags@)
    }

    /// The variant whose tag the key names, if the key is text.
    pub fn key_tag(&self, key: &Content) -> (r: Option<usize>)
        ensures
            r == key_tag(self.tag_texts(), key@),
            r matches Some(k) ==> k < self.tags@.len(),
    {
        match key.as_str() {
            Some(t) => find_name(&self.tags, t),
            None => None,
        }
    }

    /// Resolves `input`: the selected variant, and the residual value from
    /// which its fields decode. A map is kept whole, tag entry included.
    pub fn visit<'de>(&self, input: Content<'de>) -> (r: Result<(Selected, Content<'de>), DecodeError>)
        ensures
            match r {
                Ok((s, c)) => resolve_keyed(self.tag_texts(), self.fallthrough, input@) == Ok::<
                    (Selected, Value),
                    Fault,
                >((s, c@)),
                Err(e) => resolve_keyed(self.tag_texts(), self.fallthrough, input@) == Err::<
                    (Selected, Value),
                    Fault,
                >(e@),
            },
            r matches Ok((Selected::Variant(k), _)) ==> k < self.tags@.len(),
    {
        let ghost whole = input@;
        match input {
            Content::Mapping(entries) => {
                let ghost es = entry_views(entries@);
                proof {
                    crate::content::lemma_entry_views_index(entries@);
                }
                let mut found: Option<usize> = None;
                let mut i: usize = 0;
                while i < entries.len()
                    invariant
                        i <= entries@.len(),
                        whole == input@,
                        whole == Value::Mapping(es),
                        es == entry_views(entries@),
                        es.len() == entries@.len(),
                        forall|j: int|
                            0 <= j < entries@.len() ==> #[trigger] es[j] == (
                                entries@[j].0@,
                                entries@[j].1@,
                            ),
                        scan_tags(self.tag_texts(), es.take(i as int)) == Ok::<
                            Option<usize>,
                            Fault,
                        >(found),
                        found matches Some(t) ==> t < self.tags@.len(),
                    decreases entries@.len() - i,
                {
                    proof {
                        assert(es.take(i + 1).drop_last() =~= es.take(i as int));
                    }
                    match self.key_tag(&entries[i].0) {
                        None => {},
                        Some(t) => {
                            if found.is_some() {
                                proof {
                                    lemma_scan_stop(self.tag_texts(), es, i + 1);
                                }
                                return Err(DecodeError::DuplicateTag { position: i });
                            }
                            found = Some(t);
                        },
                    }
                    i += 1;
                }
                proof {
                    assert(es.take(i as int) =~= es);
                }
                match found {
                    Some(t) => Ok((Selected::Variant(t), Content::Mapping(entries))),
                    None => if self.fallthrough {
                        Ok((Selected::Fallthrough, Content::Mapping(entries)))
                    } else {
                        Err(DecodeError::MissingTag)
                    },
                }
            },
            _ => {
                let scalar: Result<Content<'de>, Content<'de>> = match input {
                    Content::String(s) => Ok(Content::String(s)),
                    Content::Str(s) => Ok(Content::String(copy_str(s))),
                    Content::Char(c) => Ok(Content::String(char_text(c))),
                    Content::U8(n) => Ok(Content::U64(n as u64)),
                    Content::U16(n) => Ok(Content::U64(n as u64)),
                    Content::U32(n) => Ok(Content::U64(n as u64)),
                    Content::U64(n) => Ok(Content::U64(n)),
                    Content::I8(n) => Ok(Content::I64(n as i64)),
                    Content::I16(n) => Ok(Content::I64(n as i64)),
                    Content::I32(n) => Ok(Content::I64(n as i64)),
                    Content::I64(n) => Ok(Content::I64(n)),
                    other => Err(other),
                };
                match scalar {
                    Ok(x) => if self.fallthrough {
                        Ok((Selected::Fallthrough, x))
                    } else {
                        Err(DecodeError::InvalidType { unexpected: x.unexpected(), expected: Expected::Union })
                    },
                    Err(other) => Err(DecodeError::InvalidType { unexpected: other.unexpected(), expected: Expected::Union }),
                }
            },
        }
    }
}

} // verus!

verus! {

/// The first field, from the start, whose name is `t`.
fn find_field(fields: &Vec<Field>, t: &str) -> (r: Option<usize>)
    ensures
        r == find_from(field_names(fields@), t@, 0),
        r matches Some(k) ==> k < fields@.len(),
{
    let target = copy_str(t);
    let mut i: usize = 0;
    while i < fields.len()
        invariant
            i <= fields@.len(),
            target@ == t@,
            find_from(field_names(fields@), t@, 0) == find_from(field_names(fields@), t@, i as int),
        decreases fields@.len() - i,
    {
        if fields[i].ident == target {
            return Some(i);
        }
        i += 1;
    }
    None
}

/// The first field whose name is the one-character text `c`.
fn find_char_field(fields: &Vec<Field>, c: char) -> (r: Option<usize>)
    ensures
        r == find_from(field_names(fields@), seq![c], 0),
        r matches Some(k) ==> k < fields@.len(),
{
    let mut i: usize = 0;
    while i < fields.len()
        invariant
            i <= fields@.len(),
            find_from(field_names(fields@), seq![c], 0) == find_from(
                field_names(fields@),
                seq![c],
                i as int,
            ),
        decreases fields@.len() - i,
    {
        let name = fields[i].ident.as_str();
        if name.unicode_len() == 1 {
            if name.get_char(0) == c {
                assert(name@ =~= seq![c]);
                return Some(i);
            }
        }
        proof {
            if field_names(fields@)[i as int] == seq![c] {
                assert(name@.len() == 1 && name@[0] == c);
            }
        }
        i += 1;
    }
    None
}

/// Reads a map key as a field identifier: the declared field it names, or
/// `None` for a key to skip.
pub fn identify_field(fields: &Vec<Field>, key: &Content) -> (r: Result<Option<usize>, DecodeError>)
    ensures
        match r {
            Ok(x) => field_key(field_names(fields@), key@) == Ok::<Option<usize>, Fault>(x),
            Err(e) => field_key(field_names(fields@), key@) == Err::<Option<usize>, Fault>(e@),
        },
        r matches Ok(Some(k)) ==> k < fields@.len(),
{
    match key {
        Content::Char(c) => Ok(find_char_field(fields, *c)),
        Content::String(_) | Content::Str(_) | Content::ByteBuf(_) | Content::Bytes(_) => {
            match key.as_str() {
                Some(t) => Ok(find_field(fields, t)),
                None => Ok(None),
            }
        },
        _ => Err(DecodeError::InvalidType { unexpected: key.unexpected(), expected: Expected::FieldIdentifier }),
    }
}

/// Decodes the named fields of struct-shaped variant `variant` from its
/// residual map, giving their values in declaration order.
pub fn decode_named_fields<'de>(fields: &Vec<Field>, variant: usize, rest: Content<'de>) -> (r: Result<
    Vec<Content<'de>>,
    DecodeError,
>)
    ensures
        match r {
            Ok(v) => named_fields(fields@, variant, rest@) == Ok::<Seq<Value>, Fault>(views(v@)),
            Err(e) => named_fields(fields@, variant, rest@) == Err::<Seq<Value>, Fault>(e@),
        },
{
    let ghost whole = rest@;
    match rest {
        Content::Mapping(entries) => {
            let ghost es = entry_views(entries@);
            proof {
                crate::content::lemma_entry_views_index(entries@);
            }
            let mut slots: Vec<Option<Content<'de>>> = Vec::new();
            let mut j: usize = 0;
            while j < fields.len()
                invariant
                    j <= fields@.len(),
                    slots@.len() == j,
                    forall|k: int| 0 <= k < j ==> #[trigger] slots@[k] is None,
                decreases fields@.len() - j,
            {
                slots.push(None);
                j += 1;
            }
            proof {
                assert(es.take(0) =~= Seq::<(Value, Value)>::empty());
                assert(slot_views(slots@) =~= Seq::new(fields@.len(), |k: int| None::<Value>));
                assert(fill_slots(fields@, variant, es.take(0)) == Ok::<Seq<Option<Value>>, Fault>(
                    slot_views(slots@),
                ));
            }
            let mut i: usize = 0;
            while i < entries.len()
                invariant
                    i <= entries@.len(),
                    whole == rest@,
                    whole == Value::Mapping(es),
                    es == entry_views(entries@),
                    es.len() == entries@.len(),
                    forall|k: int|
                        0 <= k < entries@.len() ==> #[trigger] es[k] == (
                            entries@[k].0@,
                            entries@[k].1@,
                        ),
                    slots@.len() == fields@.len(),
                    fill_slots(fields@, variant, es.take(i as int)) == Ok::<Seq<Option<Value>>, Fault>(
                        slot_views(slots@),
                    ),
                decreases entries@.len() - i,
            {
                proof {
                    assert(es.take(i + 1).drop_last() =~= es.take(i as int));
                }
                match identify_field(fields, &entries[i].0) {
                    Err(e) => {
                        proof {
                            lemma_fill_stop(fields@, variant, es, i + 1);
                        }
                        return Err(e);
                    },
                    Ok(None) => {},
                    Ok(Some(k)) => {
                        if slots[k].is_some() {
                            proof {
                                lemma_fill_stop(fields@, variant, es, i + 1);
                            }
                            return Err(DecodeError::DuplicateField { variant, field: k });
                        }
                        match decode(&fields[k].shape, &entries[i].1) {
                            Err(e) => {
                                proof {
                                    lemma_fill_stop(fields@, variant, es, i + 1);
                                }
                                return Err(e);
                            },
                            Ok(x) => {
                                let ghost prev = slots@;
                                slots.set(k, Some(x));
                                proof {
                                    assert(slot_views(slots@) =~= slot_views(prev).update(
                                        k as int,
                                        Some(x@),
                                    ));
                                }
                            },
                        }
                    },
                }
                i += 1;
            }
            proof {
                assert(es.take(i as int) =~= es);
            }
            let ghost filled = slot_views(slots@);
            let ghost orig = slots@;
            let mut out: Vec<Content<'de>> = Vec::new();
            let mut j: usize = 0;
            while j < fields.len()
                invariant
                    j <= fields@.len(),
                    slots@.len() == fields@.len(),
                    orig.len() == fields@.len(),
                    filled == slot_views(orig),
                    whole == rest@,
                    whole == Value::Mapping(es),
                    fill_slots(fields@, variant, es) == Ok::<Seq<Option<Value>>, Fault>(filled),
                    forall|k: int| j <= k < orig.len() ==> #[trigger] slots@[k] == orig[k],
                    finish_slots(fields@, variant, filled, j as nat) == Ok::<Seq<Value>, Fault>(views(out@)),
                decreases fields@.len() - j,
            {
                let mut taken: Option<Content<'de>> = None;
                slots.set_and_swap(j, &mut taken);
                match taken {
                    Some(x) => {
                        let ghost prev = out@;
                        out.push(x);
                        proof {
                            crate::content::lemma_views_push(prev, x);
                        }
                    },
                    None => {
                        if matches!(fields[j].shape, Shape::Optional(_)) {
                            let ghost prev = out@;
                            out.push(Content::Absent);
                            proof {
                                crate::content::lemma_views_push(prev, Content::Absent);
                            }
                        } else {
                            proof {
                                lemma_finish_stop(fields@, variant, filled, (j + 1) as nat, fields@.len());
                            }
                            return Err(DecodeError::MissingField { variant, field: j });
                        }
                    },
                }
                j += 1;
            }
            Ok(out)
        },
        other => Err(DecodeError::InvalidType { unexpected: other.unexpected(), expected: Expected::StructVariant(variant) }),
    }
}

} // verus!
