//! Helpers for unions whose tag is a named entry: the internally tagged form
//! (`{"type": "A", ...}`), the adjacently tagged form (`{"t": ..., "c": ...}`)
//! and unit variants.
use vstd::prelude::*;
use vstd::string::StringSliceAdditionalSpecFns;
use crate::content::{copy_str, entry_views, text_of, views, Content, Shown, Unexpected, Value};
use crate::error::{DecodeError, Expected, Fault};

verus! {

/// A map key of an internally tagged value: the tag, or an ordinary key.
#[derive(Debug, PartialEq)]
pub enum TagOrContent<'de> {
    Tag,
    Content(Content<'de>),
}

/// Whether map key `key` is the tag named `name`.
pub open spec fn is_tag_key(name: Seq<char>, key: Value) -> bool {
    text_of(key) == Some(name)
}

/// Reads map key `key` against tag name `name`.
pub fn tag_or_content<'de>(name: &str, key: Content<'de>) -> (r: TagOrContent<'de>)
    ensures
        is_tag_key(name@, key@) ==> r is Tag,
        !is_tag_key(name@, key@) ==> r == TagOrContent::Content(key),
{
    let is_tag = match key.as_str() {
        Some(t) => copy_str(t) == copy_str(name),
        None => false,
    };
    if is_tag {
        TagOrContent::Tag
    } else {
        TagOrContent::Content(key)
    }
}

/// Splitting the entries of an internally tagged map: the tag entry's value,
/// and the other entries in order. A second tag entry fails at its position.
pub open spec fn split_tag(name: Seq<char>, entries: Seq<(Value, Value)>) -> Result<
    (Option<Value>, Seq<(Value, Value)>),
    Fault,
>
    decreases entries.len(),
{
    if entries.len() == 0 {
        Ok((None, Seq::empty()))
    } else {
        match split_tag(name, entries.drop_last()) {
            Err(e) => Err(e),
            Ok((tag, rest)) => if is_tag_key(name, entries.last().0) {
                if tag is Some {
                    Err(Fault::DuplicateTag { position: (entries.len() - 1) as usize })
                } else {
                    Ok((Some(entries.last().1), rest))
                }
            } else {
                Ok((tag, rest.push(entries.last())))
            },
        }
    }
}

proof fn lemma_split_stop(name: Seq<char>, s: Seq<(Value, Value)>, i: int)
    requires
        0 <= i <= s.len(),
        split_tag(name, s.take(i)) is Err,
    ensures
        split_tag(name, s) == split_tag(name, s.take(i)),
    decreases s.len() - i,
{
    if i < s.len() {
        assert(s.take(i + 1).drop_last() =~= s.take(i));
        lemma_split_stop(name, s, i + 1);
    } else {
        assert(s.take(i) =~= s);
    }
}

/// Captures an internally tagged value: a map whose entry under `tag_name`
/// holds the tag, or a sequence whose first element is the tag.
#[derive(Debug)]
pub struct TaggedContentVisitor {
    pub tag_name: &'static str,
    pub expecting: &'static str,
}

impl TaggedContentVisitor {
    /// Visitor for the content of an internally tagged union with the given
    /// tag name.
    pub fn new(name: &'static str, expecting: &'static str) -> (r: Self)
        ensures
            r.tag_name == name,
            r.expecting == expecting,
    {
        TaggedContentVisitor { tag_name: name, expecting }
    }

    /// A sequence: the first element is the tag, the rest is the content.
    pub fn visit_seq<'de>(&self, items: &Vec<Content<'de>>) -> (r: Result<
        (Content<'de>, Content<'de>),
        DecodeError,
    >)
        ensures
            items@.len() == 0 ==> r == Err::<(Content<'de>, Content<'de>), DecodeError>(
                DecodeError::MissingTag,
            ),
            items@.len() > 0 ==> (r matches Ok((tag, rest)) && tag@ == items@[0]@ && rest@
                == Value::Sequence(views(items@).skip(1))),
    {
        if items.len() == 0 {
            return Err(DecodeError::MissingTag);
        }
        proof {
            crate::content::lemma_views_index(items@);
        }
        let tag = items[0].duplicate();
        let mut rest: Vec<Content<'de>> = Vec::new();
        let mut i: usize = 1;
        while i < items.len()
            invariant
                1 <= i <= items@.len(),
                views(items@).len() == items@.len(),
                forall|j: int| 0 <= j < items@.len() ==> #[trigger] views(items@)[j] == items@[j]@,
                views(rest@) =~= views(items@).subrange(1, i as int),
            decreases items@.len() - i,
        {
            let x = items[i].duplicate();
            let ghost prev = rest@;
            rest.push(x);
            proof {
                crate::content::lemma_views_push(prev, x);
            }
            i += 1;
        }
        Ok((tag, Content::Sequence(rest)))
    }

    /// A map: the value under the tag key, and the other entries in order.
    pub fn visit_map<'de>(&self, entries: &Vec<(Content<'de>, Content<'de>)>) -> (r: Result<
        (Content<'de>, Content<'de>),
        DecodeError,
    >)
        ensures
            match split_tag(self.tag_name@, entry_views(entries@)) {
                Err(f) => (r matches Err(e) && e@ == f),
                Ok((None, _)) => (r matches Err(e) && e@ == Fault::MissingTag),
                Ok((Some(t), rest)) => (r matches Ok((tag, c)) && tag@ == t && c@ == Value::Mapping(
                    rest,
                )),
            },
    {
        let ghost es = entry_views(entries@);
        proof {
            crate::content::lemma_entry_views_index(entries@);
        }
        let name = copy_str(self.tag_name);
        let mut tag: Option<Content<'de>> = None;
        let mut rest: Vec<(Content<'de>, Content<'de>)> = Vec::new();
        let mut i: usize = 0;
        while i < entries.len()
            invariant
                i <= entries@.len(),
                name@ == self.tag_name@,
                es == entry_views(entries@),
                es.len() == entries@.len(),
                forall|j: int|
                    0 <= j < entries@.len() ==> #[trigger] es[j] == (
                        entries@[j].0@,
                        entries@[j].1@,
                    ),
                split_tag(self.tag_name@, es.take(i as int)) matches Ok((t, r)) && r == entry_views(
                    rest@,
                ) && match tag {
                    Some(c) => t == Some(c@),
                    None => t is None,
                },
            decreases entries@.len() - i,
        {
            proof {
                assert(es.take(i + 1).drop_last() =~= es.take(i as int));
            }
            let is_tag = match entries[i].0.as_str() {
                Some(t) => copy_str(t) == name,
                None => false,
            };
            if is_tag {
                if tag.is_some() {
                    proof {
                        lemma_split_stop(self.tag_name@, es, i + 1);
                    }
                    return Err(DecodeError::DuplicateTag { position: i });
                }
                tag = Some(entries[i].1.duplicate());
            } else {
                let k = entries[i].0.duplicate();
                let v = entries[i].1.duplicate();
                let ghost prev = rest@;
                rest.push((k, v));
                proof {
                    crate::content::lemma_entry_views_push(prev, (k, v));
                }
            }
            i += 1;
        }
        proof {
            assert(es.take(i as int) =~= es);
        }
        match tag {
            Some(t) => Ok((t, Content::Mapping(rest))),
            None => Err(DecodeError::MissingTag),
        }
    }
}

/// Which field of an adjacently tagged value a key names.
#[derive(Clone, Copy, Debug, PartialEq, Eq, Structural)]
pub enum TagOrContentField {
    Tag,
    Content,
}

/// Identifies the tag and content fields of an adjacently tagged value.
#[derive(Debug)]
pub struct TagOrContentFieldVisitor {
    /// Name of the tag field.
    pub tag: &'static str,
    /// Name of the content field.
    pub content: &'static str,
}

fn same_text(a: &str, b: &str) -> (r: bool)
    ensures
        r == (a@ == b@),
{
    copy_str(a) == copy_str(b)
}

/// The failure for a key that names neither field of an adjacently tagged
/// value.
pub open spec fn not_a_field(u: Shown) -> Fault {
    Fault::InvalidValue { unexpected: u, expected: Expected::TagOrContent }
}

/// Whether two byte strings are equal.
fn same_bytes(a: &[u8], b: &[u8]) -> (r: bool)
    ensures
        r == (a@ == b@),
{
    if a.len() != b.len() {
        return false;
    }
    let mut i: usize = 0;
    while i < a.len()
        invariant
            i <= a@.len() == b@.len(),
            forall|j: int| 0 <= j < i ==> a@[j] == b@[j],
        decreases a@.len() - i,
    {
        if a[i] != b[i] {
            return false;
        }
        i += 1;
    }
    assert(a@ =~= b@);
    true
}

impl TagOrContentFieldVisitor {
    /// A field index: 0 is the tag, 1 the content.
    pub fn visit_u64(&self, field_index: u64) -> (r: Result<TagOrContentField, DecodeError>)
        ensures
            field_index == 0 ==> r == Ok::<TagOrContentField, DecodeError>(TagOrContentField::Tag),
            field_index == 1 ==> r == Ok::<TagOrContentField, DecodeError>(
                TagOrContentField::Content,
            ),
            field_index > 1 ==> (r matches Err(e) && e@ == not_a_field(Shown::Unsigned(field_index))),
    {
        match field_index {
            0 => Ok(TagOrContentField::Tag),
            1 => Ok(TagOrContentField::Content),
            _ => Err(
                DecodeError::InvalidValue {
                    unexpected: Unexpected::Unsigned(field_index),
                    expected: Expected::TagOrContent,
                },
            ),
        }
    }

    /// A field name.
    pub fn visit_str(&self, field: &str) -> (r: Result<TagOrContentField, DecodeError>)
        ensures
            field@ == self.tag@ ==> r == Ok::<TagOrContentField, DecodeError>(
                TagOrContentField::Tag,
            ),
            field@ != self.tag@ && field@ == self.content@ ==> r == Ok::<
                TagOrContentField,
                DecodeError,
            >(TagOrContentField::Content),
            field@ != self.tag@ && field@ != self.content@ ==> (r matches Err(e) && e@
                == not_a_field(Shown::Str(field@))),
    {
        if same_text(field, self.tag) {
            Ok(TagOrContentField::Tag)
        } else if same_text(field, self.content) {
            Ok(TagOrContentField::Content)
        } else {
            Err(
                DecodeError::InvalidValue {
                    unexpected: Unexpected::Str(copy_str(field)),
                    expected: Expected::TagOrContent,
                },
            )
        }
    }

    /// A field name given as bytes, compared with the names' UTF-8 bytes.
    pub fn visit_bytes(&self, field: &[u8]) -> (r: Result<TagOrContentField, DecodeError>)
        ensures
            field@ == self.tag.spec_bytes() ==> r == Ok::<TagOrContentField, DecodeError>(
                TagOrContentField::Tag,
            ),
            field@ != self.tag.spec_bytes() && field@ == self.content.spec_bytes() ==> r == Ok::<
                TagOrContentField,
                DecodeError,
            >(TagOrContentField::Content),
            field@ != self.tag.spec_bytes() && field@ != self.content.spec_bytes() ==> (r matches Err(
                e,
            ) && e@ == not_a_field(Shown::Bytes(field@))),
    {
        if same_bytes(field, self.tag.as_bytes()) {
            Ok(TagOrContentField::Tag)
        } else if same_bytes(field, self.content.as_bytes()) {
            Ok(TagOrContentField::Content)
        } else {
            Err(
                DecodeError::InvalidValue {
                    unexpected: Unexpected::Bytes(vstd::slice::slice_to_vec(field)),
                    expected: Expected::TagOrContent,
                },
            )
        }
    }
}

/// Which field of an adjacently tagged value a key names, when other fields
/// are allowed and ignored.
#[derive(Clone, Copy, Debug, PartialEq, Eq, Structural)]
pub enum TagContentOtherField {
    Tag,
    Content,
    Other,
}

/// Identifies the tag and content fields of an adjacently tagged value and
/// lets every other field through as ignored.
#[derive(Debug)]
pub struct TagContentOtherFieldVisitor {
    /// Name of the tag field.
    pub tag: &'static str,
    /// Name of the content field.
    pub content: &'static str,
}

impl TagContentOtherFieldVisitor {
    /// A field index: 0 is the tag, 1 the content, anything else ignored.
    pub fn visit_u64(&self, field_index: u64) -> (r: TagContentOtherField)
        ensures
            r == (if field_index == 0 {
                TagContentOtherField::Tag
            } else if field_index == 1 {
                TagContentOtherField::Content
            } else {
                TagContentOtherField::Other
            }),
    {
        match field_index {
            0 => TagContentOtherField::Tag,
            1 => TagContentOtherField::Content,
            _ => TagContentOtherField::Other,
        }
    }

    /// A field name.
    pub fn visit_str(&self, field: &str) -> (r: TagContentOtherField)
        ensures
            r == (if field@ == self.tag@ {
                TagContentOtherField::Tag
            } else if field@ == self.content@ {
                TagContentOtherField::Content
            } else {
                TagContentOtherField::Other
            }),
    {
        if same_text(field, self.tag) {
            TagContentOtherField::Tag
        } else if same_text(field, self.content) {
            TagContentOtherField::Content
        } else {
            TagContentOtherField::Other
        }
    }

    /// A field name given as bytes, compared with the names' UTF-8 bytes.
    pub fn visit_bytes(&self, field: &[u8]) -> (r: TagContentOtherField)
        ensures
            r == (if field@ == self.tag.spec_bytes() {
                TagContentOtherField::Tag
            } else if field@ == self.content.spec_bytes() {
                TagContentOtherField::Content
            } else {
                TagContentOtherField::Other
            }),
    {
        if same_bytes(field, self.tag.as_bytes()) {
            TagContentOtherField::Tag
        } else if same_bytes(field, self.content.as_bytes()) {
            TagContentOtherField::Content
        } else {
            TagContentOtherField::Other
        }
    }
}

/// What a unit-variant check reports about a value it refuses: a character
/// is reported as text, as the generic visitor hands it on.
pub open spec fn refused_shown(v: Value) -> Shown {
    match v {
        Value::Char(c) => Shown::Str(seq![c]),
        _ => crate::content::shown_of(v),
    }
}

/// The failure for a value that a unit variant does not take.
pub open spec fn unit_refusal(v: Value) -> Fault {
    Fault::InvalidType { unexpected: refused_shown(v), expected: Expected::UnitVariant }
}

fn refused(c: &Content) -> (r: Unexpected)
    ensures
        r@ == refused_shown(c@),
{
    match c {
        Content::Char(ch) => Unexpected::Str(crate::content::char_text(*ch)),
        _ => c.unexpected(),
    }
}

/// Checks the content of an internally tagged unit variant: any sequence
/// or map is accepted and its contents ignored.
#[derive(Debug)]
pub struct InternallyTaggedUnitVisitor<'a> {
    pub union_name: &'a str,
    pub variant_name: &'a str,
}

impl<'a> InternallyTaggedUnitVisitor<'a> {
    pub fn new(union_name: &'a str, variant_name: &'a str) -> (r: Self)
        ensures
            r.union_name == union_name,
            r.variant_name == variant_name,
    {
        InternallyTaggedUnitVisitor { union_name, variant_name }
    }

    pub fn visit(&self, c: &Content) -> (r: Result<(), DecodeError>)
        ensures
            (c@ is Sequence || c@ is Mapping) ==> r is Ok,
            !(c@ is Sequence || c@ is Mapping) ==> (r matches Err(e) && e@ == unit_refusal(c@)),
    {
        match c {
            Content::Sequence(_) | Content::Mapping(_) => Ok(()),
            _ => Err(DecodeError::InvalidType { unexpected: refused(c), expected: Expected::UnitVariant }),
        }
    }
}

/// Checks an untagged unit variant: only unit or an absent value is
/// accepted.
#[derive(Debug)]
pub struct UntaggedUnitVisitor<'a> {
    pub union_name: &'a str,
    pub variant_name: &'a str,
}

impl<'a> UntaggedUnitVisitor<'a> {
    pub fn new(union_name: &'a str, variant_name: &'a str) -> (r: Self)
        ensures
            r.union_name == union_name,
            r.variant_name == variant_name,
    {
        UntaggedUnitVisitor { union_name, variant_name }
    }

    pub fn visit(&self, c: &Content) -> (r: Result<(), DecodeError>)
        ensures
            (c@ is Unit || c@ is Absent) ==> r is Ok,
            !(c@ is Unit || c@ is Absent) ==> (r matches Err(e) && e@ == unit_refusal(c@)),
    {
        match c {
            Content::Unit | Content::Absent => Ok(()),
            _ => Err(DecodeError::InvalidType { unexpected: refused(c), expected: Expected::UnitVariant }),
        }
    }
}

} // verus!
