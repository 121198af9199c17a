//! The buffered value model: an owned or borrowed tree that holds anything a
//! self-describing format can produce, captured once so that it can be probed
//! many times.
use vstd::prelude::*;
use vstd::utf8::{decode_utf8, valid_utf8};

verus! {

broadcast use vstd::string::group_string_axioms;

/// Mathematical model of a captured value.
pub enum Value {
    Bool(bool),
    U8(u8),
    U16(u16),
    U32(u32),
    U64(u64),
    I8(i8),
    I16(i16),
    I32(i32),
    I64(i64),
    F32(u32),
    F64(u64),
    Char(char),
    String(Seq<char>),
    Str(Seq<char>),
    ByteBuf(Seq<u8>),
    Bytes(Seq<u8>),
    Absent,
    Present(Box<Value>),
    Unit,
    Newtype(Box<Value>),
    Sequence(Seq<Value>),
    Mapping(Seq<(Value, Value)>),
}

/// A captured value. Map entries keep their input order and their
/// duplicates. Floating-point numbers are held as their IEEE-754 bit patterns.
#[derive(Debug, PartialEq)]
pub enum Content<'de> {
    Bool(bool),
    U8(u8),
    U16(u16),
    U32(u32),
    U64(u64),
    I8(i8),
    I16(i16),
    I32(i32),
    I64(i64),
    F32(u32),
    F64(u64),
    Char(char),
    String(String),
    Str(&'de str),
    ByteBuf(Vec<u8>),
    Bytes(&'de [u8]),
    Absent,
    Present(Box<Content<'de>>),
    Unit,
    Newtype(Box<Content<'de>>),
    Sequence(Vec<Content<'de>>),
    Mapping(Vec<(Content<'de>, Content<'de>)>),
}

impl<'de> View for Content<'de> {
    type V = Value;

    open spec fn view(&self) -> Value {
        value_of(*self)
    }
}

/// The model of a captured value.
pub open spec fn value_of<'de>(c: Content<'de>) -> Value
    decreases c,
{
    match c {
        Content::Bool(b) => Value::Bool(b),
        Content::U8(n) => Value::U8(n),
        Content::U16(n) => Value::U16(n),
        Content::U32(n) => Value::U32(n),
        Content::U64(n) => Value::U64(n),
        Content::I8(n) => Value::I8(n),
        Content::I16(n) => Value::I16(n),
        Content::I32(n) => Value::I32(n),
        Content::I64(n) => Value::I64(n),
        Content::F32(b) => Value::F32(b),
        Content::F64(b) => Value::F64(b),
        Content::Char(c) => Value::Char(c),
        Content::String(s) => Value::String(s@),
        Content::Str(s) => Value::Str(s@),
        Content::ByteBuf(b) => Value::ByteBuf(b@),
        Content::Bytes(b) => Value::Bytes(b@),
        Content::Absent => Value::Absent,
        Content::Present(b) => Value::Present(Box::new(value_of(*b))),
        Content::Unit => Value::Unit,
        Content::Newtype(b) => Value::Newtype(Box::new(value_of(*b))),
        Content::Sequence(v) => Value::Sequence(views(v@)),
        Content::Mapping(v) => Value::Mapping(entry_views(v@)),
    }
}

/// The models of a list of values.
pub open spec fn views<'de>(s: Seq<Content<'de>>) -> Seq<Value>
    decreases s,
{
    if s.len() == 0 {
        Seq::empty()
    } else {
        views(s.drop_last()).push(value_of(s.last()))
    }
}

/// The models of a list of entries.
pub open spec fn entry_views<'de>(s: Seq<(Content<'de>, Content<'de>)>) -> Seq<(Value, Value)>
    decreases s,
{
    if s.len() == 0 {
        Seq::empty()
    } else {
        entry_views(s.drop_last()).push((value_of(s.last().0), value_of(s.last().1)))
    }
}

/// What a failed decode reports about the value it was given.
#[derive(Debug, PartialEq)]
pub enum Unexpected {
    Bool(bool),
    Unsigned(u64),
    Signed(i64),
    Float32(u32),
    Float64(u64),
    Char(char),
    Str(String),
    Bytes(Vec<u8>),
    Unit,
    Optional,
    NewtypeStruct,
    Sequence,
    Mapping,
    UnitVariant,
}

/// Mathematical model of [`Unexpected`].
pub enum Shown {
    Bool(bool),
    Unsigned(u64),
    Signed(i64),
    Float32(u32),
    Float64(u64),
    Char(char),
    Str(Seq<char>),
    Bytes(Seq<u8>),
    Unit,
    Optional,
    NewtypeStruct,
    Sequence,
    Mapping,
    UnitVariant,
}

impl View for Unexpected {
    type V = Shown;

    open spec fn view(&self) -> Shown {
        match *self {
            Unexpected::Bool(b) => Shown::Bool(b),
            Unexpected::Unsigned(n) => Shown::Unsigned(n),
            Unexpected::Signed(n) => Shown::Signed(n),
            Unexpected::Float32(b) => Shown::Float32(b),
            Unexpected::Float64(b) => Shown::Float64(b),
            Unexpected::Char(c) => Shown::Char(c),
            Unexpected::Str(s) => Shown::Str(s@),
            Unexpected::Bytes(b) => Shown::Bytes(b@),
            Unexpected::Unit => Shown::Unit,
            Unexpected::Optional => Shown::Optional,
            Unexpected::NewtypeStruct => Shown::NewtypeStruct,
            Unexpected::Sequence => Shown::Sequence,
            Unexpected::Mapping => Shown::Mapping,
            Unexpected::UnitVariant => Shown::UnitVariant,
        }
    }
}

/// The descriptive kind of a value, as reported in an "invalid type" error:
/// integers are widened to 64 bits, owned and borrowed text alike are text.
pub open spec fn shown_of(v: Value) -> Shown {
    match v {
        Value::Bool(b) => Shown::Bool(b),
        Value::U8(n) => Shown::Unsigned(n as u64),
        Value::U16(n) => Shown::Unsigned(n as u64),
        Value::U32(n) => Shown::Unsigned(n as u64),
        Value::U64(n) => Shown::Unsigned(n),
        Value::I8(n) => Shown::Signed(n as i64),
        Value::I16(n) => Shown::Signed(n as i64),
        Value::I32(n) => Shown::Signed(n as i64),
        Value::I64(n) => Shown::Signed(n),
        Value::F32(b) => Shown::Float32(b),
        Value::F64(b) => Shown::Float64(b),
        Value::Char(c) => Shown::Char(c),
        Value::String(s) => Shown::Str(s),
        Value::Str(s) => Shown::Str(s),
        Value::ByteBuf(b) => Shown::Bytes(b),
        Value::Bytes(b) => Shown::Bytes(b),
        Value::Absent => Shown::Optional,
        Value::Present(_) => Shown::Optional,
        Value::Unit => Shown::Unit,
        Value::Newtype(_) => Shown::NewtypeStruct,
        Value::Sequence(_) => Shown::Sequence,
        Value::Mapping(_) => Shown::Mapping,
    }
}

/// The text that a value holds, where it holds valid UTF-8 text.
pub open spec fn text_of(v: Value) -> Option<Seq<char>> {
    match v {
        Value::String(s) => Some(s),
        Value::Str(s) => Some(s),
        Value::ByteBuf(b) => if valid_utf8(b) {
            Some(decode_utf8(b))
        } else {
            None
        },
        Value::Bytes(b) => if valid_utf8(b) {
            Some(decode_utf8(b))
        } else {
            None
        },
        _ => None,
    }
}

/// Relies on `std::str::from_utf8`: it succeeds exactly on valid UTF-8 and
/// then reads the characters that the bytes encode.
#[verifier::external_body]
pub(crate) fn utf8_str(b: &[u8]) -> (r: Option<&str>)
    ensures
        r is Some <==> valid_utf8(b@),
        r is Some ==> r->0@ == decode_utf8(b@),
{
    std::str::from_utf8(b).ok()
}

/// Relies on `String::from(char)`: a string of that one character.
#[verifier::external_body]
pub(crate) fn char_text(c: char) -> (r: String)
    ensures
        r@ == seq![c],
{
    String::from(c)
}

pub(crate) fn copy_str(s: &str) -> (r: String)
    ensures
        r@ == s@,
{
    s.to_string()
}

impl<'de> Content<'de> {
    /// The text held by a string, or by bytes that are valid UTF-8.
    pub fn as_str(&self) -> (r: Option<&str>)
        ensures
            match text_of(self@) {
                Some(t) => r is Some && r->0@ == t,
                None => r is None,
            },
    {
        match self {
            Content::Str(x) => Some(*x),
            Content::String(x) => Some(x.as_str()),
            Content::Bytes(x) => utf8_str(x),
            Content::ByteBuf(x) => utf8_str(x.as_slice()),
            _ => None,
        }
    }

    /// Describes this value for an "invalid type" error.
    pub fn unexpected(&self) -> (r: Unexpected)
        ensures
            r@ == shown_of(self@),
    {
        match self {
            Content::Bool(b) => Unexpected::Bool(*b),
            Content::U8(n) => Unexpected::Unsigned(*n as u64),
            Content::U16(n) => Unexpected::Unsigned(*n as u64),
            Content::U32(n) => Unexpected::Unsigned(*n as u64),
            Content::U64(n) => Unexpected::Unsigned(*n),
            Content::I8(n) => Unexpected::Signed(*n as i64),
            Content::I16(n) => Unexpected::Signed(*n as i64),
            Content::I32(n) => Unexpected::Signed(*n as i64),
            Content::I64(n) => Unexpected::Signed(*n),
            Content::F32(b) => Unexpected::Float32(*b),
            Content::F64(b) => Unexpected::Float64(*b),
            Content::Char(c) => Unexpected::Char(*c),
            Content::String(s) => Unexpected::Str(copy_str(s.as_str())),
            Content::Str(s) => Unexpected::Str(copy_str(s)),
            Content::ByteBuf(b) => Unexpected::Bytes(vstd::slice::slice_to_vec(b.as_slice())),
            Content::Bytes(b) => Unexpected::Bytes(vstd::slice::slice_to_vec(b)),
            Content::Absent => Unexpected::Optional,
            Content::Present(_) => Unexpected::Optional,
            Content::Unit => Unexpected::Unit,
            Content::Newtype(_) => Unexpected::NewtypeStruct,
            Content::Sequence(_) => Unexpected::Sequence,
            Content::Mapping(_) => Unexpected::Mapping,
        }
    }
}

} // verus!

verus! {

pub proof fn lemma_views_push<'de>(s: Seq<Content<'de>>, x: Content<'de>)
    ensures
        views(s.push(x)) == views(s).push(x@),
{
    assert(s.push(x).drop_last() =~= s);
}

pub proof fn lemma_entry_views_push<'de>(s: Seq<(Content<'de>, Content<'de>)>, x: (Content<'de>, Content<'de>))
    ensures
        entry_views(s.push(x)) == entry_views(s).push((x.0@, x.1@)),
{
    assert(s.push(x).drop_last() =~= s);
}

/// The model of a list is as long as the list, element by element.
pub proof fn lemma_views_index<'de>(s: Seq<Content<'de>>)
    ensures
        views(s).len() == s.len(),
        forall|i: int| 0 <= i < s.len() ==> #[trigger] views(s)[i] == s[i]@,
    decreases s.len(),
{
    if s.len() > 0 {
        lemma_views_index(s.drop_last());
    }
}

pub proof fn lemma_entry_views_index<'de>(s: Seq<(Content<'de>, Content<'de>)>)
    ensures
        entry_views(s).len() == s.len(),
        forall|i: int|
            0 <= i < s.len() ==> #[trigger] entry_views(s)[i] == (s[i].0@, s[i].1@),
    decreases s.len(),
{
    if s.len() > 0 {
        lemma_entry_views_index(s.drop_last());
    }
}

impl<'de> Content<'de> {
    /// A copy of this value, borrowed parts still borrowed.
    pub fn duplicate(&self) -> (r: Content<'de>)
        ensures
            r@ == self@,
        decreases self,
    {
        match self {
            Content::Bool(b) => Content::Bool(*b),
            Content::U8(n) => Content::U8(*n),
            Content::U16(n) => Content::U16(*n),
            Content::U32(n) => Content::U32(*n),
            Content::U64(n) => Content::U64(*n),
            Content::I8(n) => Content::I8(*n),
            Content::I16(n) => Content::I16(*n),
            Content::I32(n) => Content::I32(*n),
            Content::I64(n) => Content::I64(*n),
            Content::F32(b) => Content::F32(*b),
            Content::F64(b) => Content::F64(*b),
            Content::Char(c) => Content::Char(*c),
            Content::String(s) => Content::String(s.clone()),
            Content::Str(s) => Content::Str(*s),
            Content::ByteBuf(b) => Content::ByteBuf(vstd::slice::slice_to_vec(b.as_slice())),
            Content::Bytes(b) => Content::Bytes(*b),
            Content::Absent => Content::Absent,
            Content::Present(b) => Content::Present(Box::new((**b).duplicate())),
            Content::Unit => Content::Unit,
            Content::Newtype(b) => Content::Newtype(Box::new((**b).duplicate())),
            Content::Sequence(items) => {
                let mut out: Vec<Content<'de>> = Vec::new();
                let mut i: usize = 0;
                while i < items.len()
                    invariant
                        i <= items@.len(),
                        *self == Content::Sequence(*items),
                        views(out@) == views(items@.take(i as int)),
                    decreases items@.len() - i,
                {
                    proof {
                        assert(decreases_to!(*self => (*self)->Sequence_0));
                        assert(decreases_to!(*items => items@));
                        assert(decreases_to!(items@ => items@[i as int]));
                    }
                    let x = items[i].duplicate();
                    let ghost prev = out@;
                    out.push(x);
                    proof {
                        lemma_views_push(prev, x);
                        assert(items@.take(i + 1).drop_last() =~= items@.take(i as int));
                    }
                    i += 1;
                }
                proof {
                    assert(items@.take(i as int) =~= items@);
                }
                Content::Sequence(out)
            },
            Content::Mapping(entries) => {
                let mut out: Vec<(Content<'de>, Content<'de>)> = Vec::new();
                let mut i: usize = 0;
                while i < entries.len()
                    invariant
                        i <= entries@.len(),
                        *self == Content::Mapping(*entries),
                        entry_views(out@) == entry_views(entries@.take(i as int)),
                    decreases entries@.len() - i,
                {
                    proof {
                        assert(decreases_to!(*self => (*self)->Mapping_0));
                        assert(decreases_to!(*entries => entries@));
                        assert(decreases_to!(entries@ => entries@[i as int]));
                        assert(decreases_to!(entries@[i as int] => entries@[i as int].0));
                        assert(decreases_to!(entries@[i as int] => entries@[i as int].1));
                    }
                    let k = entries[i].0.duplicate();
                    let v = entries[i].1.duplicate();
                    let ghost prev = out@;
                    out.push((k, v));
                    proof {
                        lemma_entry_views_push(prev, (k, v));
                        assert(entries@.take(i + 1).drop_last() =~= entries@.take(i as int));
                    }
                    i += 1;
                }
                proof {
                    assert(entries@.take(i as int) =~= entries@);
                }
                Content::Mapping(out)
            },
        }
    }
}

} // verus!
