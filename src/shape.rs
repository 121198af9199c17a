//! Declared target types, and the value-tree decoder that reads a captured
//! value as one of them.
use vstd::prelude::*;
use vstd::string::StrSliceExecFns;
use vstd::utf8::{decode_utf8, valid_utf8};
use crate::content::{copy_str, entry_views, shown_of, utf8_str, views, Content, Shown, Unexpected, Value};
use crate::error::{outcome, DecodeError, Expected, Fault};

verus! {

/// A fixed-width integer type.
#[derive(Clone, Copy, Debug, PartialEq, Eq, Structural)]
pub enum IntKind {
    U8,
    U16,
    U32,
    U64,
    I8,
    I16,
    I32,
    I64,
}

impl IntKind {
    pub open spec fn signed(self) -> bool {
        match self {
            IntKind::I8 | IntKind::I16 | IntKind::I32 | IntKind::I64 => true,
            _ => false,
        }
    }

    pub open spec fn min(self) -> int {
        match self {
            IntKind::I8 => i8::MIN as int,
            IntKind::I16 => i16::MIN as int,
            IntKind::I32 => i32::MIN as int,
            IntKind::I64 => i64::MIN as int,
            _ => 0,
        }
    }

    pub open spec fn max(self) -> int {
        match self {
            IntKind::U8 => u8::MAX as int,
            IntKind::U16 => u16::MAX as int,
            IntKind::U32 => u32::MAX as int,
            IntKind::U64 => u64::MAX as int,
            IntKind::I8 => i8::MAX as int,
            IntKind::I16 => i16::MAX as int,
            IntKind::I32 => i32::MAX as int,
            IntKind::I64 => i64::MAX as int,
        }
    }

    pub open spec fn holds(self, x: int) -> bool {
        self.min() <= x <= self.max()
    }
}

/// The declared type of a tag or of a field.
#[derive(Debug)]
pub enum Shape {
    Bool,
    Int(IntKind),
    Char,
    /// Owned text.
    Str,
    Unit,
    /// A value that may be absent.
    Optional(Box<Shape>),
    /// A sequence of any length whose elements all have one type.
    Sequence(Box<Shape>),
    /// A sequence of fixed length whose elements have the given types.
    Tuple(Vec<Shape>),
    /// A mapping, read as its entries in input order.
    Mapping(Box<Shape>, Box<Shape>),
    /// Any value at all, kept as it was captured.
    Any,
}

/// The integer that an integer value holds.
pub open spec fn int_of(v: Value) -> Option<int> {
    match v {
        Value::U8(n) => Some(n as int),
        Value::U16(n) => Some(n as int),
        Value::U32(n) => Some(n as int),
        Value::U64(n) => Some(n as int),
        Value::I8(n) => Some(n as int),
        Value::I16(n) => Some(n as int),
        Value::I32(n) => Some(n as int),
        Value::I64(n) => Some(n as int),
        _ => None,
    }
}

/// The value of integer type `k` that holds `x`.
pub open spec fn int_value(k: IntKind, x: int) -> Value {
    match k {
        IntKind::U8 => Value::U8(x as u8),
        IntKind::U16 => Value::U16(x as u16),
        IntKind::U32 => Value::U32(x as u32),
        IntKind::U64 => Value::U64(x as u64),
        IntKind::I8 => Value::I8(x as i8),
        IntKind::I16 => Value::I16(x as i16),
        IntKind::I32 => Value::I32(x as i32),
        IntKind::I64 => Value::I64(x as i64),
    }
}

pub open spec fn is_digit(c: char) -> bool {
    '0' <= c <= '9'
}

pub open spec fn is_digits(s: Seq<char>) -> bool {
    s.len() > 0 && forall|i: int| 0 <= i < s.len() ==> is_digit(#[trigger] s[i])
}

/// The number that a string of decimal digits writes.
pub open spec fn digits_value(s: Seq<char>) -> int
    decreases s.len(),
{
    if s.len() == 0 {
        0
    } else {
        digits_value(s.drop_last()) * 10 + (s.last() as int - '0' as int)
    }
}

/// What `str::parse` yields for integer type `k`: an optional `+` (or `-`
/// for a signed type), then one or more decimal digits, within range.
pub open spec fn parsed_int(s: Seq<char>, k: IntKind) -> Option<int> {
    let neg = s.len() > 0 && s[0] == '-' && k.signed();
    let body = if s.len() > 0 && (s[0] == '+' || neg) {
        s.skip(1)
    } else {
        s
    };
    let x = if neg {
        -digits_value(body)
    } else {
        digits_value(body)
    };
    if is_digits(body) && k.holds(x) {
        Some(x)
    } else {
        None
    }
}

pub open spec fn invalid_type(v: Value, expected: Expected) -> Fault {
    Fault::InvalidType { unexpected: shown_of(v), expected }
}

/// Names the committed variant in a failure that follows the commit.
pub open spec fn in_variant(wrap: Option<usize>, e: Fault) -> Fault {
    match wrap {
        Some(k) => Fault::InVariant { variant: k, cause: Box::new(e) },
        None => e,
    }
}

/// Decoding value `v` as type `shape`: the canonical value of that type, or
/// the failure, exactly as a direct decode of the type from the input that
/// the value was captured from.
pub open spec fn decode_value(shape: Shape, v: Value) -> Result<Value, Fault>
    decreases shape, 2nat, 0nat,
{
    match shape {
        Shape::Any => Ok(v),
        Shape::Bool => match v {
            Value::Bool(b) => Ok(Value::Bool(b)),
            _ => Err(invalid_type(v, Expected::Bool)),
        },
        Shape::Int(k) => match int_of(v) {
            Some(x) => if k.holds(x) {
                Ok(int_value(k, x))
            } else {
                Err(Fault::InvalidValue { unexpected: shown_of(v), expected: Expected::Int(k) })
            },
            None => Err(invalid_type(v, Expected::Int(k))),
        },
        Shape::Char => match v {
            Value::Char(c) => Ok(Value::Char(c)),
            Value::String(s) => char_of_text(s),
            Value::Str(s) => char_of_text(s),
            _ => Err(invalid_type(v, Expected::Char)),
        },
        Shape::Str => match v {
            Value::String(s) => Ok(Value::String(s)),
            Value::Str(s) => Ok(Value::String(s)),
            Value::ByteBuf(b) => text_of_bytes(b),
            Value::Bytes(b) => text_of_bytes(b),
            _ => Err(invalid_type(v, Expected::Str)),
        },
        Shape::Unit => match v {
            Value::Unit => Ok(Value::Unit),
            _ => Err(invalid_type(v, Expected::Unit)),
        },
        Shape::Optional(inner) => match v {
            Value::Absent => Ok(Value::Absent),
            Value::Unit => Ok(Value::Absent),
            Value::Present(x) => match decode_value(*inner, *x) {
                Ok(y) => Ok(Value::Present(Box::new(y))),
                Err(e) => Err(e),
            },
            _ => match decode_value(*inner, v) {
                Ok(y) => Ok(Value::Present(Box::new(y))),
                Err(e) => Err(e),
            },
        },
        Shape::Sequence(_) => match v {
            Value::Sequence(items) => match decode_items(shape, items) {
                Ok(xs) => Ok(Value::Sequence(xs)),
                Err(e) => Err(e),
            },
            _ => Err(invalid_type(v, Expected::Sequence)),
        },
        Shape::Tuple(shapes) => decode_tuple(
            shapes@,
            v,
            Expected::Tuple(shapes@.len() as usize),
            None,
        ),
        Shape::Mapping(_, _) => match v {
            Value::Mapping(entries) => match decode_entries(shape, entries) {
                Ok(xs) => Ok(Value::Mapping(xs)),
                Err(e) => Err(e),
            },
            _ => Err(invalid_type(v, Expected::Mapping)),
        },
    }
}

pub open spec fn char_of_text(s: Seq<char>) -> Result<Value, Fault> {
    if s.len() == 1 {
        Ok(Value::Char(s[0]))
    } else {
        Err(Fault::InvalidValue { unexpected: Shown::Str(s), expected: Expected::Char })
    }
}

pub open spec fn text_of_bytes(b: Seq<u8>) -> Result<Value, Fault> {
    if valid_utf8(b) {
        Ok(Value::String(decode_utf8(b)))
    } else {
        Err(Fault::InvalidValue { unexpected: Shown::Bytes(b), expected: Expected::Str })
    }
}

/// Decoding the elements of a sequence as the element type of `parent`; the
/// first failure, in order, is reported.
pub open spec fn decode_items(parent: Shape, items: Seq<Value>) -> Result<Seq<Value>, Fault>
    decreases parent, 1nat, items.len(),
{
    if items.len() == 0 {
        Ok(Seq::empty())
    } else {
        match decode_items(parent, items.drop_last()) {
            Err(e) => Err(e),
            Ok(xs) => match parent {
                Shape::Sequence(inner) => match decode_value(*inner, items.last()) {
                    Ok(x) => Ok(xs.push(x)),
                    Err(e) => Err(e),
                },
                _ => Ok(xs),
            },
        }
    }
}

/// Decoding the entries of a mapping with the key and value types of
/// `parent`, key before value, entry by entry.
pub open spec fn decode_entries(parent: Shape, entries: Seq<(Value, Value)>) -> Result<
    Seq<(Value, Value)>,
    Fault,
>
    decreases parent, 1nat, entries.len(),
{
    if entries.len() == 0 {
        Ok(Seq::empty())
    } else {
        match decode_entries(parent, entries.drop_last()) {
            Err(e) => Err(e),
            Ok(xs) => match parent {
                Shape::Mapping(ks, vs) => match decode_key(*ks, entries.last().0) {
                    Err(e) => Err(e),
                    Ok(k) => match decode_value(*vs, entries.last().1) {
                        Err(e) => Err(e),
                        Ok(x) => Ok(xs.push((k, x))),
                    },
                },
                _ => Ok(xs),
            },
        }
    }
}

/// Decoding a map key: text that parses as the wanted integer type gives
/// that integer; anything else decodes as an ordinary value.
pub open spec fn decode_key(shape: Shape, k: Value) -> Result<Value, Fault>
    decreases shape, 3nat, 0nat,
{
    let parsed = match (shape, k) {
        (Shape::Int(kind), Value::String(s)) => parsed_int(s, kind),
        (Shape::Int(kind), Value::Str(s)) => parsed_int(s, kind),
        _ => None,
    };
    match parsed {
        Some(x) => Ok(int_value(shape->Int_0, x)),
        None => decode_value(shape, k),
    }
}

/// Decoding the first `n` elements of a sequence as the given field types.
pub open spec fn decode_fields(
    shapes: Seq<Shape>,
    items: Seq<Value>,
    n: nat,
    expected: Expected,
    wrap: Option<usize>,
) -> Result<Seq<Value>, Fault>
    decreases shapes, 1nat, n,
{
    if n == 0 || n > shapes.len() {
        Ok(Seq::empty())
    } else {
        match decode_fields(shapes, items, (n - 1) as nat, expected, wrap) {
            Err(e) => Err(e),
            Ok(xs) => if n - 1 >= items.len() {
                Err(Fault::InvalidLength { len: (n - 1) as usize, expected })
            } else {
                match decode_value(shapes[n - 1], items[n - 1]) {
                    Ok(x) => Ok(xs.push(x)),
                    Err(e) => Err(in_variant(wrap, e)),
                }
            },
        }
    }
}

/// Decoding a whole sequence as a tuple of the given field types: too few
/// elements, a failing element, or elements left over all fail.
pub open spec fn decode_tuple(
    shapes: Seq<Shape>,
    v: Value,
    expected: Expected,
    wrap: Option<usize>,
) -> Result<Value, Fault>
    decreases shapes, 2nat, 0nat,
{
    match v {
        Value::Sequence(items) => match decode_fields(shapes, items, shapes.len(), expected, wrap) {
            Err(e) => Err(e),
            Ok(xs) => if items.len() > shapes.len() {
                Err(
                    Fault::InvalidLength {
                        len: items.len() as usize,
                        expected: Expected::ElementsInSequence(shapes.len() as usize),
                    },
                )
            } else {
                Ok(Value::Sequence(xs))
            },
        },
        _ => Err(invalid_type(v, expected)),
    }
}

} // verus!

verus! {

pub proof fn lemma_items_stop(parent: Shape, s: Seq<Value>, i: int)
    requires
        0 <= i <= s.len(),
        decode_items(parent, s.take(i)) is Err,
    ensures
        decode_items(parent, s) == decode_items(parent, s.take(i)),
    decreases s.len() - i,
{
    if i < s.len() {
        assert(s.take(i + 1).drop_last() =~= s.take(i));
        lemma_items_stop(parent, s, i + 1);
    } else {
        assert(s.take(i) =~= s);
    }
}

pub proof fn lemma_entries_stop(parent: Shape, s: Seq<(Value, Value)>, i: int)
    requires
        0 <= i <= s.len(),
        decode_entries(parent, s.take(i)) is Err,
    ensures
        decode_entries(parent, s) == decode_entries(parent, s.take(i)),
    decreases s.len() - i,
{
    if i < s.len() {
        assert(s.take(i + 1).drop_last() =~= s.take(i));
        lemma_entries_stop(parent, s, i + 1);
    } else {
        assert(s.take(i) =~= s);
    }
}

pub proof fn lemma_fields_stop(
    shapes: Seq<Shape>,
    items: Seq<Value>,
    n: nat,
    m: nat,
    expected: Expected,
    wrap: Option<usize>,
)
    requires
        n <= m <= shapes.len(),
        decode_fields(shapes, items, n, expected, wrap) is Err,
    ensures
        decode_fields(shapes, items, m, expected, wrap) == decode_fields(
            shapes,
            items,
            n,
            expected,
            wrap,
        ),
    decreases m - n,
{
    if n < m {
        lemma_fields_stop(shapes, items, n, (m - 1) as nat, expected, wrap);
    }
}

impl IntKind {
    pub fn is_signed(self) -> (r: bool)
        ensures
            r == self.signed(),
    {
        match self {
            IntKind::I8 | IntKind::I16 | IntKind::I32 | IntKind::I64 => true,
            _ => false,
        }
    }

    /// Whether `x` is a value of this type.
    pub fn fits(self, x: i128) -> (r: bool)
        ensures
            r == self.holds(x as int),
    {
        match self {
            IntKind::U8 => 0 <= x && x <= u8::MAX as i128,
            IntKind::U16 => 0 <= x && x <= u16::MAX as i128,
            IntKind::U32 => 0 <= x && x <= u32::MAX as i128,
            IntKind::U64 => 0 <= x && x <= u64::MAX as i128,
            IntKind::I8 => i8::MIN as i128 <= x && x <= i8::MAX as i128,
            IntKind::I16 => i16::MIN as i128 <= x && x <= i16::MAX as i128,
            IntKind::I32 => i32::MIN as i128 <= x && x <= i32::MAX as i128,
            IntKind::I64 => i64::MIN as i128 <= x && x <= i64::MAX as i128,
        }
    }
}

/// The integer that an integer value holds.
pub fn content_int(c: &Content) -> (r: Option<i128>)
    ensures
        match int_of(c@) {
            Some(x) => r == Some(x as i128),
            None => r is None,
        },
{
    match c {
        Content::U8(n) => Some(*n as i128),
        Content::U16(n) => Some(*n as i128),
        Content::U32(n) => Some(*n as i128),
        Content::U64(n) => Some(*n as i128),
        Content::I8(n) => Some(*n as i128),
        Content::I16(n) => Some(*n as i128),
        Content::I32(n) => Some(*n as i128),
        Content::I64(n) => Some(*n as i128),
        _ => None,
    }
}

/// The value of integer type `k` that holds `x`.
pub fn int_content<'de>(k: IntKind, x: i128) -> (r: Content<'de>)
    requires
        k.holds(x as int),
    ensures
        r@ == int_value(k, x as int),
{
    match k {
        IntKind::U8 => Content::U8(x as u8),
        IntKind::U16 => Content::U16(x as u16),
        IntKind::U32 => Content::U32(x as u32),
        IntKind::U64 => Content::U64(x as u64),
        IntKind::I8 => Content::I8(x as i8),
        IntKind::I16 => Content::I16(x as i16),
        IntKind::I32 => Content::I32(x as i32),
        IntKind::I64 => Content::I64(x as i64),
    }
}

/// Reads decimal text as an integer of type `k`, as `str::parse` does.
pub fn parse_int(s: &str, k: IntKind) -> (r: Option<i128>)
    ensures
        match parsed_int(s@, k) {
            Some(x) => r == Some(x as i128),
            None => r is None,
        },
{
    let n = s.unicode_len();
    if n == 0 {
        return None;
    }
    let first = s.get_char(0);
    let neg = first == '-' && k.is_signed();
    let start: usize = if first == '+' || neg {
        1
    } else {
        0
    };
    let ghost body = if first == '+' || neg {
        s@.skip(1)
    } else {
        s@
    };
    proof {
        assert(body =~= s@.subrange(start as int, n as int));
    }
    if start >= n {
        return None;
    }
    let limit: u128 = 0x1_0000_0000_0000_0000;
    let mut acc: u128 = 0;
    let mut big = false;
    let mut i: usize = start;
    while i < n
        invariant
            start <= i <= n,
            n == s@.len(),
            body =~= s@.subrange(start as int, n as int),
            first == s@[0],
            limit == 0x1_0000_0000_0000_0000,
            neg == (first == '-' && k.signed()),
            body == (if first == '+' || neg {
                s@.skip(1)
            } else {
                s@
            }),
            forall|j: int| start <= j < i ==> is_digit(#[trigger] s@[j]),
            !big ==> acc == digits_value(s@.subrange(start as int, i as int)),
            !big ==> acc <= limit,
            big ==> digits_value(s@.subrange(start as int, i as int)) > limit,
        decreases n - i,
    {
        let c = s.get_char(i);
        if !('0' <= c && c <= '9') {
            proof {
                assert(body[i - start] == c);
                assert(!is_digit(body[i - start]));
                assert(!is_digits(body));
            }
            return None;
        }
        let ghost pre = s@.subrange(start as int, i as int);
        proof {
            assert(s@.subrange(start as int, i + 1).drop_last() =~= pre);
            assert(s@.subrange(start as int, i + 1).last() == c);
        }
        if !big {
            let d = (c as u32 - '0' as u32) as u128;
            assert(acc * 10 <= 0x1_0000_0000_0000_0000 * 10) by (nonlinear_arith)
                requires
                    acc <= 0x1_0000_0000_0000_0000,
            ;
            assert(d <= 9);
            acc = acc * 10 + d;
            if acc > limit {
                big = true;
            }
        }
        i += 1;
    }
    proof {
        assert(s@.subrange(start as int, n as int) =~= body);
        assert(is_digits(body)) by {
            assert forall|j: int| 0 <= j < body.len() implies is_digit(#[trigger] body[j]) by {
                assert(body[j] == s@[j + start]);
            }
        }
    }
    if big {
        return None;
    }
    let x: i128 = if neg {
        -(acc as i128)
    } else {
        acc as i128
    };
    if k.fits(x) {
        Some(x)
    } else {
        None
    }
}

} // verus!

verus! {

fn wrap_error(wrap: Option<usize>, e: DecodeError) -> (r: DecodeError)
    ensures
        r@ == in_variant(wrap, e@),
{
    match wrap {
        Some(k) => DecodeError::InVariant { variant: k, cause: Box::new(e) },
        None => e,
    }
}

fn type_error(c: &Content, expected: Expected) -> (r: DecodeError)
    ensures
        r@ == invalid_type(c@, expected),
{
    DecodeError::InvalidType { unexpected: c.unexpected(), expected }
}

fn char_from_text<'de>(s: &str) -> (r: Result<Content<'de>, DecodeError>)
    ensures
        outcome(r) == char_of_text(s@),
{
    if s.unicode_len() == 1 {
        Ok(Content::Char(s.get_char(0)))
    } else {
        Err(
            DecodeError::InvalidValue {
                unexpected: Unexpected::Str(copy_str(s)),
                expected: Expected::Char,
            },
        )
    }
}

fn text_from_bytes<'de>(b: &[u8]) -> (r: Result<Content<'de>, DecodeError>)
    ensures
        outcome(r) == text_of_bytes(b@),
{
    match utf8_str(b) {
        Some(s) => Ok(Content::String(copy_str(s))),
        None => Err(
            DecodeError::InvalidValue {
                unexpected: Unexpected::Bytes(vstd::slice::slice_to_vec(b)),
                expected: Expected::Str,
            },
        ),
    }
}

/// Decodes value `c` as type `shape`, reading it by reference so that the
/// same value can be probed again.
pub fn decode<'de>(shape: &Shape, c: &Content<'de>) -> (r: Result<Content<'de>, DecodeError>)
    ensures
        outcome(r) == decode_value(*shape, c@),
    decreases shape, 2nat,
{
    match shape {
        Shape::Any => Ok(c.duplicate()),
        Shape::Bool => match c {
            Content::Bool(b) => Ok(Content::Bool(*b)),
            _ => Err(type_error(c, Expected::Bool)),
        },
        Shape::Int(k) => match content_int(c) {
            Some(x) => if k.fits(x) {
                Ok(int_content(*k, x))
            } else {
                Err(DecodeError::InvalidValue { unexpected: c.unexpected(), expected: Expected::Int(*k) })
            },
            None => Err(type_error(c, Expected::Int(*k))),
        },
        Shape::Char => match c {
            Content::Char(ch) => Ok(Content::Char(*ch)),
            Content::String(s) => char_from_text(s.as_str()),
            Content::Str(s) => char_from_text(s),
            _ => Err(type_error(c, Expected::Char)),
        },
        Shape::Str => match c {
            Content::String(s) => Ok(Content::String(s.clone())),
            Content::Str(s) => Ok(Content::String(copy_str(s))),
            Content::ByteBuf(b) => text_from_bytes(b.as_slice()),
            Content::Bytes(b) => text_from_bytes(b),
            _ => Err(type_error(c, Expected::Str)),
        },
        Shape::Unit => match c {
            Content::Unit => Ok(Content::Unit),
            _ => Err(type_error(c, Expected::Unit)),
        },
        Shape::Optional(inner) => match c {
            Content::Absent => Ok(Content::Absent),
            Content::Unit => Ok(Content::Absent),
            Content::Present(x) => match decode(inner, x) {
                Ok(y) => Ok(Content::Present(Box::new(y))),
                Err(e) => Err(e),
            },
            _ => match decode(inner, c) {
                Ok(y) => Ok(Content::Present(Box::new(y))),
                Err(e) => Err(e),
            },
        },
        Shape::Sequence(inner) => match c {
            Content::Sequence(items) => {
                let ghost vs = views(items@);
                proof {
                    crate::content::lemma_views_index(items@);
                }
                let mut out: Vec<Content<'de>> = Vec::new();
                let mut i: usize = 0;
                while i < items.len()
                    invariant
                        i <= items@.len(),
                        *shape == Shape::Sequence(*inner),
                        *c == Content::Sequence(*items),
                        vs == views(items@),
                        vs.len() == items@.len(),
                        forall|j: int| 0 <= j < items@.len() ==> #[trigger] vs[j] == items@[j]@,
                        decode_items(*shape, vs.take(i as int)) == Ok::<Seq<Value>, Fault>(views(out@)),
                    decreases items@.len() - i,
                {
                    proof {
                        assert(vs.take(i + 1).drop_last() =~= vs.take(i as int));
                    }
                    match decode(inner, &items[i]) {
                        Ok(x) => {
                            let ghost prev = out@;
                            out.push(x);
                            proof {
                                crate::content::lemma_views_push(prev, x);
                            }
                        },
                        Err(e) => {
                            proof {
                                lemma_items_stop(*shape, vs, i + 1);
                            }
                            return Err(e);
                        },
                    }
                    i += 1;
                }
                proof {
                    assert(vs.take(i as int) =~= vs);
                }
                Ok(Content::Sequence(out))
            },
            _ => Err(type_error(c, Expected::Sequence)),
        },
        Shape::Tuple(shapes) => decode_tuple_value(
            shapes,
            c,
            Expected::Tuple(shapes.len()),
            None,
        ),
        Shape::Mapping(ks, vs_shape) => match c {
            Content::Mapping(entries) => {
                let ghost es = entry_views(entries@);
                proof {
                    crate::content::lemma_entry_views_index(entries@);
                }
                let mut out: Vec<(Content<'de>, Content<'de>)> = Vec::new();
                let mut i: usize = 0;
                while i < entries.len()
                    invariant
                        i <= entries@.len(),
                        *shape == Shape::Mapping(*ks, *vs_shape),
                        *c == Content::Mapping(*entries),
                        es == entry_views(entries@),
                        es.len() == entries@.len(),
                        forall|j: int|
                            0 <= j < entries@.len() ==> #[trigger] es[j] == (
                                entries@[j].0@,
                                entries@[j].1@,
                            ),
                        decode_entries(*shape, es.take(i as int)) == Ok::<Seq<(Value, Value)>, Fault>(entry_views(out@)),
                    decreases entries@.len() - i,
                {
                    proof {
                        assert(es.take(i + 1).drop_last() =~= es.take(i as int));
                    }
                    let k = match decode_map_key(ks, &entries[i].0) {
                        Ok(k) => k,
                        Err(e) => {
                            proof {
                                lemma_entries_stop(*shape, es, i + 1);
                            }
                            return Err(e);
                        },
                    };
                    let x = match decode(vs_shape, &entries[i].1) {
                        Ok(x) => x,
                        Err(e) => {
                            proof {
                                lemma_entries_stop(*shape, es, i + 1);
                            }
                            return Err(e);
                        },
                    };
                    let ghost prev = out@;
                    out.push((k, x));
                    proof {
                        crate::content::lemma_entry_views_push(prev, (k, x));
                    }
                    i += 1;
                }
                proof {
                    assert(es.take(i as int) =~= es);
                }
                Ok(Content::Mapping(out))
            },
            _ => Err(type_error(c, Expected::Mapping)),
        },
    }
}

/// Decodes a map key: text that parses as the wanted integer type gives that
/// integer, anything else decodes as an ordinary value.
pub fn decode_map_key<'de>(shape: &Shape, k: &Content<'de>) -> (r: Result<
    Content<'de>,
    DecodeError,
>)
    ensures
        outcome(r) == decode_key(*shape, k@),
    decreases shape, 3nat,
{
    let parsed = match (shape, k) {
        (Shape::Int(kind), Content::String(s)) => parse_int(s.as_str(), *kind),
        (Shape::Int(kind), Content::Str(s)) => parse_int(s, *kind),
        _ => None,
    };
    match parsed {
        Some(x) => match shape {
            Shape::Int(kind) => Ok(int_content(*kind, x)),
            _ => decode(shape, k),
        },
        None => decode(shape, k),
    }
}

/// Decodes a whole sequence as a tuple of the given field types. A failure
/// of an element is reported inside the variant `wrap` names, if any.
pub fn decode_tuple_value<'de>(
    shapes: &Vec<Shape>,
    c: &Content<'de>,
    expected: Expected,
    wrap: Option<usize>,
) -> (r: Result<Content<'de>, DecodeError>)
    ensures
        outcome(r) == decode_tuple(shapes@, c@, expected, wrap),
    decreases shapes@, 3nat,
{
    match c {
        Content::Sequence(items) => {
            let ghost vs = views(items@);
            proof {
                crate::content::lemma_views_index(items@);
            }
            let mut out: Vec<Content<'de>> = Vec::new();
            let mut i: usize = 0;
            while i < shapes.len()
                invariant
                    i <= shapes@.len(),
                    *c == Content::Sequence(*items),
                    vs == views(items@),
                    vs.len() == items@.len(),
                    forall|j: int| 0 <= j < items@.len() ==> #[trigger] vs[j] == items@[j]@,
                    decode_fields(shapes@, vs, i as nat, expected, wrap) == Ok::<Seq<Value>, Fault>(views(out@)),
                decreases shapes@.len() - i,
            {
                if i >= items.len() {
                    proof {
                        lemma_fields_stop(shapes@, vs, (i + 1) as nat, shapes@.len(), expected, wrap);
                    }
                    return Err(DecodeError::InvalidLength { len: i, expected });
                }
                proof {
                    assert(decreases_to!(shapes@ => shapes@[i as int]));
                }
                match decode(&shapes[i], &items[i]) {
                    Ok(x) => {
                        let ghost prev = out@;
                        out.push(x);
                        proof {
                            crate::content::lemma_views_push(prev, x);
                        }
                    },
                    Err(e) => {
                        proof {
                            lemma_fields_stop(shapes@, vs, (i + 1) as nat, shapes@.len(), expected, wrap);
                        }
                        return Err(wrap_error(wrap, e));
                    },
                }
                i += 1;
            }
            if items.len() > shapes.len() {
                return Err(
                    DecodeError::InvalidLength {
                        len: items.len(),
                        expected: Expected::ElementsInSequence(shapes.len()),
                    },
                );
            }
            Ok(Content::Sequence(out))
        },
        _ => Err(type_error(c, expected)),
    }
}

} // verus!
