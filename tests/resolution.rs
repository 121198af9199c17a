use serde_implicit::content::{Content, Unexpected};
use serde_implicit::error::{DecodeError, Expected};
use serde_implicit::internal::{
    tag_or_content, InternallyTaggedUnitVisitor, TagContentOtherField,
    TagContentOtherFieldVisitor, TagOrContent, TagOrContentField, TagOrContentFieldVisitor,
    TaggedContentVisitor as InternalVisitor, UntaggedUnitVisitor,
};
use serde_implicit::keyed::{Fallthrough, Field, Selected, TaggedContentVisitor, Variant};
use serde_implicit::positional::TupleVariant;
use serde_implicit::shape::{decode, parse_int, IntKind, Shape};
use serde_implicit::union::{Enum, Style};

fn text(s: &str) -> Content<'static> {
    Content::String(s.to_string())
}

fn field(name: &str, shape: Shape) -> Field {
    Field { ident: name.to_string(), shape }
}

fn tags(names: &[&str]) -> Vec<String> {
    names.iter().map(|n| n.to_string()).collect()
}

fn tuple_variant(name: &str, fields: Vec<Shape>, tag_index: usize, flatten: bool) -> TupleVariant {
    TupleVariant { ident: name.to_string(), fields, tag_index, has_flatten: flatten }
}

#[test]
fn single_tag_key_keeps_every_entry() {
    let visitor = TaggedContentVisitor::new(tags(&["content", "blob"]), false);
    let entries = vec![
        (text("other_key"), Content::U64(9)),
        (text("blob"), Content::U64(123)),
        (Content::U64(7), text("x")),
    ];
    let input = Content::Mapping(entries);
    let (selected, rest) = visitor.visit(input).unwrap();
    assert_eq!(selected, Selected::Variant(1));
    assert_eq!(
        rest,
        Content::Mapping(vec![
            (text("other_key"), Content::U64(9)),
            (text("blob"), Content::U64(123)),
            (Content::U64(7), text("x")),
        ])
    );
}

#[test]
fn no_tag_key_is_missing_tag_or_fallthrough() {
    let entries = || Content::Mapping(vec![(text("a"), Content::U64(1))]);
    let strict = TaggedContentVisitor::new(tags(&["t"]), false);
    assert_eq!(strict.visit(entries()).unwrap_err(), DecodeError::MissingTag);
    let lenient = TaggedContentVisitor::new(tags(&["t"]), true);
    assert_eq!(lenient.visit(entries()).unwrap(), (Selected::Fallthrough, entries()));
}

#[test]
fn two_tag_keys_cite_the_second() {
    let visitor = TaggedContentVisitor::new(tags(&["a", "b"]), true);
    let input = Content::Mapping(vec![
        (text("x"), Content::Unit),
        (text("b"), Content::U64(1)),
        (text("y"), Content::Unit),
        (text("a"), Content::U64(2)),
        (text("b"), Content::U64(3)),
    ]);
    assert_eq!(visitor.visit(input).unwrap_err(), DecodeError::DuplicateTag { position: 3 });
}

#[test]
fn byte_keys_and_char_scalars() {
    let visitor = TaggedContentVisitor::new(tags(&["tag"]), true);
    let input = Content::Mapping(vec![(Content::Bytes(b"tag"), Content::Unit)]);
    assert_eq!(visitor.visit(input).unwrap().0, Selected::Variant(0));
    let invalid = Content::Mapping(vec![(Content::ByteBuf(vec![0xff, 0xfe]), Content::Unit)]);
    assert_eq!(visitor.visit(invalid).unwrap().0, Selected::Fallthrough);
    assert_eq!(visitor.visit(Content::Char('z')).unwrap(), (Selected::Fallthrough, text("z")));
    assert_eq!(visitor.visit(Content::I8(-3)).unwrap(), (Selected::Fallthrough, Content::I64(-3)));
    let strict = TaggedContentVisitor::new(tags(&["tag"]), false);
    assert_eq!(
        strict.visit(Content::Str("word")).unwrap_err(),
        DecodeError::InvalidType { unexpected: Unexpected::Str("word".to_string()), expected: Expected::Union }
    );
    assert_eq!(
        strict.visit(Content::Bool(true)).unwrap_err(),
        DecodeError::InvalidType { unexpected: Unexpected::Bool(true), expected: Expected::Union }
    );
}

#[test]
fn struct_union_picks_the_blob_variant() {
    let union = Enum {
        ident: "Stored".to_string(),
        vars: Style::Struct {
            variants: vec![
                Variant {
                    ident: "Text".to_string(),
                    tag: "content".to_string(),
                    fields: vec![field("content", Shape::Str)],
                },
                Variant {
                    ident: "Blob".to_string(),
                    tag: "blob".to_string(),
                    fields: vec![field("blob", Shape::Int(IntKind::U32))],
                },
            ],
            fallthrough: None,
        },
    };
    let decoded = union
        .deserialize(Content::Mapping(vec![
            (text("blob"), Content::U64(123)),
            (text("other_key"), Content::U64(9)),
        ]))
        .unwrap();
    assert_eq!(decoded.variant, Selected::Variant(1));
    assert_eq!(decoded.fields, vec![Content::U32(123)]);
}

#[test]
fn bare_scalar_goes_to_fallback() {
    let union = Enum {
        ident: "Either".to_string(),
        vars: Style::Struct {
            variants: vec![Variant {
                ident: "Tagged".to_string(),
                tag: "kind".to_string(),
                fields: vec![field("kind", Shape::Str)],
            }],
            fallthrough: Some(Fallthrough {
                ident: "Bare".to_string(),
                field: field("value", Shape::Int(IntKind::I32)),
            }),
        },
    };
    let decoded = union.deserialize(Content::U8(42)).unwrap();
    assert_eq!(decoded.variant, Selected::Fallthrough);
    assert_eq!(decoded.fields, vec![Content::I32(42)]);
}

#[test]
fn short_sequence_skips_to_later_candidate() {
    let vars = vec![
        tuple_variant("Case1", vec![Shape::Bool, Shape::Int(IntKind::U32)], 0, false),
        tuple_variant("Case2", vec![Shape::Int(IntKind::U32)], 0, false),
    ];
    let union = Enum { ident: "T".to_string(), vars: Style::Tuple(vars) };
    let decoded = union.deserialize(Content::Sequence(vec![Content::U64(0)])).unwrap();
    assert_eq!(decoded.variant, Selected::Variant(1));
    assert_eq!(decoded.fields, vec![Content::U32(0)]);
    let empty = union.deserialize(Content::Sequence(vec![])).unwrap_err();
    assert_eq!(empty, DecodeError::NoVariantMatched);
}

#[test]
fn commit_is_final_and_names_the_variant() {
    let vars = vec![
        tuple_variant("Case1", vec![Shape::Bool, Shape::Int(IntKind::U32)], 0, false),
        tuple_variant("Case2", vec![Shape::Bool, Shape::Bool], 0, false),
    ];
    let union = Enum { ident: "T".to_string(), vars: Style::Tuple(vars) };
    let err = union.deserialize(Content::Sequence(vec![Content::Bool(true)])).unwrap_err();
    assert_eq!(err, DecodeError::InvalidLength { len: 1, expected: Expected::TupleVariant(0) });
    let err = union
        .deserialize(Content::Sequence(vec![Content::Bool(true), Content::U8(1), Content::U8(2)]))
        .unwrap_err();
    assert_eq!(err, DecodeError::InvalidLength { len: 3, expected: Expected::ElementsInSequence(2) });
}

#[test]
fn flatten_variant_takes_the_whole_sequence() {
    let vars = vec![
        tuple_variant("Normal", vec![Shape::Bool], 0, false),
        tuple_variant("Tagged", vec![Shape::Int(IntKind::U64), Shape::Int(IntKind::U32)], 1, false),
        tuple_variant("Fallback", vec![Shape::Tuple(vec![Shape::Str, Shape::Bool])], 0, true),
    ];
    let union = Enum { ident: "TupleFlatten".to_string(), vars: Style::Tuple(vars) };
    let decoded = union
        .deserialize(Content::Sequence(vec![text("hello"), Content::Bool(true)]))
        .unwrap();
    assert_eq!(decoded.variant, Selected::Variant(2));
    assert_eq!(decoded.fields, vec![Content::Sequence(vec![text("hello"), Content::Bool(true)])]);
    let tagged = union
        .deserialize(Content::Sequence(vec![Content::U64(5), Content::U64(6)]))
        .unwrap();
    assert_eq!(tagged.variant, Selected::Variant(1));
    assert_eq!(tagged.fields, vec![Content::U64(5), Content::U32(6)]);
    let bare = union.deserialize(Content::Bool(false)).unwrap();
    assert_eq!(bare.variant, Selected::Variant(0));
    assert_eq!(union.deserialize(Content::Unit).unwrap_err(), DecodeError::NoVariantMatched);
}

#[test]
fn integer_like_keys_decode_into_an_integer_keyed_map() {
    let union = Enum {
        ident: "Holder".to_string(),
        vars: Style::Struct {
            variants: vec![Variant {
                ident: "Named".to_string(),
                tag: "names".to_string(),
                fields: vec![field(
                    "names",
                    Shape::Mapping(Box::new(Shape::Int(IntKind::U32)), Box::new(Shape::Str)),
                )],
            }],
            fallthrough: None,
        },
    };
    let inner = Content::Mapping(vec![(text("0"), text("zero"))]);
    let decoded = union.deserialize(Content::Mapping(vec![(text("names"), inner)])).unwrap();
    assert_eq!(decoded.variant, Selected::Variant(0));
    assert_eq!(decoded.fields, vec![Content::Mapping(vec![(Content::U32(0), text("zero"))])]);
    let visitor = TaggedContentVisitor::new(tags(&["names"]), false);
    let only_data = Content::Mapping(vec![(text("0"), text("zero"))]);
    assert_eq!(visitor.visit(only_data).unwrap_err(), DecodeError::MissingTag);
}

#[test]
fn round_trip_of_tuple_variant() {
    let vars = vec![
        tuple_variant("MiddleTag", vec![Shape::Bool, Shape::Str, Shape::Int(IntKind::U32)], 1, false),
        tuple_variant("FirstTag", vec![Shape::Int(IntKind::U64), Shape::Bool], 0, false),
    ];
    let union = Enum { ident: "TupleCustomTag".to_string(), vars: Style::Tuple(vars) };
    let written = Content::Sequence(vec![Content::Bool(false), text("x"), Content::U32(4)]);
    let decoded = union.deserialize(written).unwrap();
    assert_eq!(decoded.variant, Selected::Variant(0));
    assert_eq!(decoded.fields, vec![Content::Bool(false), text("x"), Content::U32(4)]);
}

#[test]
fn field_errors() {
    let fields = vec![
        field("a", Shape::Int(IntKind::U8)),
        field("b", Shape::Optional(Box::new(Shape::Bool))),
    ];
    let union = Enum {
        ident: "S".to_string(),
        vars: Style::Struct {
            variants: vec![Variant { ident: "V".to_string(), tag: "a".to_string(), fields }],
            fallthrough: None,
        },
    };
    let dup = union
        .deserialize(Content::Mapping(vec![
            (text("a"), Content::U8(1)),
            (text("b"), Content::Bool(true)),
            (text("b"), Content::Bool(false)),
        ]))
        .unwrap_err();
    assert_eq!(dup, DecodeError::DuplicateField { variant: 0, field: 1 });
    let absent = union.deserialize(Content::Mapping(vec![(text("a"), Content::U8(1))])).unwrap();
    assert_eq!(absent.fields, vec![Content::U8(1), Content::Absent]);
    let unit_is_none = union
        .deserialize(Content::Mapping(vec![(text("a"), Content::U8(1)), (Content::Char('b'), Content::Unit)]))
        .unwrap();
    assert_eq!(unit_is_none.fields, vec![Content::U8(1), Content::Absent]);
    let wide = union.deserialize(Content::Mapping(vec![(text("a"), Content::U16(300))])).unwrap_err();
    assert_eq!(
        wide,
        DecodeError::InvalidValue { unexpected: Unexpected::Unsigned(300), expected: Expected::Int(IntKind::U8) }
    );
    let bad_key = union
        .deserialize(Content::Mapping(vec![(text("a"), Content::U8(1)), (Content::Bool(true), Content::Unit)]))
        .unwrap_err();
    assert_eq!(
        bad_key,
        DecodeError::InvalidType { unexpected: Unexpected::Bool(true), expected: Expected::FieldIdentifier }
    );
}

#[test]
fn decoding_scalars() {
    assert_eq!(decode(&Shape::Int(IntKind::I16), &Content::U8(7)).unwrap(), Content::I16(7));
    assert_eq!(
        decode(&Shape::Int(IntKind::U32), &Content::I32(-1)).unwrap_err(),
        DecodeError::InvalidValue { unexpected: Unexpected::Signed(-1), expected: Expected::Int(IntKind::U32) }
    );
    assert_eq!(decode(&Shape::Char, &Content::Str("q")).unwrap(), Content::Char('q'));
    assert_eq!(
        decode(&Shape::Char, &text("qq")).unwrap_err(),
        DecodeError::InvalidValue { unexpected: Unexpected::Str("qq".to_string()), expected: Expected::Char }
    );
    assert_eq!(decode(&Shape::Str, &Content::Bytes("héllo".as_bytes())).unwrap(), text("héllo"));
    assert_eq!(
        decode(&Shape::Str, &Content::ByteBuf(vec![0xc3])).unwrap_err(),
        DecodeError::InvalidValue { unexpected: Unexpected::Bytes(vec![0xc3]), expected: Expected::Str }
    );
    assert_eq!(
        decode(&Shape::Bool, &Content::F32(1.5f32.to_bits())).unwrap_err(),
        DecodeError::InvalidType { unexpected: Unexpected::Float32(1.5f32.to_bits()), expected: Expected::Bool }
    );
    assert_eq!(decode(&Shape::Unit, &Content::Unit).unwrap(), Content::Unit);
    let any = Content::Newtype(Box::new(Content::Str("n")));
    assert_eq!(decode(&Shape::Any, &any).unwrap(), any);
    assert_eq!(
        decode(&Shape::Tuple(vec![Shape::Bool]), &Content::Unit).unwrap_err(),
        DecodeError::InvalidType { unexpected: Unexpected::Unit, expected: Expected::Tuple(1) }
    );
}

#[test]
fn parsing_integer_text() {
    assert_eq!(parse_int("0", IntKind::U8), Some(0));
    assert_eq!(parse_int("+255", IntKind::U8), Some(255));
    assert_eq!(parse_int("256", IntKind::U8), None);
    assert_eq!(parse_int("-1", IntKind::U8), None);
    assert_eq!(parse_int("-128", IntKind::I8), Some(-128));
    assert_eq!(parse_int("+", IntKind::I8), None);
    assert_eq!(parse_int("", IntKind::I64), None);
    assert_eq!(parse_int("18446744073709551615", IntKind::U64), Some(18446744073709551615));
    assert_eq!(parse_int("184467440737095516150", IntKind::U64), None);
    assert_eq!(parse_int("1x", IntKind::U32), None);
}

#[test]
fn content_helpers() {
    assert_eq!(Content::Bytes(b"ok").as_str(), Some("ok"));
    assert_eq!(Content::ByteBuf(vec![0x80]).as_str(), None);
    assert_eq!(Content::U8(1).as_str(), None);
    assert_eq!(Content::I16(-2).unexpected(), Unexpected::Signed(-2));
    assert_eq!(Content::Present(Box::new(Content::Unit)).unexpected(), Unexpected::Optional);
}

#[test]
fn internally_tagged_helpers() {
    let visitor = InternalVisitor::new("type", "Message");
    let entries = vec![(text("a"), Content::U8(1)), (Content::Str("type"), text("Info")), (text("b"), Content::Unit)];
    let (tag, rest) = visitor.visit_map(&entries).unwrap();
    assert_eq!(tag, text("Info"));
    assert_eq!(rest, Content::Mapping(vec![(text("a"), Content::U8(1)), (text("b"), Content::Unit)]));
    let twice = vec![(text("type"), Content::Unit), (text("type"), Content::Unit)];
    assert_eq!(visitor.visit_map(&twice).unwrap_err(), DecodeError::DuplicateTag { position: 1 });
    assert_eq!(visitor.visit_map(&vec![]).unwrap_err(), DecodeError::MissingTag);
    let (tag, rest) = visitor.visit_seq(&vec![text("Info"), Content::U8(3)]).unwrap();
    assert_eq!(tag, text("Info"));
    assert_eq!(rest, Content::Sequence(vec![Content::U8(3)]));
    assert_eq!(visitor.visit_seq(&vec![]).unwrap_err(), DecodeError::MissingTag);
    assert_eq!(tag_or_content("type", text("type")), TagOrContent::Tag);
    assert_eq!(tag_or_content("type", Content::U8(0)), TagOrContent::Content(Content::U8(0)));
}

#[test]
fn adjacently_tagged_and_unit_helpers() {
    let fields = TagOrContentFieldVisitor { tag: "t", content: "c" };
    assert_eq!(fields.visit_u64(0), Ok(TagOrContentField::Tag));
    assert_eq!(fields.visit_str("c"), Ok(TagOrContentField::Content));
    assert_eq!(
        fields.visit_u64(2).unwrap_err(),
        DecodeError::InvalidValue { unexpected: Unexpected::Unsigned(2), expected: Expected::TagOrContent }
    );
    let other = TagContentOtherFieldVisitor { tag: "t", content: "c" };
    assert_eq!(other.visit_str("t"), TagContentOtherField::Tag);
    assert_eq!(other.visit_str("zz"), TagContentOtherField::Other);
    assert_eq!(other.visit_u64(1), TagContentOtherField::Content);
    assert_eq!(other.visit_bytes(b"c"), TagContentOtherField::Content);
    assert_eq!(other.visit_bytes(b"x"), TagContentOtherField::Other);
    assert_eq!(fields.visit_bytes(b"t"), Ok(TagOrContentField::Tag));
    assert_eq!(
        fields.visit_bytes(b"q").unwrap_err(),
        DecodeError::InvalidValue { unexpected: Unexpected::Bytes(b"q".to_vec()), expected: Expected::TagOrContent }
    );
    let internal = InternallyTaggedUnitVisitor::new("E", "V");
    assert!(internal.visit(&Content::Mapping(vec![])).is_ok());
    assert_eq!(
        internal.visit(&Content::Char('x')).unwrap_err(),
        DecodeError::InvalidType { unexpected: Unexpected::Str("x".to_string()), expected: Expected::UnitVariant }
    );
    let untagged = UntaggedUnitVisitor::new("E", "V");
    assert!(untagged.visit(&Content::Absent).is_ok());
    assert!(untagged.visit(&Content::Sequence(vec![])).is_err());
}

#[test]
fn round_trip_of_struct_variant() {
    let union = Enum {
        ident: "OverlappingFields".to_string(),
        vars: Style::Struct {
            variants: vec![
                Variant {
                    ident: "Variant1".to_string(),
                    tag: "type_tag".to_string(),
                    fields: vec![
                        field("type_tag", Shape::Str),
                        field("common_field", Shape::Int(IntKind::U32)),
                        field("variant1_specific", Shape::Bool),
                    ],
                },
                Variant {
                    ident: "Variant2".to_string(),
                    tag: "version".to_string(),
                    fields: vec![
                        field("version", Shape::Int(IntKind::U32)),
                        field("common_field", Shape::Int(IntKind::U32)),
                        field("variant2_specific", Shape::Str),
                    ],
                },
            ],
            fallthrough: None,
        },
    };
    let written = Content::Mapping(vec![
        (text("version"), Content::U32(2)),
        (text("common_field"), Content::U32(7)),
        (text("variant2_specific"), text("s")),
    ]);
    let decoded = union.deserialize(written).unwrap();
    assert_eq!(decoded.variant, Selected::Variant(1));
    assert_eq!(decoded.fields, vec![Content::U32(2), Content::U32(7), text("s")]);
}
