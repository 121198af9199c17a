use serde_implicit::content::{Content, Unexpected};
use serde_implicit::error::{DecodeError, Expected};
use serde_implicit::keyed::{Fallthrough, Field, Selected, Variant};
use serde_implicit::positional::TupleVariant;
use serde_implicit::shape::{IntKind, Shape};
use serde_implicit::union::{Enum, Style};

fn text(s: &str) -> Content<'static> {
    Content::String(s.to_string())
}

fn field(name: &str, shape: Shape) -> Field {
    Field { ident: name.to_string(), shape }
}

fn variant(name: &str, tag: &str, fields: Vec<Field>) -> Variant {
    Variant { ident: name.to_string(), tag: tag.to_string(), fields }
}

fn tuple_variant(name: &str, fields: Vec<Shape>) -> TupleVariant {
    TupleVariant { ident: name.to_string(), fields, tag_index: 0, has_flatten: false }
}

fn multi_type_tag() -> Enum {
    Enum {
        ident: "MultiTypeTag".to_string(),
        vars: Style::Struct {
            variants: vec![
                variant(
                    "StringVariant",
                    "string_tag",
                    vec![field("string_tag", Shape::Str), field("value", Shape::Int(IntKind::U32))],
                ),
                variant(
                    "NumberVariant",
                    "number_tag",
                    vec![
                        field("number_tag", Shape::Int(IntKind::U64)),
                        field("value", Shape::Str),
                        field("unique_field", Shape::Str),
                    ],
                ),
                variant(
                    "BoolVariant",
                    "bool_tag",
                    vec![
                        field("bool_tag", Shape::Bool),
                        field("value", Shape::Sequence(Box::new(Shape::Str))),
                    ],
                ),
            ],
            fallthrough: None,
        },
    }
}

#[test]
fn test_basic() {
    let union = multi_type_tag();

    let res = union.deserialize(Content::Mapping(vec![
        (text("string_tag"), text("")),
        (text("value"), Content::U64(0)),
    ]));
    assert!(res.is_ok());

    let res = union.deserialize(Content::Mapping(vec![
        (text("string_tag"), text("")),
        (text("value"), Content::U64(0)),
        (text("extra_field"), text("1234")),
    ]));
    assert!(res.is_ok());

    let res = union.deserialize(Content::Mapping(vec![
        (text("string_tag"), text("")),
        (text("value"), text("straing")),
    ]));
    let err = res.unwrap_err();
    assert_eq!(
        err,
        DecodeError::InvalidType {
            unexpected: Unexpected::Str("straing".to_string()),
            expected: Expected::Int(IntKind::U32),
        },
        "{err:?}",
    );

    let res = union.deserialize(Content::Mapping(vec![(text("string_tag"), text(""))]));
    let err = res.unwrap_err();
    // the field at position 1 of StringVariant is `value`
    assert_eq!(err, DecodeError::MissingField { variant: 0, field: 1 }, "{err:?}");
}

#[test]
fn tuple_basic() {
    let union = Enum {
        ident: "TupleEnum".to_string(),
        vars: Style::Tuple(vec![
            tuple_variant("Case1", vec![Shape::Bool, Shape::Int(IntKind::U32)]),
            tuple_variant("Case2", vec![Shape::Int(IntKind::U32)]),
        ]),
    };

    let res = union.deserialize(Content::Sequence(vec![Content::Bool(true), Content::U64(0)]));
    assert!(res.is_ok());

    let res = union.deserialize(Content::Sequence(vec![Content::U64(0)]));
    let decoded = res.unwrap();
    assert_eq!(decoded.variant, Selected::Variant(1));
    assert_eq!(decoded.fields, vec![Content::U32(0)]);
}

#[test]
fn tuple_overlap() {
    // Resolution commits to the first variant whose tag decodes, which can
    // leave a later variant unreachable, like `Case2` here.
    let union = Enum {
        ident: "TupleEnum".to_string(),
        vars: Style::Tuple(vec![
            tuple_variant("Case1", vec![Shape::Bool, Shape::Int(IntKind::U32)]),
            tuple_variant("Case2", vec![Shape::Bool, Shape::Bool]),
        ]),
    };

    let res = union.deserialize(Content::Sequence(vec![Content::Bool(true), Content::Bool(true)]));
    let err = res.unwrap_err();
    assert_eq!(
        err,
        DecodeError::InVariant {
            variant: 0,
            cause: Box::new(DecodeError::InvalidType {
                unexpected: Unexpected::Bool(true),
                expected: Expected::Int(IntKind::U32),
            }),
        },
        "{err:?}",
    );
}

#[test]
fn fallthrough_basic() {
    let union = Enum {
        ident: "EnumWithFallThrough".to_string(),
        vars: Style::Struct {
            variants: vec![variant(
                "Multiple",
                "variants",
                vec![field("variants", Shape::Sequence(Box::new(Shape::Int(IntKind::U32))))],
            )],
            fallthrough: Some(Fallthrough {
                ident: "Single".to_string(),
                field: field("one", Shape::Int(IntKind::U32)),
            }),
        },
    };

    let res = union.deserialize(Content::U64(42));
    let decoded = res.unwrap();
    assert_eq!(decoded.variant, Selected::Fallthrough);
    assert_eq!(decoded.fields, vec![Content::U32(42)]);

    let res = union.deserialize(Content::F64(42.5f64.to_bits()));
    let err = res.unwrap_err();
    assert_eq!(
        err,
        DecodeError::InvalidType {
            unexpected: Unexpected::Float64(42.5f64.to_bits()),
            expected: Expected::Union,
        },
        "{err:?}",
    );

    let res = union.deserialize(Content::Mapping(vec![(
        text("variants"),
        Content::Sequence(vec![Content::U64(32)]),
    )]));
    let decoded = res.unwrap();
    assert_eq!(decoded.variant, Selected::Variant(0));
    assert_eq!(decoded.fields, vec![Content::Sequence(vec![Content::U32(32)])]);
}
