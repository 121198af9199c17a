use serde_implicit::content::Content;
use serde_implicit::keyed::Selected;
use serde_implicit::schema::{parse_data, FieldDecl, FieldsDecl, SchemaError, VariantDecl};
use serde_implicit::shape::{IntKind, Shape};
use serde_implicit::union::Style;

fn plain(name: &str, shape: Shape) -> FieldDecl {
    FieldDecl { ident: name.to_string(), shape, tag: false, flatten: false }
}

fn tagged(name: &str, shape: Shape) -> FieldDecl {
    FieldDecl { ident: name.to_string(), shape, tag: true, flatten: false }
}

fn named(name: &str, fields: Vec<FieldDecl>) -> VariantDecl {
    VariantDecl { ident: name.to_string(), fields: FieldsDecl::Named(fields) }
}

fn unnamed(name: &str, fields: Vec<FieldDecl>) -> VariantDecl {
    VariantDecl { ident: name.to_string(), fields: FieldsDecl::Unnamed(fields) }
}

fn helper() -> Shape {
    Shape::Tuple(vec![Shape::Str, Shape::Bool])
}

fn flattened(shape: Shape, tag: bool) -> FieldDecl {
    FieldDecl { ident: String::new(), shape, tag, flatten: true }
}

#[test]
fn ui() {
    let duplicate_tags = parse_data(
        "MultiTagFields".to_string(),
        vec![
            named(
                "DoubleTagged",
                vec![
                    tagged("primary_tag", Shape::Str),
                    tagged("secondary_tag", Shape::Bool),
                    plain("value", Shape::Int(IntKind::U32)),
                ],
            ),
            named("SingleTagged", vec![tagged("only_tag", Shape::Int(IntKind::U32)), plain("value", Shape::Str)]),
        ],
    );
    assert_eq!(duplicate_tags.unwrap_err(), SchemaError::MultipleTags { variant: 0 });

    let flatten_multiple_fields = parse_data(
        "BadFlatten".to_string(),
        vec![
            unnamed("Normal", vec![plain("", Shape::Bool)]),
            unnamed("MultiField", vec![plain("", Shape::Int(IntKind::U64)), flattened(helper(), false)]),
        ],
    );
    assert_eq!(flatten_multiple_fields.unwrap_err(), SchemaError::FlattenFields { variant: 1 });

    let flatten_not_at_end = parse_data(
        "BadOrder".to_string(),
        vec![unnamed("Flatten", vec![flattened(helper(), false)]), unnamed("Normal", vec![plain("", Shape::Bool)])],
    );
    assert_eq!(flatten_not_at_end.unwrap_err(), SchemaError::FlattenNotLast { variant: 1 });

    let missing_tags = parse_data(
        "OopsTag".to_string(),
        vec![
            named(
                "MissingTag",
                vec![plain("field1", Shape::Str), plain("field2", Shape::Bool), plain("value", Shape::Int(IntKind::U32))],
            ),
            named("SingleTagged", vec![tagged("only_tag", Shape::Int(IntKind::U32)), plain("value", Shape::Str)]),
        ],
    );
    assert_eq!(missing_tags.unwrap_err(), SchemaError::MissingTag { variant: 0 });

    let repeated_tag = parse_data(
        "RepeatedTag".to_string(),
        vec![
            named("Var1", vec![tagged("primary_tag", Shape::Str), plain("value", Shape::Int(IntKind::U32))]),
            named("Var2", vec![tagged("primary_tag", Shape::Str), plain("value", Shape::Str)]),
        ],
    );
    assert_eq!(repeated_tag.unwrap_err(), SchemaError::DuplicateTags { variant: 1 });

    let tag_and_flatten = parse_data(
        "BadAnnotation".to_string(),
        vec![unnamed("Normal", vec![plain("", Shape::Bool)]), unnamed("Conflicting", vec![flattened(helper(), true)])],
    );
    assert_eq!(tag_and_flatten.unwrap_err(), SchemaError::TagAndFlatten { variant: 1 });
}

#[test]
fn declarations_build_a_working_schema() {
    let union = parse_data(
        "EnumWithFallThrough".to_string(),
        vec![
            named("Multiple", vec![tagged("variants", Shape::Sequence(Box::new(Shape::Int(IntKind::U32))))]),
            named("Single", vec![plain("one", Shape::Int(IntKind::U32))]),
        ],
    )
    .unwrap();
    match &union.vars {
        Style::Struct { variants, fallthrough } => {
            assert_eq!(variants.len(), 1);
            assert_eq!(variants[0].tag, "variants");
            assert_eq!(fallthrough.as_ref().unwrap().field.ident, "one");
        }
        Style::Tuple(_) => panic!("expected a struct-shaped union"),
    }
    let decoded = union.deserialize(Content::U64(42)).unwrap();
    assert_eq!(decoded.variant, Selected::Fallthrough);

    let tuple = parse_data(
        "TupleCustomTag".to_string(),
        vec![
            unnamed("MiddleTag", vec![plain("", Shape::Bool), tagged("", Shape::Str), plain("", Shape::Int(IntKind::U32))]),
            unnamed("Fallback", vec![flattened(helper(), false)]),
        ],
    )
    .unwrap();
    match &tuple.vars {
        Style::Tuple(vars) => {
            assert_eq!(vars[0].tag_index, 1);
            assert!(!vars[0].has_flatten);
            assert!(vars[1].has_flatten);
        }
        Style::Struct { .. } => panic!("expected a tuple-shaped union"),
    }
    let unit = parse_data(
        "Units".to_string(),
        vec![VariantDecl { ident: "A".to_string(), fields: FieldsDecl::Unit }],
    );
    assert_eq!(unit.unwrap_err(), SchemaError::UnitVariant { variant: 0 });
    let mixed = parse_data(
        "Mixed".to_string(),
        vec![named("A", vec![tagged("a", Shape::Bool)]), unnamed("B", vec![plain("", Shape::Bool)])],
    );
    assert_eq!(mixed.unwrap_err(), SchemaError::NotStructVariant { variant: 1 });
}
