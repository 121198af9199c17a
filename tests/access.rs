use serde_implicit::access::{ContentDeserializer, ContentRefDeserializer, EnumDeserializer};
use serde_implicit::content::{Content, Unexpected};
use serde_implicit::error::{DecodeError, Expected};
use serde_implicit::shape::{IntKind, Shape};

fn text(s: &str) -> Content<'static> {
    Content::String(s.to_string())
}

#[test]
fn handles_decode_as_the_decoder_does() {
    let owned = ContentDeserializer::new(Content::U16(9));
    assert_eq!(owned.deserialize(&Shape::Int(IntKind::U8)).unwrap(), Content::U8(9));
    let value = Content::Sequence(vec![Content::Bool(true)]);
    let lent = ContentRefDeserializer::new(&value);
    let shape = Shape::Sequence(Box::new(Shape::Bool));
    assert_eq!(lent.deserialize(&shape).unwrap(), value);
    assert_eq!(lent.deserialize(&shape).unwrap(), value);
}

#[test]
fn externally_tagged_values_split() {
    let single = Content::Mapping(vec![(text("Move"), Content::Sequence(vec![Content::U8(1)]))]);
    let parts = EnumDeserializer::from_content(single).unwrap();
    assert_eq!(parts.variant, text("Move"));
    let (name, payload) = parts.variant_seed();
    assert_eq!(name, text("Move"));
    assert_eq!(payload.tuple_variant().unwrap(), vec![Content::U8(1)]);

    let bare = EnumDeserializer::from_content(Content::Str("Stop")).unwrap();
    assert_eq!(bare.value, None);
    let (_, payload) = bare.variant_seed();
    assert!(payload.unit_variant().is_ok());
    assert_eq!(
        payload.newtype_variant().unwrap_err(),
        DecodeError::InvalidType { unexpected: Unexpected::UnitVariant, expected: Expected::NewtypeVariantValue }
    );

    let two = Content::Mapping(vec![(text("a"), Content::Unit), (text("b"), Content::Unit)]);
    assert_eq!(
        EnumDeserializer::from_content(two).unwrap_err(),
        DecodeError::InvalidValue { unexpected: Unexpected::Mapping, expected: Expected::SingleKeyMap }
    );
    assert_eq!(
        EnumDeserializer::from_content(Content::U8(3)).unwrap_err(),
        DecodeError::InvalidType { unexpected: Unexpected::Unsigned(3), expected: Expected::StringOrMap }
    );

    let with_map = EnumDeserializer::new(text("Point"), Some(Content::Mapping(vec![])));
    let (_, payload) = with_map.variant_seed();
    assert_eq!(payload.struct_variant().unwrap(), Content::Mapping(vec![]));
    let with_number = EnumDeserializer::new(text("Point"), Some(Content::I8(1)));
    let (_, payload) = with_number.variant_seed();
    assert_eq!(
        payload.struct_variant().unwrap_err(),
        DecodeError::InvalidType { unexpected: Unexpected::Signed(1), expected: Expected::StructVariantValue }
    );
}
