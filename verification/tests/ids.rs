use mabo::{FieldEncoding, FieldId, NonZero, VariantId};

#[test]
fn field_id_roundtrip() {
    for encoding in [
        FieldEncoding::Varint,
        FieldEncoding::LengthPrefixed,
        FieldEncoding::Fixed1,
        FieldEncoding::Fixed4,
        FieldEncoding::Fixed8,
    ] {
        let id = FieldId::new(42, encoding);
        let raw = id.into_u32();
        assert_eq!(42 << 3 | encoding.code(), raw);
        assert_eq!(Some(id), FieldId::from_u32(raw));
    }
    assert_eq!(None, FieldId::from_u32(5));
    assert_eq!(None, FieldEncoding::from_u32(7));
    assert_eq!(Some(FieldEncoding::Fixed8), FieldEncoding::from_u32(12));
}

#[test]
fn variant_id() {
    assert_eq!(9, VariantId::new(9).value);
}

#[test]
fn non_zero_containers() {
    let value = NonZero::<String>::new("hello".to_owned()).unwrap();
    assert_eq!("hello", value.get());
    assert!(NonZero::<String>::new(String::new()).is_none());
    let v = NonZero::<Vec<u8>>::new(vec![1]).unwrap();
    assert_eq!(vec![1], v.into_inner());
    assert!(NonZero::<Vec<u8>>::new(Vec::new()).is_none());
}
