use mabo::benches::schema::generate_schema;
use mabo::benches::{bincode, postcard};

#[test]
fn varint_roundtrip() {
    let mut buf = [0; 19];

    for value in [
        1,
        u8::MAX.into(),
        u16::MAX.into(),
        u32::MAX.into(),
        u64::MAX.into(),
        u128::MAX,
    ] {
        postcard::encode(value, &mut buf);
        let output = postcard::decode(&buf);
        assert_eq!(value, output);
    }

    for value in [
        -1,
        i8::MIN.into(),
        i16::MIN.into(),
        i32::MIN.into(),
        i64::MIN.into(),
        i128::MIN,
    ] {
        postcard::encode_i128(value, &mut buf);
        let output = postcard::decode_i128(&buf);
        assert_eq!(value, output);
    }
}

#[test]
fn roundtrip() {
    let mut buf = [0; 17];

    for value in [
        1,
        u8::MAX.into(),
        u16::MAX.into(),
        u32::MAX.into(),
        u64::MAX.into(),
        u128::MAX,
    ] {
        bincode::encode_u128(value, &mut buf);
        let output = bincode::decode_u128(&buf);
        assert_eq!(value, output);
    }

    for value in [
        -1,
        i8::MIN.into(),
        i16::MIN.into(),
        i32::MIN.into(),
        i64::MIN.into(),
        i128::MIN,
    ] {
        bincode::encode_i128(value, &mut buf);
        let output = bincode::decode_i128(&buf);
        assert_eq!(value, output);
    }
}

#[test]
fn bincode_small_widths() {
    let mut buf = [0; 9];
    bincode::encode_u16(250, &mut buf);
    assert_eq!(&[250], &buf[..1]);
    bincode::encode_u16(251, &mut buf);
    assert_eq!(&[251, 251, 0], &buf[..3]);
    assert_eq!(251, bincode::decode_u16(&buf));
    bincode::encode_u32(70_000, &mut buf);
    assert_eq!(&[252, 0x70, 0x11, 0x01, 0x00], &buf[..5]);
    assert_eq!(70_000, bincode::decode_u32(&buf));
    bincode::encode_u64(u64::MAX, &mut buf);
    assert_eq!(u64::MAX, bincode::decode_u64(&buf));
    for value in [i16::MIN, -1, 0, 1, i16::MAX] {
        bincode::encode_i16(value, &mut buf);
        assert_eq!(value, bincode::decode_i16(&buf));
    }
    for value in [i32::MIN, -1, 0, 1, i32::MAX] {
        bincode::encode_i32(value, &mut buf);
        assert_eq!(value, bincode::decode_i32(&buf));
    }
    for value in [i64::MIN, -1, 0, 1, i64::MAX] {
        bincode::encode_i64(value, &mut buf);
        assert_eq!(value, bincode::decode_i64(&buf));
    }
}

#[test]
fn postcard_short_buffer() {
    let mut buf = [0xaa; 2];
    postcard::encode(300, &mut buf);
    assert_eq!([0xac, 0x02], buf);
    let mut buf = [0xaa; 1];
    postcard::encode(300, &mut buf);
    assert_eq!([0xac], buf);
    assert_eq!(2, postcard::encode_zigzag(1));
    assert_eq!(-1, postcard::decode_zigzag(1));
}

fn float_texts(count: usize) -> Vec<String> {
    (1..=count).map(|i| (i as f64 / 19.0).to_string()).collect()
}

#[test]
fn generate_small_schema() {
    let expected = "use some::other::module1;\n\n\
        const VALUE_BOOL_1: bool = false;\n\
        const VALUE_INT_1: u32 = 1;\n\
        const VALUE_FLOAT_1: f64 = 0.05263157894736842;\n\
        const VALUE_STR_1: &string = \"1\";\n\
        const VALUE_BYTES_1: &bytes = [1];\n\n\
        /// Some comment 1\n\
        #[unit_attribute_1]\n\
        #[single_value_1 = \"value_1\"]\n\
        #[multi_value_1(value_a = true, value_b(test1, test2), value_c)]\n\
        struct SampleNamed {\n    field_str_00001: string @1,\n    \
        field_gen_00001: vec<hash_map<u32, (bool, string, option<f64>)>> @2,\n}\n\n\
        struct SampleUnnamed(string @1,vec<hash_map<u32, (bool, string, option<f64>)>> @2,)\n\n\
        enum SampleEnum {\n    VariantNamed1 {\n        field_str: string @1,\n        \
        field_gen: vec<hash_set<u32>> @2,\n    } @1,\n    \
        VariantUnnamed1(string @1, vec<hash_set<u32>> @2) @2,\n}\n\n\
        type Alias1 = SampleNamed;\n";
    assert_eq!(expected, generate_schema(1, &float_texts(1)));
}

#[test]
fn generate_schema_counts() {
    let schema = generate_schema(300, &float_texts(300));
    assert_eq!(300, schema.matches("use some::other::module").count());
    assert!(schema.contains("const VALUE_BOOL_2: bool = true;\n"));
    assert!(schema.contains("const VALUE_BYTES_257: &bytes = [1];\n"));
    assert!(schema.contains("    field_str_00123: string @123,\n"));
    assert!(schema.contains("    field_gen_00300: vec<hash_map<u32, (bool, string, option<f64>)>> @600,\n"));
    assert!(schema.ends_with("type Alias300 = SampleNamed;\n"));
    assert_eq!(
        "\n\nstruct SampleNamed {\n}\n\nstruct SampleUnnamed()\n\nenum SampleEnum {\n}\n\n",
        generate_schema(0, &Vec::new())
    );
}
