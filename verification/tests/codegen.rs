use mabo::codegen::{encode_code, size_code, struct_size_code, BytesType, Opts};
use mabo::parser::fields::parse_fields;
use mabo::parser::types::parse_type;
use mabo::FieldEncoding;

const STD: Opts = Opts { bytes_type: BytesType::VecU8 };

#[test]
fn size_code_of_scalars_and_strings() {
    let (ty, _) = parse_type("u32", 0).unwrap();
    assert_eq!("::stef::buf::size_u32(x)", size_code(&STD, &ty, "x"));
    let (ty, _) = parse_type("string", 0).unwrap();
    assert_eq!("::stef::buf::size_string(&x)", size_code(&STD, &ty, "x"));
    let (ty, _) = parse_type("bytes", 0).unwrap();
    let opts = Opts { bytes_type: BytesType::Bytes };
    assert_eq!("::stef::buf::size_bytes_bytes(&x)", size_code(&opts, &ty, "x"));
}

#[test]
fn size_code_of_collections_dereferences_copy_items() {
    let (ty, _) = parse_type("vec<u8>", 0).unwrap();
    assert_eq!(
        "::stef::buf::size_vec(&x, |v| { ::stef::buf::size_u8(*v) })",
        size_code(&STD, &ty, "x")
    );
    let (ty, _) = parse_type("hash_map<string, bool>", 0).unwrap();
    assert_eq!(
        "::stef::buf::size_hash_map(&x, |k| { ::stef::buf::size_string(&k) }, |v| { ::stef::buf::size_bool(*v) })",
        size_code(&STD, &ty, "x")
    );
    let (ty, _) = parse_type("non_zero<u16>", 0).unwrap();
    assert_eq!("::stef::buf::size_u16(x.get())", size_code(&STD, &ty, "x"));
}

#[test]
fn size_code_of_tuples() {
    let (ty, _) = parse_type("(u8, string)", 0).unwrap();
    assert_eq!(
        "::stef::buf::size_u8(x.0) + ::stef::buf::size_string(&&(x.1))",
        size_code(&STD, &ty, "x")
    );
}

#[test]
fn encode_code_pairs_encoding_and_statement() {
    let (ty, _) = parse_type("u64", 0).unwrap();
    let (enc, code) = encode_code(&STD, &ty, "x", true);
    assert_eq!(FieldEncoding::Varint, enc);
    assert_eq!("::stef::buf::encode_u64(w, *x)", code);

    let (ty, _) = parse_type("vec<bool>", 0).unwrap();
    let (enc, code) = encode_code(&STD, &ty, "x", true);
    assert_eq!(FieldEncoding::LengthPrefixed, enc);
    assert_eq!(
        "::stef::buf::encode_vec(w, x, |v| { ::stef::buf::size_bool(v) }, |w, v| { ::stef::buf::encode_bool(w, *v); })",
        code
    );

    let (ty, _) = parse_type("f32", 0).unwrap();
    assert_eq!(FieldEncoding::Fixed4, encode_code(&STD, &ty, "x", true).0);
}

#[test]
fn encode_code_of_tuples_depends_on_the_root() {
    let (ty, _) = parse_type("(u8, u16)", 0).unwrap();
    assert_eq!(
        "::stef::buf::encode_tuple(w, || { ::stef::buf::size_u8(&x.0) + ::stef::buf::size_u16(&x.1) }, |w| { ::stef::buf::encode_u8(w, *&x.0); ::stef::buf::encode_u16(w, *&x.1); })",
        encode_code(&STD, &ty, "x", true).1
    );
    assert_eq!(
        "::stef::buf::encode_u8(w, *&x.0); ::stef::buf::encode_u16(w, *&x.1);",
        encode_code(&STD, &ty, "x", false).1
    );
}

#[test]
fn struct_size_code_of_fields() {
    let (fields, _) = parse_fields("{ a: u32 @1, b: option<string> @2 }", 0).unwrap();
    assert_eq!(
        "::stef::buf::size_field(1, || { ::stef::buf::size_u32(self.a) }) + ::stef::buf::size_field_option(2, self.b.as_ref(), |v| { ::stef::buf::size_string(&v) }) + ::stef::buf::size_u32(::stef::buf::END_MARKER)",
        struct_size_code(&STD, &fields)
    );
    let (fields, _) = parse_fields("(bool @1)", 0).unwrap();
    assert_eq!(
        "::stef::buf::size_field(1, || { ::stef::buf::size_bool(self.0) }) + ::stef::buf::size_u32(::stef::buf::END_MARKER)",
        struct_size_code(&STD, &fields)
    );
}
