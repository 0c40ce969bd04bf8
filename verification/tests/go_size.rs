use mabo::go::size::{render_size_fields, render_size_type};
use mabo::parser::fields::parse_fields;
use mabo::parser::types::parse_type;
use mabo::parser::DataType;

fn go_name(ty: &DataType) -> String {
    match ty {
        DataType::U32 => "uint32".to_owned(),
        DataType::String => "string".to_owned(),
        _ => "any".to_owned(),
    }
}

#[test]
fn go_size_of_scalars() {
    let (ty, _) = parse_type("u32", 0).unwrap();
    assert_eq!("buf.SizeU32(x)", render_size_type(&ty, "x", 1, &go_name));
    let (ty, _) = parse_type("non_zero<u32>", 0).unwrap();
    assert_eq!("buf.SizeU32(x.Get())", render_size_type(&ty, "x", 1, &go_name));
    let (ty, _) = parse_type("bool", 0).unwrap();
    assert_eq!("buf.SizeBool(x)\n", render_size_type(&ty, "x", 1, &go_name));
}

#[test]
fn go_size_of_collections() {
    let (ty, _) = parse_type("vec<u32>", 0).unwrap();
    assert_eq!(
        "buf.SizeVec[uint32](x, func(v uint32) int {\n\t\treturn buf.SizeU32(v)\n})\n",
        render_size_type(&ty, "x", 1, &go_name)
    );
    let (ty, _) = parse_type("option<string>", 0).unwrap();
    assert_eq!(
        "buf.SizeOption[string](x, func(v string) int {\n\t\treturn buf.SizeString(v)\n\t})",
        render_size_type(&ty, "x", 1, &go_name)
    );
    let (ty, _) = parse_type("hash_map<u32, string>", 0).unwrap();
    assert_eq!(
        "buf.SizeHashMap[uint32, string](\n\t\tx,\n\t\tfunc(k uint32) int {\n\t\t\treturn buf.SizeU32(k)\n\t\t},\n\t\tfunc(v string) int {\n\t\t\treturn buf.SizeString(v)\n\t\t},\n\t)",
        render_size_type(&ty, "x", 1, &go_name)
    );
    let (ty, _) = parse_type("[u32; 4]", 0).unwrap();
    assert_eq!(
        "buf.SizeArray4[uint32](x, func(v uint32) int {\n\treturn buf.SizeU32(v)\n})",
        render_size_type(&ty, "x", 0, &go_name)
    );
}

#[test]
fn go_size_of_tuples() {
    let (ty, _) = parse_type("(u32, string)", 0).unwrap();
    assert_eq!(
        "func() int {\n\tsize := 0\n\tsize += buf.SizeU32(x.F0)\n\tsize += buf.SizeString(x.F1)\n\treturn size\n}(size)",
        render_size_type(&ty, "x", 0, &go_name)
    );
}

#[test]
fn go_size_of_fields() {
    let (fields, _) = parse_fields("{ my_field: u32 @1, other: option<string> @2 }", 0).unwrap();
    assert_eq!(
        "\tsize += buf.SizeField(1, func() int {\n\t\treturn buf.SizeU32(v.MyField)\n})\n\
         \tsize += buf.SizeFieldOption[string](2, &v.Other, func(v string) []byte {\n\t\treturn buf.SizeString(v)\n})\n\
         \tsize += buf.SizeU32(buf.EndMarker)\n",
        render_size_fields(&fields, &go_name)
    );
    let (fields, _) = parse_fields("(u32 @1)", 0).unwrap();
    assert_eq!(
        "\tsize += buf.SizeField(1, func() int {\n\t\treturn buf.SizeU32(v.F0)\n\t})\n\tsize += buf.SizeU32(buf.EndMarker)\n",
        render_size_fields(&fields, &go_name)
    );
}
