use mabo::parser::print::to_text;
use mabo::parser::types::{parse_type, ParseTypeError};
use mabo::parser::{DataType, Span};

fn parsed(input: &str) -> (String, usize) {
    let (ty, end) = parse_type(input, 0).unwrap();
    assert_eq!(Span::new(0, end), ty.span);
    (to_text(&ty), end)
}

#[test]
fn parse_keywords() {
    for keyword in [
        "bool", "u8", "u16", "u32", "u64", "u128", "i8", "i16", "i32", "i64", "i128", "f32",
        "f64", "string", "&string", "bytes", "&bytes", "box<string>", "box<bytes>",
    ] {
        assert_eq!((keyword.to_owned(), keyword.len()), parsed(keyword));
    }
    let (ty, end) = parse_type("u32", 0).unwrap();
    assert_eq!(DataType::U32, ty.value);
    assert_eq!(3, end);
}

#[test]
fn parse_stops_after_type() {
    let (ty, end) = parse_type("u8, u16", 0).unwrap();
    assert_eq!(DataType::U8, ty.value);
    assert_eq!(2, end);
    let (ty, end) = parse_type("x: i64;", 3).unwrap();
    assert_eq!(DataType::I64, ty.value);
    assert_eq!(6, end);
    assert_eq!(Span::new(3, 6), ty.span);
}

#[test]
fn parse_generic_types() {
    assert_eq!(("vec<u8>".to_owned(), 7), parsed("vec<u8>"));
    assert_eq!(
        ("hash_map<u8, vec<string>>".to_owned(), 25),
        parsed("hash_map<u8, vec<string>>")
    );
    assert_eq!(("hash_map<u8, u16>".to_owned(), 20), parsed("hash_map<u8 \t,  u16>"));
    assert_eq!(("option<non_zero<u32>>".to_owned(), 23), parsed("option<non_zero<u32 > >"));
    assert_eq!(("hash_set<bool>".to_owned(), 14), parsed("hash_set<bool>"));
}

#[test]
fn parse_tuples_and_arrays() {
    assert_eq!(("(u8, u16)".to_owned(), 9), parsed("(u8, u16)"));
    assert_eq!(("(u8, u16,)".to_owned(), 13), parsed("( u8 ,\n u16,)"));
    assert_eq!(("(u8)".to_owned(), 4), parsed("(u8)"));
    assert_eq!(("[u8; 12]".to_owned(), 8), parsed("[u8; 12]"));
    assert_eq!(("[u8; 0]".to_owned(), 9), parsed("[ u8 ;0 ]"));
    assert_eq!(("[u8; 4294967295]".to_owned(), 16), parsed("[u8; 4294967295]"));
}

#[test]
fn parse_external_types() {
    assert_eq!(("Sample".to_owned(), 6), parsed("Sample"));
    assert_eq!(("a::b2_c::Sample".to_owned(), 15), parsed("a::b2_c::Sample"));
    assert_eq!(("Gen<A, vec<B>,>".to_owned(), 14), parsed("Gen<A,vec<B>,>"));
    assert_eq!(("boxes::T".to_owned(), 8), parsed("boxes::T"));
}

#[test]
fn parse_fatal_errors() {
    let fatal = ParseTypeError { at: 0, cut: true };
    for input in [
        "vec", "vec8", "vec <u8>", "vec<u8", "vec< u8>", "hash_map<u8>", "()", "(u8", "[u8]",
        "[u8; 01]", "[u8; 4294967296]", "[u8;]", "Gen<>", "Gen<A",
    ] {
        assert_eq!(Err(fatal), parse_type(input, 0), "{input}");
    }
    assert_eq!(2, parse_type("u8::T", 0).unwrap().1);
}

#[test]
fn parse_recoverable_errors() {
    for input in ["", " u8", "x", "vecx", "a::b", "&", "@1", "}"] {
        assert_eq!(Err(ParseTypeError { at: 0, cut: false }), parse_type(input, 0), "{input}");
    }
    assert_eq!(Err(ParseTypeError { at: 9, cut: false }), parse_type("u8", 9));
}

#[test]
fn print_parse_roundtrip() {
    for text in [
        "hash_map<u8, vec<option<a::B<C, [u16; 3]>>>>",
        "(u8, (bool, string), non_zero<bytes>,)",
        "[(i8, Sample); 7]",
    ] {
        assert_eq!((text.to_owned(), text.len()), parsed(text));
    }
}
