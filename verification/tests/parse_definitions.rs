use mabo::parser::definitions::{parse_alias, parse_enum, parse_generics, ParseDefinitionError};
use mabo::parser::fields::{parse_fields, ParseFieldsError};
use mabo::parser::print::{print_fields, print_generics, to_text};
use mabo::parser::location::from_until;
use mabo::parser::types::chars_of;
use mabo::parser::{
    Attribute, AttributeValue, Attributes, Comment, CommentLine, DataType, Definition, Fields, Span,
};

#[test]
fn parse_unnamed_fields() {
    let input = "(u8 @1, string, vec<T>  @3,)";
    let (fields, end) = parse_fields(input, 0).unwrap();
    assert_eq!(input.len(), end);
    match &fields {
        Fields::Unnamed(_, list) => {
            assert_eq!(3, list.len());
            assert_eq!(DataType::U8, list.get(0).ty.value);
            assert_eq!(Some(1), list.get(0).id.map(|id| id.get()));
            assert_eq!(None, list.get(1).id.map(|id| id.get()));
            assert_eq!(Some(3), list.get(2).id.map(|id| id.get()));
        }
        _ => panic!("unnamed fields expected"),
    }
    assert_eq!("(u8 @1, string, vec<T> @3,)", to_text(&fields));
}

#[test]
fn parse_named_fields() {
    let input = "{\n    /// First.\n    ///   Second line.\n    a: u8 @1,\n    b_2 :bool,\n}";
    let (fields, end) = parse_fields(input, 0).unwrap();
    assert_eq!(input.len(), end);
    match &fields {
        Fields::Named(_, list) => {
            assert_eq!(2, list.len());
            let first = list.get(0);
            assert_eq!("a", first.name.get());
            assert_eq!(2, first.comment.0.len());
            assert_eq!("First.", first.comment.0[0].get());
            assert_eq!("Second line.", first.comment.0[1].get());
            assert_eq!("b_2", list.get(1).name.get());
            assert_eq!(DataType::Bool, list.get(1).ty.value);
        }
        _ => panic!("named fields expected"),
    }
    assert_eq!(
        " {\n    /// First.\n    /// Second line.\n    a: u8 @1,\n    b_2: bool,\n}",
        to_text(&fields)
    );
}

#[test]
fn parse_unit_fields() {
    assert_eq!(Ok((Fields::Unit, 1)), parse_fields(" @1", 1));
    assert_eq!(Ok((Fields::Unit, 0)), parse_fields("@1", 0));
    assert_eq!(Err(ParseFieldsError { at: Span::new(0, 0), cut: false }), parse_fields("", 0));
}

#[test]
fn parse_invalid_fields() {
    for input in ["()", "{}", "{ a u8 }", "{ A: u8 }", "(u8", "(u8 @1 u16)", "{ a: vec }"] {
        assert_eq!(Err(ParseFieldsError { at: Span::new(0, 0), cut: true }), parse_fields(input, 0), "{input}");
    }
    // The error covers the rest of the list entry, or else of the line.
    assert_eq!(
        Err(ParseFieldsError { at: Span::new(0, 4), cut: true }),
        parse_fields("{ a\n u8 }", 0)
    );
}

#[test]
fn error_locations() {
    let cs = chars_of("ab, c\nd,");
    assert_eq!(Span::new(1, 3), from_until(&cs, 1, &[',', '\n']));
    assert_eq!(Span::new(1, 6), from_until(&cs, 1, &['\n', ',']));
    assert_eq!(Span::new(3, 8), from_until(&cs, 3, &[',', '\n']));
    assert_eq!(Span::new(3, 3), from_until(&cs, 3, &['x']));
    assert_eq!(Span::new(8, 8), from_until(&cs, 8, &[',']));
}

#[test]
fn parse_invalid_identifiers() {
    // An `@` that starts no identifier is left in place, where the list cannot go on.
    assert_eq!(Err(ParseFieldsError { at: Span::new(0, 6), cut: true }), parse_fields("(u8 @, u16)", 0));
    for input in ["(u16 @4294967296)", "(u8 @01)"] {
        assert_eq!(Err(ParseFieldsError { at: Span::new(0, 0), cut: true }), parse_fields(input, 0), "{input}");
    }
    let (fields, _) = parse_fields("(u8 @4294967295)", 0).unwrap();
    match fields {
        Fields::Unnamed(_, list) => assert_eq!(Some(4294967295), list.get(0).id.map(|id| id.get())),
        _ => panic!("unnamed fields expected"),
    }
}

#[test]
fn parse_generic_names() {
    let (generics, end) = parse_generics("<A, B2 ,C,>", 0).unwrap();
    assert_eq!(11, end);
    assert_eq!(3, generics.types.len());
    assert_eq!("B2", generics.types.get(1).get());
    assert_eq!(Err(ParseDefinitionError { at: 0, cut: false }), parse_generics("A", 0));
    assert_eq!(Err(ParseDefinitionError { at: 0, cut: true }), parse_generics("<a>", 0));
    assert_eq!(Err(ParseDefinitionError { at: 0, cut: true }), parse_generics("<A_B>", 0));
}

#[test]
fn parse_enum_definition() {
    let input = "enum Sample<T> {\n    One @1,\n    Two(u8 @1) @2,\n    Three {\n        value: T @1,\n    } @3,\n}\n";
    let (definition, end) = parse_enum(input, 0).unwrap();
    assert_eq!(input.len() - 1, end);
    assert_eq!("Sample", definition.name.get());
    assert_eq!(3, definition.variants.len());
    assert_eq!("Two", definition.variants.get(1).name.get());
    assert_eq!(Some(3), definition.variants.get(2).id.map(|id| id.get()));
    assert_eq!(input, to_text(&definition));
}

#[test]
fn parse_invalid_enums() {
    for input in ["struct A", "enumA {}", "enum", "enum\nA { B }"] {
        assert_eq!(Err(ParseDefinitionError { at: 0, cut: false }), parse_enum(input, 0), "{input}");
    }
    for input in ["enum a { B }", "enum A {}", "enum A { B", "enum A<> { B }", "enum A B", "enum A { b }"] {
        assert_eq!(Err(ParseDefinitionError { at: 0, cut: true }), parse_enum(input, 0), "{input}");
    }
}

#[test]
fn parse_type_alias() {
    let input = "type Alias<A, B> = hash_map<A, B>;";
    let (alias, end) = parse_alias(input, 0).unwrap();
    assert_eq!(input.len(), end);
    assert_eq!("Alias", alias.name.get());
    assert_eq!(input, to_text(&alias));
    let (alias, end) = parse_alias("type  A\t=u8  ;", 0).unwrap();
    assert_eq!(14, end);
    assert_eq!(DataType::U8, alias.target.value);
    assert_eq!("type A = u8;", to_text(&alias));
}

#[test]
fn parse_invalid_aliases() {
    assert_eq!(Err(ParseDefinitionError { at: 0, cut: false }), parse_alias("typeA = u8;", 0));
    for input in ["type a = u8;", "type A u8;", "type A = ;", "type A = u8", "type A<> = u8;"] {
        assert_eq!(Err(ParseDefinitionError { at: 0, cut: true }), parse_alias(input, 0), "{input}");
    }
}

#[test]
fn print_enum() {
    let source = "enum sample {\n    Variant @1,\n}";
    assert_eq!(31, source.len());
    let err = parse_enum(source, 0).unwrap_err();
    assert_eq!(ParseDefinitionError { at: 0, cut: true }, err);
    println!("{err:?}");
}

#[test]
fn printed_enum_reads_back() {
    let input = "enum Shape<T> {\n    /// A point.\n    Point @1,\n    Circle(T @1, u32) @2,\n    Rect {\n        /// Width.\n        w: u32 @1,\n        h: option<u32>,\n    } @3,\n}\n";
    let (first, _) = parse_enum(input, 0).unwrap();
    let printed = to_text(&first);
    let (second, end) = parse_enum(&printed, 0).unwrap();
    assert_eq!(printed.len() - 1, end);
    assert_eq!(printed, to_text(&second));
    assert_eq!(first.name.get(), second.name.get());
    assert_eq!(first.variants.len(), second.variants.len());
    assert_eq!(Some(3), second.variants.get(2).id.map(|id| id.get()));
}

#[test]
fn printed_alias_and_generics_read_back() {
    let (alias, _) = parse_alias("type   Pair<A,B>=(A,  B) ;", 0).unwrap();
    let printed = to_text(&alias);
    assert_eq!("type Pair<A, B> = (A, B);", printed);
    let (again, end) = parse_alias(&printed, 0).unwrap();
    assert_eq!(printed.len(), end);
    assert_eq!(printed, to_text(&again));

    let (generics, _) = parse_generics("<  X ,Y,  >", 0).unwrap();
    let mut out = String::new();
    print_generics(&mut out, &generics);
    assert_eq!("<X, Y,>", out);
    let (again, end) = parse_generics(&out, 0).unwrap();
    assert_eq!(out.len(), end);
    assert_eq!(2, again.types.len());
}

#[test]
fn printed_fields_read_back() {
    let (fields, _) = parse_fields("{ a: u8 @1, b: vec<string> }", 0).unwrap();
    let mut out = String::new();
    print_fields(&mut out, &fields, 0);
    assert_eq!(" {\n    a: u8 @1,\n    b: vec<string>\n}", out);
    let (again, end) = parse_fields(&out, 1).unwrap();
    assert_eq!(out.len(), end);
    let mut out2 = String::new();
    print_fields(&mut out2, &again, 0);
    assert_eq!(out, out2);

    let (fields, _) = parse_fields("(u8 @1, bool)", 0).unwrap();
    let mut out = String::new();
    print_fields(&mut out, &fields, 0);
    let (again, end) = parse_fields(&out, 0).unwrap();
    assert_eq!(out.len(), end);
    assert!(matches!(again, Fields::Unnamed(..)));
}

#[test]
fn definitions_take_comments_and_attributes() {
    let comment = || Comment(vec![CommentLine::new("Docs.", Span::new(0, 9))]);
    let attributes = || Attributes(vec![Attribute { name: "deprecated", value: AttributeValue::Unit }]);

    let (alias, _) = parse_alias("type A = u8;", 0).unwrap();
    let def = Definition::TypeAlias(alias).with_comment(comment()).with_attributes(attributes());
    let Definition::TypeAlias(alias) = def else { panic!("alias expected") };
    assert_eq!(comment(), alias.comment);
    assert_eq!("/// Docs.\ntype A = u8;", to_text(&alias));

    let (definition, _) = parse_enum("enum E { V @1 }", 0).unwrap();
    let def = Definition::Enum(definition).with_attributes(attributes()).with_comment(comment());
    let Definition::Enum(definition) = def else { panic!("enum expected") };
    assert_eq!(comment(), definition.comment);
    assert_eq!(attributes(), definition.attributes);
}
