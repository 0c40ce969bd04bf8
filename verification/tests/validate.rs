use mabo::compiler::ids::{
    validate_enum_ids, validate_field_ids, validate_struct_ids, DuplicateFieldId, DuplicateId,
};
use mabo::compiler::names::{
    validate_enum_names, validate_field_names, validate_names_in_module, validate_struct_names,
    DuplicateName,
};
use mabo::compiler::IdGenerator;
use mabo::parser::punctuated::Punctuated;
use mabo::parser::token::{Brace, Colon, Comma, DoubleColon, Enum as EnumToken, Parenthesis};
use mabo::parser::token::{Const as ConstToken, Semicolon, Struct as StructToken, Use};
use mabo::parser::{
    Attributes, Comment, Const, DataType, Definition, Enum, Fields, Id, Import, Literal,
    LiteralValue, Name, NamedField, Span, Struct, Type, UnnamedField, Variant,
};

fn span(start: usize, end: usize) -> Span {
    Span::new(start, end)
}

fn named(name: &'static str, id: Option<u32>, at: usize) -> NamedField<'static> {
    NamedField::new(
        Comment(Vec::new()),
        Name::new(name, span(at, at + name.len())),
        Colon::default(),
        Type::new(DataType::U32, span(at + 10, at + 13)),
        id.map(|v| Id::new(v, span(at + 20, at + 22))),
        span(at, at + 25),
    )
}

fn unnamed(id: Option<u32>, at: usize) -> UnnamedField<'static> {
    UnnamedField::new(
        Type::new(DataType::U8, span(at, at + 2)),
        id.map(|v| Id::new(v, span(at + 3, at + 5))),
        span(at, at + 5),
    )
}

fn punctuated<T>(mut items: Vec<T>) -> Punctuated<T> {
    let last = items.pop().unwrap();
    Punctuated::new(
        items.into_iter().map(|i| (i, Comma::default())).collect(),
        (last, None),
    )
}

fn named_fields(fields: Vec<NamedField<'static>>) -> Fields<'static> {
    Fields::Named(Brace::default(), punctuated(fields))
}

fn sample_struct(fields: Fields<'static>) -> Struct<'static> {
    Struct {
        comment: Comment(Vec::new()),
        attributes: Attributes(Vec::new()),
        keyword: StructToken::new(span(0, 6)),
        name: Name::new("Sample", span(7, 13)),
        generics: None,
        fields,
    }
}

fn variant(name: &'static str, fields: Fields<'static>, id: Option<u32>, at: usize) -> Variant<'static> {
    Variant::new(
        Comment(Vec::new()),
        Name::new(name, span(at, at + name.len())),
        fields,
        id.map(|v| Id::new(v, span(at + 30, at + 32))),
        span(at, at + 40),
    )
}

fn sample_enum(variants: Vec<Variant<'static>>) -> Enum<'static> {
    Enum {
        comment: Comment(Vec::new()),
        attributes: Attributes(Vec::new()),
        keyword: EnumToken::new(span(0, 4)),
        name: Name::new("Sample", span(5, 11)),
        generics: None,
        brace: Brace::default(),
        variants: punctuated(variants),
    }
}

#[test]
fn id_generator_fills_gaps() {
    let mut gen = IdGenerator::new();
    assert_eq!(1, gen.next(None));
    assert_eq!(2, gen.next(None));
    assert_eq!(10, gen.next(Some(&Id::new(10, span(0, 3)))));
    assert_eq!(11, gen.next(None));
    let id = gen.next_with_span(None, || span(5, 9));
    assert_eq!(12, id.get());
}

#[test]
fn unique_field_ids_pass() {
    let value = sample_struct(named_fields(vec![
        named("a", None, 100),
        named("b", None, 200),
        named("c", Some(5), 300),
        named("d", None, 400),
    ]));
    assert!(validate_struct_ids(&value).is_ok());
    assert!(validate_field_ids(&Fields::Unit).is_ok());
}

#[test]
fn duplicate_named_field_id() {
    // The third field explicitly takes 2, which the second field received implicitly.
    let value = sample_struct(named_fields(vec![
        named("a", None, 100),
        named("b", None, 200),
        named("c", Some(2), 300),
    ]));
    match validate_struct_ids(&value) {
        Err(DuplicateFieldId::Named(e)) => {
            assert_eq!(2, e.id.get());
            assert_eq!("c", e.name);
            assert_eq!("b", e.other_name);
            assert_eq!(200..225, e.first);
            assert_eq!(320..322, e.second);
        }
        other => panic!("unexpected result: {other:?}"),
    }
}

#[test]
fn duplicate_unnamed_field_id() {
    let fields = Fields::Unnamed(
        Parenthesis::default(),
        punctuated(vec![unnamed(Some(1), 10), unnamed(Some(3), 20), unnamed(Some(1), 30)]),
    );
    match validate_field_ids(&fields) {
        Err(DuplicateFieldId::Unnamed(e)) => {
            assert_eq!(1, e.id.get());
            assert_eq!(3, e.position);
            assert_eq!(1, e.other_position);
            assert_eq!(13..15, e.first);
            assert_eq!(33..35, e.second);
        }
        other => panic!("unexpected result: {other:?}"),
    }
}

#[test]
fn duplicate_variant_id() {
    let value = sample_enum(vec![
        variant("One", Fields::Unit, None, 100),
        variant("Two", Fields::Unit, Some(1), 200),
    ]);
    match validate_enum_ids(&value) {
        Err(DuplicateId::EnumVariant(e)) => {
            assert_eq!(1, e.id.get());
            assert_eq!("Two", e.name);
            assert_eq!("One", e.other_name);
            assert_eq!(100..140, e.first);
            assert_eq!(230..232, e.second);
        }
        other => panic!("unexpected result: {other:?}"),
    }
}

#[test]
fn duplicate_field_id_in_variant() {
    let value = sample_enum(vec![
        variant("One", Fields::Unit, None, 100),
        variant(
            "Two",
            named_fields(vec![named("x", Some(4), 300), named("y", Some(4), 400)]),
            None,
            200,
        ),
    ]);
    assert!(matches!(
        validate_enum_ids(&value),
        Err(DuplicateId::Field(DuplicateFieldId::Named(_)))
    ));
    let fine = sample_enum(vec![
        variant("One", named_fields(vec![named("x", None, 300)]), None, 100),
        variant("Two", named_fields(vec![named("x", None, 400)]), None, 200),
    ]);
    assert!(validate_enum_ids(&fine).is_ok());
}

#[test]
fn duplicate_field_name() {
    let value = sample_struct(named_fields(vec![
        named("a", None, 100),
        named("b", None, 200),
        named("a", None, 300),
    ]));
    let e = validate_struct_names(&value).unwrap_err();
    assert_eq!("a", e.name);
    assert_eq!(100..101, e.first);
    assert_eq!(300..301, e.second);
    let unnamed = Fields::Unnamed(
        Parenthesis::default(),
        punctuated(vec![unnamed(None, 10), unnamed(None, 20)]),
    );
    assert!(validate_field_names(&unnamed).is_ok());
}

#[test]
fn duplicate_variant_name() {
    let value = sample_enum(vec![
        variant("One", Fields::Unit, None, 100),
        variant("Two", Fields::Unit, None, 200),
        variant("One", Fields::Unit, None, 300),
    ]);
    match validate_enum_names(&value) {
        Err(DuplicateName::EnumVariant(e)) => {
            assert_eq!("One", e.name);
            assert_eq!(100..103, e.first);
            assert_eq!(300..303, e.second);
        }
        other => panic!("unexpected result: {other:?}"),
    }
    let fields = sample_enum(vec![variant(
        "One",
        named_fields(vec![named("x", None, 300), named("x", None, 400)]),
        None,
        100,
    )]);
    assert!(matches!(
        validate_enum_names(&fields),
        Err(DuplicateName::Field(_))
    ));
}

fn constant(name: &'static str, at: usize) -> Definition<'static> {
    Definition::Const(Const {
        comment: Comment(Vec::new()),
        keyword: ConstToken::new(span(at, at + 5)),
        name: Name::new(name, span(at + 6, at + 6 + name.len())),
        colon: Colon::default(),
        ty: Type::new(DataType::U32, span(at + 20, at + 23)),
        equal: mabo::parser::token::Equal::default(),
        value: Literal {
            value: LiteralValue::Int(1),
            span: span(at + 26, at + 27),
        },
        semicolon: Semicolon::default(),
    })
}

fn import(segments: Vec<&'static str>, element: Option<&'static str>, at: usize) -> Definition<'static> {
    Definition::Import(Import {
        keyword: Use::new(span(at, at + 3)),
        full: Name::new("path", span(at + 4, at + 8)),
        segments: segments
            .into_iter()
            .enumerate()
            .map(|(i, s)| Name::new(s, span(at + 10 * (i + 1), at + 10 * (i + 1) + s.len())))
            .collect(),
        element: element.map(|e| (DoubleColon::default(), Name::new(e, span(at + 90, at + 90 + e.len())))),
        semicolon: Semicolon::default(),
    })
}

#[test]
fn names_in_module() {
    let defs = vec![
        constant("A", 0),
        import(vec!["other"], Some("B"), 100),
        import(Vec::new(), None, 200),
        constant("C", 300),
    ];
    assert!(validate_names_in_module(&defs).is_ok());

    let clash = vec![constant("A", 0), import(vec!["x", "A"], None, 100)];
    match validate_names_in_module(&clash) {
        Err(DuplicateName::InModule(e)) => {
            assert_eq!("A", e.name);
            assert_eq!(6..7, e.first);
            assert_eq!(120..121, e.second);
        }
        other => panic!("unexpected result: {other:?}"),
    }
}
