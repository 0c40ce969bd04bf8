use mabo::compiler::resolve::{
    schemas, Error, ResolveError, ResolveImport, ResolveLocal, ResolveRemote,
};
use mabo::parser::punctuated::Punctuated;
use mabo::parser::token::{
    Angle, Brace, Colon, Comma, Const as ConstToken, DoubleColon, Equal, Mod, Semicolon,
    Struct as StructToken, Use,
};
use mabo::parser::{
    Attributes, Comment, Const, DataType, Definition, ExternalType, Fields, Generics, Import,
    Literal, LiteralValue, Module, Name, NamedField, Schema, Span, Struct, Type,
};

fn span(start: usize, end: usize) -> Span {
    Span::new(start, end)
}

fn name(value: &'static str, at: usize) -> Name<'static> {
    Name::new(value, span(at, at + value.len()))
}

fn punctuated<T>(mut items: Vec<T>) -> Punctuated<T> {
    let last = items.pop().unwrap();
    Punctuated::new(
        items.into_iter().map(|i| (i, Comma::default())).collect(),
        (last, None),
    )
}

fn external(path: &[&'static str], ty: &'static str, generics: usize, at: usize) -> Type<'static> {
    let generics = (generics > 0).then(|| {
        punctuated(
            (0..generics)
                .map(|i| Type::new(DataType::U8, span(at + 50 + i, at + 51 + i)))
                .collect(),
        )
    });
    Type::new(
        DataType::External(ExternalType {
            path: path
                .iter()
                .enumerate()
                .map(|(i, p)| (name(p, at + 10 * i), DoubleColon::default()))
                .collect(),
            name: name(ty, at + 40),
            angle: generics.as_ref().map(|_| Angle::default()),
            generics,
        }),
        span(at, at + 60),
    )
}

fn sample_struct(
    struct_name: &'static str,
    generics: &[&'static str],
    fields: Vec<Type<'static>>,
    at: usize,
) -> Definition<'static> {
    let fields = if fields.is_empty() {
        Fields::Unit
    } else {
        Fields::Named(
            Brace::default(),
            punctuated(
                fields
                    .into_iter()
                    .enumerate()
                    .map(|(i, ty)| {
                        NamedField::new(
                            Comment(Vec::new()),
                            name("field", at + 100 * (i + 1)),
                            Colon::default(),
                            ty,
                            None,
                            span(at + 100 * (i + 1), at + 100 * (i + 1) + 90),
                        )
                    })
                    .collect(),
            ),
        )
    };
    Definition::Struct(Struct {
        comment: Comment(Vec::new()),
        attributes: Attributes(Vec::new()),
        keyword: StructToken::new(span(at, at + 6)),
        name: name(struct_name, at + 7),
        generics: (!generics.is_empty()).then(|| Generics {
            angle: Angle::default(),
            types: punctuated(generics.iter().map(|g| name(g, at + 20)).collect()),
        }),
        fields,
    })
}

fn constant(const_name: &'static str, at: usize) -> Definition<'static> {
    Definition::Const(Const {
        comment: Comment(Vec::new()),
        keyword: ConstToken::new(span(at, at + 5)),
        name: name(const_name, at + 6),
        colon: Colon::default(),
        ty: Type::new(DataType::U32, span(at + 20, at + 23)),
        equal: Equal::default(),
        value: Literal {
            value: LiteralValue::Int(1),
            span: span(at + 26, at + 27),
        },
        semicolon: Semicolon::default(),
    })
}

fn module(module_name: &'static str, definitions: Vec<Definition<'static>>, at: usize) -> Definition<'static> {
    Definition::Module(Module {
        comment: Comment(Vec::new()),
        keyword: Mod::new(span(at, at + 3)),
        name: name(module_name, at + 4),
        brace: Brace::default(),
        definitions,
    })
}

fn import(segments: &[&'static str], element: Option<&'static str>, at: usize) -> Definition<'static> {
    Definition::Import(Import {
        keyword: Use::new(span(at, at + 3)),
        full: name("path", at + 4),
        segments: segments
            .iter()
            .enumerate()
            .map(|(i, s)| name(s, at + 10 * (i + 1)))
            .collect(),
        element: element.map(|e| (DoubleColon::default(), name(e, at + 80))),
        semicolon: Semicolon::default(),
    })
}

fn schema(definitions: Vec<Definition<'static>>) -> Schema<'static> {
    Schema {
        source: "",
        comment: Comment(Vec::new()),
        definitions,
    }
}

fn resolve_one(definitions: Vec<Definition<'static>>) -> Result<(), Error> {
    let value = schema(definitions);
    schemas(&[("sample", &value)])
}

#[test]
fn local_types_resolve() {
    let result = resolve_one(vec![
        sample_struct("Other", &[], Vec::new(), 0),
        sample_struct("Sample", &["T"], vec![external(&[], "Other", 0, 1000), external(&[], "T", 0, 2000)], 500),
        module("inner", vec![sample_struct("Deep", &[], Vec::new(), 3000)], 2500),
        sample_struct("User", &[], vec![external(&["inner"], "Deep", 0, 4000)], 3500),
    ]);
    assert!(result.is_ok());
}

#[test]
fn missing_definition() {
    let result = resolve_one(vec![sample_struct("Sample", &[], vec![external(&[], "Missing", 0, 1000)], 0)]);
    match result {
        Err(Error {
            schema: 0,
            cause: ResolveError::Local(ResolveLocal::MissingDefinition(e)),
        }) => {
            assert_eq!("Missing", e.name);
            assert_eq!("sample", e.path);
            assert_eq!(1040..1047, e.used);
        }
        other => panic!("unexpected result: {other:?}"),
    }
}

#[test]
fn missing_module() {
    let result = resolve_one(vec![
        module("inner", vec![sample_struct("Deep", &[], Vec::new(), 100)], 50),
        sample_struct("Sample", &[], vec![external(&["inner", "nope"], "Deep", 0, 1000)], 500),
    ]);
    match result {
        Err(Error {
            cause: ResolveError::Local(ResolveLocal::MissingModule(e)),
            ..
        }) => {
            assert_eq!("nope", e.name);
            assert_eq!("sample::inner", e.path);
        }
        other => panic!("unexpected result: {other:?}"),
    }
}

#[test]
fn generics_count_and_invalid_kind() {
    let result = resolve_one(vec![
        sample_struct("Pair", &["A", "B"], Vec::new(), 0),
        sample_struct("Sample", &[], vec![external(&[], "Pair", 1, 1000)], 500),
    ]);
    match result {
        Err(Error {
            cause: ResolveError::Local(ResolveLocal::GenericsCount(e)),
            ..
        }) => {
            assert_eq!(2, e.definition);
            assert_eq!(1, e.usage);
            assert_eq!(7..11, e.declared);
        }
        other => panic!("unexpected result: {other:?}"),
    }

    let result = resolve_one(vec![
        constant("VALUE", 0),
        sample_struct("Sample", &[], vec![external(&[], "VALUE", 0, 1000)], 500),
    ]);
    match result {
        Err(Error {
            cause: ResolveError::Local(ResolveLocal::InvalidKind(e)),
            ..
        }) => assert_eq!("constant", e.kind),
        other => panic!("unexpected result: {other:?}"),
    }
}

#[test]
fn remote_types_resolve_through_imports() {
    let other = schema(vec![
        sample_struct("Remote", &[], Vec::new(), 0),
        sample_struct("Wide", &["A"], Vec::new(), 100),
    ]);
    let main = schema(vec![
        import(&["other"], Some("Remote"), 0),
        sample_struct("Sample", &[], vec![external(&[], "Remote", 0, 1000)], 500),
    ]);
    assert!(schemas(&[("main", &main), ("other", &other)]).is_ok());

    let main = schema(vec![
        import(&["other"], Some("Wide"), 0),
        sample_struct("Sample", &[], vec![external(&[], "Wide", 0, 1000)], 500),
    ]);
    match schemas(&[("main", &main), ("other", &other)]) {
        Err(Error {
            schema: 0,
            cause: ResolveError::Remote(e),
        }) => match *e {
            ResolveRemote::GenericsCount(e) => {
                assert_eq!(0, e.amount);
                assert_eq!(1, e.declaration[0].amount);
            }
            other => panic!("unexpected error: {other:?}"),
        },
        other => panic!("unexpected result: {other:?}"),
    }

    let main = schema(vec![
        import(&["other"], Some("Remote"), 0),
        sample_struct("Sample", &[], vec![external(&["x"], "Unknown", 0, 1000)], 500),
    ]);
    match schemas(&[("main", &main), ("other", &other)]) {
        Err(Error {
            cause: ResolveError::Remote(e),
            ..
        }) => match *e {
            ResolveRemote::MissingImport(e) => assert_eq!("x::Unknown", e.ty),
            other => panic!("unexpected error: {other:?}"),
        },
        other => panic!("unexpected result: {other:?}"),
    }
}

#[test]
fn broken_imports() {
    let main = schema(vec![import(&["nowhere"], None, 0)]);
    match schemas(&[("main", &main)]) {
        Err(Error {
            cause: ResolveError::Import(ResolveImport::MissingSchema(e)),
            ..
        }) => assert_eq!("nowhere", e.name),
        other => panic!("unexpected result: {other:?}"),
    }

    let other = schema(vec![constant("VALUE", 0)]);
    let main = schema(vec![import(&["other"], Some("VALUE"), 0)]);
    match schemas(&[("main", &main), ("other", &other)]) {
        Err(Error {
            cause: ResolveError::Import(ResolveImport::InvalidKind(e)),
            ..
        }) => assert_eq!("const", e.kind),
        other => panic!("unexpected result: {other:?}"),
    }
}

#[test]
fn remote_types_resolve_through_module_imports() {
    let other = schema(vec![sample_struct("Remote", &[], Vec::new(), 0)]);
    let main = schema(vec![
        import(&["other"], None, 0),
        sample_struct("Sample", &[], vec![external(&["other"], "Remote", 0, 1000)], 500),
    ]);
    assert!(schemas(&[("main", &main), ("other", &other)]).is_ok());

    let main = schema(vec![
        import(&["other"], None, 0),
        sample_struct("Sample", &[], vec![external(&["other"], "Absent", 0, 1000)], 500),
    ]);
    match schemas(&[("main", &main), ("other", &other)]) {
        Err(Error {
            cause: ResolveError::Remote(_),
            ..
        }) => {}
        other => panic!("unexpected result: {other:?}"),
    }
}

#[test]
fn externals_inside_non_zero_are_resolved() {
    let wrapped = Type::new(
        DataType::NonZero {
            span: span(990, 998),
            angle: Angle::default(),
            ty: Box::new(external(&[], "Missing", 0, 1000)),
        },
        span(990, 1010),
    );
    let result = resolve_one(vec![sample_struct("Sample", &[], vec![wrapped], 500)]);
    match result {
        Err(Error {
            cause: ResolveError::Local(ResolveLocal::MissingDefinition(e)),
            ..
        }) => assert_eq!("Missing", e.name),
        other => panic!("unexpected result: {other:?}"),
    }
}
