use mabo::parser::print::to_text;
use mabo::parser::punctuated::Punctuated;
use mabo::parser::token::{
    Angle, Brace, Colon, Comma, Const as ConstToken, DoubleColon, Enum as EnumToken, Equal, Mod,
    Parenthesis, Semicolon, Struct as StructToken, Type as TypeToken, Use,
};
use mabo::parser::{
    Attribute, AttributeValue, Attributes, Comment, CommentLine, Const, DataType, Definition,
    Enum, ExternalType, Fields, Generics, Id, Import, Literal, LiteralValue, Module, Name,
    NamedField, Schema, Span, Struct, Type, TypeAlias, UnnamedField, Variant,
};

fn span() -> Span {
    Span::new(0, 0)
}

fn name(value: &'static str) -> Name<'static> {
    Name::new(value, span())
}

fn ty(value: DataType<'static>) -> Type<'static> {
    Type::new(value, span())
}

fn external(value: &'static str) -> Type<'static> {
    ty(DataType::External(ExternalType {
        path: Vec::new(),
        name: name(value),
        angle: None,
        generics: None,
    }))
}

fn constant(const_name: &'static str, ty_value: DataType<'static>, value: LiteralValue) -> Const<'static> {
    Const {
        comment: Comment(Vec::new()),
        keyword: ConstToken::new(span()),
        name: name(const_name),
        colon: Colon::default(),
        ty: ty(ty_value),
        equal: Equal::default(),
        value: Literal { value, span: span() },
        semicolon: Semicolon::default(),
    }
}

#[test]
fn print_types() {
    let map = ty(DataType::HashMap {
        span: span(),
        angle: Angle::default(),
        key: Box::new(ty(DataType::U8)),
        comma: Comma::default(),
        value: Box::new(ty(DataType::Option {
            span: span(),
            angle: Angle::default(),
            ty: Box::new(external("T")),
        })),
    });
    assert_eq!("hash_map<u8, option<T>>", to_text(&map));

    let tuple = ty(DataType::Tuple {
        paren: Parenthesis::default(),
        types: Punctuated::new(
            vec![(ty(DataType::Bool), Comma::default())],
            (ty(DataType::StringRef), None),
        ),
    });
    assert_eq!("(bool, &string)", to_text(&tuple));

    let array = ty(DataType::Array {
        bracket: Default::default(),
        ty: Box::new(ty(DataType::I16)),
        semicolon: Semicolon::default(),
        size: 12,
    });
    assert_eq!("[i16; 12]", to_text(&array));

    let path = ty(DataType::External(ExternalType {
        path: vec![(name("a"), DoubleColon::default()), (name("b"), DoubleColon::default())],
        name: name("C"),
        angle: Some(Angle::default()),
        generics: Some(Punctuated::new(Vec::new(), (ty(DataType::BoxBytes), None))),
    }));
    assert_eq!("a::b::C<box<bytes>>", to_text(&path));
    assert_eq!("@42", to_text(&Id::new(42, span())));
}

#[test]
fn print_literals() {
    let value = constant("VALUE", DataType::I64, LiteralValue::Int(-5));
    assert_eq!("const VALUE: i64 = -5;", to_text(&value));
    let value = constant("DATA", DataType::Bytes, LiteralValue::Bytes(vec![1, 20, 255]));
    assert_eq!("const DATA: bytes = [1, 20, 255];", to_text(&value));
    let value = constant("TEXT", DataType::String, LiteralValue::String("hi\"x".to_owned()));
    assert_eq!("const TEXT: string = \"hi\\\"x\";", to_text(&value));
    let value = constant(
        "RATIO",
        DataType::F64,
        LiteralValue::Float {
            bits: 1.5f64.to_bits(),
            text: 1.5f64.to_string(),
        },
    );
    assert_eq!("const RATIO: f64 = 1.5;", to_text(&value));
    let value = constant("FLAG", DataType::Bool, LiteralValue::Bool(true));
    assert_eq!("const FLAG: bool = true;", to_text(&value));
}

#[test]
fn print_schema() {
    let fields = Fields::Named(
        Brace::default(),
        Punctuated::new(
            vec![(
                NamedField::new(
                    Comment(Vec::new()),
                    name("a"),
                    Colon::default(),
                    ty(DataType::U32),
                    Some(Id::new(1, span())),
                    span(),
                ),
                Comma::default(),
            )],
            (
                NamedField::new(
                    Comment(vec![CommentLine::new("The second.", span())]),
                    name("b"),
                    Colon::default(),
                    ty(DataType::Vec {
                        span: span(),
                        angle: Angle::default(),
                        ty: Box::new(ty(DataType::String)),
                    }),
                    Some(Id::new(2, span())),
                    span(),
                ),
                Some(Comma::default()),
            ),
        ),
    );
    let sample = Struct {
        comment: Comment(Vec::new()),
        attributes: Attributes(vec![
            Attribute {
                name: "deprecated",
                value: AttributeValue::Unit,
            },
            Attribute {
                name: "version",
                value: AttributeValue::Single(Literal {
                    value: LiteralValue::Int(2),
                    span: span(),
                }),
            },
        ]),
        keyword: StructToken::new(span()),
        name: name("Sample"),
        generics: None,
        fields,
    };
    let kind = Enum {
        comment: Comment(Vec::new()),
        attributes: Attributes(Vec::new()),
        keyword: EnumToken::new(span()),
        name: name("Kind"),
        generics: None,
        brace: Brace::default(),
        variants: Punctuated::new(
            vec![(
                Variant::new(Comment(Vec::new()), name("One"), Fields::Unit, Some(Id::new(1, span())), span()),
                Comma::default(),
            )],
            (
                Variant::new(
                    Comment(Vec::new()),
                    name("Two"),
                    Fields::Unnamed(
                        Parenthesis::default(),
                        Punctuated::new(
                            vec![(UnnamedField::new(ty(DataType::U8), None, span()), Comma::default())],
                            (UnnamedField::new(ty(DataType::Bool), None, span()), None),
                        ),
                    ),
                    Some(Id::new(2, span())),
                    span(),
                ),
                None,
            ),
        ),
    };
    let alias = TypeAlias {
        comment: Comment(Vec::new()),
        keyword: TypeToken::new(span()),
        name: name("Alias"),
        generics: Some(Generics {
            angle: Angle::default(),
            types: Punctuated::new(Vec::new(), (name("T"), None)),
        }),
        equal: Equal::default(),
        target: external("T"),
        semicolon: Semicolon::default(),
    };
    let import = Import {
        keyword: Use::new(span()),
        full: name("other::module::Thing"),
        segments: vec![name("other"), name("module")],
        element: Some((DoubleColon::default(), name("Thing"))),
        semicolon: Semicolon::default(),
    };
    let inner = Module {
        comment: Comment(Vec::new()),
        keyword: Mod::new(span()),
        name: name("inner"),
        brace: Brace::default(),
        definitions: vec![Definition::Const(constant("X", DataType::U8, LiteralValue::Int(7)))],
    };
    let schema = Schema {
        source: "",
        comment: Comment(vec![CommentLine::new("Sample schema", span())]),
        definitions: vec![
            Definition::Struct(sample),
            Definition::Enum(kind),
            Definition::TypeAlias(alias),
            Definition::Import(import),
            Definition::Module(inner),
        ],
    };
    let expected = "/// Sample schema\n\n\
        #[deprecated, version = 2]\n\
        struct Sample {\n    a: u32 @1,\n    /// The second.\n    b: vec<string> @2,\n}\n\n\
        enum Kind {\n    One @1,\n    Two(u8, bool) @2\n}\n\n\
        type Alias<T> = T;\n\
        use other::module::Thing;\n\
        mod inner {\n    const X: u8 = 7;}\n\n";
    assert_eq!(expected, schema.to_text());
}
