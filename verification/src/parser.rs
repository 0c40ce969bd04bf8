//! Data model of parsed Mabo schema files: every element together with the source location it was
//! parsed from.

pub mod definitions;
pub mod fields;
pub mod location;
pub mod print;
pub mod punctuated;
pub mod readback;
pub mod token;
pub mod types;

use self::punctuated::Punctuated;
use vstd::prelude::*;

verus! {

/// Source code span that marks the location of any element in the schema that it was parsed from.
#[derive(Clone, Copy, Debug, PartialEq, Eq, Hash)]
pub struct Span {
    /// Byte offset where the element starts.
    pub start: usize,
    /// Byte offset right after the element ends.
    pub end: usize,
}

impl Span {
    /// Create a span from its start and end offsets.
    pub fn new(start: usize, end: usize) -> (r: Self)
        ensures
            r == (Span { start, end }),
    {
        Self { start, end }
    }

    /// Create a span from a range of offsets.
    pub fn from_range(range: std::ops::Range<usize>) -> (r: Self)
        ensures
            r == (Span { start: range.start, end: range.end }),
    {
        Self { start: range.start, end: range.end }
    }

    /// The range of offsets that this span covers.
    pub fn to_range(self) -> (r: std::ops::Range<usize>)
        ensures
            r.start == self.start,
            r.end == self.end,
    {
        self.start..self.end
    }
}

/// Implemented by any parsed schema element that can report the source code span that it originated
/// from. This helps during error reporting to visualize the exact location of a problem.
pub trait Spanned {
    /// The source code span of this schema element.
    spec fn spec_span(&self) -> Span;

    /// Get the source code span of this schema element.
    fn span(&self) -> (r: Span)
        ensures
            r == self.spec_span(),
    ;
}

impl Spanned for Span {
    open spec fn spec_span(&self) -> Span {
        *self
    }

    fn span(&self) -> (r: Span) {
        *self
    }
}

/// Unique identifier for an element.
///
/// ```txt
/// @1
/// ```
#[derive(Clone, Copy, Debug, PartialEq, Eq, Hash)]
pub struct Id {
    /// Raw integer value.
    value: u32,
    /// Source code location.
    span: Span,
}

impl Id {
    /// The raw integer value of this identifier.
    pub closed spec fn spec_get(&self) -> u32 {
        self.value
    }

    /// Create an identifier with its location.
    pub fn new(value: u32, span: Span) -> (r: Self)
        ensures
            r.spec_get() == value,
            r.spec_span() == span,
    {
        Self { value, span }
    }

    /// Retrieve the raw integer value of this identifier.
    pub fn get(&self) -> (r: u32)
        ensures
            r == self.spec_get(),
    {
        self.value
    }
}

impl Spanned for Id {
    closed spec fn spec_span(&self) -> Span {
        self.span
    }

    fn span(&self) -> (r: Span) {
        self.span
    }
}

/// An arbitrary name of any element, which additionally carries a span into the schema to mark its
/// location.
#[derive(Clone, Debug, PartialEq, Eq)]
pub struct Name<'a> {
    /// Raw string value.
    value: &'a str,
    /// Source code location.
    span: Span,
}

impl<'a> Name<'a> {
    /// The raw string value of this name.
    pub closed spec fn spec_get(&self) -> Seq<char> {
        self.value@
    }

    /// Create a name with its location.
    pub fn new(value: &'a str, span: Span) -> (r: Self)
        ensures
            r.spec_get() == value@,
            r.spec_span() == span,
    {
        Self { value, span }
    }

    /// Retrieve the raw string value of this name.
    pub fn get(&self) -> (r: &'a str)
        ensures
            r@ == self.spec_get(),
    {
        self.value
    }
}

impl Spanned for Name<'_> {
    closed spec fn spec_span(&self) -> Span {
        self.span
    }

    fn span(&self) -> (r: Span) {
        self.span
    }
}

/// Single [`Comment`] line, which additional tracks the location in the schema.
#[derive(Clone, Debug, PartialEq, Eq)]
pub struct CommentLine<'a> {
    /// Raw string value.
    pub value: &'a str,
    /// Source code location (including the leading `/// ` marker).
    pub span: Span,
}

impl<'a> CommentLine<'a> {
    /// Create a comment line with its location.
    pub fn new(value: &'a str, span: Span) -> (r: Self)
        ensures
            r.value == value,
            r.spec_span() == span,
    {
        Self { value, span }
    }

    /// Retrieve the raw string value of this comment line.
    pub fn get(&self) -> (r: &'a str)
        ensures
            r == self.value,
    {
        self.value
    }
}

impl Spanned for CommentLine<'_> {
    closed spec fn spec_span(&self) -> Span {
        self.span
    }

    fn span(&self) -> (r: Span) {
        self.span
    }
}

/// Comments above any other element.
///
/// ```txt
/// /// This is a comment.
///     ┬─────────────────
///     ╰─── Content
/// ```
#[derive(Clone, Debug, PartialEq, Eq)]
pub struct Comment<'a>(pub Vec<CommentLine<'a>>);

impl<'a> Comment<'a> {
    /// An empty comment.
    pub fn empty() -> (r: Self)
        ensures
            r.0@.len() == 0,
    {
        Self(Vec::new())
    }
}

/// Container of generic arguments for an element.
///
/// ```txt
/// <A, B, ...>
/// ```
#[derive(Clone, Debug, PartialEq, Eq)]
pub struct Generics<'a> {
    /// Angles `<`...`>` to delimit the generic type parameters.
    pub angle: token::Angle,
    /// The generic types, separated by commas `,`.
    pub types: Punctuated<Name<'a>>,
}

/// The data type which describes the shape of a field through its `value`, and additionally
/// carries the source span for it.
#[derive(Debug, PartialEq, Eq)]
pub struct Type<'a> {
    /// Possible data type of the field.
    pub value: DataType<'a>,
    /// Source code location.
    pub span: Span,
}

impl<'a> Type<'a> {
    /// Create a type with its location.
    pub fn new(value: DataType<'a>, span: Span) -> (r: Self)
        ensures
            r.value == value,
            r.spec_span() == span,
    {
        Self { value, span }
    }
}

impl Spanned for Type<'_> {
    closed spec fn spec_span(&self) -> Span {
        self.span
    }

    fn span(&self) -> (r: Span) {
        self.span
    }
}

/// Possible data type that describes the shape of a field.
#[derive(Debug, PartialEq, Eq)]
pub enum DataType<'a> {
    /// Boolean `true` or `false`.
    Bool,
    /// 8-bit unsigned integer.
    U8,
    /// 16-bit unsigned integer.
    U16,
    /// 32-bit unsigned integer.
    U32,
    /// 64-bit unsigned integer.
    U64,
    /// 128-bit unsigned integer.
    U128,
    /// 8-bit signed integer.
    I8,
    /// 16-bit signed integer.
    I16,
    /// 32-bit signed integer.
    I32,
    /// 64-bit signed integer.
    I64,
    /// 128-bit signed integer.
    I128,
    /// 32-bit floating point number.
    F32,
    /// 64-bit floating point number.
    F64,
    /// UTF-8 encoded string.
    String,
    /// Reference version of an UTF-8 encoded string.
    StringRef,
    /// Vector of `u8` bytes.
    Bytes,
    /// Reference version (slice) of `u8` bytes.
    BytesRef,
    /// Vector of another data type.
    Vec {
        /// Source code location of the `vec` type name.
        span: Span,
        /// Angles `<`...`>` that delimit the type parameter.
        angle: token::Angle,
        /// Type parameter.
        ty: Box<Type<'a>>,
    },
    /// Key-value hash map of data types.
    HashMap {
        /// Source code location of the `hash_map` type name.
        span: Span,
        /// Angles `<`...`>` that delimit the type parameters.
        angle: token::Angle,
        /// First type parameter.
        key: Box<Type<'a>>,
        /// Separator between first and second type parameter.
        comma: token::Comma,
        /// Second type parameter.
        value: Box<Type<'a>>,
    },
    /// Hash set of data types (each entry is unique).
    HashSet {
        /// Source code location of the `hash_set` type name.
        span: Span,
        /// Angles `<`...`>` that delimit the type parameter.
        angle: token::Angle,
        /// Type parameter.
        ty: Box<Type<'a>>,
    },
    /// Optional value.
    Option {
        /// Source code location of the `option` type name.
        span: Span,
        /// Angles `<`...`>` that delimit the type parameter.
        angle: token::Angle,
        /// Type parameter.
        ty: Box<Type<'a>>,
    },
    /// Non-zero value.
    /// - Integers: `n > 0`
    /// - Collections: `len() > 0`
    NonZero {
        /// Source code location of the `non_zero` type name.
        span: Span,
        /// Angles `<`...`>` that delimit the type parameter.
        angle: token::Angle,
        /// Type parameter.
        ty: Box<Type<'a>>,
    },
    /// Boxed version of a string that is immutable.
    BoxString,
    /// Boxed version of a byte vector that is immutable.
    BoxBytes,
    /// Fixed size list of up to 12 types.
    Tuple {
        /// Parenthesis `(`...`)` that delimits the tuple.
        paren: token::Parenthesis,
        /// List of types that make up the tuple.
        types: Punctuated<Type<'a>>,
    },
    /// Continuous list of values with a single time and known length.
    Array {
        /// Brackets `[`...`]` that delimit the array.
        bracket: token::Bracket,
        /// The singular repeated type.
        ty: Box<Type<'a>>,
        /// Separator between type and array size.
        semicolon: token::Semicolon,
        /// Size, as in count of elements.
        size: u32,
    },
    /// Any external, non-standard data type (like a user defined struct or enum).
    External(ExternalType<'a>),
}

/// Type that is not part of the built-in list of types.
///
/// This is usually a user-defined type like a struct or an enum. However, this can be the name of
/// a generic as well, as the type's origin is unknown at this point.
#[derive(Debug, PartialEq, Eq)]
pub struct ExternalType<'a> {
    /// Optional path, if the type wasn't fully imported with a `use` statement.
    pub path: Vec<(Name<'a>, token::DoubleColon)>,
    /// Unique name of the type within the current scope (or the module if prefixed with a path).
    pub name: Name<'a>,
    /// Angles `<`...`>` to delimit the generic type parameters.
    pub angle: Option<token::Angle>,
    /// Potential generic type arguments.
    pub generics: Option<Punctuated<Type<'a>>>,
}

/// Single named field.
///
/// ```txt
/// field: u32 @1
/// ┬────  ┬── ┬─
/// │      │   ╰─── ID
/// │      ╰─────── Type
/// ╰────────────── Name
/// ```
#[derive(Debug, PartialEq, Eq)]
pub struct NamedField<'a> {
    /// Optional field-level comment.
    pub comment: Comment<'a>,
    /// Unique name for this field, within the current element.
    pub name: Name<'a>,
    /// Colon to separate the field name from the type.
    pub colon: token::Colon,
    /// Data type that defines the shape of the contained data.
    pub ty: Type<'a>,
    /// Identifier for this field, that must be unique within the current element.
    pub id: Option<Id>,
    /// Source code location.
    pub span: Span,
}

impl<'a> NamedField<'a> {
    /// Create a named field with its location.
    pub fn new(
        comment: Comment<'a>,
        name: Name<'a>,
        colon: token::Colon,
        ty: Type<'a>,
        id: Option<Id>,
        span: Span,
    ) -> (r: Self)
        ensures
            r.comment == comment,
            r.name == name,
            r.colon == colon,
            r.ty == ty,
            r.id == id,
            r.spec_span() == span,
    {
        Self { comment, name, colon, ty, id, span }
    }
}

impl Spanned for NamedField<'_> {
    closed spec fn spec_span(&self) -> Span {
        self.span
    }

    fn span(&self) -> (r: Span) {
        self.span
    }
}

/// Single unnamed field.
///
/// ```txt
/// u32 @1
/// ┬── ┬─
/// │   ╰─── ID
/// ╰─────── Type
/// ```
#[derive(Debug, PartialEq, Eq)]
pub struct UnnamedField<'a> {
    /// Data type that defines the shape of the contained data.
    pub ty: Type<'a>,
    /// Identifier for this field, that must be unique within the current element.
    pub id: Option<Id>,
    /// Source code location.
    pub span: Span,
}

impl<'a> UnnamedField<'a> {
    /// Create an unnamed field with its location.
    pub fn new(ty: Type<'a>, id: Option<Id>, span: Span) -> (r: Self)
        ensures
            r.ty == ty,
            r.id == id,
            r.spec_span() == span,
    {
        Self { ty, id, span }
    }
}

impl Spanned for UnnamedField<'_> {
    closed spec fn spec_span(&self) -> Span {
        self.span
    }

    fn span(&self) -> (r: Span) {
        self.span
    }
}

/// Possible kinds in which the fields of a struct or enum variant can be represented.
#[derive(Debug, PartialEq, Eq)]
pub enum Fields<'a> {
    /// List of named fields.
    ///
    /// ```txt
    /// Sample {
    ///     a: u8 @1,
    ///     b: bool @2,
    ///     c: i32 @3,
    /// }
    /// ```
    Named(token::Brace, Punctuated<NamedField<'a>>),
    /// List of types without an explicit name.
    ///
    /// ```txt
    /// Sample(u8 @1, bool @2, i32 @3)
    /// ```
    Unnamed(token::Parenthesis, Punctuated<UnnamedField<'a>>),
    /// No attached value.
    ///
    /// ```txt
    /// Sample
    /// ```
    Unit,
}

/// Single variant of an enum.
#[derive(Debug, PartialEq, Eq)]
pub struct Variant<'a> {
    /// Optional variant-level comment.
    pub comment: Comment<'a>,
    /// Unique for this variant, within the enum it belongs to.
    pub name: Name<'a>,
    /// Fields of this variant, if any.
    pub fields: Fields<'a>,
    /// Identifier for this variant, that must be unique within the current enum.
    pub id: Option<Id>,
    /// Source code location.
    pub span: Span,
}

impl<'a> Variant<'a> {
    /// Create an enum variant with its location.
    pub fn new(
        comment: Comment<'a>,
        name: Name<'a>,
        fields: Fields<'a>,
        id: Option<Id>,
        span: Span,
    ) -> (r: Self)
        ensures
            r.comment == comment,
            r.name == name,
            r.fields == fields,
            r.id == id,
            r.spec_span() == span,
    {
        Self { comment, name, fields, id, span }
    }
}

impl Spanned for Variant<'_> {
    closed spec fn spec_span(&self) -> Span {
        self.span
    }

    fn span(&self) -> (r: Span) {
        self.span
    }
}

/// Alias (re-name) from one type to another.
///
/// ```txt
/// /// Basic
/// type A = B;
///
/// /// With generics
/// type A<T> = hash_map<u32, T>;
/// ```
#[derive(Debug, PartialEq, Eq)]
pub struct TypeAlias<'a> {
    /// Optional element-level comment.
    pub comment: Comment<'a>,
    /// The `type` keyword to mark the type alias declaration.
    pub keyword: token::Type,
    /// Unique name of the type alias within the current scope.
    pub name: Name<'a>,
    /// Potential generic type arguments.
    pub generics: Option<Generics<'a>>,
    /// Equal operator that assigns the target type.
    pub equal: token::Equal,
    /// Original type that is being aliased.
    pub target: Type<'a>,
    /// Trailing semicolon to complete the definition.
    pub semicolon: token::Semicolon,
}

/// Import declaration for an external schema.
#[derive(Clone, Debug, PartialEq, Eq)]
pub struct Import<'a> {
    /// The `use` keyword to mark the import declaration.
    pub keyword: token::Use,
    /// Full import path as it was found in the original schema file.
    pub full: Name<'a>,
    /// Individual elements that form the import path.
    pub segments: Vec<Name<'a>>,
    /// Optional final element that allows to fully import the type, making it look as it would be
    /// defined in the current schema.
    pub element: Option<(token::DoubleColon, Name<'a>)>,
    /// Trailing semicolon to complete the definition.
    pub semicolon: token::Semicolon,
}


/// Uppermost element, describing a single Mabo Schema file.
#[derive(Debug, PartialEq)]
pub struct Schema<'a> {
    /// Original source code form which this schema was parsed.
    pub source: &'a str,
    /// Optional schema-level comment.
    pub comment: Comment<'a>,
    /// List of all the definitions that make up the schema.
    pub definitions: Vec<Definition<'a>>,
}

/// Possible elements that can appear inside a [`Schema`] or [`Module`].
#[derive(Debug, PartialEq)]
pub enum Definition<'a> {
    /// Module declaration to organize other definitions into scopes.
    Module(Module<'a>),
    /// Data structure.
    Struct(Struct<'a>),
    /// Enum definition.
    Enum(Enum<'a>),
    /// Type aliasing definition.
    TypeAlias(TypeAlias<'a>),
    /// Const value declaration.
    Const(Const<'a>),
    /// Import declaration of other schemas.
    Import(Import<'a>),
}

impl<'a> Definition<'a> {
    /// The definition with the given comment; an import, which carries none, stays as it is.
    pub fn with_comment(self, comment: Comment<'a>) -> (r: Self)
        ensures
            r == (match self {
                Definition::Module(m) => Definition::Module(Module { comment, ..m }),
                Definition::Struct(s) => Definition::Struct(Struct { comment, ..s }),
                Definition::Enum(e) => Definition::Enum(Enum { comment, ..e }),
                Definition::TypeAlias(a) => Definition::TypeAlias(TypeAlias { comment, ..a }),
                Definition::Const(c) => Definition::Const(Const { comment, ..c }),
                Definition::Import(i) => Definition::Import(i),
            }),
    {
        match self {
            Definition::Module(m) => Definition::Module(Module { comment, ..m }),
            Definition::Struct(s) => Definition::Struct(Struct { comment, ..s }),
            Definition::Enum(e) => Definition::Enum(Enum { comment, ..e }),
            Definition::TypeAlias(a) => Definition::TypeAlias(TypeAlias { comment, ..a }),
            Definition::Const(c) => Definition::Const(Const { comment, ..c }),
            Definition::Import(i) => Definition::Import(i),
        }
    }

    /// The definition with the given attributes; only structs and enums carry them, the others
    /// stay as they are.
    pub fn with_attributes(self, attributes: Attributes<'a>) -> (r: Self)
        ensures
            r == (match self {
                Definition::Struct(s) => Definition::Struct(Struct { attributes, ..s }),
                Definition::Enum(e) => Definition::Enum(Enum { attributes, ..e }),
                other => other,
            }),
    {
        match self {
            Definition::Struct(s) => Definition::Struct(Struct { attributes, ..s }),
            Definition::Enum(e) => Definition::Enum(Enum { attributes, ..e }),
            other => other,
        }
    }
}

/// Scoping mechanism to categorize elements.
///
/// ```txt
/// mod my_mod {
///     struct Sample(u32 @1)
/// }
/// ```
#[derive(Debug, PartialEq)]
pub struct Module<'a> {
    /// Optional module-level comment.
    pub comment: Comment<'a>,
    /// The `mod` keyword to mark the module declaration.
    pub keyword: token::Mod,
    /// Unique name of the module, within the current scope.
    pub name: Name<'a>,
    /// Braces `{`...`}` around the contained definitions.
    pub brace: token::Brace,
    /// List of definitions that are scoped within this module.
    pub definitions: Vec<Definition<'a>>,
}

/// Rust-ish struct.
///
/// ```txt
/// /// Named
/// struct Sample {
///     value: u32 @1,
/// }
///
/// /// Unnamed
/// struct Sample(u32 @1)
///
/// /// Unit
/// struct Sample
/// ```
#[derive(Debug, PartialEq)]
pub struct Struct<'a> {
    /// Optional struct-level comment.
    pub comment: Comment<'a>,
    /// Optional attributes to customize the behavior.
    pub attributes: Attributes<'a>,
    /// The `struct` keyword to mark the struct declaration.
    pub keyword: token::Struct,
    /// Unique name for this struct (within its scope).
    pub name: Name<'a>,
    /// Potential generics.
    pub generics: Option<Generics<'a>>,
    /// Fields of the struct, if any.
    pub fields: Fields<'a>,
}

/// Rust-ish enum.
///
/// ```txt
/// /// Optional comment
/// enum Sample {
///     /// Unit variant
///     One @1,
///     /// Unnamed (tuple) variant
///     Two(u8 @1) @2,
///     /// Named (struct) variant
///     Three {
///         value: u8 @1,
///     } @3,
/// }
/// ```
#[derive(Debug, PartialEq)]
pub struct Enum<'a> {
    /// Optional enum-level comment.
    pub comment: Comment<'a>,
    /// Optional attributes to customize the behavior.
    pub attributes: Attributes<'a>,
    /// The `enum` keyword to mark the enum declaration.
    pub keyword: token::Enum,
    /// Unique name for this enum, within its current scope.
    pub name: Name<'a>,
    /// Potential generics.
    pub generics: Option<Generics<'a>>,
    /// Braces `{`...`}` around the variants.
    pub brace: token::Brace,
    /// List of possible variants that the enum can represent.
    pub variants: Punctuated<Variant<'a>>,
}

/// Collection of attributes, aggregated together into a single declaration block.
#[derive(Debug, PartialEq)]
pub struct Attributes<'a>(pub Vec<Attribute<'a>>);

/// Single attribute, that describes metadata for the attached element.
#[derive(Debug, PartialEq)]
pub struct Attribute<'a> {
    /// Identifier of the attribute.
    pub name: &'a str,
    /// Potential value(s) associated with the attribute.
    pub value: AttributeValue<'a>,
}

/// Value of an [`Attribute`] that can take one of several shapes.
#[derive(Debug, PartialEq)]
pub enum AttributeValue<'a> {
    /// No value, the attribute is representative by itself.
    Unit,
    /// Single literal value.
    Single(Literal),
    /// Multiple values, represented as sub-attributes.
    Multi(Vec<Attribute<'a>>),
}

/// Declaration of a constant value.
#[derive(Debug, PartialEq)]
pub struct Const<'a> {
    /// Optional element-level comment.
    pub comment: Comment<'a>,
    /// The `const` keyword to mark the constant declaration.
    pub keyword: token::Const,
    /// Unique identifier of this constant.
    pub name: Name<'a>,
    /// Colon to separate the const name from the type.
    pub colon: token::Colon,
    /// Type of the value.
    pub ty: Type<'a>,
    /// Equal operator that assigns the literal value.
    pub equal: token::Equal,
    /// Literal value that this declaration represents.
    pub value: Literal,
    /// Trailing semicolon to complete the definition.
    pub semicolon: token::Semicolon,
}

/// In-schema definition of a literal value, together with a span into the schema to mark where it
/// is defined.
#[derive(Debug, PartialEq)]
pub struct Literal {
    /// The raw literal value.
    pub value: LiteralValue,
    /// Source code location.
    pub span: Span,
}

/// Raw value of a [`Literal`].
#[derive(Debug, PartialEq)]
pub enum LiteralValue {
    /// Boolean `true` or `false` value.
    Bool(bool),
    /// Integer number.
    Int(i128),
    /// Floating point number: the bits of its IEEE 754 double precision form, and the text that
    /// displays it (the shortest decimal form that reads back as the same number).
    Float {
        /// Bits of the IEEE 754 double precision form.
        bits: u64,
        /// Display form of the number.
        text: String,
    },
    /// UTF-8 encoded string.
    String(String),
    /// Raw vector of bytes.
    Bytes(Vec<u8>),
}

impl Spanned for Literal {
    open spec fn spec_span(&self) -> Span {
        self.span
    }

    fn span(&self) -> (r: Span) {
        self.span
    }
}

} // verus!
