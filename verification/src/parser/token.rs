//! Tokens of the Mabo schema language that represent keywords, punctuation and delimiters.

use super::{Span, Spanned};
use vstd::prelude::*;

verus! {

/// A textual element that is used to separate repeated elements in the schema, or act as a form of
/// prefix.
pub trait Punctuation {
    /// String that makes up the punctuation element.
    spec fn spec_value() -> Seq<char>;

    /// String that makes up the punctuation element.
    fn value() -> (s: &'static str)
        ensures
            s@ == Self::spec_value(),
    ;
}

/// Delimiters surround other elements with an opening and closing character.
pub trait Delimiter {
    /// Opening character of the delimiter.
    spec fn spec_open_char() -> char;

    /// Closing character of the delimiter.
    spec fn spec_close_char() -> char;

    /// Opening character of the delimiter.
    fn open_char() -> (c: char)
        ensures
            c == Self::spec_open_char(),
    ;

    /// Closing character of the delimiter.
    fn close_char() -> (c: char)
        ensures
            c == Self::spec_close_char(),
    ;

    /// Location of the opening token.
    spec fn spec_open(&self) -> Span;

    /// Location of the closing token.
    spec fn spec_close(&self) -> Span;

    /// Get the location of the opening token.
    fn open(&self) -> (r: Span)
        ensures
            r == self.spec_open(),
    ;

    /// Get the location of the closing token.
    fn close(&self) -> (r: Span)
        ensures
            r == self.spec_close(),
    ;

    /// Get a combined span that goes from the open to the close token.
    fn range(&self) -> (r: Span)
        ensures
            r.start == self.spec_open().start,
            r.end == self.spec_close().end,
    ;
}

/// The `mod` keyword.
#[derive(Clone, Copy, Debug, PartialEq, Eq)]
pub struct Mod {
    span: Span,
}

impl Mod {
    /// Create the keyword token at the given location.
    pub fn new(span: Span) -> (r: Self)
        ensures
            r.spec_span() == span,
    {
        Self { span }
    }

    /// Literal raw name of this keyword.
    pub fn name() -> (s: &'static str)
        ensures
            s@ == "mod"@,
    {
        "mod"
    }
}

impl Spanned for Mod {
    closed spec fn spec_span(&self) -> Span {
        self.span
    }

    fn span(&self) -> (r: Span) {
        self.span
    }
}

/// The `struct` keyword.
#[derive(Clone, Copy, Debug, PartialEq, Eq)]
pub struct Struct {
    span: Span,
}

impl Struct {
    /// Create the keyword token at the given location.
    pub fn new(span: Span) -> (r: Self)
        ensures
            r.spec_span() == span,
    {
        Self { span }
    }

    /// Literal raw name of this keyword.
    pub fn name() -> (s: &'static str)
        ensures
            s@ == "struct"@,
    {
        "struct"
    }
}

impl Spanned for Struct {
    closed spec fn spec_span(&self) -> Span {
        self.span
    }

    fn span(&self) -> (r: Span) {
        self.span
    }
}

/// The `enum` keyword.
#[derive(Clone, Copy, Debug, PartialEq, Eq)]
pub struct Enum {
    span: Span,
}

impl Enum {
    /// Create the keyword token at the given location.
    pub fn new(span: Span) -> (r: Self)
        ensures
            r.spec_span() == span,
    {
        Self { span }
    }

    /// Literal raw name of this keyword.
    pub fn name() -> (s: &'static str)
        ensures
            s@ == "enum"@,
    {
        "enum"
    }
}

impl Spanned for Enum {
    closed spec fn spec_span(&self) -> Span {
        self.span
    }

    fn span(&self) -> (r: Span) {
        self.span
    }
}

/// The `const` keyword.
#[derive(Clone, Copy, Debug, PartialEq, Eq)]
pub struct Const {
    span: Span,
}

impl Const {
    /// Create the keyword token at the given location.
    pub fn new(span: Span) -> (r: Self)
        ensures
            r.spec_span() == span,
    {
        Self { span }
    }

    /// Literal raw name of this keyword.
    pub fn name() -> (s: &'static str)
        ensures
            s@ == "const"@,
    {
        "const"
    }
}

impl Spanned for Const {
    closed spec fn spec_span(&self) -> Span {
        self.span
    }

    fn span(&self) -> (r: Span) {
        self.span
    }
}

/// The `type` keyword.
#[derive(Clone, Copy, Debug, PartialEq, Eq)]
pub struct Type {
    span: Span,
}

impl Type {
    /// Create the keyword token at the given location.
    pub fn new(span: Span) -> (r: Self)
        ensures
            r.spec_span() == span,
    {
        Self { span }
    }

    /// Literal raw name of this keyword.
    pub fn name() -> (s: &'static str)
        ensures
            s@ == "type"@,
    {
        "type"
    }
}

impl Spanned for Type {
    closed spec fn spec_span(&self) -> Span {
        self.span
    }

    fn span(&self) -> (r: Span) {
        self.span
    }
}

/// The `use` keyword.
#[derive(Clone, Copy, Debug, PartialEq, Eq)]
pub struct Use {
    span: Span,
}

impl Use {
    /// Create the keyword token at the given location.
    pub fn new(span: Span) -> (r: Self)
        ensures
            r.spec_span() == span,
    {
        Self { span }
    }

    /// Literal raw name of this keyword.
    pub fn name() -> (s: &'static str)
        ensures
            s@ == "use"@,
    {
        "use"
    }
}

impl Spanned for Use {
    closed spec fn spec_span(&self) -> Span {
        self.span
    }

    fn span(&self) -> (r: Span) {
        self.span
    }
}

/// Comma `,` separator, usually used to separate fields or enum variants.
#[derive(Clone, Copy, Debug, PartialEq, Eq)]
pub struct Comma {
    span: Span,
}

impl Comma {
    /// Create the punctuation token at the given location.
    pub fn new(span: Span) -> (r: Self)
        ensures
            r.spec_span() == span,
    {
        Self { span }
    }
}

impl Default for Comma {
    fn default() -> (r: Self)
        ensures
            r.spec_span() == (Span { start: 0, end: 0 }),
    {
        Self { span: Span { start: 0, end: 0 } }
    }
}

impl Spanned for Comma {
    closed spec fn spec_span(&self) -> Span {
        self.span
    }

    fn span(&self) -> (r: Span) {
        self.span
    }
}

impl Punctuation for Comma {
    open spec fn spec_value() -> Seq<char> {
        ","@
    }

    fn value() -> (s: &'static str) {
        ","
    }
}

/// Colon `:` separator, as separator between field names and their type.
#[derive(Clone, Copy, Debug, PartialEq, Eq)]
pub struct Colon {
    span: Span,
}

impl Colon {
    /// Create the punctuation token at the given location.
    pub fn new(span: Span) -> (r: Self)
        ensures
            r.spec_span() == span,
    {
        Self { span }
    }
}

impl Default for Colon {
    fn default() -> (r: Self)
        ensures
            r.spec_span() == (Span { start: 0, end: 0 }),
    {
        Self { span: Span { start: 0, end: 0 } }
    }
}

impl Spanned for Colon {
    closed spec fn spec_span(&self) -> Span {
        self.span
    }

    fn span(&self) -> (r: Span) {
        self.span
    }
}

impl Punctuation for Colon {
    open spec fn spec_value() -> Seq<char> {
        ":"@
    }

    fn value() -> (s: &'static str) {
        ":"
    }
}

/// Semicolon `;` separator, as terminator for type aliases.
#[derive(Clone, Copy, Debug, PartialEq, Eq)]
pub struct Semicolon {
    span: Span,
}

impl Semicolon {
    /// Create the punctuation token at the given location.
    pub fn new(span: Span) -> (r: Self)
        ensures
            r.spec_span() == span,
    {
        Self { span }
    }
}

impl Default for Semicolon {
    fn default() -> (r: Self)
        ensures
            r.spec_span() == (Span { start: 0, end: 0 }),
    {
        Self { span: Span { start: 0, end: 0 } }
    }
}

impl Spanned for Semicolon {
    closed spec fn spec_span(&self) -> Span {
        self.span
    }

    fn span(&self) -> (r: Span) {
        self.span
    }
}

impl Punctuation for Semicolon {
    open spec fn spec_value() -> Seq<char> {
        ";"@
    }

    fn value() -> (s: &'static str) {
        ";"
    }
}

/// Pound `#` punctuation, as start for an attribute block.
#[derive(Clone, Copy, Debug, PartialEq, Eq)]
pub struct Pound {
    span: Span,
}

impl Pound {
    /// Create the punctuation token at the given location.
    pub fn new(span: Span) -> (r: Self)
        ensures
            r.spec_span() == span,
    {
        Self { span }
    }
}

impl Default for Pound {
    fn default() -> (r: Self)
        ensures
            r.spec_span() == (Span { start: 0, end: 0 }),
    {
        Self { span: Span { start: 0, end: 0 } }
    }
}

impl Spanned for Pound {
    closed spec fn spec_span(&self) -> Span {
        self.span
    }

    fn span(&self) -> (r: Span) {
        self.span
    }
}

impl Punctuation for Pound {
    open spec fn spec_value() -> Seq<char> {
        "#"@
    }

    fn value() -> (s: &'static str) {
        "#"
    }
}

/// Double colon `::` separator, as path separator for type paths.
#[derive(Clone, Copy, Debug, PartialEq, Eq)]
pub struct DoubleColon {
    span: Span,
}

impl DoubleColon {
    /// Create the punctuation token at the given location.
    pub fn new(span: Span) -> (r: Self)
        ensures
            r.spec_span() == span,
    {
        Self { span }
    }
}

impl Default for DoubleColon {
    fn default() -> (r: Self)
        ensures
            r.spec_span() == (Span { start: 0, end: 0 }),
    {
        Self { span: Span { start: 0, end: 0 } }
    }
}

impl Spanned for DoubleColon {
    closed spec fn spec_span(&self) -> Span {
        self.span
    }

    fn span(&self) -> (r: Span) {
        self.span
    }
}

impl Punctuation for DoubleColon {
    open spec fn spec_value() -> Seq<char> {
        "::"@
    }

    fn value() -> (s: &'static str) {
        "::"
    }
}

/// Equal sign `=` separator, used in type aliases.
#[derive(Clone, Copy, Debug, PartialEq, Eq)]
pub struct Equal {
    span: Span,
}

impl Equal {
    /// Create the punctuation token at the given location.
    pub fn new(span: Span) -> (r: Self)
        ensures
            r.spec_span() == span,
    {
        Self { span }
    }
}

impl Default for Equal {
    fn default() -> (r: Self)
        ensures
            r.spec_span() == (Span { start: 0, end: 0 }),
    {
        Self { span: Span { start: 0, end: 0 } }
    }
}

impl Spanned for Equal {
    closed spec fn spec_span(&self) -> Span {
        self.span
    }

    fn span(&self) -> (r: Span) {
        self.span
    }
}

impl Punctuation for Equal {
    open spec fn spec_value() -> Seq<char> {
        "="@
    }

    fn value() -> (s: &'static str) {
        "="
    }
}

/// Braces `{`...`}`, to surround module content and named fields.
#[derive(Clone, Copy, Debug, PartialEq, Eq)]
pub struct Brace {
    open: Span,
    close: Span,
}

impl Brace {
    /// Create the delimiter pair at the given locations.
    pub fn new(open: Span, close: Span) -> (r: Self)
        ensures
            r.spec_open() == open,
            r.spec_close() == close,
    {
        Self { open, close }
    }
}

impl Default for Brace {
    fn default() -> (r: Self)
        ensures
            r.spec_open() == (Span { start: 0, end: 0 }),
            r.spec_close() == (Span { start: 0, end: 0 }),
    {
        Self { open: Span { start: 0, end: 0 }, close: Span { start: 0, end: 0 } }
    }
}

impl Delimiter for Brace {
    open spec fn spec_open_char() -> char {
        '{'
    }

    open spec fn spec_close_char() -> char {
        '}'
    }

    fn open_char() -> (c: char) {
        '{'
    }

    fn close_char() -> (c: char) {
        '}'
    }

    closed spec fn spec_open(&self) -> Span {
        self.open
    }

    closed spec fn spec_close(&self) -> Span {
        self.close
    }

    fn open(&self) -> (r: Span) {
        self.open
    }

    fn close(&self) -> (r: Span) {
        self.close
    }

    fn range(&self) -> (r: Span) {
        Span { start: self.open.start, end: self.close.end }
    }
}

/// Brackets `[`...`]`, to surround byte array literals.
#[derive(Clone, Copy, Debug, PartialEq, Eq)]
pub struct Bracket {
    open: Span,
    close: Span,
}

impl Bracket {
    /// Create the delimiter pair at the given locations.
    pub fn new(open: Span, close: Span) -> (r: Self)
        ensures
            r.spec_open() == open,
            r.spec_close() == close,
    {
        Self { open, close }
    }
}

impl Default for Bracket {
    fn default() -> (r: Self)
        ensures
            r.spec_open() == (Span { start: 0, end: 0 }),
            r.spec_close() == (Span { start: 0, end: 0 }),
    {
        Self { open: Span { start: 0, end: 0 }, close: Span { start: 0, end: 0 } }
    }
}

impl Delimiter for Bracket {
    open spec fn spec_open_char() -> char {
        '['
    }

    open spec fn spec_close_char() -> char {
        ']'
    }

    fn open_char() -> (c: char) {
        '['
    }

    fn close_char() -> (c: char) {
        ']'
    }

    closed spec fn spec_open(&self) -> Span {
        self.open
    }

    closed spec fn spec_close(&self) -> Span {
        self.close
    }

    fn open(&self) -> (r: Span) {
        self.open
    }

    fn close(&self) -> (r: Span) {
        self.close
    }

    fn range(&self) -> (r: Span) {
        Span { start: self.open.start, end: self.close.end }
    }
}

/// Parenthesis `(`...`)`, to surround unnamed fields and tuples.
#[derive(Clone, Copy, Debug, PartialEq, Eq)]
pub struct Parenthesis {
    open: Span,
    close: Span,
}

impl Parenthesis {
    /// Create the delimiter pair at the given locations.
    pub fn new(open: Span, close: Span) -> (r: Self)
        ensures
            r.spec_open() == open,
            r.spec_close() == close,
    {
        Self { open, close }
    }
}

impl Default for Parenthesis {
    fn default() -> (r: Self)
        ensures
            r.spec_open() == (Span { start: 0, end: 0 }),
            r.spec_close() == (Span { start: 0, end: 0 }),
    {
        Self { open: Span { start: 0, end: 0 }, close: Span { start: 0, end: 0 } }
    }
}

impl Delimiter for Parenthesis {
    open spec fn spec_open_char() -> char {
        '('
    }

    open spec fn spec_close_char() -> char {
        ')'
    }

    fn open_char() -> (c: char) {
        '('
    }

    fn close_char() -> (c: char) {
        ')'
    }

    closed spec fn spec_open(&self) -> Span {
        self.open
    }

    closed spec fn spec_close(&self) -> Span {
        self.close
    }

    fn open(&self) -> (r: Span) {
        self.open
    }

    fn close(&self) -> (r: Span) {
        self.close
    }

    fn range(&self) -> (r: Span) {
        Span { start: self.open.start, end: self.close.end }
    }
}

/// Angles `<`...`>`, to surround generics.
#[derive(Clone, Copy, Debug, PartialEq, Eq)]
pub struct Angle {
    open: Span,
    close: Span,
}

impl Angle {
    /// Create the delimiter pair at the given locations.
    pub fn new(open: Span, close: Span) -> (r: Self)
        ensures
            r.spec_open() == open,
            r.spec_close() == close,
    {
        Self { open, close }
    }
}

impl Default for Angle {
    fn default() -> (r: Self)
        ensures
            r.spec_open() == (Span { start: 0, end: 0 }),
            r.spec_close() == (Span { start: 0, end: 0 }),
    {
        Self { open: Span { start: 0, end: 0 }, close: Span { start: 0, end: 0 } }
    }
}

impl Delimiter for Angle {
    open spec fn spec_open_char() -> char {
        '<'
    }

    open spec fn spec_close_char() -> char {
        '>'
    }

    fn open_char() -> (c: char) {
        '<'
    }

    fn close_char() -> (c: char) {
        '>'
    }

    closed spec fn spec_open(&self) -> Span {
        self.open
    }

    closed spec fn spec_close(&self) -> Span {
        self.close
    }

    fn open(&self) -> (r: Span) {
        self.open
    }

    fn close(&self) -> (r: Span) {
        self.close
    }

    fn range(&self) -> (r: Span) {
        Span { start: self.open.start, end: self.close.end }
    }
}

} // verus!
