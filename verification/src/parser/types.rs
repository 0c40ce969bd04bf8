//! Parsing of data types, as written in schema files.
//!
//! The grammar is stated twice: once as spec functions over the characters of the input, which
//! say what the parser answers at each position (a type and where it ends, a recoverable failure
//! that lets the caller try something else, or a fatal one), and once as executable code that is
//! proved to answer exactly that.

use super::print::{decimal, digit_text, path_text, type_text, types_text};
use super::punctuated::Punctuated;
use super::token::{self, DoubleColon};
use super::{DataType, ExternalType, Name, Span, Spanned, Type};
use vstd::prelude::*;
use vstd::std_specs::iter::IteratorSpec;

verus! {

// ------------------------------------------------------------------------------------------------
// Shapes: what a data type says, without source locations
// ------------------------------------------------------------------------------------------------

/// A data type without its source locations.
pub enum Shape {
    /// A built-in type without parameters, by its keyword (such as `u32` or `box<string>`).
    Keyword(Seq<char>),
    /// A built-in type with one parameter, by its keyword: `vec`, `hash_set`, `option` or
    /// `non_zero`.
    Wrap(Seq<char>, Box<Shape>),
    /// `hash_map<K, V>`.
    Pair(Box<Shape>, Box<Shape>),
    /// A tuple: its types, each with whether a comma follows it.
    Tuple(Seq<(Shape, bool)>),
    /// An array of a type with a size.
    Array(Box<Shape>, nat),
    /// An external type: module path, name and generic arguments (each with whether a comma
    /// follows it).
    External(Seq<Seq<char>>, Seq<char>, Option<Seq<(Shape, bool)>>),
}

/// The keyword of a built-in type without parameters (empty for the others).
pub open spec fn keyword(value: DataType) -> Seq<char> {
    match value {
        DataType::Bool => "bool"@,
        DataType::U8 => "u8"@,
        DataType::U16 => "u16"@,
        DataType::U32 => "u32"@,
        DataType::U64 => "u64"@,
        DataType::U128 => "u128"@,
        DataType::I8 => "i8"@,
        DataType::I16 => "i16"@,
        DataType::I32 => "i32"@,
        DataType::I64 => "i64"@,
        DataType::I128 => "i128"@,
        DataType::F32 => "f32"@,
        DataType::F64 => "f64"@,
        DataType::String => "string"@,
        DataType::StringRef => "&string"@,
        DataType::Bytes => "bytes"@,
        DataType::BytesRef => "&bytes"@,
        DataType::BoxString => "box<string>"@,
        DataType::BoxBytes => "box<bytes>"@,
        _ => Seq::empty(),
    }
}

/// The names of the segments of a module path.
pub open spec fn segments(path: Seq<(Name, DoubleColon)>) -> Seq<Seq<char>>
    decreases path.len(),
{
    if path.len() == 0 {
        Seq::empty()
    } else {
        segments(path.drop_last()).push(path.last().0.spec_get())
    }
}

/// The shape of a data type.
pub open spec fn shape(ty: Type) -> Shape
    decreases ty, 0nat,
{
    match ty.value {
        DataType::Vec { ty: inner, .. } => Shape::Wrap("vec"@, Box::new(shape(*inner))),
        DataType::HashMap { key, value, .. } => Shape::Pair(
            Box::new(shape(*key)),
            Box::new(shape(*value)),
        ),
        DataType::HashSet { ty: inner, .. } => Shape::Wrap("hash_set"@, Box::new(shape(*inner))),
        DataType::Option { ty: inner, .. } => Shape::Wrap("option"@, Box::new(shape(*inner))),
        DataType::NonZero { ty: inner, .. } => Shape::Wrap("non_zero"@, Box::new(shape(*inner))),
        DataType::Tuple { types, .. } => Shape::Tuple(shapes_from(types, 0)),
        DataType::Array { ty: inner, size, .. } => Shape::Array(
            Box::new(shape(*inner)),
            size as nat,
        ),
        DataType::External(e) => Shape::External(
            segments(e.path@),
            e.name.spec_get(),
            match e.generics {
                Some(g) => Some(shapes_from(g, 0)),
                None => None,
            },
        ),
        _ => Shape::Keyword(keyword(ty.value)),
    }
}

/// The shapes of the types of a list from position `i` on, each with whether a comma follows it.
pub open spec fn shapes_from(types: Punctuated<Type>, i: int) -> Seq<(Shape, bool)>
    decreases types, types.items().len() - i,
{
    if 0 <= i < types.items().len() {
        proof {
            types.lemma_items_decrease();
        }
        seq![(shape(types.items()[i]), types.spec_punct(i))] + shapes_from(types, i + 1)
    } else {
        Seq::empty()
    }
}

// ------------------------------------------------------------------------------------------------
// Characters
// ------------------------------------------------------------------------------------------------

/// A lowercase ASCII letter.
pub open spec fn is_lower(c: char) -> bool {
    'a' <= c <= 'z'
}

/// An uppercase ASCII letter.
pub open spec fn is_upper(c: char) -> bool {
    'A' <= c <= 'Z'
}

/// An ASCII digit.
pub open spec fn is_digit(c: char) -> bool {
    '0' <= c <= '9'
}

/// Whether `c` belongs to the class: 0 keyword characters (`a`-`z`, `0`-`9`, `&`), 1 parameterized
/// type names (`a`-`z`, `_`), 2 module names after their first letter (`a`-`z`, `0`-`9`, `_`),
/// 3 type names after their first letter (ASCII letters, digits, `_`), 4 any whitespace, 5 spaces
/// and tabs, 6 digits, 7 anything but a line break, 8 ASCII letters and digits.
pub open spec fn in_class(class: nat, c: char) -> bool {
    if class == 0 {
        is_lower(c) || is_digit(c) || c == '&'
    } else if class == 1 {
        is_lower(c) || c == '_'
    } else if class == 2 {
        is_lower(c) || is_digit(c) || c == '_'
    } else if class == 3 {
        is_lower(c) || is_upper(c) || is_digit(c) || c == '_'
    } else if class == 4 {
        c == ' ' || c == '\t' || c == '\r' || c == '\n'
    } else if class == 5 {
        c == ' ' || c == '\t'
    } else if class == 6 {
        is_digit(c)
    } else if class == 7 {
        c != '\n'
    } else {
        is_lower(c) || is_upper(c) || is_digit(c)
    }
}

/// Where the longest run of characters of a class starting at `pos` ends.
pub open spec fn run_end(cs: Seq<char>, pos: int, class: nat) -> int
    decreases cs.len() - pos,
{
    if 0 <= pos < cs.len() && in_class(class, cs[pos]) {
        run_end(cs, pos + 1, class)
    } else {
        pos
    }
}

/// Where the whitespace starting at `pos` ends.
pub open spec fn ws_end(cs: Seq<char>, pos: int) -> int {
    run_end(cs, pos, 4)
}

/// Whether `pos` holds the character `c`.
pub open spec fn char_at(cs: Seq<char>, pos: int, c: char) -> bool {
    0 <= pos < cs.len() && cs[pos] == c
}

/// Whether the text at `pos` starts with `word`.
pub open spec fn starts_with(cs: Seq<char>, pos: int, word: Seq<char>) -> bool {
    0 <= pos && pos + word.len() <= cs.len() && cs.subrange(pos, pos + word.len()) == word
}

/// A run ends inside the text, at or after where it starts.
pub proof fn lemma_run_end(cs: Seq<char>, pos: int, class: nat)
    requires
        0 <= pos <= cs.len(),
    ensures
        pos <= run_end(cs, pos, class) <= cs.len(),
        forall|k: int| pos <= k < run_end(cs, pos, class) ==> in_class(class, #[trigger] cs[k]),
        run_end(cs, pos, class) < cs.len() ==> !in_class(class, cs[run_end(cs, pos, class)]),
    decreases cs.len() - pos,
{
    if pos < cs.len() && in_class(class, cs[pos]) {
        lemma_run_end(cs, pos + 1, class);
    }
}

// ------------------------------------------------------------------------------------------------
// The grammar
// ------------------------------------------------------------------------------------------------

/// What a parser answers at a position.
pub enum Parsed<T> {
    /// A value, and the position right after it.
    Done(T, int),
    /// A recoverable failure: the caller may try another alternative.
    Back,
    /// A fatal failure: the text started like this element but is not one.
    Cut,
}

/// The keywords of the built-in types without parameters that are read as one run of keyword
/// characters.
pub open spec fn is_plain_keyword(w: Seq<char>) -> bool {
    ||| w == "bool"@
    ||| w == "u8"@
    ||| w == "u16"@
    ||| w == "u32"@
    ||| w == "u64"@
    ||| w == "u128"@
    ||| w == "i8"@
    ||| w == "i16"@
    ||| w == "i32"@
    ||| w == "i64"@
    ||| w == "i128"@
    ||| w == "f32"@
    ||| w == "f64"@
    ||| w == "string"@
    ||| w == "&string"@
    ||| w == "bytes"@
    ||| w == "&bytes"@
}

/// The keywords of the built-in types with one parameter.
pub open spec fn is_wrap_keyword(w: Seq<char>) -> bool {
    ||| w == "vec"@
    ||| w == "hash_set"@
    ||| w == "option"@
    ||| w == "non_zero"@
}

/// A built-in type without parameters: the longest run of keyword characters (at least two) when
/// it is one of the keywords, else `box<string>` or `box<bytes>`.
pub open spec fn basic_at(cs: Seq<char>, p: int) -> Parsed<Shape> {
    let e = run_end(cs, p, 0);
    if e - p >= 2 && is_plain_keyword(cs.subrange(p, e)) {
        Parsed::Done(Shape::Keyword(cs.subrange(p, e)), e)
    } else if starts_with(cs, p, "box<string>"@) {
        Parsed::Done(Shape::Keyword("box<string>"@), p + "box<string>"@.len())
    } else if starts_with(cs, p, "box<bytes>"@) {
        Parsed::Done(Shape::Keyword("box<bytes>"@), p + "box<bytes>"@.len())
    } else {
        Parsed::Back
    }
}

/// A built-in type with parameters: the longest run of lowercase letters and underscores (at
/// least three) when it is `vec`, `hash_map`, `hash_set`, `option` or `non_zero`; from there on,
/// any failure is fatal. The parameters follow in angles: the first right after `<`, a second one
/// (of `hash_map`) after a comma with spaces or tabs around it, and whitespace may precede `>`.
/// (The check that the second parameter starts after `p` only serves termination: a parsed type
/// always takes up at least one character, see `lemma_type_bounds`.)
pub open spec fn generic_at(cs: Seq<char>, p: int) -> Parsed<Shape>
    decreases cs.len() - p, 0int,
{
    if !(0 <= p <= cs.len()) {
        Parsed::Back
    } else {
        let e = run_end(cs, p, 1);
        let w = cs.subrange(p, e);
        if !(e - p >= 3 && (is_wrap_keyword(w) || w == "hash_map"@)) {
            Parsed::Back
        } else if !char_at(cs, e, '<') {
            Parsed::Cut
        } else {
            proof {
                lemma_run_end(cs, p, 1);
            }
            match type_at(cs, e + 1) {
                Parsed::Done(first, e1) => if w == "hash_map"@ {
                    let e2 = run_end(cs, e1, 5);
                    let e3 = run_end(cs, e2 + 1, 5);
                    if !char_at(cs, e2, ',') || e3 <= p {
                        Parsed::Cut
                    } else {
                        proof {
                            lemma_run_end(cs, e2 + 1, 5);
                        }
                        match type_at(cs, e3) {
                            Parsed::Done(second, e4) => {
                                let e5 = ws_end(cs, e4);
                                if char_at(cs, e5, '>') {
                                    Parsed::Done(
                                        Shape::Pair(Box::new(first), Box::new(second)),
                                        e5 + 1,
                                    )
                                } else {
                                    Parsed::Cut
                                }
                            },
                            _ => Parsed::Cut,
                        }
                    }
                } else {
                    let e2 = ws_end(cs, e1);
                    if char_at(cs, e2, '>') {
                        Parsed::Done(Shape::Wrap(w, Box::new(first)), e2 + 1)
                    } else {
                        Parsed::Cut
                    }
                },
                _ => Parsed::Cut,
            }
        }
    }
}

/// A tuple: `(`, then a list of types, then whitespace and `)`; after `(` any failure is fatal.
pub open spec fn tuple_at(cs: Seq<char>, p: int) -> Parsed<Shape>
    decreases cs.len() - p, 0int,
{
    if !(0 <= p <= cs.len()) || !char_at(cs, p, '(') {
        Parsed::Back
    } else {
        match items_at(cs, p + 1, true) {
            Parsed::Done(items, e) => {
                let c = ws_end(cs, e);
                if char_at(cs, c, ')') {
                    Parsed::Done(Shape::Tuple(items), c + 1)
                } else {
                    Parsed::Cut
                }
            },
            _ => Parsed::Cut,
        }
    }
}

/// The value of a run of decimal digits.
pub open spec fn digits_value(ds: Seq<char>) -> nat
    decreases ds.len(),
{
    if ds.len() == 0 {
        0
    } else {
        digits_value(ds.drop_last()) * 10 + ((ds.last() as nat - '0' as nat) as nat)
    }
}

/// An unsigned 32-bit integer in decimal: `0`, or a nonzero digit followed by more digits, whose
/// value fits in 32 bits. Gives the value and where it ends.
pub open spec fn uint_at(cs: Seq<char>, d: int) -> Option<(nat, int)> {
    if char_at(cs, d, '0') {
        Some((0, d + 1))
    } else if 0 <= d < cs.len() && '1' <= cs[d] <= '9' {
        let e = run_end(cs, d, 6);
        let v = digits_value(cs.subrange(d, e));
        if v <= u32::MAX {
            Some((v, e))
        } else {
            None
        }
    } else {
        None
    }
}

/// An array: `[`, a type, `;`, a size, `]`, with whitespace before each part but the first; after
/// `[` any failure is fatal.
pub open spec fn array_at(cs: Seq<char>, p: int) -> Parsed<Shape>
    decreases cs.len() - p, 0int,
{
    if !(0 <= p <= cs.len()) || !char_at(cs, p, '[') {
        Parsed::Back
    } else {
        proof {
            lemma_run_end(cs, p + 1, 4);
        }
        match type_at(cs, ws_end(cs, p + 1)) {
            Parsed::Done(inner, e) => {
                let c = ws_end(cs, e);
                if !char_at(cs, c, ';') {
                    Parsed::Cut
                } else {
                    match uint_at(cs, ws_end(cs, c + 1)) {
                        Some((size, de)) => {
                            let w = ws_end(cs, de);
                            if char_at(cs, w, ']') {
                                Parsed::Done(Shape::Array(Box::new(inner), size), w + 1)
                            } else {
                                Parsed::Cut
                            }
                        },
                        None => Parsed::Cut,
                    }
                }
            },
            _ => Parsed::Cut,
        }
    }
}

/// The module path in front of an external type name: as many lowercase names (a lowercase letter,
/// then lowercase letters, digits and underscores), each followed by `::`, as there are. Gives the
/// names and where the path ends.
pub open spec fn path_at(cs: Seq<char>, p: int) -> (Seq<Seq<char>>, int)
    decreases cs.len() - p,
{
    if 0 <= p < cs.len() && is_lower(cs[p]) {
        let e = run_end(cs, p + 1, 2);
        if starts_with(cs, e, "::"@) {
            proof {
                lemma_run_end(cs, p + 1, 2);
                reveal_strlit("::");
            }
            let rest = path_at(cs, e + 2);
            (seq![cs.subrange(p, e)] + rest.0, rest.1)
        } else {
            (Seq::empty(), p)
        }
    } else {
        (Seq::empty(), p)
    }
}

/// An external type: a path, a name (an uppercase letter, then letters, digits and
/// underscores) and, if `<` follows, a list of types, whitespace and `>`; after `<` any failure
/// is fatal.
pub open spec fn external_at(cs: Seq<char>, p: int) -> Parsed<Shape>
    decreases cs.len() - p, 0int,
{
    let (path, q) = path_at(cs, p);
    if !(0 <= p <= q < cs.len() && is_upper(cs[q])) {
        Parsed::Back
    } else {
        let ne = run_end(cs, q + 1, 3);
        let name = cs.subrange(q, ne);
        if !char_at(cs, ne, '<') {
            Parsed::Done(Shape::External(path, name, None), ne)
        } else {
            proof {
                lemma_run_end(cs, q + 1, 3);
            }
            match items_at(cs, ne + 1, true) {
                Parsed::Done(items, e) => {
                    let c = ws_end(cs, e);
                    if char_at(cs, c, '>') {
                        Parsed::Done(Shape::External(path, name, Some(items)), c + 1)
                    } else {
                        Parsed::Cut
                    }
                },
                _ => Parsed::Cut,
            }
        }
    }
}

/// A data type at `p`: the first of a built-in type without parameters, one with parameters, a
/// tuple, an array and an external type that does not fail recoverably.
pub open spec fn type_at(cs: Seq<char>, p: int) -> Parsed<Shape>
    decreases cs.len() - p, 1int,
{
    if !(0 <= p <= cs.len()) {
        Parsed::Back
    } else {
        match basic_at(cs, p) {
            Parsed::Back => match generic_at(cs, p) {
                Parsed::Back => match tuple_at(cs, p) {
                    Parsed::Back => match array_at(cs, p) {
                        Parsed::Back => external_at(cs, p),
                        r => r,
                    },
                    r => r,
                },
                r => r,
            },
            r => r,
        }
    }
}

/// A list of types at `q`, as in tuples and generic arguments: each type after optional
/// whitespace, followed by whitespace and a comma, but for the last one, whose comma is optional.
/// A list that is not the first (`first` false) may also be empty. Each type comes with whether a
/// comma follows it. (The check that the comma lies at or after `q` only serves termination; it
/// always holds, see `lemma_type_bounds`.)
pub open spec fn items_at(cs: Seq<char>, q: int, first: bool) -> Parsed<Seq<(Shape, bool)>>
    decreases cs.len() - q, 2int,
{
    if !(0 <= q <= cs.len()) {
        Parsed::Back
    } else {
        proof {
            lemma_run_end(cs, q, 4);
        }
        match type_at(cs, ws_end(cs, q)) {
            Parsed::Cut => Parsed::Cut,
            Parsed::Back => if first {
                Parsed::Back
            } else {
                Parsed::Done(Seq::empty(), q)
            },
            Parsed::Done(item, e) => {
                let c = ws_end(cs, e);
                if !char_at(cs, c, ',') {
                    Parsed::Done(seq![(item, false)], e)
                } else if c + 1 <= q {
                    Parsed::Cut
                } else {
                    match items_at(cs, c + 1, false) {
                        Parsed::Done(rest, end) => Parsed::Done(seq![(item, true)] + rest, end),
                        _ => Parsed::Cut,
                    }
                }
            },
        }
    }
}

// ------------------------------------------------------------------------------------------------
// Every parsed element takes up at least one character
// ------------------------------------------------------------------------------------------------

/// The module path ends inside the text, at or after where it starts.
pub proof fn lemma_path_bounds(cs: Seq<char>, p: int)
    requires
        0 <= p <= cs.len(),
    ensures
        p <= path_at(cs, p).1 <= cs.len(),
    decreases cs.len() - p,
{
    if 0 <= p < cs.len() && is_lower(cs[p]) {
        let e = run_end(cs, p + 1, 2);
        lemma_run_end(cs, p + 1, 2);
        reveal_strlit("::");
        if starts_with(cs, e, "::"@) {
            lemma_path_bounds(cs, e + 2);
        }
    }
}

/// A parsed type ends inside the text, after where it starts.
pub proof fn lemma_type_bounds(cs: Seq<char>, p: int)
    ensures
        type_at(cs, p) is Done ==> p < type_at(cs, p)->Done_1 <= cs.len(),
    decreases cs.len() - p, 1int,
{
    if 0 <= p <= cs.len() {
        lemma_run_end(cs, p, 0);
        reveal_strlit("box<string>");
        reveal_strlit("box<bytes>");
        lemma_generic_bounds(cs, p);
        lemma_tuple_bounds(cs, p);
        lemma_array_bounds(cs, p);
        lemma_external_bounds(cs, p);
    }
}

/// A parsed built-in type with parameters ends inside the text, after where it starts.
pub proof fn lemma_generic_bounds(cs: Seq<char>, p: int)
    ensures
        generic_at(cs, p) is Done ==> p < generic_at(cs, p)->Done_1 <= cs.len(),
    decreases cs.len() - p, 0int,
{
    if 0 <= p <= cs.len() {
        let e = run_end(cs, p, 1);
        lemma_run_end(cs, p, 1);
        if char_at(cs, e, '<') {
            lemma_type_bounds(cs, e + 1);
            if type_at(cs, e + 1) is Done {
                let e1 = type_at(cs, e + 1)->Done_1;
                let e2 = run_end(cs, e1, 5);
                lemma_run_end(cs, e1, 5);
                lemma_run_end(cs, e1, 4);
                if char_at(cs, e2, ',') {
                    let e3 = run_end(cs, e2 + 1, 5);
                    lemma_run_end(cs, e2 + 1, 5);
                    if e3 > p {
                        lemma_type_bounds(cs, e3);
                        if type_at(cs, e3) is Done {
                            lemma_run_end(cs, type_at(cs, e3)->Done_1, 4);
                        }
                    }
                }
            }
        }
    }
}

/// A parsed tuple ends inside the text, after where it starts.
pub proof fn lemma_tuple_bounds(cs: Seq<char>, p: int)
    ensures
        tuple_at(cs, p) is Done ==> p < tuple_at(cs, p)->Done_1 <= cs.len(),
    decreases cs.len() - p, 0int,
{
    if 0 <= p <= cs.len() && char_at(cs, p, '(') {
        lemma_items_bounds(cs, p + 1, true);
        if items_at(cs, p + 1, true) is Done {
            lemma_run_end(cs, items_at(cs, p + 1, true)->Done_1, 4);
        }
    }
}

/// A parsed array ends inside the text, after where it starts.
pub proof fn lemma_array_bounds(cs: Seq<char>, p: int)
    ensures
        array_at(cs, p) is Done ==> p < array_at(cs, p)->Done_1 <= cs.len(),
    decreases cs.len() - p, 0int,
{
    if 0 <= p <= cs.len() && char_at(cs, p, '[') {
        lemma_run_end(cs, p + 1, 4);
        let s = ws_end(cs, p + 1);
        lemma_type_bounds(cs, s);
        if type_at(cs, s) is Done {
            let e = type_at(cs, s)->Done_1;
            lemma_run_end(cs, e, 4);
            let c = ws_end(cs, e);
            if char_at(cs, c, ';') {
                lemma_run_end(cs, c + 1, 4);
                let d = ws_end(cs, c + 1);
                if d < cs.len() {
                    lemma_run_end(cs, d, 6);
                }
                if let Some((_, de)) = uint_at(cs, d) {
                    lemma_run_end(cs, de, 4);
                }
            }
        }
    }
}

/// A parsed external type ends inside the text, after where it starts.
pub proof fn lemma_external_bounds(cs: Seq<char>, p: int)
    ensures
        external_at(cs, p) is Done ==> p < external_at(cs, p)->Done_1 <= cs.len(),
    decreases cs.len() - p, 0int,
{
    if 0 <= p <= cs.len() {
        lemma_path_bounds(cs, p);
        let q = path_at(cs, p).1;
        if q < cs.len() && is_upper(cs[q]) {
            lemma_run_end(cs, q + 1, 3);
            let ne = run_end(cs, q + 1, 3);
            if char_at(cs, ne, '<') {
                lemma_items_bounds(cs, ne + 1, true);
                if items_at(cs, ne + 1, true) is Done {
                    lemma_run_end(cs, items_at(cs, ne + 1, true)->Done_1, 4);
                }
            }
        }
    }
}

/// A parsed list ends inside the text, at or after where it starts, and after it when it must
/// hold a type.
pub proof fn lemma_items_bounds(cs: Seq<char>, q: int, first: bool)
    ensures
        items_at(cs, q, first) is Done ==> q <= items_at(cs, q, first)->Done_1 <= cs.len(),
        items_at(cs, q, first) is Done && first ==> q < items_at(cs, q, first)->Done_1,
    decreases cs.len() - q, 2int,
{
    if 0 <= q <= cs.len() {
        lemma_run_end(cs, q, 4);
        let s = ws_end(cs, q);
        lemma_type_bounds(cs, s);
        if type_at(cs, s) is Done {
            let e = type_at(cs, s)->Done_1;
            lemma_run_end(cs, e, 4);
            let c = ws_end(cs, e);
            if char_at(cs, c, ',') && c + 1 > q {
                lemma_items_bounds(cs, c + 1, false);
            }
        }
    }
}

// ------------------------------------------------------------------------------------------------
// Reading characters
// ------------------------------------------------------------------------------------------------

/// The characters of a text.
pub fn chars_of(input: &str) -> (r: Vec<char>)
    ensures
        r@ == input@,
{
    let mut it = input.chars();
    let mut r: Vec<char> = Vec::new();
    loop
        invariant
            it.remaining() == input@.skip(r.len() as int),
            r@ == input@.take(r.len() as int),
            r.len() <= input@.len(),
        ensures
            r@ == input@,
        decreases input@.len() - r.len(),
    {
        let next = it.next();
        match next {
            Some(c) => {
                proof {
                    assert(input@.take(r.len() + 1) =~= input@.take(r.len() as int).push(c));
                    assert(input@.skip(r.len() + 1) =~= input@.skip(r.len() as int).drop_first());
                }
                r.push(c);
            },
            None => {
                proof {
                    assert(input@.take(r.len() as int) =~= input@);
                }
                break;
            },
        }
    }
    r
}

/// Whether `c` belongs to the class (see `in_class`).
pub(crate) fn in_class_exec(class: u8, c: char) -> (r: bool)
    ensures
        r == in_class(class as nat, c),
{
    if class == 0 {
        ('a' <= c && c <= 'z') || ('0' <= c && c <= '9') || c == '&'
    } else if class == 1 {
        ('a' <= c && c <= 'z') || c == '_'
    } else if class == 2 {
        ('a' <= c && c <= 'z') || ('0' <= c && c <= '9') || c == '_'
    } else if class == 3 {
        ('a' <= c && c <= 'z') || ('A' <= c && c <= 'Z') || ('0' <= c && c <= '9') || c == '_'
    } else if class == 4 {
        c == ' ' || c == '\t' || c == '\r' || c == '\n'
    } else if class == 5 {
        c == ' ' || c == '\t'
    } else if class == 6 {
        '0' <= c && c <= '9'
    } else if class == 7 {
        c != '\n'
    } else {
        ('a' <= c && c <= 'z') || ('A' <= c && c <= 'Z') || ('0' <= c && c <= '9')
    }
}

/// Where the longest run of characters of a class starting at `pos` ends.
pub(crate) fn scan(cs: &Vec<char>, pos: usize, class: u8) -> (r: usize)
    requires
        pos <= cs.len(),
    ensures
        r == run_end(cs@, pos as int, class as nat),
        pos <= r <= cs.len(),
{
    proof {
        lemma_run_end(cs@, pos as int, class as nat);
    }
    let mut i = pos;
    while i < cs.len() && in_class_exec(class, cs[i])
        invariant
            pos <= i <= cs.len(),
            run_end(cs@, i as int, class as nat) == run_end(cs@, pos as int, class as nat),
            run_end(cs@, pos as int, class as nat) <= cs.len(),
        decreases cs.len() - i,
    {
        i = i + 1;
    }
    i
}

/// Whether `pos` holds the character `c`.
pub(crate) fn char_is(cs: &Vec<char>, pos: usize, c: char) -> (r: bool)
    ensures
        r == char_at(cs@, pos as int, c),
{
    pos < cs.len() && cs[pos] == c
}

/// Whether the characters from `p` to `e` are those of `word`.
pub(crate) fn run_is(cs: &Vec<char>, p: usize, e: usize, word: &str) -> (r: bool)
    requires
        p <= e <= cs.len(),
    ensures
        r == (cs@.subrange(p as int, e as int) == word@),
{
    let n = word.unicode_len();
    if e - p != n {
        proof {
            assert(cs@.subrange(p as int, e as int).len() != word@.len());
        }
        return false;
    }
    let mut i: usize = 0;
    while i < n
        invariant
            i <= n,
            n == word@.len(),
            e - p == n,
            p <= e <= cs.len(),
            forall|k: int| 0 <= k < i ==> cs@[p + k] == word@[k],
        decreases n - i,
    {
        if cs[p + i] != word.get_char(i) {
            proof {
                assert(cs@.subrange(p as int, e as int)[i as int] != word@[i as int]);
            }
            return false;
        }
        i = i + 1;
    }
    proof {
        assert(cs@.subrange(p as int, e as int) =~= word@);
    }
    true
}

/// Whether the text at `pos` starts with `word`.
pub(crate) fn starts_with_exec(cs: &Vec<char>, pos: usize, word: &str) -> (r: bool)
    requires
        pos <= cs.len(),
    ensures
        r == starts_with(cs@, pos as int, word@),
{
    let n = word.unicode_len();
    if n > cs.len() - pos {
        false
    } else {
        run_is(cs, pos, pos + n, word)
    }
}

/// A longer run of digits has at least the value of its start.
proof fn lemma_digits_grow(ds: Seq<char>, k: int)
    requires
        0 <= k <= ds.len(),
    ensures
        digits_value(ds.take(k)) <= digits_value(ds),
    decreases ds.len() - k,
{
    if k < ds.len() {
        lemma_digits_grow(ds, k + 1);
        assert(ds.take(k + 1).drop_last() =~= ds.take(k));
        assert(digits_value(ds.take(k + 1)) == digits_value(ds.take(k)) * 10 + ((ds.take(k + 1).last() as nat - '0' as nat) as nat));
    } else {
        assert(ds.take(k) =~= ds);
    }
}

/// An unsigned 32-bit integer in decimal at `d` (see `uint_at`).
pub(crate) fn scan_uint(cs: &Vec<char>, d: usize) -> (r: Option<(u32, usize)>)
    requires
        d <= cs.len(),
    ensures
        match r {
            Some((v, e)) => uint_at(cs@, d as int) == Some((v as nat, e as int)),
            None => uint_at(cs@, d as int) is None,
        },
        r matches Some((_, e)) ==> d < e <= cs.len(),
{
    if char_is(cs, d, '0') {
        return Some((0, d + 1));
    }
    if !(d < cs.len() && '1' <= cs[d] && cs[d] <= '9') {
        return None;
    }
    let e = scan(cs, d, 6);
    proof {
        lemma_run_end(cs@, d as int, 6);
    }
    let mut v: u64 = 0;
    let mut i = d;
    while i < e
        invariant
            d <= i <= e <= cs.len(),
            d < cs.len(),
            '1' <= cs@[d as int] <= '9',
            e == run_end(cs@, d as int, 6),
            forall|k: int| d <= k < e ==> in_class(6, #[trigger] cs@[k]),
            v == digits_value(cs@.subrange(d as int, i as int)),
            v <= u32::MAX,
        decreases e - i,
    {
        let digit = (cs[i] as u32 - '0' as u32) as u64;
        proof {
            assert(in_class(6, cs@[i as int]));
            assert(cs@.subrange(d as int, i + 1).drop_last() =~= cs@.subrange(d as int, i as int));
        }
        let next = v * 10 + digit;
        proof {
            assert(next == digits_value(cs@.subrange(d as int, i + 1)));
        }
        if next > 4294967295 {
            proof {
                assert(cs@.subrange(d as int, e as int).take(i + 1 - d) =~= cs@.subrange(
                    d as int,
                    i + 1,
                ));
                lemma_digits_grow(cs@.subrange(d as int, e as int), i + 1 - d);
                assert(digits_value(cs@.subrange(d as int, e as int)) > u32::MAX);
                assert(uint_at(cs@, d as int) is None);
            }
            return None;
        }
        v = next;
        i = i + 1;
    }
    Some((v as u32, e))
}

/// The shapes of a list are those of its types, each with whether a comma follows it.
pub proof fn lemma_shapes_from(types: Punctuated<Type>, i: int)
    requires
        0 <= i <= types.items().len(),
    ensures
        shapes_from(types, i).len() == types.items().len() - i,
        forall|k: int|
            0 <= k < types.items().len() - i ==> #[trigger] shapes_from(types, i)[k] == (
                shape(types.items()[i + k]),
                types.spec_punct(i + k),
            ),
    decreases types.items().len() - i,
{
    if i < types.items().len() {
        lemma_shapes_from(types, i + 1);
        assert forall|k: int| 0 <= k < types.items().len() - i implies #[trigger] shapes_from(
            types,
            i,
        )[k] == (shape(types.items()[i + k]), types.spec_punct(i + k)) by {
            if k > 0 {
                assert(shapes_from(types, i)[k] == shapes_from(types, i + 1)[k - 1]);
            }
        }
    }
}

// ------------------------------------------------------------------------------------------------
// The parser
// ------------------------------------------------------------------------------------------------

/// Failure to parse a data type.
#[derive(Clone, Copy, Debug, PartialEq, Eq)]
pub struct ParseTypeError {
    /// Where the type was expected (counted in characters).
    pub at: usize,
    /// Whether the failure is fatal: the text started like some kind of type but is not one.
    /// Otherwise nothing there looks like a type, and another element may be read in its place.
    pub cut: bool,
}

/// Whether `r`, the answer of a parser called at `p`, is the one that the grammar gives.
pub open spec fn answers(expected: Parsed<Shape>, p: int, r: Result<(Type, usize), bool>) -> bool {
    match r {
        Ok((t, e)) => expected == Parsed::Done(shape(t), e as int) && t.span == (Span {
            start: p as usize,
            end: e,
        }),
        Err(cut) => if cut {
            expected is Cut
        } else {
            expected is Back
        },
    }
}

/// The built-in type without parameters whose keyword runs from `p` to `e`.
fn plain_keyword<'a>(cs: &Vec<char>, p: usize, e: usize) -> (r: Option<DataType<'a>>)
    requires
        p <= e <= cs.len(),
    ensures
        match r {
            Some(v) => is_plain_keyword(cs@.subrange(p as int, e as int)) && keyword(v)
                == cs@.subrange(p as int, e as int) && !(v is Vec || v is HashMap || v is HashSet
                || v is Option || v is NonZero || v is Tuple || v is Array || v is External),
            None => !is_plain_keyword(cs@.subrange(p as int, e as int)),
        },
{
    if run_is(cs, p, e, "bool") {
        Some(DataType::Bool)
    } else if run_is(cs, p, e, "u8") {
        Some(DataType::U8)
    } else if run_is(cs, p, e, "u16") {
        Some(DataType::U16)
    } else if run_is(cs, p, e, "u32") {
        Some(DataType::U32)
    } else if run_is(cs, p, e, "u64") {
        Some(DataType::U64)
    } else if run_is(cs, p, e, "u128") {
        Some(DataType::U128)
    } else if run_is(cs, p, e, "i8") {
        Some(DataType::I8)
    } else if run_is(cs, p, e, "i16") {
        Some(DataType::I16)
    } else if run_is(cs, p, e, "i32") {
        Some(DataType::I32)
    } else if run_is(cs, p, e, "i64") {
        Some(DataType::I64)
    } else if run_is(cs, p, e, "i128") {
        Some(DataType::I128)
    } else if run_is(cs, p, e, "f32") {
        Some(DataType::F32)
    } else if run_is(cs, p, e, "f64") {
        Some(DataType::F64)
    } else if run_is(cs, p, e, "string") {
        Some(DataType::String)
    } else if run_is(cs, p, e, "&string") {
        Some(DataType::StringRef)
    } else if run_is(cs, p, e, "bytes") {
        Some(DataType::Bytes)
    } else if run_is(cs, p, e, "&bytes") {
        Some(DataType::BytesRef)
    } else {
        None
    }
}

/// A built-in type without parameters at `p` (see `basic_at`).
fn basic_from<'a>(cs: &Vec<char>, p: usize) -> (r: Result<(Type<'a>, usize), bool>)
    requires
        p <= cs.len(),
    ensures
        answers(basic_at(cs@, p as int), p as int, r),
{
    let e = scan(cs, p, 0);
    if e - p >= 2 {
        if let Some(value) = plain_keyword(cs, p, e) {
            return Ok((Type { value, span: Span::new(p, e) }, e));
        }
    }
    proof {
        reveal_strlit("box<string>");
        reveal_strlit("box<bytes>");
    }
    if starts_with_exec(cs, p, "box<string>") {
        Ok((Type { value: DataType::BoxString, span: Span::new(p, p + 11) }, p + 11))
    } else if starts_with_exec(cs, p, "box<bytes>") {
        Ok((Type { value: DataType::BoxBytes, span: Span::new(p, p + 10) }, p + 10))
    } else {
        Err(false)
    }
}

/// Which built-in type with parameters has the keyword that runs from `p` to `e`: 0 `vec`,
/// 1 `hash_map`, 2 `hash_set`, 3 `option`, 4 `non_zero`, 5 none of them.
fn wrap_kind(cs: &Vec<char>, p: usize, e: usize) -> (k: u8)
    requires
        p <= e <= cs.len(),
    ensures
        k <= 5,
        k < 5 ==> e - p >= 3,
        k == 0 ==> cs@.subrange(p as int, e as int) == "vec"@,
        k == 1 ==> cs@.subrange(p as int, e as int) == "hash_map"@,
        k == 2 ==> cs@.subrange(p as int, e as int) == "hash_set"@,
        k == 3 ==> cs@.subrange(p as int, e as int) == "option"@,
        k == 4 ==> cs@.subrange(p as int, e as int) == "non_zero"@,
        k != 1 ==> cs@.subrange(p as int, e as int) != "hash_map"@,
        k == 5 <==> !(is_wrap_keyword(cs@.subrange(p as int, e as int)) || cs@.subrange(
            p as int,
            e as int,
        ) == "hash_map"@),
{
    proof {
        reveal_strlit("vec");
        reveal_strlit("hash_map");
        reveal_strlit("hash_set");
        reveal_strlit("option");
        reveal_strlit("non_zero");
        assert("vec"@.len() == 3);
        assert("hash_map"@.len() == 8);
        assert("hash_set"@.len() == 8);
        assert("option"@.len() == 6);
        assert("non_zero"@.len() == 8);
        assert("hash_set"@[5] != "hash_map"@[5]);
        assert("non_zero"@[0] != "hash_map"@[0]);
    }
    if run_is(cs, p, e, "vec") {
        0
    } else if run_is(cs, p, e, "hash_map") {
        1
    } else if run_is(cs, p, e, "hash_set") {
        2
    } else if run_is(cs, p, e, "option") {
        3
    } else if run_is(cs, p, e, "non_zero") {
        4
    } else {
        5
    }
}

/// A built-in type with parameters at `p` (see `generic_at`).
fn generic_from<'a>(input: &'a str, cs: &Vec<char>, p: usize) -> (r: Result<(Type<'a>, usize), bool>)
    requires
        cs@ == input@,
        p <= cs.len(),
    ensures
        answers(generic_at(cs@, p as int), p as int, r),
    decreases cs.len() - p, 0int,
{
    let e = scan(cs, p, 1);
    let kind = wrap_kind(cs, p, e);
    if kind == 5 {
        return Err(false);
    }
    if !char_is(cs, e, '<') {
        return Err(true);
    }
    let name = Span::new(p, e);
    let (first, e1) = match type_from(input, cs, e + 1) {
        Ok(parsed) => parsed,
        Err(_) => {
            return Err(true);
        },
    };
    proof {
        lemma_type_bounds(cs@, e + 1);
    }
    if kind == 1 {
        let e2 = scan(cs, e1, 5);
        if !char_is(cs, e2, ',') {
            return Err(true);
        }
        let e3 = scan(cs, e2 + 1, 5);
        let (second, e4) = match type_from(input, cs, e3) {
            Ok(parsed) => parsed,
            Err(_) => {
                return Err(true);
            },
        };
        proof {
            lemma_type_bounds(cs@, e3 as int);
        }
        let e5 = scan(cs, e4, 4);
        if !char_is(cs, e5, '>') {
            return Err(true);
        }
        let value = DataType::HashMap {
            span: name,
            angle: token::Angle::new(Span::new(e, e + 1), Span::new(e5, e5 + 1)),
            key: Box::new(first),
            comma: token::Comma::new(Span::new(e2, e2 + 1)),
            value: Box::new(second),
        };
        return Ok((Type { value, span: Span::new(p, e5 + 1) }, e5 + 1));
    }
    let e2 = scan(cs, e1, 4);
    if !char_is(cs, e2, '>') {
        return Err(true);
    }
    let angle = token::Angle::new(Span::new(e, e + 1), Span::new(e2, e2 + 1));
    let ty = Box::new(first);
    let value = if kind == 0 {
        DataType::Vec { span: name, angle, ty }
    } else if kind == 2 {
        DataType::HashSet { span: name, angle, ty }
    } else if kind == 3 {
        DataType::Option { span: name, angle, ty }
    } else {
        DataType::NonZero { span: name, angle, ty }
    };
    Ok((Type { value, span: Span::new(p, e2 + 1) }, e2 + 1))
}

/// A tuple at `p` (see `tuple_at`).
fn tuple_from<'a>(input: &'a str, cs: &Vec<char>, p: usize) -> (r: Result<(Type<'a>, usize), bool>)
    requires
        cs@ == input@,
        p <= cs.len(),
    ensures
        answers(tuple_at(cs@, p as int), p as int, r),
    decreases cs.len() - p, 0int,
{
    if !char_is(cs, p, '(') {
        return Err(false);
    }
    let (types, e) = match items_from(input, cs, p + 1) {
        Ok(parsed) => parsed,
        Err(_) => {
            return Err(true);
        },
    };
    proof {
        lemma_items_bounds(cs@, p + 1, true);
    }
    let c = scan(cs, e, 4);
    if !char_is(cs, c, ')') {
        return Err(true);
    }
    let paren = token::Parenthesis::new(Span::new(p, p + 1), Span::new(c, c + 1));
    Ok((Type { value: DataType::Tuple { paren, types }, span: Span::new(p, c + 1) }, c + 1))
}

/// An array at `p` (see `array_at`).
fn array_from<'a>(input: &'a str, cs: &Vec<char>, p: usize) -> (r: Result<(Type<'a>, usize), bool>)
    requires
        cs@ == input@,
        p <= cs.len(),
    ensures
        answers(array_at(cs@, p as int), p as int, r),
    decreases cs.len() - p, 0int,
{
    if !char_is(cs, p, '[') {
        return Err(false);
    }
    let s = scan(cs, p + 1, 4);
    let (inner, e) = match type_from(input, cs, s) {
        Ok(parsed) => parsed,
        Err(_) => {
            return Err(true);
        },
    };
    proof {
        lemma_type_bounds(cs@, s as int);
    }
    let c = scan(cs, e, 4);
    if !char_is(cs, c, ';') {
        return Err(true);
    }
    let d = scan(cs, c + 1, 4);
    let (size, de) = match scan_uint(cs, d) {
        Some(parsed) => parsed,
        None => {
            return Err(true);
        },
    };
    let w = scan(cs, de, 4);
    if !char_is(cs, w, ']') {
        return Err(true);
    }
    let value = DataType::Array {
        bracket: token::Bracket::new(Span::new(p, p + 1), Span::new(w, w + 1)),
        ty: Box::new(inner),
        semicolon: token::Semicolon::new(Span::new(c, c + 1)),
        size,
    };
    Ok((Type { value, span: Span::new(p, w + 1) }, w + 1))
}

/// An external type at `p` (see `external_at`).
fn external_from<'a>(input: &'a str, cs: &Vec<char>, p: usize) -> (r: Result<(Type<'a>, usize), bool>)
    requires
        cs@ == input@,
        p <= cs.len(),
    ensures
        answers(external_at(cs@, p as int), p as int, r),
    decreases cs.len() - p, 0int,
{
    let mut path: Vec<(Name<'a>, DoubleColon)> = Vec::new();
    let mut q = p;
    proof {
        reveal_strlit("::");
        assert(segments(path@) + path_at(cs@, q as int).0 =~= path_at(cs@, q as int).0);
    }
    loop
        invariant
            p <= q <= cs.len(),
            cs@ == input@,
            path_at(cs@, p as int) == (
                segments(path@) + path_at(cs@, q as int).0,
                path_at(cs@, q as int).1,
            ),
        ensures
            p <= q <= cs.len(),
            path_at(cs@, p as int) == (segments(path@), q as int),
        decreases cs.len() - q,
    {
        if !(q < cs.len() && 'a' <= cs[q] && cs[q] <= 'z') {
            proof {
                assert(segments(path@) + Seq::<Seq<char>>::empty() =~= segments(path@));
            }
            break;
        }
        let e = scan(cs, q + 1, 2);
        proof {
            reveal_strlit("::");
        }
        if !starts_with_exec(cs, e, "::") {
            proof {
                assert(segments(path@) + Seq::<Seq<char>>::empty() =~= segments(path@));
            }
            break;
        }
        let name = Name::new(input.substring_char(q, e), Span::new(q, e));
        let ghost old_path = path@;
        path.push((name, DoubleColon::new(Span::new(e, e + 2))));
        proof {
            assert(path@.drop_last() =~= old_path);
            assert(segments(path@) == segments(old_path).push(cs@.subrange(q as int, e as int)));
            assert(segments(old_path) + path_at(cs@, q as int).0 =~= segments(path@) + path_at(
                cs@,
                e + 2,
            ).0);
        }
        q = e + 2;
    }
    if !(q < cs.len() && 'A' <= cs[q] && cs[q] <= 'Z') {
        return Err(false);
    }
    let ne = scan(cs, q + 1, 3);
    let name = Name::new(input.substring_char(q, ne), Span::new(q, ne));
    if !char_is(cs, ne, '<') {
        let value = DataType::External(ExternalType { path, name, angle: None, generics: None });
        return Ok((Type { value, span: Span::new(p, ne) }, ne));
    }
    let (generics, e) = match items_from(input, cs, ne + 1) {
        Ok(parsed) => parsed,
        Err(_) => {
            return Err(true);
        },
    };
    proof {
        lemma_items_bounds(cs@, ne + 1, true);
    }
    let c = scan(cs, e, 4);
    if !char_is(cs, c, '>') {
        return Err(true);
    }
    let angle = token::Angle::new(Span::new(ne, ne + 1), Span::new(c, c + 1));
    let value = DataType::External(
        ExternalType { path, name, angle: Some(angle), generics: Some(generics) },
    );
    Ok((Type { value, span: Span::new(p, c + 1) }, c + 1))
}

/// A data type at `p` (see `type_at`).
pub(crate) fn type_from<'a>(input: &'a str, cs: &Vec<char>, p: usize) -> (r: Result<(Type<'a>, usize), bool>)
    requires
        cs@ == input@,
        p <= cs.len(),
    ensures
        answers(type_at(cs@, p as int), p as int, r),
    decreases cs.len() - p, 1int,
{
    match basic_from(cs, p) {
        Err(false) => {},
        r => {
            return r;
        },
    }
    match generic_from(input, cs, p) {
        Err(false) => {},
        r => {
            return r;
        },
    }
    match tuple_from(input, cs, p) {
        Err(false) => {},
        r => {
            return r;
        },
    }
    match array_from(input, cs, p) {
        Err(false) => {},
        r => {
            return r;
        },
    }
    external_from(input, cs, p)
}

/// The shapes of parsed types that are each followed by a comma.
spec fn followed(acc: Seq<(Shape, bool)>, rest: Parsed<Seq<(Shape, bool)>>) -> Parsed<
    Seq<(Shape, bool)>,
> {
    match rest {
        Parsed::Done(items, e) => Parsed::Done(acc + items, e),
        Parsed::Back => Parsed::Back,
        Parsed::Cut => Parsed::Cut,
    }
}

/// A list of types at `q0` that holds at least one (see `items_at`).
fn items_from<'a>(input: &'a str, cs: &Vec<char>, q0: usize) -> (r: Result<
    (Punctuated<Type<'a>>, usize),
    bool,
>)
    requires
        cs@ == input@,
        1 <= q0 <= cs.len(),
    ensures
        match r {
            Ok((types, e)) => items_at(cs@, q0 as int, true) == Parsed::Done(
                shapes_from(types, 0),
                e as int,
            ),
            Err(cut) => if cut {
                items_at(cs@, q0 as int, true) is Cut
            } else {
                items_at(cs@, q0 as int, true) is Back
            },
        },
    decreases cs.len() - q0, 2int,
{
    let mut values: Vec<(Type<'a>, token::Comma)> = Vec::new();
    let ghost mut acc: Seq<(Shape, bool)> = Seq::empty();
    let mut q = q0;
    proof {
        assert(followed(acc, items_at(cs@, q as int, true)) =~= items_at(cs@, q as int, true)) by {
            match items_at(cs@, q as int, true) {
                Parsed::Done(items, e) => {
                    assert(acc + items =~= items);
                },
                _ => {},
            }
        }
    }
    loop
        invariant
            cs@ == input@,
            1 <= q0 <= q <= cs.len(),
            values.len() <= q - q0,
            acc.len() == values.len(),
            forall|i: int| 0 <= i < values.len() ==> acc[i] == (shape(#[trigger] values@[i].0), true),
            items_at(cs@, q0 as int, true) == followed(acc, items_at(cs@, q as int, values.len() == 0)),
        decreases cs.len() - q,
    {
        let s = scan(cs, q, 4);
        let parsed = type_from(input, cs, s);
        proof {
            lemma_type_bounds(cs@, s as int);
        }
        match parsed {
            Err(true) => {
                return Err(true);
            },
            Err(false) => {
                if values.len() == 0 {
                    return Err(false);
                }
                let (item, comma) = values.pop().unwrap();
                let ghost popped = acc;
                let types = Punctuated::new(values, (item, Some(comma)));
                proof {
                    lemma_shapes_from(types, 0);
                    assert(popped + Seq::<(Shape, bool)>::empty() =~= popped);
                    assert(shapes_from(types, 0) =~= popped);
                }
                return Ok((types, q));
            },
            Ok((item, e)) => {
                let c = scan(cs, e, 4);
                if !char_is(cs, c, ',') {
                    let ghost prefix = acc;
                    let item_shape = Ghost(shape(item));
                    let types = Punctuated::new(values, (item, None));
                    proof {
                        lemma_shapes_from(types, 0);
                        assert(shapes_from(types, 0) =~= prefix + seq![(item_shape@, false)]);
                    }
                    return Ok((types, e));
                }
                proof {
                    let rest = items_at(cs@, c + 1, false);
                    assert(!(rest is Back));
                    assert(followed(acc, items_at(cs@, q as int, values.len() == 0)) == followed(
                        acc.push((shape(item), true)),
                        rest,
                    )) by {
                        match rest {
                            Parsed::Done(items, end) => {
                                assert(acc + (seq![(shape(item), true)] + items) =~= acc.push(
                                    (shape(item), true),
                                ) + items);
                            },
                            _ => {},
                        }
                    }
                    acc = acc.push((shape(item), true));
                }
                values.push((item, token::Comma::new(Span::new(c, c + 1))));
                q = c + 1;
            },
        }
    }
}

/// Parse a data type that starts at `pos` (counted in characters) of `input`, as it is written in
/// a schema. Gives the type and where it ends; an error says whether the failure is fatal.
pub fn parse_type<'a>(input: &'a str, pos: usize) -> (r: Result<(Type<'a>, usize), ParseTypeError>)
    ensures
        match r {
            Ok((t, e)) => type_at(input@, pos as int) == Parsed::Done(shape(t), e as int)
                && t.span == (Span { start: pos, end: e }),
            Err(err) => err.at == pos && if err.cut {
                type_at(input@, pos as int) is Cut
            } else {
                type_at(input@, pos as int) is Back
            },
        },
{
    let cs = chars_of(input);
    if pos > cs.len() {
        return Err(ParseTypeError { at: pos, cut: false });
    }
    match type_from(input, &cs, pos) {
        Ok(parsed) => Ok(parsed),
        Err(cut) => Err(ParseTypeError { at: pos, cut }),
    }
}

// ------------------------------------------------------------------------------------------------
// Reading back printed types
// ------------------------------------------------------------------------------------------------

/// Whether the text can end at `k`: at its end, or before whitespace, a comma, semicolon or
/// closing delimiter.
pub open spec fn stop_at(cs: Seq<char>, k: int) -> bool {
    k == cs.len() || (0 <= k < cs.len() && (cs[k] == ',' || cs[k] == ';' || cs[k] == ')' || cs[k]
        == ']' || cs[k] == '>' || cs[k] == '}' || in_class(4, cs[k])))
}

/// A run over a piece of the text is the run over the piece, when the piece's run stops inside it
/// or the character after the piece is not of the class.
pub(crate) proof fn lemma_run_in(cs: Seq<char>, p: int, piece: Seq<char>, class: nat, k: int)
    requires
        starts_with(cs, p, piece),
        0 <= k <= piece.len(),
        run_end(piece, 0, class) < piece.len() || p + piece.len() == cs.len() || !in_class(
            class,
            cs[p + piece.len()],
        ),
        run_end(piece, 0, class) == run_end(piece, k, class) || k <= run_end(piece, 0, class),
    ensures
        run_end(cs, p + k, class) == p + run_end(piece, k, class),
    decreases piece.len() - k,
{
    lemma_run_end(piece, 0, class);
    if k < piece.len() {
        assert(cs[p + k] == piece[k]);
        if in_class(class, piece[k]) {
            lemma_run_in(cs, p, piece, class, k + 1);
        }
    } else {
        if p + piece.len() < cs.len() && in_class(class, cs[p + piece.len()]) {
            assert(run_end(piece, 0, class) < piece.len());
            assert(run_end(piece, 0, class) >= k);
        }
    }
}

/// A text that starts with two pieces starts with each at its place.
pub(crate) proof fn lemma_starts_concat(cs: Seq<char>, p: int, a: Seq<char>, b: Seq<char>)
    requires
        starts_with(cs, p, a + b),
    ensures
        starts_with(cs, p, a),
        starts_with(cs, p + a.len(), b),
{
    let whole = cs.subrange(p, p + (a + b).len());
    assert forall|k: int| 0 <= k < a.len() implies cs.subrange(p, p + a.len())[k] == a[k] by {
        assert(whole[k] == (a + b)[k]);
    }
    assert(cs.subrange(p, p + a.len()) =~= a);
    assert forall|k: int| 0 <= k < b.len() implies cs.subrange(p + a.len(), p + a.len() + b.len())[k]
        == b[k] by {
        assert(whole[a.len() + k] == (a + b)[a.len() + k]);
    }
    assert(cs.subrange(p + a.len(), p + a.len() + b.len()) =~= b);
}

/// A run over a piece whose characters are all of the class covers the piece.
pub(crate) proof fn lemma_run_all(piece: Seq<char>, class: nat, k: int)
    requires
        0 <= k <= piece.len(),
        forall|j: int| k <= j < piece.len() ==> in_class(class, #[trigger] piece[j]),
    ensures
        run_end(piece, k, class) == piece.len(),
    decreases piece.len() - k,
{
    if k < piece.len() {
        lemma_run_all(piece, class, k + 1);
    }
}

/// The keywords of the built-in types without parameters are made of keyword characters.
proof fn lemma_plain_chars(w: Seq<char>)
    requires
        is_plain_keyword(w),
    ensures
        w.len() >= 2,
        forall|k: int| 0 <= k < w.len() ==> in_class(0, #[trigger] w[k]),
{
    reveal_strlit("bool");
    reveal_strlit("u8");
    reveal_strlit("u16");
    reveal_strlit("u32");
    reveal_strlit("u64");
    reveal_strlit("u128");
    reveal_strlit("i8");
    reveal_strlit("i16");
    reveal_strlit("i32");
    reveal_strlit("i64");
    reveal_strlit("i128");
    reveal_strlit("f32");
    reveal_strlit("f64");
    reveal_strlit("string");
    reveal_strlit("&string");
    reveal_strlit("bytes");
    reveal_strlit("&bytes");
}

/// A keyword of a built-in type without parameters, followed by where the text may end, reads
/// back as that type.
proof fn lemma_read_plain(cs: Seq<char>, p: int, w: Seq<char>)
    requires
        is_plain_keyword(w),
        starts_with(cs, p, w),
        stop_at(cs, p + w.len()),
    ensures
        type_at(cs, p) == Parsed::Done(Shape::Keyword(w), p + w.len()),
{
    lemma_plain_chars(w);
    lemma_run_all(w, 0, 0);
    lemma_run_in(cs, p, w, 0, 0);
    assert(cs.subrange(p, p + w.len()) == w);
}

/// The keywords of the built-in types without parameters start with `b` (and then have at least
/// four characters), `u`, `i`, `f`, `s` or `&`.
proof fn lemma_plain_first(w: Seq<char>)
    requires
        is_plain_keyword(w),
    ensures
        w.len() >= 2,
        w[0] == 'b' || w[0] == 'u' || w[0] == 'i' || w[0] == 'f' || w[0] == 's' || w[0] == '&',
        w[0] == 'b' ==> w.len() >= 4,
{
    reveal_strlit("bool");
    reveal_strlit("u8");
    reveal_strlit("u16");
    reveal_strlit("u32");
    reveal_strlit("u64");
    reveal_strlit("u128");
    reveal_strlit("i8");
    reveal_strlit("i16");
    reveal_strlit("i32");
    reveal_strlit("i64");
    reveal_strlit("i128");
    reveal_strlit("f32");
    reveal_strlit("f64");
    reveal_strlit("string");
    reveal_strlit("&string");
    reveal_strlit("bytes");
    reveal_strlit("&bytes");
}

/// `box<string>` and `box<bytes>`, followed by where the text may end, read back as those types.
proof fn lemma_read_box(cs: Seq<char>, p: int, w: Seq<char>)
    requires
        w == "box<string>"@ || w == "box<bytes>"@,
        starts_with(cs, p, w),
        stop_at(cs, p + w.len()),
    ensures
        type_at(cs, p) == Parsed::Done(Shape::Keyword(w), p + w.len()),
{
    reveal_strlit("box<string>");
    reveal_strlit("box<bytes>");
    assert(w[0] == 'b' && w[1] == 'o' && w[2] == 'x' && w[3] == '<');
    assert(run_end(w, 3, 0) == 3);
    assert(run_end(w, 2, 0) == 3);
    assert(run_end(w, 1, 0) == 3);
    assert(run_end(w, 0, 0) == 3);
    lemma_run_in(cs, p, w, 0, 0);
    assert(cs[p] == 'b');
    if is_plain_keyword(cs.subrange(p, p + 3)) {
        lemma_plain_first(cs.subrange(p, p + 3));
    }
    if w == "box<bytes>"@ && starts_with(cs, p, "box<string>"@) {
        assert(cs.subrange(p, p + 11)[4] == 's');
        assert(cs[p + 4] == 'b');
    }
}

/// A run over a word whose first `n` characters are of the class and whose next one is not ends
/// there.
proof fn lemma_run_word(w: Seq<char>, class: nat, n: int, k: int)
    requires
        0 <= k <= n < w.len(),
        forall|j: int| 0 <= j < n ==> in_class(class, #[trigger] w[j]),
        !in_class(class, w[n]),
    ensures
        run_end(w, k, class) == n,
    decreases n - k,
{
    if k < n {
        lemma_run_word(w, class, n, k + 1);
    }
}

/// The opening of a built-in type with one parameter (such as `vec<`): its keyword and `<`.
pub open spec fn is_wrap_opening(pre: Seq<char>) -> bool {
    ||| pre == "vec<"@
    ||| pre == "hash_set<"@
    ||| pre == "option<"@
    ||| pre == "non_zero<"@
}

/// What a reader sees at the start of such an opening: where the runs of keyword characters and of
/// lowercase letters and underscores end, and that the keyword is one of those types.
proof fn lemma_wrap_opening(pre: Seq<char>)
    requires
        is_wrap_opening(pre),
    ensures
        pre.len() >= 4,
        pre[pre.len() - 1] == '<',
        run_end(pre, 0, 0) < pre.len(),
        2 <= run_end(pre, 0, 0),
        pre[0] != 'b' && pre[0] != 'u' && pre[0] != 'i' && pre[0] != 'f' && pre[0] != 's' && pre[0]
            != '&',
        run_end(pre, 0, 1) == pre.len() - 1,
        is_wrap_keyword(pre.drop_last()),
        pre.drop_last() != "hash_map"@,
        pre.drop_last().len() >= 3,
{
    reveal_strlit("vec<");
    reveal_strlit("hash_set<");
    reveal_strlit("option<");
    reveal_strlit("non_zero<");
    reveal_strlit("vec");
    reveal_strlit("hash_set");
    reveal_strlit("option");
    reveal_strlit("non_zero");
    reveal_strlit("hash_map");
    if pre == "vec<"@ {
        lemma_run_word(pre, 0, 3, 0);
        lemma_run_word(pre, 1, 3, 0);
        assert(pre.drop_last() =~= "vec"@);
        assert("hash_map"@.len() == 8);
    } else if pre == "hash_set<"@ {
        lemma_run_word(pre, 0, 4, 0);
        lemma_run_word(pre, 1, 8, 0);
        assert(pre.drop_last() =~= "hash_set"@);
        assert(pre.drop_last()[5] != "hash_map"@[5]);
    } else if pre == "option<"@ {
        lemma_run_word(pre, 0, 6, 0);
        lemma_run_word(pre, 1, 6, 0);
        assert(pre.drop_last() =~= "option"@);
        assert("hash_map"@.len() == 8);
    } else {
        lemma_run_word(pre, 0, 3, 0);
        lemma_run_word(pre, 1, 8, 0);
        assert(pre.drop_last() =~= "non_zero"@);
        assert(pre.drop_last()[0] != "hash_map"@[0]);
    }
}

/// A built-in type with one parameter, followed by where the text may end, reads back as that
/// type when its parameter does.
proof fn lemma_read_wrap(cs: Seq<char>, p: int, pre: Seq<char>, inner: Seq<char>, inner_shape: Shape)
    requires
        is_wrap_opening(pre),
        starts_with(cs, p, pre + inner + ">"@),
        stop_at(cs, p + pre.len() + inner.len() + 1),
        type_at(cs, p + pre.len()) == Parsed::Done(inner_shape, p + pre.len() + inner.len()),
    ensures
        type_at(cs, p) == Parsed::Done(
            Shape::Wrap(pre.drop_last(), Box::new(inner_shape)),
            p + pre.len() + inner.len() + 1,
        ),
{
    reveal_strlit(">");
    lemma_wrap_opening(pre);
    lemma_starts_concat(cs, p, pre + inner, ">"@);
    lemma_starts_concat(cs, p, pre, inner);
    lemma_run_in(cs, p, pre, 0, 0);
    lemma_run_in(cs, p, pre, 1, 0);
    let r0 = run_end(pre, 0, 0);
    assert(cs.subrange(p, p + r0) =~= pre.subrange(0, r0));
    assert(cs.subrange(p, p + r0)[0] == pre[0]);
    if is_plain_keyword(cs.subrange(p, p + r0)) {
        lemma_plain_first(cs.subrange(p, p + r0));
    }
    reveal_strlit("box<string>");
    reveal_strlit("box<bytes>");
    assert(cs[p] == pre[0]);
    assert(basic_at(cs, p) is Back);
    assert(cs.subrange(p, p + pre.len() - 1) =~= pre.drop_last());
    assert(cs[p + pre.len() - 1] == '<');
    let e1 = p + pre.len() + inner.len();
    assert(cs.subrange(e1, e1 + 1)[0] == cs[e1]);
    assert(cs[e1] == '>');
    assert(ws_end(cs, e1) == e1);
}

/// `hash_map<K, V>`, followed by where the text may end, reads back as that type when its
/// parameters do.
proof fn lemma_read_pair(
    cs: Seq<char>,
    p: int,
    key: Seq<char>,
    key_shape: Shape,
    value: Seq<char>,
    value_shape: Shape,
)
    requires
        starts_with(cs, p, "hash_map<"@ + key + ", "@ + value + ">"@),
        stop_at(cs, p + key.len() + value.len() + 12),
        value.len() > 0,
        !in_class(5, value[0]),
        type_at(cs, p + 9) == Parsed::Done(key_shape, p + 9 + key.len()),
        type_at(cs, p + 11 + key.len()) == Parsed::Done(
            value_shape,
            p + 11 + key.len() + value.len(),
        ),
    ensures
        type_at(cs, p) == Parsed::Done(
            Shape::Pair(Box::new(key_shape), Box::new(value_shape)),
            p + key.len() + value.len() + 12,
        ),
{
    let pre = "hash_map<"@;
    reveal_strlit("hash_map<");
    reveal_strlit("hash_map");
    reveal_strlit(", ");
    reveal_strlit(">");
    lemma_starts_concat(cs, p, pre + key + ", "@ + value, ">"@);
    lemma_starts_concat(cs, p, pre + key + ", "@, value);
    lemma_starts_concat(cs, p, pre + key, ", "@);
    lemma_starts_concat(cs, p, pre, key);
    lemma_run_word(pre, 0, 4, 0);
    lemma_run_word(pre, 1, 8, 0);
    lemma_run_in(cs, p, pre, 0, 0);
    lemma_run_in(cs, p, pre, 1, 0);
    assert(cs.subrange(p, p + 4)[0] == cs[p]);
    assert(cs.subrange(p, p + 9)[0] == cs[p]);
    if is_plain_keyword(cs.subrange(p, p + 4)) {
        lemma_plain_first(cs.subrange(p, p + 4));
    }
    reveal_strlit("box<string>");
    reveal_strlit("box<bytes>");
    assert(basic_at(cs, p) is Back);
    assert(cs.subrange(p, p + 8) =~= "hash_map"@);
    assert(cs.subrange(p, p + 9)[8] == cs[p + 8]);
    let e1 = p + 9 + key.len();
    assert(cs.subrange(e1, e1 + 2)[0] == cs[e1]);
    assert(cs.subrange(e1, e1 + 2)[1] == cs[e1 + 1]);
    assert(run_end(cs, e1, 5) == e1);
    assert(run_end(cs, e1 + 2, 5) == e1 + 2) by {
        assert(cs.subrange(e1 + 2, e1 + 2 + value.len())[0] == cs[e1 + 2]);
    }
    assert(run_end(cs, e1 + 1, 5) == e1 + 2);
    let e4 = e1 + 2 + value.len();
    assert(cs.subrange(e4, e4 + 1)[0] == cs[e4]);
    assert(ws_end(cs, e4) == e4);
    assert(is_wrap_keyword("hash_map"@) || "hash_map"@ == "hash_map"@);
}

/// The decimal form of a number is a run of digits with that value, without a leading zero but
/// for zero itself.
pub(crate) proof fn lemma_decimal(n: nat)
    ensures
        decimal(n).len() >= 1,
        forall|k: int| 0 <= k < decimal(n).len() ==> is_digit(#[trigger] decimal(n)[k]),
        digits_value(decimal(n)) == n,
        n == 0 ==> decimal(n) == seq!['0'],
        n > 0 ==> '1' <= decimal(n)[0] <= '9',
    decreases n,
{
    reveal_strlit("0");
    reveal_strlit("1");
    reveal_strlit("2");
    reveal_strlit("3");
    reveal_strlit("4");
    reveal_strlit("5");
    reveal_strlit("6");
    reveal_strlit("7");
    reveal_strlit("8");
    reveal_strlit("9");
    if n < 10 {
        let d = decimal(n);
        assert(d.drop_last() =~= Seq::<char>::empty());
        assert(d.len() == 1);
        assert(d.last() as nat == '0' as nat + n);
        assert(digits_value(d.drop_last()) == 0);
        assert(digits_value(d) == digits_value(d.drop_last()) * 10 + ((d.last() as nat
            - '0' as nat) as nat));
        assert(digits_value(d) == n);
        if n == 0 {
            assert(d =~= seq!['0']);
        }
    } else {
        lemma_decimal(n / 10);
        let head = decimal(n / 10);
        let tail = digit_text(n % 10);
        assert(decimal(n) == head + tail);
        assert((head + tail).drop_last() =~= head);
        assert(tail.len() == 1);
        assert((head + tail).last() == tail[0]);
        assert((n / 10) * 10 + n % 10 == n) by (nonlinear_arith);
        assert(tail[0] as nat == '0' as nat + n % 10);
        assert(digits_value(head + tail) == digits_value(head) * 10 + (n % 10));
        assert forall|k: int| 0 <= k < decimal(n).len() implies is_digit(
            #[trigger] decimal(n)[k],
        ) by {
            if k < head.len() {
                assert(decimal(n)[k] == head[k]);
            }
        }
    }
}

/// The decimal form of a number that fits in 32 bits, when no digit follows it, reads back as
/// that number.
pub(crate) proof fn lemma_read_uint(cs: Seq<char>, d: int, n: nat)
    requires
        n <= u32::MAX,
        starts_with(cs, d, decimal(n)),
        d + decimal(n).len() == cs.len() || !is_digit(cs[d + decimal(n).len()]),
    ensures
        uint_at(cs, d) == Some((n, d + decimal(n).len())),
{
    lemma_decimal(n);
    let text = decimal(n);
    assert(cs.subrange(d, d + text.len())[0] == cs[d]);
    if n > 0 {
        lemma_run_all(text, 6, 0);
        lemma_run_in(cs, d, text, 6, 0);
        assert(cs.subrange(d, d + text.len()) == text);
    }
}

/// An array, followed by where the text may end, reads back as that type when its element type
/// does.
proof fn lemma_read_array(cs: Seq<char>, p: int, inner: Seq<char>, inner_shape: Shape, size: nat)
    requires
        size <= u32::MAX,
        starts_with(cs, p, "["@ + inner + "; "@ + decimal(size) + "]"@),
        stop_at(cs, p + inner.len() + decimal(size).len() + 4),
        inner.len() > 0,
        !in_class(4, inner[0]),
        type_at(cs, p + 1) == Parsed::Done(inner_shape, p + 1 + inner.len()),
    ensures
        type_at(cs, p) == Parsed::Done(
            Shape::Array(Box::new(inner_shape), size),
            p + inner.len() + decimal(size).len() + 4,
        ),
{
    reveal_strlit("[");
    reveal_strlit("; ");
    reveal_strlit("]");
    let digits = decimal(size);
    lemma_decimal(size);
    lemma_starts_concat(cs, p, "["@ + inner + "; "@ + digits, "]"@);
    lemma_starts_concat(cs, p, "["@ + inner + "; "@, digits);
    lemma_starts_concat(cs, p, "["@ + inner, "; "@);
    lemma_starts_concat(cs, p, "["@, inner);
    assert(cs.subrange(p, p + 1)[0] == cs[p]);
    assert(cs[p] == '[');
    reveal_strlit("box<string>");
    reveal_strlit("box<bytes>");
    assert(run_end(cs, p, 0) == p);
    assert(run_end(cs, p, 1) == p);
    assert(basic_at(cs, p) is Back);
    assert(generic_at(cs, p) is Back);
    assert(tuple_at(cs, p) is Back);
    assert(cs.subrange(p + 1, p + 1 + inner.len())[0] == cs[p + 1]);
    assert(ws_end(cs, p + 1) == p + 1);
    let e = p + 1 + inner.len();
    assert(cs.subrange(e, e + 2)[0] == cs[e]);
    assert(cs.subrange(e, e + 2)[1] == cs[e + 1]);
    assert(ws_end(cs, e) == e);
    assert(cs.subrange(e + 2, e + 2 + digits.len())[0] == cs[e + 2]);
    assert(ws_end(cs, e + 2) == e + 2);
    assert(ws_end(cs, e + 1) == e + 2);
    let de = e + 2 + digits.len();
    assert(cs.subrange(de, de + 1)[0] == cs[de]);
    lemma_read_uint(cs, e + 2, size);
    assert(ws_end(cs, de) == de);
}

/// A tuple, followed by where the text may end, reads back as that type when its list does.
proof fn lemma_read_tuple(cs: Seq<char>, p: int, body: Seq<char>, items: Seq<(Shape, bool)>)
    requires
        starts_with(cs, p, "("@ + body + ")"@),
        stop_at(cs, p + body.len() + 2),
        items_at(cs, p + 1, true) == Parsed::Done(items, p + 1 + body.len()),
    ensures
        type_at(cs, p) == Parsed::Done(Shape::Tuple(items), p + body.len() + 2),
{
    reveal_strlit("(");
    reveal_strlit(")");
    lemma_starts_concat(cs, p, "("@ + body, ")"@);
    lemma_starts_concat(cs, p, "("@, body);
    assert(cs.subrange(p, p + 1)[0] == cs[p]);
    assert(cs[p] == '(');
    reveal_strlit("box<string>");
    reveal_strlit("box<bytes>");
    assert(run_end(cs, p, 0) == p);
    assert(run_end(cs, p, 1) == p);
    assert(basic_at(cs, p) is Back);
    assert(generic_at(cs, p) is Back);
    let e = p + 1 + body.len();
    assert(cs.subrange(e, e + 1)[0] == cs[e]);
    assert(ws_end(cs, e) == e);
}

/// Nothing that starts with `)` or `>` is a type.
pub(crate) proof fn lemma_no_type_at_close(cs: Seq<char>, q: int)
    requires
        0 <= q < cs.len(),
        cs[q] == ')' || cs[q] == '>',
    ensures
        type_at(cs, q) is Back,
{
    reveal_strlit("box<string>");
    reveal_strlit("box<bytes>");
    assert(run_end(cs, q, 0) == q);
    assert(run_end(cs, q, 1) == q);
    if starts_with(cs, q, "box<string>"@) {
        assert(cs.subrange(q, q + 11)[0] == cs[q]);
    }
    if starts_with(cs, q, "box<bytes>"@) {
        assert(cs.subrange(q, q + 10)[0] == cs[q]);
    }
    assert(basic_at(cs, q) is Back);
    assert(generic_at(cs, q) is Back);
    assert(tuple_at(cs, q) is Back);
    assert(array_at(cs, q) is Back);
    assert(path_at(cs, q) == (Seq::<Seq<char>>::empty(), q));
    assert(external_at(cs, q) is Back);
}

/// A module name: a lowercase letter, then lowercase letters, digits and underscores.
pub open spec fn segment_ok(s: Seq<char>) -> bool {
    &&& s.len() >= 1
    &&& is_lower(s[0])
    &&& forall|k: int| 1 <= k < s.len() ==> in_class(2, #[trigger] s[k])
}

/// A type name: an uppercase letter, then letters, digits and underscores.
pub open spec fn name_ok(s: Seq<char>) -> bool {
    &&& s.len() >= 1
    &&& is_upper(s[0])
    &&& forall|k: int| 1 <= k < s.len() ==> in_class(3, #[trigger] s[k])
}

/// The first module of a path does not start like a built-in type: its keyword characters do not
/// form a keyword of one without parameters, nor its letters and underscores the keyword of one
/// with parameters.
pub open spec fn lead_ok(s: Seq<char>) -> bool {
    let r0 = run_end(s, 0, 0);
    let r1 = run_end(s, 0, 1);
    &&& !(r0 >= 2 && is_plain_keyword(s.take(r0)))
    &&& !(r1 >= 3 && (is_wrap_keyword(s.take(r1)) || s.take(r1) == "hash_map"@))
}

/// A module path that reads back: every module name follows the grammar, and the first does not
/// start like a built-in type.
pub open spec fn path_ok(segs: Seq<Seq<char>>) -> bool {
    &&& forall|i: int| 0 <= i < segs.len() ==> segment_ok(#[trigger] segs[i])
    &&& segs.len() > 0 ==> lead_ok(segs[0])
}

/// Whether a data type reads back from its text: the names of its external types follow the
/// grammar.
pub open spec fn printable(t: Type) -> bool
    decreases t, 0nat,
{
    match t.value {
        DataType::Vec { ty, .. } => printable(*ty),
        DataType::HashMap { key, value, .. } => printable(*key) && printable(*value),
        DataType::HashSet { ty, .. } => printable(*ty),
        DataType::Option { ty, .. } => printable(*ty),
        DataType::NonZero { ty, .. } => printable(*ty),
        DataType::Tuple { types, .. } => all_printable(types, 0),
        DataType::Array { ty, .. } => printable(*ty),
        DataType::External(e) => path_ok(segments(e.path@)) && name_ok(e.name.spec_get())
            && match e.generics {
            Some(g) => all_printable(g, 0),
            None => true,
        },
        _ => true,
    }
}

/// Whether the types of a list from position `i` on read back from their text.
pub open spec fn all_printable(types: Punctuated<Type>, i: int) -> bool
    decreases types, types.items().len() - i,
{
    if 0 <= i < types.items().len() {
        proof {
            types.lemma_items_decrease();
        }
        printable(types.items()[i]) && all_printable(types, i + 1)
    } else {
        true
    }
}

/// The text of a module path: each name followed by `::`.
pub open spec fn segs_text(segs: Seq<Seq<char>>) -> Seq<char>
    decreases segs.len(),
{
    if segs.len() == 0 {
        Seq::empty()
    } else {
        segs_text(segs.drop_last()) + segs.last() + "::"@
    }
}

/// The printed path is the text of its names.
proof fn lemma_path_text(path: Seq<(Name, DoubleColon)>)
    ensures
        path_text(path) == segs_text(segments(path)),
    decreases path.len(),
{
    if path.len() > 0 {
        lemma_path_text(path.drop_last());
        assert(segments(path).drop_last() =~= segments(path.drop_last()));
    }
}

/// The text of a path starts with its first name and `::`.
proof fn lemma_segs_text_front(segs: Seq<Seq<char>>)
    requires
        segs.len() > 0,
    ensures
        segs_text(segs) == segs[0] + "::"@ + segs_text(segs.drop_first()),
    decreases segs.len(),
{
    if segs.len() == 1 {
        assert(segs.drop_last() =~= Seq::<Seq<char>>::empty());
        assert(segs.drop_first() =~= Seq::<Seq<char>>::empty());
        assert(segs_text(segs) =~= segs[0] + "::"@ + segs_text(segs.drop_first()));
    } else {
        lemma_segs_text_front(segs.drop_last());
        assert(segs.drop_last().drop_first() =~= segs.drop_first().drop_last());
        assert(segs.drop_first().last() == segs.last());
        assert(segs_text(segs) =~= segs[0] + "::"@ + segs_text(segs.drop_first()));
    }
}

/// A module path, followed by a type name, reads back as its names.
proof fn lemma_read_path(cs: Seq<char>, q: int, segs: Seq<Seq<char>>)
    requires
        forall|i: int| 0 <= i < segs.len() ==> segment_ok(#[trigger] segs[i]),
        starts_with(cs, q, segs_text(segs)),
        q + segs_text(segs).len() < cs.len(),
        is_upper(cs[q + segs_text(segs).len()]),
    ensures
        path_at(cs, q) == (segs, q + segs_text(segs).len()),
    decreases segs.len(),
{
    reveal_strlit("::");
    if segs.len() == 0 {
        assert(path_at(cs, q) == (Seq::<Seq<char>>::empty(), q));
        assert(segs =~= Seq::<Seq<char>>::empty());
    } else {
        let s0 = segs[0];
        assert(segment_ok(s0));
        lemma_segs_text_front(segs);
        lemma_starts_concat(cs, q, s0 + "::"@, segs_text(segs.drop_first()));
        lemma_starts_concat(cs, q, s0, "::"@);
        assert(cs.subrange(q, q + s0.len())[0] == cs[q]);
        let e = q + s0.len();
        assert(cs.subrange(e, e + 2)[0] == cs[e]);
        lemma_run_all(s0, 2, 0);
        lemma_run_all(s0, 2, 1);
        lemma_run_in(cs, q, s0, 2, 1);
        assert(forall|i: int|
            0 <= i < segs.drop_first().len() ==> #[trigger] segs.drop_first()[i] == segs[i + 1]);
        lemma_read_path(cs, e + 2, segs.drop_first());
        assert(cs.subrange(q, e) == s0);
        assert(seq![s0] + segs.drop_first() =~= segs);
    }
}

/// The text of the generic arguments of an external type, if it has some.
pub open spec fn generics_body_text(gen: Option<(Seq<char>, Seq<(Shape, bool)>)>) -> Seq<char> {
    match gen {
        Some((body, _)) => "<"@ + body + ">"@,
        None => Seq::empty(),
    }
}

/// A text that starts with a module name and `::` does not start with `box<`.
proof fn lemma_path_not_box(cs: Seq<char>, p: int, s0: Seq<char>, w: Seq<char>)
    requires
        segment_ok(s0),
        starts_with(cs, p, s0 + "::"@),
        w == "box<string>"@ || w == "box<bytes>"@,
    ensures
        !starts_with(cs, p, w),
{
    reveal_strlit("::");
    reveal_strlit("box<string>");
    reveal_strlit("box<bytes>");
    lemma_starts_concat(cs, p, s0, "::"@);
    let m = s0.len() as int;
    assert(cs.subrange(p + m, p + m + 2)[0] == cs[p + m]);
    if starts_with(cs, p, w) {
        if m >= 4 {
            assert(cs.subrange(p, p + m)[3] == cs[p + 3]);
            assert(in_class(2, s0[3]));
            assert(cs.subrange(p, p + w.len())[3] == cs[p + 3]);
        } else {
            assert(cs.subrange(p, p + w.len())[m] == cs[p + m]);
        }
    }
}

/// An external type, followed by where the text may end, reads back as that type when its list
/// of generic arguments does.
proof fn lemma_read_external(
    cs: Seq<char>,
    p: int,
    segs: Seq<Seq<char>>,
    name: Seq<char>,
    gen: Option<(Seq<char>, Seq<(Shape, bool)>)>,
)
    requires
        path_ok(segs),
        name_ok(name),
        starts_with(cs, p, segs_text(segs) + name + generics_body_text(gen)),
        stop_at(cs, p + segs_text(segs).len() + name.len() + generics_body_text(gen).len()),
        gen matches Some((body, items)) ==> items_at(
            cs,
            p + segs_text(segs).len() + name.len() + 1,
            true,
        ) == Parsed::Done(items, p + segs_text(segs).len() + name.len() + 1 + body.len()),
    ensures
        type_at(cs, p) == Parsed::Done(
            Shape::External(
                segs,
                name,
                match gen {
                    Some((_, items)) => Some(items),
                    None => None,
                },
            ),
            p + segs_text(segs).len() + name.len() + generics_body_text(gen).len(),
        ),
{
    reveal_strlit("<");
    reveal_strlit(">");
    reveal_strlit("::");
    reveal_strlit("box<string>");
    reveal_strlit("box<bytes>");
    let path = segs_text(segs);
    let q = p + path.len();
    let ne = q + name.len();
    lemma_starts_concat(cs, p, path + name, generics_body_text(gen));
    lemma_starts_concat(cs, p, path, name);
    assert(cs.subrange(q, ne)[0] == cs[q]);
    lemma_read_path(cs, p, segs);
    // Neither a built-in type without parameters nor one with parameters starts here.
    if segs.len() == 0 {
        assert(cs[p] == name[0]);
        assert(run_end(cs, p, 0) == p);
        assert(run_end(cs, p, 1) == p);
        if starts_with(cs, p, "box<string>"@) {
            assert(cs.subrange(p, p + 11)[0] == cs[p]);
        }
        if starts_with(cs, p, "box<bytes>"@) {
            assert(cs.subrange(p, p + 10)[0] == cs[p]);
        }
    } else {
        let s0 = segs[0];
        assert(segment_ok(s0));
        lemma_segs_text_front(segs);
        lemma_starts_concat(cs, p, s0 + "::"@, segs_text(segs.drop_first()));
        lemma_starts_concat(cs, p, s0, "::"@);
        let m = s0.len() as int;
        assert(cs.subrange(p + m, p + m + 2)[0] == cs[p + m]);
        assert(cs.subrange(p, p + m)[0] == cs[p]);
        lemma_run_in(cs, p, s0, 0, 0);
        lemma_run_in(cs, p, s0, 1, 0);
        lemma_run_end(s0, 0, 0);
        lemma_run_end(s0, 0, 1);
        assert(cs.subrange(p, run_end(cs, p, 0)) =~= s0.take(run_end(s0, 0, 0)));
        assert(cs.subrange(p, run_end(cs, p, 1)) =~= s0.take(run_end(s0, 0, 1)));
        lemma_path_not_box(cs, p, s0, "box<string>"@);
        lemma_path_not_box(cs, p, s0, "box<bytes>"@);
    }
    assert(basic_at(cs, p) is Back);
    assert(generic_at(cs, p) is Back);
    assert(tuple_at(cs, p) is Back);
    assert(array_at(cs, p) is Back);
    // The name.
    match gen {
        Some((body, _)) => {
            lemma_starts_concat(cs, ne, "<"@ + body, ">"@);
            lemma_starts_concat(cs, ne, "<"@, body);
            assert(cs.subrange(ne, ne + 1)[0] == cs[ne]);
        },
        None => {
            assert(generics_body_text(gen).len() == 0);
        },
    }
    lemma_run_all(name, 3, 0);
    lemma_run_all(name, 3, 1);
    lemma_run_in(cs, q, name, 3, 1);
    assert(cs.subrange(q, ne) == name);
    match gen {
        Some((body, items)) => {
            lemma_starts_concat(cs, ne, "<"@ + body, ">"@);
            lemma_starts_concat(cs, ne, "<"@, body);
            assert(cs.subrange(ne, ne + 1)[0] == cs[ne]);
            let e = ne + 1 + body.len();
            assert(cs.subrange(e, e + 1)[0] == cs[e]);
            assert(ws_end(cs, e) == e);
        },
        None => {},
    }
}

/// The pieces of a text made of an opening, an inner text and a closing character: the inner text
/// stands after the opening and is followed by the closing character.
proof fn lemma_inner_parts(cs: Seq<char>, p: int, pre: Seq<char>, inner: Seq<char>, close: Seq<char>)
    requires
        starts_with(cs, p, pre + inner + close),
        close.len() == 1,
        close[0] == ')' || close[0] == ']' || close[0] == '>' || close[0] == ',' || close[0] == ';',
    ensures
        starts_with(cs, p + pre.len(), inner),
        stop_at(cs, p + pre.len() + inner.len()),
        cs[p + pre.len() + inner.len()] == close[0],
{
    lemma_starts_concat(cs, p, pre + inner, close);
    lemma_starts_concat(cs, p, pre, inner);
    let e = p + pre.len() + inner.len();
    assert(cs.subrange(e, e + 1)[0] == cs[e]);
}

/// The pieces of the text of `hash_map<K, V>`.
proof fn lemma_pair_parts(cs: Seq<char>, p: int, k: Seq<char>, v: Seq<char>)
    requires
        starts_with(cs, p, "hash_map<"@ + k + ", "@ + v + ">"@),
    ensures
        starts_with(cs, p + 9, k),
        stop_at(cs, p + 9 + k.len()),
        starts_with(cs, p + 11 + k.len(), v),
        stop_at(cs, p + 11 + k.len() + v.len()),
        ("hash_map<"@ + k + ", "@ + v + ">"@).len() == k.len() + v.len() + 12,
        ("hash_map<"@ + k + ", "@ + v + ">"@)[0] == 'h',
{
    reveal_strlit("hash_map<");
    reveal_strlit(", ");
    reveal_strlit(">");
    lemma_starts_concat(cs, p, "hash_map<"@ + k + ", "@ + v, ">"@);
    assert("hash_map<"@ + k + ", "@ + v =~= "hash_map<"@ + k + (", "@ + v));
    lemma_starts_concat(cs, p, "hash_map<"@ + k, ", "@ + v);
    lemma_starts_concat(cs, p + 9 + k.len(), ", "@, v);
    lemma_starts_concat(cs, p, "hash_map<"@, k);
    let e1 = p + 9 + k.len();
    assert(cs.subrange(e1, e1 + 2 + v.len())[0] == cs[e1]);
    assert((", "@ + v)[0] == ',');
    let e4 = p + 11 + k.len() + v.len();
    assert(cs.subrange(e4, e4 + 1)[0] == cs[e4]);
}

/// The pieces of the text of a tuple.
proof fn lemma_tuple_parts(cs: Seq<char>, p: int, types: Punctuated<Type>)
    requires
        starts_with(cs, p, "("@ + types_text(types, 0) + ")"@),
    ensures
        starts_with(cs, p + 1, lead(types, 0) + types_text(types, 0)),
        p + 1 + types_text(types, 0).len() < cs.len(),
        cs[p + 1 + types_text(types, 0).len()] == ')',
        types.items().len() >= 1,
        ("("@ + types_text(types, 0) + ")"@).len() == types_text(types, 0).len() + 2,
        ("("@ + types_text(types, 0) + ")"@)[0] == '(',
{
    reveal_strlit("(");
    reveal_strlit(")");
    lemma_inner_parts(cs, p, "("@, types_text(types, 0), ")"@);
    assert(lead(types, 0) + types_text(types, 0) =~= types_text(types, 0));
    types.lemma_not_empty();
}

/// The pieces of the text of an array.
proof fn lemma_array_parts(cs: Seq<char>, p: int, inner: Seq<char>, size: nat)
    requires
        starts_with(cs, p, "["@ + inner + "; "@ + decimal(size) + "]"@),
    ensures
        starts_with(cs, p + 1, inner),
        stop_at(cs, p + 1 + inner.len()),
        ("["@ + inner + "; "@ + decimal(size) + "]"@).len() == inner.len() + decimal(size).len() + 4,
        ("["@ + inner + "; "@ + decimal(size) + "]"@)[0] == '[',
{
    reveal_strlit("]");
    reveal_strlit("[");
    reveal_strlit("; ");
    let digits = decimal(size);
    lemma_starts_concat(cs, p, "["@ + inner + "; "@ + digits, "]"@);
    lemma_starts_concat(cs, p, "["@ + inner + "; "@, digits);
    lemma_starts_concat(cs, p, "["@ + inner, "; "@);
    lemma_starts_concat(cs, p, "["@, inner);
    let e = p + 1 + inner.len();
    assert(cs.subrange(e, e + 2)[0] == cs[e]);
}

/// The separator in front of the type at position `i` of a list: a space, but for the first one
/// and for the empty rest after a trailing comma.
pub open spec fn lead(types: Punctuated<Type>, i: int) -> Seq<char> {
    if 0 < i < types.items().len() {
        " "@
    } else {
        Seq::empty()
    }
}

/// The generic arguments of an external type: their text and their shapes.
pub open spec fn generics_read(e: ExternalType) -> Option<(Seq<char>, Seq<(Shape, bool)>)> {
    match e.generics {
        Some(g) => Some((types_text(g, 0), shapes_from(g, 0))),
        None => None,
    }
}

/// The parameter of a built-in type with one parameter.
pub open spec fn wrapped(value: DataType) -> Option<Type> {
    match value {
        DataType::Vec { ty, .. } => Some(*ty),
        DataType::HashSet { ty, .. } => Some(*ty),
        DataType::Option { ty, .. } => Some(*ty),
        DataType::NonZero { ty, .. } => Some(*ty),
        _ => None,
    }
}

/// The pieces of the text of a built-in type with one parameter.
proof fn lemma_wrap_parts(cs: Seq<char>, p: int, t: Type, inner: Type)
    requires
        wrapped(t.value) == Some(inner),
        starts_with(cs, p, type_text(t)),
        stop_at(cs, p + type_text(t).len()),
    ensures
        ({
            let pre = type_text(t).take(type_text(t).len() - type_text(inner).len() - 1);
            &&& is_wrap_opening(pre)
            &&& type_text(t) == pre + type_text(inner) + ">"@
            &&& shape(t) == Shape::Wrap(pre.drop_last(), Box::new(shape(inner)))
            &&& starts_with(cs, p + pre.len(), type_text(inner))
            &&& stop_at(cs, p + pre.len() + type_text(inner).len())
            &&& stop_at(cs, p + pre.len() + type_text(inner).len() + 1)
            &&& !in_class(4, type_text(t)[0])
        }),
{
    reveal_strlit(">");
    let text = type_text(t);
    let inner_text = type_text(inner);
    let pre = text.take(text.len() - inner_text.len() - 1);
    let word = if t.value is Vec {
        reveal_strlit("vec<");
        reveal_strlit("vec");
        assert("vec<"@.drop_last() =~= "vec"@);
        "vec<"@
    } else if t.value is HashSet {
        reveal_strlit("hash_set<");
        reveal_strlit("hash_set");
        assert("hash_set<"@.drop_last() =~= "hash_set"@);
        "hash_set<"@
    } else if t.value is Option {
        reveal_strlit("option<");
        reveal_strlit("option");
        assert("option<"@.drop_last() =~= "option"@);
        "option<"@
    } else {
        reveal_strlit("non_zero<");
        reveal_strlit("non_zero");
        assert("non_zero<"@.drop_last() =~= "non_zero"@);
        "non_zero<"@
    };
    assert(text == word + inner_text + ">"@);
    assert(pre =~= word);
    lemma_inner_parts(cs, p, word, inner_text, ">"@);
}

/// The pieces of the text of an external type.
proof fn lemma_external_parts(cs: Seq<char>, p: int, t: Type, e: ExternalType)
    requires
        t.value == DataType::External(e),
        printable(t),
        starts_with(cs, p, type_text(t)),
    ensures
        type_text(t) == segs_text(segments(e.path@)) + e.name.spec_get() + generics_body_text(
            generics_read(e),
        ),
        type_text(t).len() > 0,
        !in_class(4, type_text(t)[0]),
        e.generics matches Some(g) ==> {
            let ne = p + segs_text(segments(e.path@)).len() + e.name.spec_get().len();
            &&& g.items().len() >= 1
            &&& starts_with(cs, ne + 1, lead(g, 0) + types_text(g, 0))
            &&& ne + 1 + types_text(g, 0).len() < cs.len()
            &&& cs[ne + 1 + types_text(g, 0).len()] == '>'
        },
{
    reveal_strlit("<");
    reveal_strlit(">");
    lemma_path_text(e.path@);
    let segs = segments(e.path@);
    let name = e.name.spec_get();
    let text = type_text(t);
    assert(text =~= segs_text(segs) + name + generics_body_text(generics_read(e)));
    lemma_starts_concat(cs, p, segs_text(segs) + name, generics_body_text(generics_read(e)));
    lemma_starts_concat(cs, p, segs_text(segs), name);
    let ne = p + segs_text(segs).len() + name.len();
    match e.generics {
        Some(g) => {
            lemma_inner_parts(cs, ne, "<"@, types_text(g, 0), ">"@);
            assert(lead(g, 0) + types_text(g, 0) =~= types_text(g, 0));
            g.lemma_not_empty();
        },
        None => {},
    }
    if segs.len() > 0 {
        lemma_segs_text_front(segs);
        assert(segment_ok(segs[0]));
        assert(text[0] == segs[0][0]);
    } else {
        assert(text[0] == name[0]);
    }
}

/// A data type's text, followed by where the text may end, reads back as that type: parsing gives
/// back what printing wrote, for every type whose names follow the grammar.
#[verifier::spinoff_prover]
#[verifier::rlimit(40)]
pub(crate) proof fn lemma_read_type(cs: Seq<char>, p: int, t: Type)
    requires
        printable(t),
        starts_with(cs, p, type_text(t)),
        stop_at(cs, p + type_text(t).len()),
    ensures
        type_at(cs, p) == Parsed::Done(shape(t), p + type_text(t).len()),
        type_text(t).len() > 0,
        !in_class(4, type_text(t)[0]),
    decreases t, 0nat,
{
    let text = type_text(t);
    match t.value {
        DataType::Vec { ty, .. } => {
            lemma_wrap_parts(cs, p, t, *ty);
            let pre = text.take(text.len() - type_text(*ty).len() - 1);
            lemma_read_type(cs, p + pre.len(), *ty);
            lemma_read_wrap(cs, p, pre, type_text(*ty), shape(*ty));
        },
        DataType::HashSet { ty, .. } => {
            lemma_wrap_parts(cs, p, t, *ty);
            let pre = text.take(text.len() - type_text(*ty).len() - 1);
            lemma_read_type(cs, p + pre.len(), *ty);
            lemma_read_wrap(cs, p, pre, type_text(*ty), shape(*ty));
        },
        DataType::Option { ty, .. } => {
            lemma_wrap_parts(cs, p, t, *ty);
            let pre = text.take(text.len() - type_text(*ty).len() - 1);
            lemma_read_type(cs, p + pre.len(), *ty);
            lemma_read_wrap(cs, p, pre, type_text(*ty), shape(*ty));
        },
        DataType::NonZero { ty, .. } => {
            lemma_wrap_parts(cs, p, t, *ty);
            let pre = text.take(text.len() - type_text(*ty).len() - 1);
            lemma_read_type(cs, p + pre.len(), *ty);
            lemma_read_wrap(cs, p, pre, type_text(*ty), shape(*ty));
        },
        DataType::HashMap { key, value, .. } => {
            let k = type_text(*key);
            let v = type_text(*value);
            lemma_pair_parts(cs, p, k, v);
            lemma_read_type(cs, p + 9, *key);
            lemma_read_type(cs, p + 11 + k.len(), *value);
            lemma_read_pair(cs, p, k, shape(*key), v, shape(*value));
        },
        DataType::Tuple { types, .. } => {
            lemma_tuple_parts(cs, p, types);
            lemma_read_items(cs, p + 1, types, 0);
            lemma_read_tuple(cs, p, types_text(types, 0), shapes_from(types, 0));
        },
        DataType::Array { ty, size, .. } => {
            lemma_array_parts(cs, p, type_text(*ty), size as nat);
            lemma_read_type(cs, p + 1, *ty);
            lemma_read_array(cs, p, type_text(*ty), shape(*ty), size as nat);
        },
        DataType::External(e) => {
            lemma_external_parts(cs, p, t, e);
            match e.generics {
                Some(g) => {
                    lemma_read_items(
                        cs,
                        p + segs_text(segments(e.path@)).len() + e.name.spec_get().len() + 1,
                        g,
                        0,
                    );
                },
                None => {},
            }
            lemma_read_external(cs, p, segments(e.path@), e.name.spec_get(), generics_read(e));
        },
        DataType::BoxString => {
            reveal_strlit("box<string>");
            lemma_read_box(cs, p, text);
        },
        DataType::BoxBytes => {
            reveal_strlit("box<bytes>");
            lemma_read_box(cs, p, text);
        },
        _ => {
            assert(is_plain_keyword(text));
            lemma_plain_first(text);
            lemma_read_plain(cs, p, text);
        },
    }
}

/// The text of the types of a list from position `i` on, after its separator and followed by
/// `)` or `>`, reads back as their shapes.
proof fn lemma_read_items(cs: Seq<char>, q: int, types: Punctuated<Type>, i: int)
    requires
        all_printable(types, i),
        0 <= i <= types.items().len(),
        starts_with(cs, q, lead(types, i) + types_text(types, i)),
        q + lead(types, i).len() + types_text(types, i).len() < cs.len(),
        cs[q + lead(types, i).len() + types_text(types, i).len()] == ')' || cs[q + lead(
            types,
            i,
        ).len() + types_text(types, i).len()] == '>',
        i == types.items().len() ==> types.spec_punct(types.items().len() - 1),
    ensures
        items_at(cs, q, i == 0) == Parsed::Done(
            shapes_from(types, i),
            q + lead(types, i).len() + types_text(types, i).len(),
        ),
    decreases types, types.items().len() - i,
{
    reveal_strlit(" ");
    reveal_strlit(",");
    let n = types.items().len();
    types.lemma_not_empty();
    types.lemma_items_decrease();
    types.lemma_punct_between();
    let sep = lead(types, i);
    let body = types_text(types, i);
    let end = q + sep.len() + body.len();
    if i == n {
        assert(body.len() == 0);
        assert(sep.len() == 0);
        assert(ws_end(cs, q) == q);
        lemma_no_type_at_close(cs, q);
        assert(shapes_from(types, i) =~= Seq::<(Shape, bool)>::empty());
    } else {
        let item = types.items()[i];
        let text = type_text(item);
        let comma = if types.spec_punct(i) {
            ","@
        } else {
            Seq::empty()
        };
        let space = if i < n - 1 {
            " "@
        } else {
            Seq::empty()
        };
        let rest = types_text(types, i + 1);
        assert(body == text + comma + space + rest);
        lemma_starts_concat(cs, q, sep, body);
        let s0 = q + sep.len();
        lemma_starts_concat(cs, s0, text + comma + space, rest);
        lemma_starts_concat(cs, s0, text + comma, space);
        lemma_starts_concat(cs, s0, text, comma);
        let e = s0 + text.len();
        if types.spec_punct(i) {
            assert(cs.subrange(e, e + 1)[0] == cs[e]);
        } else {
            assert(rest.len() == 0);
        }
        lemma_read_type(cs, s0, item);
        assert(cs.subrange(s0, s0 + text.len())[0] == cs[s0]);
        if sep.len() > 0 {
            assert(cs.subrange(q, q + 1)[0] == cs[q]);
            assert(ws_end(cs, q + 1) == q + 1);
        }
        assert(ws_end(cs, q) == s0);
        assert(ws_end(cs, e) == e);
        if types.spec_punct(i) {
            assert(space == lead(types, i + 1));
            assert(lead(types, i + 1) + rest =~= space + rest);
            assert(text + comma + space + rest =~= text + (comma + (space + rest)));
            lemma_starts_concat(cs, s0, text, comma + (space + rest));
            lemma_starts_concat(cs, e, comma, space + rest);
            lemma_read_items(cs, e + 1, types, i + 1);
            assert(shapes_from(types, i) == seq![(shape(item), true)] + shapes_from(types, i + 1));
        } else {
            assert(shapes_from(types, i + 1) =~= Seq::<(Shape, bool)>::empty());
            assert(shapes_from(types, i) =~= seq![(shape(item), false)]);
        }
    }
}

/// Parsing reads back what printing wrote: the text of a data type whose names follow the grammar
/// parses as that type, and the parse takes up the whole text.
pub proof fn law_parse_printed_type(t: Type)
    requires
        printable(t),
    ensures
        type_at(type_text(t), 0) == Parsed::Done(shape(t), type_text(t).len() as int),
{
    let text = type_text(t);
    assert(text.subrange(0, text.len() as int) =~= text);
    lemma_read_type(text, 0, t);
}

} // verus!
