//! Printing of schema elements back into their textual Mabo form, with indentation.

use super::punctuated::Punctuated;
use super::{
    Attribute, AttributeValue, Attributes, Comment, CommentLine, Const, DataType, Definition, Enum,
    Fields, Generics, Id, Import, Literal, LiteralValue, Module, Name, NamedField, Schema, Struct,
    Type, TypeAlias, UnnamedField, Variant,
};
use vstd::prelude::*;
use vstd::string::StringExecFns;

verus! {

/// Printing like `Display`, with the addition of indentation awareness.
pub trait Print {
    /// The text that this element prints as, at the given indentation level.
    spec fn text(&self, level: nat) -> Seq<char>;

    /// The deeper indentation levels that nested elements are printed at stay below
    /// `usize::MAX`.
    spec fn fits(&self, level: nat) -> bool;

    /// Append the text of this element, taking the indentation level into account.
    fn print(&self, out: &mut String, level: usize)
        requires
            self.fits(level as nat),
        ensures
            final(out)@ == old(out)@ + self.text(level as nat),
    ;
}

/// The element written out in its textual form (at indentation level zero), like `Display`.
pub fn to_text<T: Print>(value: &T) -> (r: String)
    requires
        value.fits(0),
    ensures
        r@ == value.text(0),
{
    let mut out = String::new();
    value.print(&mut out, 0);
    proof {
        assert(out@ =~= value.text(0));
    }
    out
}

// ------------------------------------------------------------------------------------------------
// Basic pieces
// ------------------------------------------------------------------------------------------------

/// The indentation for a level: four spaces per level.
pub open spec fn indent_text(level: nat) -> Seq<char>
    decreases level,
{
    if level == 0 {
        Seq::empty()
    } else {
        indent_text((level - 1) as nat) + "    "@
    }
}

/// Append the indentation for the given level.
pub fn indent(out: &mut String, level: usize)
    ensures
        final(out)@ == old(out)@ + indent_text(level as nat),
{
    let ghost start = out@;
    let mut k: usize = 0;
    while k < level
        invariant
            k <= level,
            out@ == start + indent_text(k as nat),
        decreases level - k,
    {
        out.append("    ");
        proof {
            assert(out@ =~= start + indent_text((k + 1) as nat));
        }
        k = k + 1;
    }
}

/// The decimal digit for a value below ten.
pub open spec fn digit_text(d: nat) -> Seq<char> {
    if d == 0 {
        "0"@
    } else if d == 1 {
        "1"@
    } else if d == 2 {
        "2"@
    } else if d == 3 {
        "3"@
    } else if d == 4 {
        "4"@
    } else if d == 5 {
        "5"@
    } else if d == 6 {
        "6"@
    } else if d == 7 {
        "7"@
    } else if d == 8 {
        "8"@
    } else {
        "9"@
    }
}

/// The decimal form of a natural number, without leading zeros.
pub open spec fn decimal(n: nat) -> Seq<char>
    decreases n,
{
    if n < 10 {
        digit_text(n)
    } else {
        decimal(n / 10) + digit_text(n % 10)
    }
}

/// The decimal form of an integer, with a leading `-` for negative ones.
pub open spec fn int_text(n: int) -> Seq<char> {
    if n < 0 {
        "-"@ + decimal((-n) as nat)
    } else {
        decimal(n as nat)
    }
}

/// The text of a decimal digit.
fn digit(d: u128) -> (r: &'static str)
    requires
        d < 10,
    ensures
        r@ == digit_text(d as nat),
{
    if d == 0 {
        "0"
    } else if d == 1 {
        "1"
    } else if d == 2 {
        "2"
    } else if d == 3 {
        "3"
    } else if d == 4 {
        "4"
    } else if d == 5 {
        "5"
    } else if d == 6 {
        "6"
    } else if d == 7 {
        "7"
    } else if d == 8 {
        "8"
    } else {
        "9"
    }
}

/// Append the decimal form of a number.
pub fn print_decimal(out: &mut String, n: u128)
    ensures
        final(out)@ == old(out)@ + decimal(n as nat),
    decreases n,
{
    if n < 10 {
        out.append(digit(n));
    } else {
        let ghost start = out@;
        print_decimal(out, n / 10);
        out.append(digit(n % 10));
        proof {
            assert(out@ =~= start + decimal(n as nat));
        }
    }
}

/// Append the decimal form of a signed number.
pub fn print_int(out: &mut String, n: i128)
    ensures
        final(out)@ == old(out)@ + int_text(n as int),
{
    if n < 0 {
        let ghost start = out@;
        out.append("-");
        let magnitude: u128 = (-(n + 1)) as u128 + 1;
        print_decimal(out, magnitude);
        proof {
            assert(out@ =~= start + int_text(n as int));
        }
    } else {
        print_decimal(out, n as u128);
    }
}

// ------------------------------------------------------------------------------------------------
// Names, identifiers, types
// ------------------------------------------------------------------------------------------------

/// The text of an identifier: `@` and its value.
pub open spec fn id_text(id: Id) -> Seq<char> {
    "@"@ + decimal(id.spec_get() as nat)
}

/// Append the text of an identifier.
pub fn print_id(out: &mut String, id: &Id)
    ensures
        final(out)@ == old(out)@ + id_text(*id),
{
    let ghost start = out@;
    out.append("@");
    print_decimal(out, id.get() as u128);
    proof {
        assert(out@ =~= start + id_text(*id));
    }
}

/// The text of a data type, as written in a schema.
pub open spec fn type_text(ty: Type) -> Seq<char>
    decreases ty, 0nat,
{
    match ty.value {
        DataType::Bool => "bool"@,
        DataType::U8 => "u8"@,
        DataType::U16 => "u16"@,
        DataType::U32 => "u32"@,
        DataType::U64 => "u64"@,
        DataType::U128 => "u128"@,
        DataType::I8 => "i8"@,
        DataType::I16 => "i16"@,
        DataType::I32 => "i32"@,
        DataType::I64 => "i64"@,
        DataType::I128 => "i128"@,
        DataType::F32 => "f32"@,
        DataType::F64 => "f64"@,
        DataType::String => "string"@,
        DataType::StringRef => "&string"@,
        DataType::Bytes => "bytes"@,
        DataType::BytesRef => "&bytes"@,
        DataType::Vec { ty: inner, .. } => "vec<"@ + type_text(*inner) + ">"@,
        DataType::HashMap { key, value, .. } => "hash_map<"@ + type_text(*key) + ", "@ + type_text(
            *value,
        ) + ">"@,
        DataType::HashSet { ty: inner, .. } => "hash_set<"@ + type_text(*inner) + ">"@,
        DataType::Option { ty: inner, .. } => "option<"@ + type_text(*inner) + ">"@,
        DataType::NonZero { ty: inner, .. } => "non_zero<"@ + type_text(*inner) + ">"@,
        DataType::BoxString => "box<string>"@,
        DataType::BoxBytes => "box<bytes>"@,
        DataType::Tuple { types, .. } => "("@ + types_text(types, 0) + ")"@,
        DataType::Array { ty: inner, size, .. } => "["@ + type_text(*inner) + "; "@ + decimal(
            size as nat,
        ) + "]"@,
        DataType::External(e) => path_text(e.path@) + e.name.spec_get() + match e.generics {
            Some(g) => "<"@ + types_text(g, 0) + ">"@,
            None => Seq::empty(),
        },
    }
}

/// The text of the types of a list from position `i` on: each followed by its punctuation and,
/// but for the last, a space.
pub open spec fn types_text(types: Punctuated<Type>, i: int) -> Seq<char>
    decreases types, types.items().len() - i,
{
    if 0 <= i < types.items().len() {
        proof {
            types.lemma_items_decrease();
        }
        type_text(types.items()[i]) + (if types.spec_punct(i) {
            ","@
        } else {
            Seq::empty()
        }) + (if i < types.items().len() - 1 {
            " "@
        } else {
            Seq::empty()
        }) + types_text(types, i + 1)
    } else {
        Seq::empty()
    }
}

/// The text of a module path in front of a type name: each segment followed by `::`.
pub open spec fn path_text(path: Seq<(Name, super::token::DoubleColon)>) -> Seq<char>
    decreases path.len(),
{
    if path.len() == 0 {
        Seq::empty()
    } else {
        path_text(path.drop_last()) + path.last().0.spec_get() + "::"@
    }
}

/// The text of the generic parameters of a definition, in angles.
pub open spec fn generics_text(generics: Generics) -> Seq<char> {
    "<"@ + names_text(generics.types, 0) + ">"@
}

/// The text of the names of a list from position `i` on: each followed by its punctuation and,
/// but for the last, a space.
pub open spec fn names_text(names: Punctuated<Name>, i: int) -> Seq<char>
    decreases names.items().len() - i,
{
    if 0 <= i < names.items().len() {
        names.items()[i].spec_get() + (if names.spec_punct(i) {
            ","@
        } else {
            Seq::empty()
        }) + (if i < names.items().len() - 1 {
            " "@
        } else {
            Seq::empty()
        }) + names_text(names, i + 1)
    } else {
        Seq::empty()
    }
}

/// Append the text of a data type.
pub fn print_type(out: &mut String, ty: &Type)
    ensures
        final(out)@ == old(out)@ + type_text(*ty),
    decreases *ty, 0nat,
{
    let ghost start = out@;
    match &ty.value {
        DataType::Bool => out.append("bool"),
        DataType::U8 => out.append("u8"),
        DataType::U16 => out.append("u16"),
        DataType::U32 => out.append("u32"),
        DataType::U64 => out.append("u64"),
        DataType::U128 => out.append("u128"),
        DataType::I8 => out.append("i8"),
        DataType::I16 => out.append("i16"),
        DataType::I32 => out.append("i32"),
        DataType::I64 => out.append("i64"),
        DataType::I128 => out.append("i128"),
        DataType::F32 => out.append("f32"),
        DataType::F64 => out.append("f64"),
        DataType::String => out.append("string"),
        DataType::StringRef => out.append("&string"),
        DataType::Bytes => out.append("bytes"),
        DataType::BytesRef => out.append("&bytes"),
        DataType::Vec { ty: inner, .. } => {
            out.append("vec<");
            print_type(out, inner);
            out.append(">");
        },
        DataType::HashMap { key, value, .. } => {
            out.append("hash_map<");
            print_type(out, key);
            out.append(", ");
            print_type(out, value);
            out.append(">");
        },
        DataType::HashSet { ty: inner, .. } => {
            out.append("hash_set<");
            print_type(out, inner);
            out.append(">");
        },
        DataType::Option { ty: inner, .. } => {
            out.append("option<");
            print_type(out, inner);
            out.append(">");
        },
        DataType::NonZero { ty: inner, .. } => {
            out.append("non_zero<");
            print_type(out, inner);
            out.append(">");
        },
        DataType::BoxString => out.append("box<string>"),
        DataType::BoxBytes => out.append("box<bytes>"),
        DataType::Tuple { types, .. } => {
            out.append("(");
            print_types(out, types, 0);
            out.append(")");
        },
        DataType::Array { ty: inner, size, .. } => {
            out.append("[");
            print_type(out, inner);
            out.append("; ");
            print_decimal(out, *size as u128);
            out.append("]");
        },
        DataType::External(e) => {
            print_path(out, &e.path);
            out.append(e.name.get());
            match &e.generics {
                Some(g) => {
                    out.append("<");
                    print_types(out, g, 0);
                    out.append(">");
                },
                None => {},
            }
        },
    }
    proof {
        assert(out@ =~= start + type_text(*ty));
    }
}

/// Append the text of the types of a list from position `i` on.
fn print_types(out: &mut String, types: &Punctuated<Type>, i: usize)
    requires
        i <= types.items().len(),
    ensures
        final(out)@ == old(out)@ + types_text(*types, i as int),
    decreases *types, types.items().len() - i,
{
    let ghost start = out@;
    let count = types.len();
    if i < count {
        proof {
            types.lemma_items_decrease();
        }
        print_type(out, types.get(i));
        if types.has_punct(i) {
            out.append(",");
        }
        if i < count - 1 {
            out.append(" ");
        }
        print_types(out, types, i + 1);
        proof {
            assert(out@ =~= start + types_text(*types, i as int));
        }
    } else {
        proof {
            assert(out@ =~= start + types_text(*types, i as int));
        }
    }
}

/// Append a module path in front of a type name.
fn print_path(out: &mut String, path: &Vec<(Name, super::token::DoubleColon)>)
    ensures
        final(out)@ == old(out)@ + path_text(path@),
{
    let ghost start = out@;
    let mut k: usize = 0;
    while k < path.len()
        invariant
            k <= path@.len(),
            out@ == start + path_text(path@.take(k as int)),
        decreases path@.len() - k,
    {
        proof {
            assert(path@.take(k + 1).drop_last() =~= path@.take(k as int));
        }
        out.append(path[k].0.get());
        out.append("::");
        proof {
            assert(out@ =~= start + path_text(path@.take(k + 1)));
        }
        k = k + 1;
    }
    proof {
        assert(path@.take(k as int) =~= path@);
    }
}

/// Append the text of the generic parameters of a definition.
pub fn print_generics(out: &mut String, generics: &Generics)
    ensures
        final(out)@ == old(out)@ + generics_text(*generics),
{
    let ghost start = out@;
    out.append("<");
    let count = generics.types.len();
    let mut k: usize = 0;
    while k < count
        invariant
            count == generics.types.items().len(),
            k <= count,
            out@ + names_text(generics.types, k as int) == start + "<"@ + names_text(generics.types, 0),
        decreases count - k,
    {
        let ghost before = out@;
        out.append(generics.types.get(k).get());
        if generics.types.has_punct(k) {
            out.append(",");
        }
        if k < count - 1 {
            out.append(" ");
        }
        proof {
            assert(out@ + names_text(generics.types, k + 1) =~= before + names_text(generics.types, k as int));
        }
        k = k + 1;
    }
    proof {
        assert(names_text(generics.types, k as int) =~= Seq::empty());
    }
    proof {
        assert(out@ =~= start + "<"@ + names_text(generics.types, 0));
    }
    out.append(">");
    proof {
        assert(out@ =~= start + generics_text(*generics));
    }
}

// ------------------------------------------------------------------------------------------------
// Comments, literals and attributes
// ------------------------------------------------------------------------------------------------

/// The text of a comment: each line indented, after `/// `, on a line of its own.
pub open spec fn comment_text(lines: Seq<CommentLine>, level: nat) -> Seq<char>
    decreases lines.len(),
{
    if lines.len() == 0 {
        Seq::empty()
    } else {
        comment_text(lines.drop_last(), level) + indent_text(level) + "/// "@ + lines.last().value@
            + "\n"@
    }
}

/// Append the text of a comment.
pub fn print_comment(out: &mut String, comment: &Comment, level: usize)
    ensures
        final(out)@ == old(out)@ + comment_text(comment.0@, level as nat),
{
    let ghost start = out@;
    let lines = &comment.0;
    let mut k: usize = 0;
    while k < lines.len()
        invariant
            k <= lines@.len(),
            lines@ == comment.0@,
            out@ == start + comment_text(lines@.take(k as int), level as nat),
        decreases lines@.len() - k,
    {
        proof {
            assert(lines@.take(k + 1).drop_last() =~= lines@.take(k as int));
        }
        indent(out, level);
        out.append("/// ");
        out.append(lines[k].value);
        out.append("\n");
        proof {
            assert(out@ =~= start + comment_text(lines@.take(k + 1), level as nat));
        }
        k = k + 1;
    }
    proof {
        assert(lines@.take(k as int) =~= lines@);
    }
}

/// The debug form of a string: quoted, with special characters escaped.
pub uninterp spec fn debug_text(value: Seq<char>) -> Seq<char>;

/// Calls the `Debug` formatting of `str` (`format!("{:?}")`), which surrounds the string with
/// double quotes and escapes quotes, backslashes and non-printable characters. The result is named
/// by `debug_text`, a function of the characters alone.
#[verifier::external_body]
fn debug_string(value: &str) -> (r: String)
    ensures
        r@ == debug_text(value@),
{
    format!("{value:?}")
}

/// The items of a byte list: each in decimal, separated by `, `.
pub open spec fn bytes_items(bytes: Seq<u8>) -> Seq<char>
    decreases bytes.len(),
{
    if bytes.len() == 0 {
        Seq::empty()
    } else if bytes.len() == 1 {
        decimal(bytes[0] as nat)
    } else {
        bytes_items(bytes.drop_last()) + ", "@ + decimal(bytes.last() as nat)
    }
}

/// The text of a literal value.
pub open spec fn literal_text(value: LiteralValue) -> Seq<char> {
    match value {
        LiteralValue::Bool(b) => if b {
            "true"@
        } else {
            "false"@
        },
        LiteralValue::Int(v) => int_text(v as int),
        LiteralValue::Float { text, .. } => text@,
        LiteralValue::String(v) => debug_text(v@),
        LiteralValue::Bytes(v) => "["@ + bytes_items(v@) + "]"@,
    }
}

/// Append the text of a literal value.
pub fn print_literal(out: &mut String, value: &LiteralValue)
    ensures
        final(out)@ == old(out)@ + literal_text(*value),
{
    let ghost start = out@;
    match value {
        LiteralValue::Bool(b) => {
            if *b {
                out.append("true");
            } else {
                out.append("false");
            }
        },
        LiteralValue::Int(v) => print_int(out, *v),
        LiteralValue::Float { text, .. } => out.append(text.as_str()),
        LiteralValue::String(v) => {
            let quoted = debug_string(v.as_str());
            out.append(quoted.as_str());
        },
        LiteralValue::Bytes(v) => {
            out.append("[");
            let mut k: usize = 0;
            while k < v.len()
                invariant
                    k <= v@.len(),
                    out@ == start + "["@ + bytes_items(v@.take(k as int)),
                decreases v@.len() - k,
            {
                let ghost before = out@;
                proof {
                    assert(v@.take(k + 1).drop_last() =~= v@.take(k as int));
                }
                if k > 0 {
                    out.append(", ");
                }
                print_decimal(out, v[k] as u128);
                proof {
                    if k == 0 {
                        assert(out@ =~= start + "["@ + bytes_items(v@.take(1)));
                    } else {
                        assert(out@ =~= start + "["@ + bytes_items(v@.take(k + 1)));
                    }
                }
                k = k + 1;
            }
            proof {
                assert(v@.take(k as int) =~= v@);
            }
            out.append("]");
        },
    }
    proof {
        assert(out@ =~= start + literal_text(*value));
    }
}

/// Whether the text is a run of one or more decimal digits.
pub open spec fn all_digits(s: Seq<char>) -> bool {
    s.len() > 0 && forall|k: int| 0 <= k < s.len() ==> crate::parser::types::is_digit(#[trigger] s[k])
}

/// The boolean or integer literal that a text reads as in schema source: the keyword `true` or
/// `false`, or decimal digits with an optional leading `-`.
pub open spec fn read_plain_literal(s: Seq<char>) -> Option<LiteralValue> {
    if s == "true"@ {
        Some(LiteralValue::Bool(true))
    } else if s == "false"@ {
        Some(LiteralValue::Bool(false))
    } else if s.len() > 0 && s[0] == '-' && all_digits(s.skip(1)) {
        Some(LiteralValue::Int((-(crate::parser::types::digits_value(s.skip(1)) as int)) as i128))
    } else if all_digits(s) {
        Some(LiteralValue::Int((crate::parser::types::digits_value(s) as int) as i128))
    } else {
        None
    }
}

/// A printed boolean or integer literal reads back as the same literal: a boolean prints as the
/// keyword of its own value, an integer as its sign and decimal digits.
pub proof fn law_literal_reads_back(value: LiteralValue)
    requires
        value is Bool || value is Int,
    ensures
        read_plain_literal(literal_text(value)) == Some(value),
{
    reveal_strlit("true");
    reveal_strlit("false");
    reveal_strlit("-");
    match value {
        LiteralValue::Bool(b) => {
            let t = literal_text(value);
            assert(!("true"@ =~= "false"@)) by {
                assert("true"@[0] != "false"@[0]);
            }
            if !b {
                assert(t != "true"@);
            }
        },
        LiteralValue::Int(v) => {
            let t = literal_text(value);
            if v < 0 {
                let m = (-(v as int)) as nat;
                crate::parser::types::lemma_decimal(m);
                assert(t.skip(1) =~= decimal(m));
                assert(t[0] == '-');
                assert(t != "true"@) by {
                    assert(t[0] != "true"@[0]);
                }
                assert(t != "false"@) by {
                    assert(t[0] != "false"@[0]);
                }
            } else {
                crate::parser::types::lemma_decimal(v as nat);
                assert(crate::parser::types::is_digit(t[0]));
                assert(t != "true"@) by {
                    assert(t[0] != "true"@[0]);
                }
                assert(t != "false"@) by {
                    assert(t[0] != "false"@[0]);
                }
                assert(!(t[0] == '-'));
            }
        },
        _ => {},
    }
}

/// The position of the last `,` in the text, or -1 where there is none.
pub open spec fn last_comma(s: Seq<char>) -> int
    decreases s.len(),
{
    if s.len() == 0 {
        -1
    } else if s.last() == ',' {
        s.len() - 1
    } else {
        last_comma(s.drop_last())
    }
}

/// The numbers of a list of decimal numbers separated by `, `, read from the back.
pub open spec fn read_number_items(s: Seq<char>) -> Seq<nat>
    decreases s.len(),
{
    let c = last_comma(s);
    if 0 <= c < s.len() {
        read_number_items(s.take(c)).push(crate::parser::types::digits_value(s.skip(c + 2)))
    } else if s.len() == 0 {
        Seq::empty()
    } else {
        seq![crate::parser::types::digits_value(s)]
    }
}

/// The last comma lies inside the text.
proof fn lemma_last_comma_bound(s: Seq<char>)
    ensures
        -1 <= last_comma(s) < s.len(),
        0 <= last_comma(s) ==> s[last_comma(s)] == ',',
    decreases s.len(),
{
    if s.len() > 0 && s.last() != ',' {
        lemma_last_comma_bound(s.drop_last());
    }
}

/// Text without a comma after a prefix leaves the last comma where the prefix has it.
proof fn lemma_last_comma_append(x: Seq<char>, d: Seq<char>)
    requires
        forall|k: int| 0 <= k < d.len() ==> d[k] != ',',
    ensures
        last_comma(x + d) == last_comma(x),
    decreases d.len(),
{
    if d.len() > 0 {
        assert((x + d).drop_last() =~= x + d.drop_last());
        lemma_last_comma_append(x, d.drop_last());
    } else {
        assert(x + d =~= x);
    }
}

/// A printed list of bytes reads back as those bytes, in order.
proof fn lemma_bytes_items_read(bytes: Seq<u8>)
    ensures
        read_number_items(bytes_items(bytes)) == bytes.map_values(|b: u8| b as nat),
    decreases bytes.len(),
{
    reveal_strlit(", ");
    let t = bytes_items(bytes);
    if bytes.len() == 0 {
        assert(bytes.map_values(|b: u8| b as nat) =~= Seq::<nat>::empty());
    } else {
        let d = decimal(bytes.last() as nat);
        crate::parser::types::lemma_decimal(bytes.last() as nat);
        assert forall|k: int| 0 <= k < d.len() implies d[k] != ',' by {
            assert(crate::parser::types::is_digit(d[k]));
        }
        if bytes.len() == 1 {
            lemma_last_comma_append(Seq::empty(), d);
            assert(Seq::<char>::empty() + d =~= d);
            assert(t == d);
            assert(bytes.map_values(|b: u8| b as nat) =~= seq![bytes[0] as nat]);
        } else {
            let p = bytes_items(bytes.drop_last());
            let x = p + ", "@;
            assert(t == x + d);
            lemma_last_comma_append(x, d);
            assert(x.len() == p.len() + 2);
            assert(x.last() == ' ');
            assert(x.drop_last().last() == ',');
            assert(x.drop_last().len() == p.len() + 1);
            assert(last_comma(x) == last_comma(x.drop_last()));
            assert(last_comma(x) == p.len());
            assert(t.take(p.len() as int) =~= p);
            assert(t.skip(p.len() as int + 2) =~= d);
            lemma_bytes_items_read(bytes.drop_last());
            assert(bytes.map_values(|b: u8| b as nat) =~= bytes.drop_last().map_values(
                |b: u8| b as nat,
            ).push(bytes.last() as nat));
        }
    }
}

/// A printed byte list literal reads back as the same bytes: `[`, the bytes in decimal separated
/// by `, `, and `]`.
pub proof fn law_bytes_literal_reads_back(value: LiteralValue)
    requires
        value is Bytes,
    ensures
        ({
            let t = literal_text(value);
            &&& t.len() >= 2
            &&& t[0] == '['
            &&& t.last() == ']'
            &&& read_number_items(t.subrange(1, t.len() - 1)) == value->Bytes_0@.map_values(
                |b: u8| b as nat,
            )
        }),
{
    reveal_strlit("[");
    reveal_strlit("]");
    let v = value->Bytes_0@;
    let t = literal_text(value);
    assert(t.subrange(1, t.len() - 1) =~= bytes_items(v));
    lemma_bytes_items_read(v);
}

/// The text of an attribute: its name and value.
pub open spec fn attribute_text(attribute: Attribute) -> Seq<char>
    decreases attribute, 0nat,
{
    attribute.name@ + match attribute.value {
        AttributeValue::Unit => Seq::empty(),
        AttributeValue::Single(lit) => " = "@ + literal_text(lit.value),
        AttributeValue::Multi(attrs) => if attrs@.len() == 0 {
            Seq::empty()
        } else {
            "("@ + attributes_join(attrs@, 0) + ")"@
        },
    }
}

/// The texts of the attributes from position `i` on, separated by `, `.
pub open spec fn attributes_join(attributes: Seq<Attribute>, i: int) -> Seq<char>
    decreases attributes, attributes.len() - i,
{
    if 0 <= i < attributes.len() {
        attribute_text(attributes[i]) + (if i < attributes.len() - 1 {
            ", "@
        } else {
            Seq::empty()
        }) + attributes_join(attributes, i + 1)
    } else {
        Seq::empty()
    }
}

/// The text of an attribute block: indented, `#[`, the attributes separated by `, `, `]` and a
/// line break; nothing without attributes.
pub open spec fn attributes_text(attributes: Seq<Attribute>, level: nat) -> Seq<char> {
    if attributes.len() == 0 {
        Seq::empty()
    } else {
        indent_text(level) + "#"@ + "["@ + attributes_join(attributes, 0) + "]"@ + "\n"@
    }
}

/// Append the text of an attribute.
pub fn print_attribute(out: &mut String, attribute: &Attribute)
    ensures
        final(out)@ == old(out)@ + attribute_text(*attribute),
    decreases *attribute, 0nat,
{
    let ghost start = out@;
    out.append(attribute.name);
    match &attribute.value {
        AttributeValue::Unit => {},
        AttributeValue::Single(lit) => {
            out.append(" = ");
            print_literal(out, &lit.value);
        },
        AttributeValue::Multi(attrs) => {
            if attrs.len() > 0 {
                out.append("(");
                proof {
                    assert(decreases_to!(*attribute => attribute.value));
                    assert(decreases_to!(attribute.value => *attrs));
                }
                print_attributes_join(out, attrs, 0);
                out.append(")");
            }
        },
    }
    proof {
        assert(out@ =~= start + attribute_text(*attribute));
    }
}

/// Append the texts of the attributes from position `i` on, separated by `, `.
fn print_attributes_join(out: &mut String, attributes: &Vec<Attribute>, i: usize)
    requires
        i <= attributes@.len(),
    ensures
        final(out)@ == old(out)@ + attributes_join(attributes@, i as int),
    decreases attributes@, attributes@.len() - i,
{
    let ghost start = out@;
    let count = attributes.len();
    if i < count {
        print_attribute(out, &attributes[i]);
        if i < count - 1 {
            out.append(", ");
        }
        print_attributes_join(out, attributes, i + 1);
        proof {
            assert(out@ =~= start + attributes_join(attributes@, i as int));
        }
    } else {
        proof {
            assert(out@ =~= start + attributes_join(attributes@, i as int));
        }
    }
}

/// Append the text of an attribute block.
pub fn print_attributes(out: &mut String, attributes: &Attributes, level: usize)
    ensures
        final(out)@ == old(out)@ + attributes_text(attributes.0@, level as nat),
{
    let ghost start = out@;
    if attributes.0.len() > 0 {
        indent(out, level);
        out.append("#");
        out.append("[");
        print_attributes_join(out, &attributes.0, 0);
        out.append("]");
        out.append("\n");
        proof {
            assert(out@ =~= start + attributes_text(attributes.0@, level as nat));
        }
    } else {
        proof {
            assert(out@ =~= start + attributes_text(attributes.0@, level as nat));
        }
    }
}

// ------------------------------------------------------------------------------------------------
// Fields, variants and definitions
// ------------------------------------------------------------------------------------------------

/// The text of an optional identifier, after a space.
pub open spec fn opt_id_text(id: Option<Id>) -> Seq<char> {
    match id {
        Some(i) => " "@ + id_text(i),
        None => Seq::empty(),
    }
}

/// Append an optional identifier, after a space.
fn print_opt_id(out: &mut String, id: &Option<Id>)
    ensures
        final(out)@ == old(out)@ + opt_id_text(*id),
{
    match id {
        Some(i) => {
            let ghost start = out@;
            out.append(" ");
            print_id(out, i);
            proof {
                assert(out@ =~= start + opt_id_text(*id));
            }
        },
        None => {
            proof {
                assert(out@ =~= old(out)@ + opt_id_text(*id));
            }
        },
    }
}

/// The text of a named field: its comment, then indented `name: type` and the identifier.
pub open spec fn named_field_text(field: NamedField, level: nat) -> Seq<char> {
    comment_text(field.comment.0@, level) + indent_text(level) + field.name.spec_get() + ":"@
        + " "@ + type_text(field.ty) + opt_id_text(field.id)
}

/// The text of an unnamed field: its type and identifier.
pub open spec fn unnamed_field_text(field: UnnamedField) -> Seq<char> {
    type_text(field.ty) + opt_id_text(field.id)
}

/// The text of the separator after an element: its punctuation, then (but for the last one) the
/// given separator.
pub open spec fn separator_text(punct: bool, last: bool, separator: Seq<char>) -> Seq<char> {
    (if punct {
        ","@
    } else {
        Seq::empty()
    }) + (if last {
        Seq::empty()
    } else {
        separator
    })
}

/// The named fields from position `i` on, each on its own line at the given level.
pub open spec fn named_body(fields: Punctuated<NamedField>, i: int, level: nat) -> Seq<char>
    decreases fields.items().len() - i,
{
    if 0 <= i < fields.items().len() {
        named_field_text(fields.items()[i], level) + separator_text(
            fields.spec_punct(i),
            i == fields.items().len() - 1,
            "\n"@,
        ) + named_body(fields, i + 1, level)
    } else {
        Seq::empty()
    }
}

/// The unnamed fields from position `i` on, separated by spaces.
pub open spec fn unnamed_body(fields: Punctuated<UnnamedField>, i: int) -> Seq<char>
    decreases fields.items().len() - i,
{
    if 0 <= i < fields.items().len() {
        unnamed_field_text(fields.items()[i]) + separator_text(
            fields.spec_punct(i),
            i == fields.items().len() - 1,
            " "@,
        ) + unnamed_body(fields, i + 1)
    } else {
        Seq::empty()
    }
}

/// The text of the fields of a struct or variant at the given level: named fields in braces on
/// lines of their own, unnamed fields in parentheses, nothing for a unit.
pub open spec fn fields_text(fields: Fields, level: nat) -> Seq<char> {
    match fields {
        Fields::Named(_, named) => " "@ + "{"@ + "\n"@ + named_body(named, 0, level + 1) + "\n"@
            + indent_text(level) + "}"@,
        Fields::Unnamed(_, unnamed) => "("@ + unnamed_body(unnamed, 0) + ")"@,
        Fields::Unit => Seq::empty(),
    }
}

/// Append the text of a named field.
fn print_named_field(out: &mut String, field: &NamedField, level: usize)
    ensures
        final(out)@ == old(out)@ + named_field_text(*field, level as nat),
{
    let ghost start = out@;
    print_comment(out, &field.comment, level);
    indent(out, level);
    out.append(field.name.get());
    out.append(":");
    out.append(" ");
    print_type(out, &field.ty);
    print_opt_id(out, &field.id);
    proof {
        assert(out@ =~= start + named_field_text(*field, level as nat));
    }
}

/// Append the separator after an element.
fn print_separator(out: &mut String, punct: bool, last: bool, separator: &str)
    ensures
        final(out)@ == old(out)@ + separator_text(punct, last, separator@),
{
    let ghost start = out@;
    if punct {
        out.append(",");
    }
    if !last {
        out.append(separator);
    }
    proof {
        assert(out@ =~= start + separator_text(punct, last, separator@));
    }
}

/// Append the named fields from position `i` on.
fn print_named_body(out: &mut String, fields: &Punctuated<NamedField>, i: usize, level: usize)
    requires
        i <= fields.items().len(),
    ensures
        final(out)@ == old(out)@ + named_body(*fields, i as int, level as nat),
    decreases fields.items().len() - i,
{
    let ghost start = out@;
    let count = fields.len();
    if i < count {
        print_named_field(out, fields.get(i), level);
        print_separator(out, fields.has_punct(i), i == count - 1, "\n");
        print_named_body(out, fields, i + 1, level);
        proof {
            assert(out@ =~= start + named_body(*fields, i as int, level as nat));
        }
    } else {
        proof {
            assert(out@ =~= start + named_body(*fields, i as int, level as nat));
        }
    }
}

/// Append the unnamed fields from position `i` on.
fn print_unnamed_body(out: &mut String, fields: &Punctuated<UnnamedField>, i: usize)
    requires
        i <= fields.items().len(),
    ensures
        final(out)@ == old(out)@ + unnamed_body(*fields, i as int),
    decreases fields.items().len() - i,
{
    let ghost start = out@;
    let count = fields.len();
    if i < count {
        let field = fields.get(i);
        print_type(out, &field.ty);
        print_opt_id(out, &field.id);
        print_separator(out, fields.has_punct(i), i == count - 1, " ");
        print_unnamed_body(out, fields, i + 1);
        proof {
            assert(out@ =~= start + unnamed_body(*fields, i as int));
        }
    } else {
        proof {
            assert(out@ =~= start + unnamed_body(*fields, i as int));
        }
    }
}

/// Append the text of the fields of a struct or variant.
pub fn print_fields(out: &mut String, fields: &Fields, level: usize)
    requires
        level < usize::MAX,
    ensures
        final(out)@ == old(out)@ + fields_text(*fields, level as nat),
{
    let ghost start = out@;
    match fields {
        Fields::Named(_, named) => {
            out.append(" ");
            out.append("{");
            out.append("\n");
            print_named_body(out, named, 0, level + 1);
            out.append("\n");
            indent(out, level);
            out.append("}");
        },
        Fields::Unnamed(_, unnamed) => {
            out.append("(");
            print_unnamed_body(out, unnamed, 0);
            out.append(")");
        },
        Fields::Unit => {},
    }
    proof {
        assert(out@ =~= start + fields_text(*fields, level as nat));
    }
}

/// The text of an enum variant: its comment, then indented name, fields and identifier.
pub open spec fn variant_text(variant: Variant, level: nat) -> Seq<char> {
    comment_text(variant.comment.0@, level) + indent_text(level) + variant.name.spec_get()
        + fields_text(variant.fields, level) + opt_id_text(variant.id)
}

/// The variants from position `i` on, each starting on its own line at the given level.
pub open spec fn variants_body(variants: Punctuated<Variant>, i: int, level: nat) -> Seq<char>
    decreases variants.items().len() - i,
{
    if 0 <= i < variants.items().len() {
        variant_text(variants.items()[i], level) + separator_text(
            variants.spec_punct(i),
            i == variants.items().len() - 1,
            "\n"@,
        ) + variants_body(variants, i + 1, level)
    } else {
        Seq::empty()
    }
}

/// Append the text of an enum variant.
fn print_variant(out: &mut String, variant: &Variant, level: usize)
    requires
        level < usize::MAX,
    ensures
        final(out)@ == old(out)@ + variant_text(*variant, level as nat),
{
    let ghost start = out@;
    print_comment(out, &variant.comment, level);
    indent(out, level);
    out.append(variant.name.get());
    print_fields(out, &variant.fields, level);
    print_opt_id(out, &variant.id);
    proof {
        assert(out@ =~= start + variant_text(*variant, level as nat));
    }
}

/// Append the variants from position `i` on.
fn print_variants_body(out: &mut String, variants: &Punctuated<Variant>, i: usize, level: usize)
    requires
        i <= variants.items().len(),
        level < usize::MAX,
    ensures
        final(out)@ == old(out)@ + variants_body(*variants, i as int, level as nat),
    decreases variants.items().len() - i,
{
    let ghost start = out@;
    let count = variants.len();
    if i < count {
        print_variant(out, variants.get(i), level);
        print_separator(out, variants.has_punct(i), i == count - 1, "\n");
        print_variants_body(out, variants, i + 1, level);
        proof {
            assert(out@ =~= start + variants_body(*variants, i as int, level as nat));
        }
    } else {
        proof {
            assert(out@ =~= start + variants_body(*variants, i as int, level as nat));
        }
    }
}

/// The text of optional generics.
pub open spec fn opt_generics_text(generics: Option<Generics>) -> Seq<char> {
    match generics {
        Some(g) => generics_text(g),
        None => Seq::empty(),
    }
}

/// Append optional generics.
fn print_opt_generics(out: &mut String, generics: &Option<Generics>)
    ensures
        final(out)@ == old(out)@ + opt_generics_text(*generics),
{
    match generics {
        Some(g) => print_generics(out, g),
        None => {
            proof {
                assert(out@ =~= old(out)@ + opt_generics_text(*generics));
            }
        },
    }
}

/// The text of a struct: comment, attributes, `struct`, name, generics, fields and a line break.
pub open spec fn struct_text(value: Struct, level: nat) -> Seq<char> {
    comment_text(value.comment.0@, level) + attributes_text(value.attributes.0@, level)
        + indent_text(level) + "struct"@ + " "@ + value.name.spec_get() + opt_generics_text(
        value.generics,
    ) + fields_text(value.fields, level) + "\n"@
}

/// The text of an enum: comment, attributes, `enum`, name, generics, the variants in braces and a
/// line break.
pub open spec fn enum_text(value: Enum, level: nat) -> Seq<char> {
    comment_text(value.comment.0@, level) + attributes_text(value.attributes.0@, level)
        + indent_text(level) + "enum"@ + " "@ + value.name.spec_get() + opt_generics_text(
        value.generics,
    ) + " "@ + "{"@ + "\n"@ + variants_body(value.variants, 0, level + 1) + "\n"@ + indent_text(
        level,
    ) + "}"@ + "\n"@
}

/// The text of a type alias: comment, `type`, name, generics, `=` and the target type, `;`.
pub open spec fn alias_text(value: TypeAlias, level: nat) -> Seq<char> {
    comment_text(value.comment.0@, level) + indent_text(level) + "type"@ + " "@
        + value.name.spec_get() + opt_generics_text(value.generics) + " "@ + "="@ + " "@
        + type_text(value.target) + ";"@
}

/// The text of a constant: comment, `const`, name, `:` and type, `=` and value, `;`.
pub open spec fn const_text(value: Const, level: nat) -> Seq<char> {
    comment_text(value.comment.0@, level) + indent_text(level) + "const"@ + " "@
        + value.name.spec_get() + ":"@ + " "@ + type_text(value.ty) + " "@ + "="@ + " "@
        + literal_text(value.value.value) + ";"@
}

/// The segments of an import path, separated by `::`.
pub open spec fn segments_text(segments: Seq<Name>) -> Seq<char>
    decreases segments.len(),
{
    if segments.len() == 0 {
        Seq::empty()
    } else if segments.len() == 1 {
        segments[0].spec_get()
    } else {
        segments_text(segments.drop_last()) + "::"@ + segments.last().spec_get()
    }
}

/// The text of an import: `use`, the path and the imported element, `;`.
pub open spec fn import_text(value: Import, level: nat) -> Seq<char> {
    indent_text(level) + "use"@ + " "@ + segments_text(value.segments@) + match value.element {
        Some((_, element)) => "::"@ + element.spec_get(),
        None => Seq::empty(),
    } + ";"@
}

/// Append the text of a struct.
pub fn print_struct(out: &mut String, value: &Struct, level: usize)
    requires
        level < usize::MAX,
    ensures
        final(out)@ == old(out)@ + struct_text(*value, level as nat),
{
    let ghost start = out@;
    print_comment(out, &value.comment, level);
    print_attributes(out, &value.attributes, level);
    indent(out, level);
    out.append(super::token::Struct::name());
    out.append(" ");
    out.append(value.name.get());
    print_opt_generics(out, &value.generics);
    print_fields(out, &value.fields, level);
    out.append("\n");
    proof {
        assert(out@ =~= start + struct_text(*value, level as nat));
    }
}

/// Append the text of an enum.
#[verifier::spinoff_prover]
#[verifier::rlimit(40)]
pub fn print_enum(out: &mut String, value: &Enum, level: usize)
    requires
        level < usize::MAX - 1,
    ensures
        final(out)@ == old(out)@ + enum_text(*value, level as nat),
{
    let ghost start = out@;
    print_comment(out, &value.comment, level);
    print_attributes(out, &value.attributes, level);
    indent(out, level);
    out.append(super::token::Enum::name());
    out.append(" ");
    out.append(value.name.get());
    print_opt_generics(out, &value.generics);
    let ghost header = comment_text(value.comment.0@, level as nat) + attributes_text(
        value.attributes.0@,
        level as nat,
    ) + indent_text(level as nat) + "enum"@ + " "@ + value.name.spec_get() + opt_generics_text(
        value.generics,
    );
    proof {
        assert(out@ =~= start + header);
    }
    out.append(" ");
    out.append("{");
    out.append("\n");
    let ghost opened = out@;
    print_variants_body(out, &value.variants, 0, level + 1);
    let ghost body = variants_body(value.variants, 0, (level + 1) as nat);
    proof {
        assert(out@ =~= opened + body);
    }
    out.append("\n");
    indent(out, level);
    out.append("}");
    out.append("\n");
    proof {
        assert(enum_text(*value, level as nat) =~= header + " "@ + "{"@ + "\n"@ + body + "\n"@
            + indent_text(level as nat) + "}"@ + "\n"@);
        assert(out@ =~= start + enum_text(*value, level as nat));
    }
}

/// Append the text of a type alias.
pub fn print_alias(out: &mut String, value: &TypeAlias, level: usize)
    ensures
        final(out)@ == old(out)@ + alias_text(*value, level as nat),
{
    let ghost start = out@;
    print_comment(out, &value.comment, level);
    indent(out, level);
    out.append(super::token::Type::name());
    out.append(" ");
    out.append(value.name.get());
    print_opt_generics(out, &value.generics);
    out.append(" ");
    out.append("=");
    out.append(" ");
    print_type(out, &value.target);
    out.append(";");
    proof {
        assert(out@ =~= start + alias_text(*value, level as nat));
    }
}

/// Append the text of a constant.
pub fn print_const(out: &mut String, value: &Const, level: usize)
    ensures
        final(out)@ == old(out)@ + const_text(*value, level as nat),
{
    let ghost start = out@;
    print_comment(out, &value.comment, level);
    indent(out, level);
    out.append(super::token::Const::name());
    out.append(" ");
    out.append(value.name.get());
    out.append(":");
    out.append(" ");
    print_type(out, &value.ty);
    out.append(" ");
    out.append("=");
    out.append(" ");
    print_literal(out, &value.value.value);
    out.append(";");
    proof {
        assert(out@ =~= start + const_text(*value, level as nat));
    }
}

/// Append the text of an import.
pub fn print_import(out: &mut String, value: &Import, level: usize)
    ensures
        final(out)@ == old(out)@ + import_text(*value, level as nat),
{
    let ghost start = out@;
    indent(out, level);
    out.append(super::token::Use::name());
    out.append(" ");
    let ghost mid = out@;
    let segments = &value.segments;
    let mut k: usize = 0;
    while k < segments.len()
        invariant
            k <= segments@.len(),
            segments@ == value.segments@,
            out@ == mid + segments_text(segments@.take(k as int)),
        decreases segments@.len() - k,
    {
        proof {
            assert(segments@.take(k + 1).drop_last() =~= segments@.take(k as int));
        }
        if k > 0 {
            out.append("::");
        }
        out.append(segments[k].get());
        proof {
            if k == 0 {
                assert(out@ =~= mid + segments_text(segments@.take(1)));
            } else {
                assert(out@ =~= mid + segments_text(segments@.take(k + 1)));
            }
        }
        k = k + 1;
    }
    proof {
        assert(segments@.take(k as int) =~= segments@);
    }
    match &value.element {
        Some((_, element)) => {
            out.append("::");
            out.append(element.get());
        },
        None => {},
    }
    out.append(";");
    proof {
        assert(out@ =~= start + import_text(*value, level as nat));
    }
}

// ------------------------------------------------------------------------------------------------
// Modules and schemas
// ------------------------------------------------------------------------------------------------

/// How deeply modules nest inside a definition (zero for anything but a module).
pub open spec fn nesting(definition: Definition) -> nat
    decreases definition, 0nat,
{
    match definition {
        Definition::Module(m) => 1 + nesting_max(m.definitions@, 0),
        _ => 0,
    }
}

/// The deepest nesting among the definitions from position `i` on.
pub open spec fn nesting_max(definitions: Seq<Definition>, i: int) -> nat
    decreases definitions, definitions.len() - i,
{
    if 0 <= i < definitions.len() {
        let here = nesting(definitions[i]);
        let rest = nesting_max(definitions, i + 1);
        if here > rest {
            here
        } else {
            rest
        }
    } else {
        0
    }
}

/// The text of a definition at the given level.
pub open spec fn definition_text(definition: Definition, level: nat) -> Seq<char>
    decreases definition, 0nat,
{
    match definition {
        Definition::Module(m) => comment_text(m.comment.0@, level) + indent_text(level) + "mod"@
            + " "@ + m.name.spec_get() + " "@ + "{"@ + "\n"@ + definitions_text(
            m.definitions@,
            0,
            level + 1,
        ) + indent_text(level) + "}"@ + "\n"@,
        Definition::Struct(v) => struct_text(v, level),
        Definition::Enum(v) => enum_text(v, level),
        Definition::TypeAlias(v) => alias_text(v, level),
        Definition::Const(v) => const_text(v, level),
        Definition::Import(v) => import_text(v, level),
    }
}

/// The definitions from position `i` on, separated by empty lines.
pub open spec fn definitions_text(definitions: Seq<Definition>, i: int, level: nat) -> Seq<char>
    decreases definitions, definitions.len() - i,
{
    if 0 <= i < definitions.len() {
        (if i > 0 {
            "\n"@
        } else {
            Seq::empty()
        }) + definition_text(definitions[i], level) + definitions_text(definitions, i + 1, level)
    } else {
        Seq::empty()
    }
}

/// The deepest nesting of the remaining definitions bounds that of each one.
proof fn lemma_nesting_max(definitions: Seq<Definition>, i: int, k: int)
    requires
        0 <= i <= k < definitions.len(),
    ensures
        nesting(definitions[k]) <= nesting_max(definitions, i),
        nesting_max(definitions, k + 1) <= nesting_max(definitions, i),
    decreases k - i,
{
    if i < k {
        lemma_nesting_max(definitions, i + 1, k);
    }
}

/// Append the text of a definition.
pub fn print_definition(out: &mut String, definition: &Definition, level: usize)
    requires
        level + nesting(*definition) + 2 < usize::MAX,
    ensures
        final(out)@ == old(out)@ + definition_text(*definition, level as nat),
    decreases *definition, 0nat,
{
    let ghost start = out@;
    match definition {
        Definition::Module(m) => {
            print_comment(out, &m.comment, level);
            indent(out, level);
            out.append(super::token::Mod::name());
            out.append(" ");
            out.append(m.name.get());
            out.append(" ");
            out.append("{");
            out.append("\n");
            proof {
                assert(decreases_to!(*definition => *m));
                assert(decreases_to!(*m => m.definitions));
            }
            print_definitions(out, &m.definitions, 0, level + 1);
            indent(out, level);
            out.append("}");
            out.append("\n");
        },
        Definition::Struct(v) => print_struct(out, v, level),
        Definition::Enum(v) => print_enum(out, v, level),
        Definition::TypeAlias(v) => print_alias(out, v, level),
        Definition::Const(v) => print_const(out, v, level),
        Definition::Import(v) => print_import(out, v, level),
    }
    proof {
        assert(out@ =~= start + definition_text(*definition, level as nat));
    }
}

/// Append the definitions from position `i` on, separated by empty lines.
fn print_definitions(out: &mut String, definitions: &Vec<Definition>, i: usize, level: usize)
    requires
        i <= definitions@.len(),
        level + nesting_max(definitions@, i as int) + 2 < usize::MAX,
    ensures
        final(out)@ == old(out)@ + definitions_text(definitions@, i as int, level as nat),
    decreases definitions@, definitions@.len() - i,
{
    let ghost start = out@;
    let count = definitions.len();
    if i < count {
        proof {
            lemma_nesting_max(definitions@, i as int, i as int);
        }
        if i > 0 {
            out.append("\n");
        }
        print_definition(out, &definitions[i], level);
        print_definitions(out, definitions, i + 1, level);
        proof {
            assert(out@ =~= start + definitions_text(definitions@, i as int, level as nat));
        }
    } else {
        proof {
            assert(out@ =~= start + definitions_text(definitions@, i as int, level as nat));
        }
    }
}

/// The text of a schema: its comment (followed by an empty line) if it has one, then each
/// definition followed by a line break.
pub open spec fn schema_text(schema: Schema) -> Seq<char> {
    (if schema.comment.0@.len() > 0 {
        comment_text(schema.comment.0@, 0) + "\n"@
    } else {
        Seq::empty()
    }) + schema_definitions_text(schema.definitions@)
}

/// Each definition at the top level, followed by a line break.
pub open spec fn schema_definitions_text(definitions: Seq<Definition>) -> Seq<char>
    decreases definitions.len(),
{
    if definitions.len() == 0 {
        Seq::empty()
    } else {
        schema_definitions_text(definitions.drop_last()) + definition_text(definitions.last(), 0)
            + "\n"@
    }
}

impl<'a> Schema<'a> {
    /// The schema written out in its textual form.
    pub fn to_text(&self) -> (r: String)
        requires
            nesting_max(self.definitions@, 0) + 2 < usize::MAX,
        ensures
            r@ == schema_text(*self),
    {
        let mut out = String::new();
        if self.comment.0.len() > 0 {
            print_comment(&mut out, &self.comment, 0);
            out.append("\n");
        }
        let ghost start = out@;
        let mut k: usize = 0;
        while k < self.definitions.len()
            invariant
                k <= self.definitions@.len(),
                nesting_max(self.definitions@, 0) + 2 < usize::MAX,
                out@ == start + schema_definitions_text(self.definitions@.take(k as int)),
            decreases self.definitions@.len() - k,
        {
            proof {
                lemma_nesting_max(self.definitions@, 0, k as int);
                assert(self.definitions@.take(k + 1).drop_last() =~= self.definitions@.take(k as int));
            }
            print_definition(&mut out, &self.definitions[k], 0);
            out.append("\n");
            proof {
                assert(out@ =~= start + schema_definitions_text(self.definitions@.take(k + 1)));
            }
            k = k + 1;
        }
        proof {
            assert(self.definitions@.take(k as int) =~= self.definitions@);
        }
        out
    }
}

impl Print for Id {
    open spec fn text(&self, level: nat) -> Seq<char> {
        id_text(*self)
    }

    open spec fn fits(&self, level: nat) -> bool {
        true
    }

    fn print(&self, out: &mut String, level: usize) {
        print_id(out, self)
    }
}

impl Print for Name<'_> {
    open spec fn text(&self, level: nat) -> Seq<char> {
        self.spec_get()
    }

    open spec fn fits(&self, level: nat) -> bool {
        true
    }

    fn print(&self, out: &mut String, level: usize) {
        out.append(self.get())
    }
}

impl Print for Type<'_> {
    open spec fn text(&self, level: nat) -> Seq<char> {
        type_text(*self)
    }

    open spec fn fits(&self, level: nat) -> bool {
        true
    }

    fn print(&self, out: &mut String, level: usize) {
        print_type(out, self)
    }
}

impl Print for Generics<'_> {
    open spec fn text(&self, level: nat) -> Seq<char> {
        generics_text(*self)
    }

    open spec fn fits(&self, level: nat) -> bool {
        true
    }

    fn print(&self, out: &mut String, level: usize) {
        print_generics(out, self)
    }
}

impl Print for Comment<'_> {
    open spec fn text(&self, level: nat) -> Seq<char> {
        comment_text(self.0@, level)
    }

    open spec fn fits(&self, level: nat) -> bool {
        true
    }

    fn print(&self, out: &mut String, level: usize) {
        print_comment(out, self, level)
    }
}

impl Print for Literal {
    open spec fn text(&self, level: nat) -> Seq<char> {
        literal_text(self.value)
    }

    open spec fn fits(&self, level: nat) -> bool {
        true
    }

    fn print(&self, out: &mut String, level: usize) {
        print_literal(out, &self.value)
    }
}

impl Print for Attribute<'_> {
    open spec fn text(&self, level: nat) -> Seq<char> {
        indent_text(level) + attribute_text(*self)
    }

    open spec fn fits(&self, level: nat) -> bool {
        true
    }

    fn print(&self, out: &mut String, level: usize) {
        let ghost start = out@;
        indent(out, level);
        print_attribute(out, self);
        proof {
            assert(out@ =~= start + self.text(level as nat));
        }
    }
}

impl Print for Attributes<'_> {
    open spec fn text(&self, level: nat) -> Seq<char> {
        attributes_text(self.0@, level)
    }

    open spec fn fits(&self, level: nat) -> bool {
        true
    }

    fn print(&self, out: &mut String, level: usize) {
        print_attributes(out, self, level)
    }
}

impl Print for NamedField<'_> {
    open spec fn text(&self, level: nat) -> Seq<char> {
        named_field_text(*self, level)
    }

    open spec fn fits(&self, level: nat) -> bool {
        true
    }

    fn print(&self, out: &mut String, level: usize) {
        print_named_field(out, self, level)
    }
}

impl Print for UnnamedField<'_> {
    open spec fn text(&self, level: nat) -> Seq<char> {
        unnamed_field_text(*self)
    }

    open spec fn fits(&self, level: nat) -> bool {
        true
    }

    fn print(&self, out: &mut String, level: usize) {
        let ghost start = out@;
        print_type(out, &self.ty);
        print_opt_id(out, &self.id);
        proof {
            assert(out@ =~= start + self.text(level as nat));
        }
    }
}

impl Print for Fields<'_> {
    open spec fn text(&self, level: nat) -> Seq<char> {
        fields_text(*self, level)
    }

    open spec fn fits(&self, level: nat) -> bool {
        level < usize::MAX
    }

    fn print(&self, out: &mut String, level: usize) {
        print_fields(out, self, level)
    }
}

impl Print for Variant<'_> {
    open spec fn text(&self, level: nat) -> Seq<char> {
        variant_text(*self, level)
    }

    open spec fn fits(&self, level: nat) -> bool {
        level < usize::MAX
    }

    fn print(&self, out: &mut String, level: usize) {
        print_variant(out, self, level)
    }
}

impl Print for Struct<'_> {
    open spec fn text(&self, level: nat) -> Seq<char> {
        struct_text(*self, level)
    }

    open spec fn fits(&self, level: nat) -> bool {
        level < usize::MAX
    }

    fn print(&self, out: &mut String, level: usize) {
        print_struct(out, self, level)
    }
}

impl Print for Enum<'_> {
    open spec fn text(&self, level: nat) -> Seq<char> {
        enum_text(*self, level)
    }

    open spec fn fits(&self, level: nat) -> bool {
        level + 1 < usize::MAX
    }

    fn print(&self, out: &mut String, level: usize) {
        print_enum(out, self, level)
    }
}

impl Print for TypeAlias<'_> {
    open spec fn text(&self, level: nat) -> Seq<char> {
        alias_text(*self, level)
    }

    open spec fn fits(&self, level: nat) -> bool {
        true
    }

    fn print(&self, out: &mut String, level: usize) {
        print_alias(out, self, level)
    }
}

impl Print for Const<'_> {
    open spec fn text(&self, level: nat) -> Seq<char> {
        const_text(*self, level)
    }

    open spec fn fits(&self, level: nat) -> bool {
        true
    }

    fn print(&self, out: &mut String, level: usize) {
        print_const(out, self, level)
    }
}

impl Print for Import<'_> {
    open spec fn text(&self, level: nat) -> Seq<char> {
        import_text(*self, level)
    }

    open spec fn fits(&self, level: nat) -> bool {
        true
    }

    fn print(&self, out: &mut String, level: usize) {
        print_import(out, self, level)
    }
}

impl Print for Definition<'_> {
    open spec fn text(&self, level: nat) -> Seq<char> {
        definition_text(*self, level)
    }

    open spec fn fits(&self, level: nat) -> bool {
        level + nesting(*self) + 2 < usize::MAX
    }

    fn print(&self, out: &mut String, level: usize) {
        print_definition(out, self, level)
    }
}

} // verus!
