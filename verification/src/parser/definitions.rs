//! Parsing of generics, enum definitions and type aliases.
//!
//! As for data types, the grammar is stated as spec functions over the characters of the input,
//! and the parsers are proved to answer what it says.

use super::fields::{
    comment_view, comments_at, comments_from, fields_at, fields_from, fields_view, id_view,
    opt_id_at, opt_id_from, FieldsShape,
};
use super::punctuated::Punctuated;
use super::token;
use super::types::{
    char_at, char_is, chars_of, is_upper, lemma_type_bounds, run_end, scan, shape, starts_with,
    starts_with_exec, type_at, type_from, ws_end, Parsed, Shape,
};
use super::{Attributes, Comment, Enum, Generics, Name, Span, TypeAlias, Variant};
use vstd::prelude::*;

verus! {

// ------------------------------------------------------------------------------------------------
// Generics
// ------------------------------------------------------------------------------------------------

/// Where a capitalized name (an uppercase letter, then ASCII letters and digits) at `p` ends, if
/// there is one.
pub open spec fn upper_name_end(cs: Seq<char>, p: int) -> Option<int> {
    if 0 <= p < cs.len() && is_upper(cs[p]) {
        Some(run_end(cs, p + 1, 8))
    } else {
        None
    }
}

/// A list of generic parameter names at `q`: each after optional whitespace, followed by
/// whitespace and a comma, but for the last one, whose comma is optional. A list that is not the
/// first (`first` false) may also be empty. Each name comes with whether a comma follows it.
pub open spec fn names_at(cs: Seq<char>, q: int, first: bool) -> Parsed<Seq<(Seq<char>, bool)>>
    decreases cs.len() - q,
{
    if !(0 <= q <= cs.len()) {
        Parsed::Back
    } else {
        let w = ws_end(cs, q);
        match upper_name_end(cs, w) {
            None => if first {
                Parsed::Back
            } else {
                Parsed::Done(Seq::empty(), q)
            },
            Some(e) => {
                let name = cs.subrange(w, e);
                let c = ws_end(cs, e);
                if !char_at(cs, c, ',') {
                    Parsed::Done(seq![(name, false)], e)
                } else if c + 1 <= q {
                    Parsed::Cut
                } else {
                    match names_at(cs, c + 1, false) {
                        Parsed::Done(rest, end) => Parsed::Done(seq![(name, true)] + rest, end),
                        _ => Parsed::Cut,
                    }
                }
            },
        }
    }
}

/// Generics at `p`: `<`, a list of names, whitespace and `>`; after `<` any failure is fatal.
pub open spec fn generics_at(cs: Seq<char>, p: int) -> Parsed<Seq<(Seq<char>, bool)>> {
    if !(0 <= p <= cs.len()) || !char_at(cs, p, '<') {
        Parsed::Back
    } else {
        match names_at(cs, p + 1, true) {
            Parsed::Done(names, e) => {
                let c = ws_end(cs, e);
                if char_at(cs, c, '>') {
                    Parsed::Done(names, c + 1)
                } else {
                    Parsed::Cut
                }
            },
            _ => Parsed::Cut,
        }
    }
}

/// Optional generics at `p`: the names and where they end, or nothing and `p` itself; a fatal
/// failure stays fatal.
pub open spec fn opt_generics_at(cs: Seq<char>, p: int) -> Parsed<Option<Seq<(Seq<char>, bool)>>> {
    match generics_at(cs, p) {
        Parsed::Done(names, e) => Parsed::Done(Some(names), e),
        Parsed::Back => Parsed::Done(None, p),
        Parsed::Cut => Parsed::Cut,
    }
}

/// Generic parameter names without source locations, each with whether a comma follows it.
pub open spec fn generics_view(generics: Generics) -> Seq<(Seq<char>, bool)> {
    Seq::new(
        generics.types.items().len(),
        |i: int| (generics.types.items()[i].spec_get(), generics.types.spec_punct(i)),
    )
}

/// Optional generics without source locations.
pub open spec fn opt_generics_view(generics: Option<Generics>) -> Option<Seq<(Seq<char>, bool)>> {
    match generics {
        Some(g) => Some(generics_view(g)),
        None => None,
    }
}

/// What a parser of generics answers, for the spec answer `expected`.
pub open spec fn generics_answer(
    expected: Parsed<Option<Seq<(Seq<char>, bool)>>>,
    r: Result<(Option<Generics>, usize), bool>,
) -> bool {
    match r {
        Ok((g, e)) => expected == Parsed::Done(opt_generics_view(g), e as int),
        Err(cut) => if cut {
            expected is Cut
        } else {
            expected is Back
        },
    }
}

/// The shapes of parsed names that are each followed by a comma, then the rest of the list.
spec fn names_followed(acc: Seq<(Seq<char>, bool)>, rest: Parsed<Seq<(Seq<char>, bool)>>) -> Parsed<
    Seq<(Seq<char>, bool)>,
> {
    match rest {
        Parsed::Done(items, e) => Parsed::Done(acc + items, e),
        Parsed::Back => Parsed::Back,
        Parsed::Cut => Parsed::Cut,
    }
}

/// The names of a list, each with whether a comma follows it.
pub open spec fn names_view(types: Punctuated<Name>) -> Seq<(Seq<char>, bool)> {
    Seq::new(types.items().len(), |i: int| (types.items()[i].spec_get(), types.spec_punct(i)))
}

/// A list of generic parameter names at `q0` that holds at least one (see `names_at`).
fn names_from<'a>(input: &'a str, cs: &Vec<char>, q0: usize) -> (r: Option<
    (Punctuated<Name<'a>>, usize),
>)
    requires
        cs@ == input@,
        1 <= q0 <= cs.len(),
    ensures
        match r {
            Some((types, e)) => names_at(cs@, q0 as int, true) == Parsed::Done(
                names_view(types),
                e as int,
            ) && q0 <= e <= cs.len(),
            None => !(names_at(cs@, q0 as int, true) is Done),
        },
{
    let mut values: Vec<(Name<'a>, token::Comma)> = Vec::new();
    let ghost mut acc: Seq<(Seq<char>, bool)> = Seq::empty();
    let mut q = q0;
    proof {
        assert(names_followed(acc, names_at(cs@, q as int, true)) =~= names_at(
            cs@,
            q as int,
            true,
        )) by {
            match names_at(cs@, q as int, true) {
                Parsed::Done(items, e) => {
                    assert(acc + items =~= items);
                },
                _ => {},
            }
        }
    }
    loop
        invariant
            cs@ == input@,
            1 <= q0 <= q <= cs.len(),
            values.len() <= q - q0,
            acc.len() == values.len(),
            forall|i: int|
                0 <= i < values.len() ==> acc[i] == ((#[trigger] values@[i].0).spec_get(), true),
            names_at(cs@, q0 as int, true) == names_followed(
                acc,
                names_at(cs@, q as int, values.len() == 0),
            ),
        decreases cs.len() - q,
    {
        let w = scan(cs, q, 4);
        if !(w < cs.len() && 'A' <= cs[w] && cs[w] <= 'Z') {
            if values.len() == 0 {
                return None;
            }
            let (name, comma) = values.pop().unwrap();
            let ghost popped = acc;
            let types = Punctuated::new(values, (name, Some(comma)));
            proof {
                assert(popped + Seq::<(Seq<char>, bool)>::empty() =~= popped);
                assert(names_view(types) =~= popped);
            }
            return Some((types, q));
        }
        let e = scan(cs, w + 1, 8);
        let name = Name::new(input.substring_char(w, e), Span::new(w, e));
        let c = scan(cs, e, 4);
        if !char_is(cs, c, ',') {
            let ghost prefix = acc;
            let ghost view = cs@.subrange(w as int, e as int);
            let types = Punctuated::new(values, (name, None));
            proof {
                assert(names_view(types) =~= prefix + seq![(view, false)]);
            }
            return Some((types, e));
        }
        proof {
            let rest = names_at(cs@, c + 1, false);
            let item = cs@.subrange(w as int, e as int);
            assert(!(rest is Back));
            assert(names_followed(acc, names_at(cs@, q as int, values.len() == 0))
                == names_followed(acc.push((item, true)), rest)) by {
                match rest {
                    Parsed::Done(items, end) => {
                        assert(acc + (seq![(item, true)] + items) =~= acc.push((item, true))
                            + items);
                    },
                    _ => {},
                }
            }
            acc = acc.push((item, true));
        }
        values.push((name, token::Comma::new(Span::new(c, c + 1))));
        q = c + 1;
    }
}

/// Optional generics at `p` (see `opt_generics_at`).
pub(crate) fn opt_generics_from<'a>(input: &'a str, cs: &Vec<char>, p: usize) -> (r: Result<
    (Option<Generics<'a>>, usize),
    bool,
>)
    requires
        cs@ == input@,
        p <= cs.len(),
    ensures
        generics_answer(opt_generics_at(cs@, p as int), r),
        r matches Ok((_, e)) ==> p <= e <= cs.len(),
        r matches Err(cut) ==> cut,
{
    if !char_is(cs, p, '<') {
        return Ok((None, p));
    }
    let (types, end) = match names_from(input, cs, p + 1) {
        Some(parsed) => parsed,
        None => {
            return Err(true);
        },
    };
    let c = scan(cs, end, 4);
    if !char_is(cs, c, '>') {
        return Err(true);
    }
    let angle = token::Angle::new(Span::new(p, p + 1), Span::new(c, c + 1));
    let generics = Generics { angle, types };
    proof {
        assert(generics_view(generics) =~= names_view(types));
    }
    Ok((Some(generics), c + 1))
}

// ------------------------------------------------------------------------------------------------
// Enums
// ------------------------------------------------------------------------------------------------

/// An enum variant without source locations.
pub struct VariantShape {
    /// Texts of the comment lines.
    pub comment: Seq<Seq<char>>,
    /// Name.
    pub name: Seq<char>,
    /// Fields.
    pub fields: FieldsShape,
    /// Value of the identifier.
    pub id: Option<nat>,
}

/// An enum definition without source locations (and without comment and attributes, which the
/// enclosing definition reads).
pub struct EnumShape {
    /// Name.
    pub name: Seq<char>,
    /// Generic parameter names.
    pub generics: Option<Seq<(Seq<char>, bool)>>,
    /// Variants, each with whether a comma follows it.
    pub variants: Seq<(VariantShape, bool)>,
}

/// A variant without source locations.
pub open spec fn variant_view(variant: Variant) -> VariantShape {
    VariantShape {
        comment: comment_view(variant.comment),
        name: variant.name.spec_get(),
        fields: fields_view(variant.fields),
        id: id_view(variant.id),
    }
}

/// Variants without source locations, each with whether a comma follows it.
pub open spec fn variants_view(variants: Punctuated<Variant>) -> Seq<(VariantShape, bool)> {
    Seq::new(
        variants.items().len(),
        |i: int| (variant_view(variants.items()[i]), variants.spec_punct(i)),
    )
}

/// An enum definition without source locations.
pub open spec fn enum_view(definition: Enum) -> EnumShape {
    EnumShape {
        name: definition.name.spec_get(),
        generics: opt_generics_view(definition.generics),
        variants: variants_view(definition.variants),
    }
}

/// A variant at `q`: after optional whitespace, comment lines, then, each after spaces and tabs,
/// a capitalized name, its fields and an optional identifier.
pub open spec fn variant_at(cs: Seq<char>, q: int) -> Parsed<VariantShape> {
    let (comment, c) = comments_at(cs, ws_end(cs, q));
    let s = run_end(cs, c, 5);
    match upper_name_end(cs, s) {
        Some(ne) => match fields_at(cs, run_end(cs, ne, 5)) {
            Parsed::Done(fields, fe) => {
                let (id, end) = opt_id_at(cs, fe);
                Parsed::Done(VariantShape { comment, name: cs.subrange(s, ne), fields, id }, end)
            },
            Parsed::Back => Parsed::Back,
            Parsed::Cut => Parsed::Cut,
        },
        None => Parsed::Back,
    }
}

/// A list of variants at `q`: each followed by whitespace and a comma, but for the last one,
/// whose comma is optional. A list that is not the first (`first` false) may also be empty.
pub open spec fn variants_at(cs: Seq<char>, q: int, first: bool) -> Parsed<
    Seq<(VariantShape, bool)>,
>
    decreases cs.len() - q,
{
    if !(0 <= q <= cs.len()) {
        Parsed::Back
    } else {
        match variant_at(cs, q) {
            Parsed::Cut => Parsed::Cut,
            Parsed::Back => if first {
                Parsed::Back
            } else {
                Parsed::Done(Seq::empty(), q)
            },
            Parsed::Done(variant, e) => {
                let c = ws_end(cs, e);
                if !char_at(cs, c, ',') {
                    Parsed::Done(seq![(variant, false)], e)
                } else if c + 1 <= q {
                    Parsed::Cut
                } else {
                    match variants_at(cs, c + 1, false) {
                        Parsed::Done(rest, end) => Parsed::Done(seq![(variant, true)] + rest, end),
                        _ => Parsed::Cut,
                    }
                }
            },
        }
    }
}

/// Where a keyword at `p` followed by at least one space or tab ends, with those spaces.
pub open spec fn keyword_end(cs: Seq<char>, p: int, word: Seq<char>) -> Option<int> {
    if starts_with(cs, p, word) && run_end(cs, p + word.len(), 5) > p + word.len() {
        Some(run_end(cs, p + word.len(), 5))
    } else {
        None
    }
}

/// An enum definition at `p`: `enum` and spaces or tabs, then (where any failure is fatal) a
/// capitalized name, optional generics, and, after spaces and tabs, `{`, a list of variants,
/// whitespace and `}`.
pub open spec fn enum_at(cs: Seq<char>, p: int) -> Parsed<EnumShape> {
    match keyword_end(cs, p, "enum"@) {
        None => Parsed::Back,
        Some(s) => match upper_name_end(cs, s) {
            None => Parsed::Cut,
            Some(ne) => match opt_generics_at(cs, ne) {
                Parsed::Done(generics, ge) => {
                    let b = run_end(cs, ge, 5);
                    if !char_at(cs, b, '{') {
                        Parsed::Cut
                    } else {
                        match variants_at(cs, b + 1, true) {
                            Parsed::Done(variants, e) => {
                                let c = ws_end(cs, e);
                                if char_at(cs, c, '}') {
                                    Parsed::Done(
                                        EnumShape { name: cs.subrange(s, ne), generics, variants },
                                        c + 1,
                                    )
                                } else {
                                    Parsed::Cut
                                }
                            },
                            _ => Parsed::Cut,
                        }
                    }
                },
                _ => Parsed::Cut,
            },
        },
    }
}

/// A variant at `q` (see `variant_at`).
fn variant_from<'a>(input: &'a str, cs: &Vec<char>, q: usize) -> (r: Result<
    (Variant<'a>, usize),
    bool,
>)
    requires
        cs@ == input@,
        q <= cs.len(),
    ensures
        match r {
            Ok((variant, e)) => variant_at(cs@, q as int) == Parsed::Done(
                variant_view(variant),
                e as int,
            ) && variant.span.end == e && q < e <= cs.len(),
            Err(cut) => if cut {
                variant_at(cs@, q as int) is Cut
            } else {
                variant_at(cs@, q as int) is Back
            },
        },
{
    let w = scan(cs, q, 4);
    let (comment, c) = comments_from(input, cs, w);
    let s = scan(cs, c, 5);
    if !(s < cs.len() && 'A' <= cs[s] && cs[s] <= 'Z') {
        return Err(false);
    }
    let ne = scan(cs, s + 1, 8);
    let f = scan(cs, ne, 5);
    match fields_from(input, cs, f) {
        Ok((fields, fe)) => {
            let (id, end) = opt_id_from(cs, fe);
            let name = Name::new(input.substring_char(s, ne), Span::new(s, ne));
            Ok((Variant { comment, name, fields, id, span: Span::new(c, end) }, end))
        },
        Err(cut) => Err(cut),
    }
}

/// The shapes of parsed variants that are each followed by a comma, then the rest of the list.
spec fn variants_followed(acc: Seq<(VariantShape, bool)>, rest: Parsed<Seq<(VariantShape, bool)>>) -> Parsed<
    Seq<(VariantShape, bool)>,
> {
    match rest {
        Parsed::Done(items, e) => Parsed::Done(acc + items, e),
        Parsed::Back => Parsed::Back,
        Parsed::Cut => Parsed::Cut,
    }
}

/// A list of variants at `q0` that holds at least one (see `variants_at`).
fn variants_from<'a>(input: &'a str, cs: &Vec<char>, q0: usize) -> (r: Result<
    (Punctuated<Variant<'a>>, usize),
    bool,
>)
    requires
        cs@ == input@,
        1 <= q0 <= cs.len(),
    ensures
        match r {
            Ok((variants, e)) => variants_at(cs@, q0 as int, true) == Parsed::Done(
                variants_view(variants),
                e as int,
            ) && q0 <= e <= cs.len(),
            Err(cut) => if cut {
                variants_at(cs@, q0 as int, true) is Cut
            } else {
                variants_at(cs@, q0 as int, true) is Back
            },
        },
{
    let mut values: Vec<(Variant<'a>, token::Comma)> = Vec::new();
    let ghost mut acc: Seq<(VariantShape, bool)> = Seq::empty();
    let mut q = q0;
    proof {
        assert(variants_followed(acc, variants_at(cs@, q as int, true)) =~= variants_at(
            cs@,
            q as int,
            true,
        )) by {
            match variants_at(cs@, q as int, true) {
                Parsed::Done(items, e) => {
                    assert(acc + items =~= items);
                },
                _ => {},
            }
        }
    }
    loop
        invariant
            cs@ == input@,
            1 <= q0 <= q <= cs.len(),
            values.len() <= q - q0,
            acc.len() == values.len(),
            forall|i: int|
                0 <= i < values.len() ==> acc[i] == (variant_view(#[trigger] values@[i].0), true),
            variants_at(cs@, q0 as int, true) == variants_followed(
                acc,
                variants_at(cs@, q as int, values.len() == 0),
            ),
        decreases cs.len() - q,
    {
        match variant_from(input, cs, q) {
            Err(true) => {
                return Err(true);
            },
            Err(false) => {
                if values.len() == 0 {
                    return Err(false);
                }
                let (variant, comma) = values.pop().unwrap();
                let ghost popped = acc;
                let variants = Punctuated::new(values, (variant, Some(comma)));
                proof {
                    assert(popped + Seq::<(VariantShape, bool)>::empty() =~= popped);
                    assert(variants_view(variants) =~= popped);
                }
                return Ok((variants, q));
            },
            Ok((variant, e)) => {
                let c = scan(cs, e, 4);
                if !char_is(cs, c, ',') {
                    let ghost prefix = acc;
                    let view = Ghost(variant_view(variant));
                    let variants = Punctuated::new(values, (variant, None));
                    proof {
                        assert(variants_view(variants) =~= prefix + seq![(view@, false)]);
                    }
                    return Ok((variants, e));
                }
                proof {
                    let rest = variants_at(cs@, c + 1, false);
                    assert(!(rest is Back));
                    assert(variants_followed(acc, variants_at(cs@, q as int, values.len() == 0))
                        == variants_followed(acc.push((variant_view(variant), true)), rest)) by {
                        match rest {
                            Parsed::Done(items, end) => {
                                assert(acc + (seq![(variant_view(variant), true)] + items)
                                    =~= acc.push((variant_view(variant), true)) + items);
                            },
                            _ => {},
                        }
                    }
                    acc = acc.push((variant_view(variant), true));
                }
                values.push((variant, token::Comma::new(Span::new(c, c + 1))));
                q = c + 1;
            },
        }
    }
}

/// Where a keyword at `p` followed by at least one space or tab ends (see `keyword_end`).
fn keyword_from(cs: &Vec<char>, p: usize, word: &str) -> (r: Option<usize>)
    requires
        p <= cs.len(),
    ensures
        match r {
            Some(s) => keyword_end(cs@, p as int, word@) == Some(s as int) && s <= cs.len(),
            None => keyword_end(cs@, p as int, word@) is None,
        },
{
    if !starts_with_exec(cs, p, word) {
        return None;
    }
    let k = p + word.unicode_len();
    let s = scan(cs, k, 5);
    if s > k {
        Some(s)
    } else {
        None
    }
}

/// Failure to parse a definition, or an element of one.
#[derive(Clone, Copy, Debug, PartialEq, Eq)]
pub struct ParseDefinitionError {
    /// Where the element was expected (counted in characters).
    pub at: usize,
    /// Whether the failure is fatal: the text started like the element but is not one. Otherwise
    /// nothing there looks like it, and another element may be read in its place.
    pub cut: bool,
}

/// Parse an enum definition that starts at `pos` (counted in characters) of `input`, as it is
/// written in a schema after its comment and attributes. Gives the enum (with an empty comment and
/// no attributes) and where it ends; an error says whether the failure is fatal.
pub fn parse_enum<'a>(input: &'a str, pos: usize) -> (r: Result<(Enum<'a>, usize), ParseDefinitionError>)
    ensures
        match r {
            Ok((definition, e)) => enum_at(input@, pos as int) == Parsed::Done(
                enum_view(definition),
                e as int,
            ) && definition.comment.0@.len() == 0 && definition.attributes.0@.len() == 0,
            Err(err) => err.at == pos && if err.cut {
                enum_at(input@, pos as int) is Cut
            } else {
                enum_at(input@, pos as int) is Back
            },
        },
{
    proof {
        reveal_strlit("enum");
    }
    let cs = chars_of(input);
    if pos > cs.len() {
        return Err(ParseDefinitionError { at: pos, cut: false });
    }
    let s = match keyword_from(&cs, pos, "enum") {
        Some(s) => s,
        None => {
            return Err(ParseDefinitionError { at: pos, cut: false });
        },
    };
    if !(s < cs.len() && 'A' <= cs[s] && cs[s] <= 'Z') {
        return Err(ParseDefinitionError { at: pos, cut: true });
    }
    let ne = scan(&cs, s + 1, 8);
    let name = Name::new(input.substring_char(s, ne), Span::new(s, ne));
    let (generics, ge) = match opt_generics_from(input, &cs, ne) {
        Ok(parsed) => parsed,
        Err(_) => {
            return Err(ParseDefinitionError { at: pos, cut: true });
        },
    };
    let b = scan(&cs, ge, 5);
    if !char_is(&cs, b, '{') {
        return Err(ParseDefinitionError { at: pos, cut: true });
    }
    let (variants, e) = match variants_from(input, &cs, b + 1) {
        Ok(parsed) => parsed,
        Err(_) => {
            return Err(ParseDefinitionError { at: pos, cut: true });
        },
    };
    let c = scan(&cs, e, 4);
    if !char_is(&cs, c, '}') {
        return Err(ParseDefinitionError { at: pos, cut: true });
    }
    let definition = Enum {
        comment: Comment::empty(),
        attributes: Attributes(Vec::new()),
        keyword: token::Enum::new(Span::new(pos, pos + 4)),
        name,
        generics,
        brace: token::Brace::new(Span::new(b, b + 1), Span::new(c, c + 1)),
        variants,
    };
    Ok((definition, c + 1))
}

/// Parse generics (`<` names `>`) that start at `pos` (counted in characters) of `input`. Gives the
/// generics and where they end; an error says whether the failure is fatal.
pub fn parse_generics<'a>(input: &'a str, pos: usize) -> (r: Result<
    (Generics<'a>, usize),
    ParseDefinitionError,
>)
    ensures
        match r {
            Ok((generics, e)) => generics_at(input@, pos as int) == Parsed::Done(
                generics_view(generics),
                e as int,
            ),
            Err(err) => err.at == pos && if err.cut {
                generics_at(input@, pos as int) is Cut
            } else {
                generics_at(input@, pos as int) is Back
            },
        },
{
    let cs = chars_of(input);
    if pos > cs.len() {
        return Err(ParseDefinitionError { at: pos, cut: false });
    }
    match opt_generics_from(input, &cs, pos) {
        Ok((Some(generics), e)) => Ok((generics, e)),
        Ok((None, _)) => Err(ParseDefinitionError { at: pos, cut: false }),
        Err(_) => Err(ParseDefinitionError { at: pos, cut: true }),
    }
}

// ------------------------------------------------------------------------------------------------
// Type aliases
// ------------------------------------------------------------------------------------------------

/// A type alias without source locations (and without comment, which the enclosing definition
/// reads).
pub struct AliasShape {
    /// Name.
    pub name: Seq<char>,
    /// Generic parameter names.
    pub generics: Option<Seq<(Seq<char>, bool)>>,
    /// The aliased type.
    pub target: Shape,
}

/// A type alias without source locations.
pub open spec fn alias_view(alias: TypeAlias) -> AliasShape {
    AliasShape {
        name: alias.name.spec_get(),
        generics: opt_generics_view(alias.generics),
        target: shape(alias.target),
    }
}

/// A type alias at `p`: `type` and spaces or tabs, then (where any failure is fatal) a
/// capitalized name, optional generics, and, each after spaces and tabs, `=`, a type and `;`.
pub open spec fn alias_at(cs: Seq<char>, p: int) -> Parsed<AliasShape> {
    match keyword_end(cs, p, "type"@) {
        None => Parsed::Back,
        Some(s) => match upper_name_end(cs, s) {
            None => Parsed::Cut,
            Some(ne) => match opt_generics_at(cs, ne) {
                Parsed::Done(generics, ge) => {
                    let q = run_end(cs, ge, 5);
                    if !char_at(cs, q, '=') {
                        Parsed::Cut
                    } else {
                        match type_at(cs, run_end(cs, q + 1, 5)) {
                            Parsed::Done(target, te) => {
                                let c = run_end(cs, te, 5);
                                if char_at(cs, c, ';') {
                                    Parsed::Done(
                                        AliasShape { name: cs.subrange(s, ne), generics, target },
                                        c + 1,
                                    )
                                } else {
                                    Parsed::Cut
                                }
                            },
                            _ => Parsed::Cut,
                        }
                    }
                },
                _ => Parsed::Cut,
            },
        },
    }
}

/// Parse a type alias that starts at `pos` (counted in characters) of `input`, as it is written in
/// a schema after its comment. Gives the alias (with an empty comment) and where it ends; an error
/// says whether the failure is fatal.
pub fn parse_alias<'a>(input: &'a str, pos: usize) -> (r: Result<
    (TypeAlias<'a>, usize),
    ParseDefinitionError,
>)
    ensures
        match r {
            Ok((alias, e)) => alias_at(input@, pos as int) == Parsed::Done(alias_view(alias), e as int)
                && alias.comment.0@.len() == 0,
            Err(err) => err.at == pos && if err.cut {
                alias_at(input@, pos as int) is Cut
            } else {
                alias_at(input@, pos as int) is Back
            },
        },
{
    proof {
        reveal_strlit("type");
    }
    let cs = chars_of(input);
    if pos > cs.len() {
        return Err(ParseDefinitionError { at: pos, cut: false });
    }
    let s = match keyword_from(&cs, pos, "type") {
        Some(s) => s,
        None => {
            return Err(ParseDefinitionError { at: pos, cut: false });
        },
    };
    if !(s < cs.len() && 'A' <= cs[s] && cs[s] <= 'Z') {
        return Err(ParseDefinitionError { at: pos, cut: true });
    }
    let ne = scan(&cs, s + 1, 8);
    let name = Name::new(input.substring_char(s, ne), Span::new(s, ne));
    let (generics, ge) = match opt_generics_from(input, &cs, ne) {
        Ok(parsed) => parsed,
        Err(_) => {
            return Err(ParseDefinitionError { at: pos, cut: true });
        },
    };
    let q = scan(&cs, ge, 5);
    if !char_is(&cs, q, '=') {
        return Err(ParseDefinitionError { at: pos, cut: true });
    }
    let t = scan(&cs, q + 1, 5);
    let (target, te) = match type_from(input, &cs, t) {
        Ok(parsed) => parsed,
        Err(_) => {
            return Err(ParseDefinitionError { at: pos, cut: true });
        },
    };
    proof {
        lemma_type_bounds(cs@, t as int);
    }
    let c = scan(&cs, te, 5);
    if !char_is(&cs, c, ';') {
        return Err(ParseDefinitionError { at: pos, cut: true });
    }
    let alias = TypeAlias {
        comment: Comment::empty(),
        keyword: token::Type::new(Span::new(pos, pos + 4)),
        name,
        generics,
        equal: token::Equal::new(Span::new(q, q + 1)),
        target,
        semicolon: token::Semicolon::new(Span::new(c, c + 1)),
    };
    Ok((alias, c + 1))
}

} // verus!
