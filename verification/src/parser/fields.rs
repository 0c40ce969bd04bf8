//! Parsing of identifiers, comments and the fields of structs and enum variants.
//!
//! As for data types, the grammar is stated as spec functions over the characters of the input,
//! and the parsers are proved to answer what it says.

use super::location::{find_char, from_until, until_end};
use super::punctuated::Punctuated;
use super::token;
use super::types::{
    char_at, char_is, chars_of, in_class, is_lower, is_upper, lemma_run_end, lemma_type_bounds,
    run_end, scan, scan_uint, shape, starts_with, starts_with_exec, type_at, type_from, uint_at,
    ws_end, Parsed, Shape,
};
use super::{Comment, CommentLine, Fields, Id, Name, NamedField, Span, Spanned, UnnamedField};
use vstd::prelude::*;

verus! {

// ------------------------------------------------------------------------------------------------
// Identifiers and comments
// ------------------------------------------------------------------------------------------------

/// An identifier at `p`: `@` and an unsigned 32-bit decimal. Gives the value and where it ends.
pub open spec fn id_at(cs: Seq<char>, p: int) -> Option<(nat, int)> {
    if char_at(cs, p, '@') {
        uint_at(cs, p + 1)
    } else {
        None
    }
}

/// An optional identifier after spaces and tabs at `p`: its value and where it ends, or nothing
/// and `p` itself.
pub open spec fn opt_id_at(cs: Seq<char>, p: int) -> (Option<nat>, int) {
    match id_at(cs, run_end(cs, p, 5)) {
        Some((value, e)) => (Some(value), e),
        None => (None, p),
    }
}

/// A comment line at `p`: spaces and tabs, `///`, spaces and tabs, the text up to the end of the
/// line, and the line break. Gives the text and where the line ends (after the line break).
pub open spec fn line_at(cs: Seq<char>, p: int) -> Option<(Seq<char>, int)> {
    let s = run_end(cs, p, 5);
    if starts_with(cs, s, "///"@) {
        let t = run_end(cs, s + 3, 5);
        let l = run_end(cs, t, 7);
        if char_at(cs, l, '\n') {
            Some((cs.subrange(t, l), l + 1))
        } else {
            None
        }
    } else {
        None
    }
}

/// As many comment lines as there are at `p`: their texts and where they end.
pub open spec fn comments_at(cs: Seq<char>, p: int) -> (Seq<Seq<char>>, int)
    decreases cs.len() - p,
{
    match line_at(cs, p) {
        Some((text, e)) => if p < e <= cs.len() {
            let rest = comments_at(cs, e);
            (seq![text] + rest.0, rest.1)
        } else {
            (Seq::empty(), p)
        },
        None => (Seq::empty(), p),
    }
}

/// The texts of the lines of a comment.
pub open spec fn comment_view(comment: Comment) -> Seq<Seq<char>> {
    Seq::new(comment.0@.len(), |i: int| comment.0@[i].value@)
}

/// The value of an optional identifier.
pub open spec fn id_view(id: Option<Id>) -> Option<nat> {
    match id {
        Some(id) => Some(id.spec_get() as nat),
        None => None,
    }
}

/// A comment line ends after where it starts, inside the text.
pub proof fn lemma_line_bounds(cs: Seq<char>, p: int)
    requires
        0 <= p <= cs.len(),
    ensures
        line_at(cs, p) matches Some((_, e)) ==> p < e <= cs.len(),
{
    reveal_strlit("///");
    lemma_run_end(cs, p, 5);
    let s = run_end(cs, p, 5);
    if starts_with(cs, s, "///"@) {
        lemma_run_end(cs, s + 3, 5);
        lemma_run_end(cs, run_end(cs, s + 3, 5), 7);
    }
}

/// Comments end at or after where they start, inside the text.
pub proof fn lemma_comments_bounds(cs: Seq<char>, p: int)
    requires
        0 <= p <= cs.len(),
    ensures
        p <= comments_at(cs, p).1 <= cs.len(),
    decreases cs.len() - p,
{
    lemma_line_bounds(cs, p);
    if let Some((_, e)) = line_at(cs, p) {
        lemma_comments_bounds(cs, e);
    }
}

/// An identifier at `p` (see `id_at`).
pub(crate) fn id_from(cs: &Vec<char>, p: usize) -> (r: Option<(Id, usize)>)
    requires
        p <= cs.len(),
    ensures
        match r {
            Some((id, e)) => id_at(cs@, p as int) == Some((id.spec_get() as nat, e as int))
                && id.spec_span() == (Span { start: p, end: e }),
            None => id_at(cs@, p as int) is None,
        },
        r matches Some((_, e)) ==> p < e <= cs.len(),
{
    if !char_is(cs, p, '@') {
        return None;
    }
    match scan_uint(cs, p + 1) {
        Some((value, e)) => Some((Id::new(value, Span::new(p, e)), e)),
        None => None,
    }
}

/// An optional identifier after spaces and tabs at `p` (see `opt_id_at`).
pub(crate) fn opt_id_from(cs: &Vec<char>, p: usize) -> (r: (Option<Id>, usize))
    requires
        p <= cs.len(),
    ensures
        opt_id_at(cs@, p as int) == (id_view(r.0), r.1 as int),
        p <= r.1 <= cs.len(),
{
    let s = scan(cs, p, 5);
    match id_from(cs, s) {
        Some((id, e)) => (Some(id), e),
        None => (None, p),
    }
}

/// Comment lines at `p` (see `comments_at`).
pub(crate) fn comments_from<'a>(input: &'a str, cs: &Vec<char>, p: usize) -> (r: (
    Comment<'a>,
    usize,
))
    requires
        cs@ == input@,
        p <= cs.len(),
    ensures
        comments_at(cs@, p as int) == (comment_view(r.0), r.1 as int),
        p <= r.1 <= cs.len(),
{
    let mut lines: Vec<CommentLine<'a>> = Vec::new();
    let mut q = p;
    proof {
        reveal_strlit("///");
        lemma_comments_bounds(cs@, p as int);
        assert(comment_view(Comment(lines)) + comments_at(cs@, q as int).0 =~= comments_at(
            cs@,
            q as int,
        ).0);
    }
    loop
        invariant
            cs@ == input@,
            p <= q <= cs.len(),
            comments_at(cs@, p as int) == (
                comment_view(Comment(lines)) + comments_at(cs@, q as int).0,
                comments_at(cs@, q as int).1,
            ),
        ensures
            p <= q <= cs.len(),
            comments_at(cs@, p as int) == (comment_view(Comment(lines)), q as int),
        decreases cs.len() - q,
    {
        proof {
            reveal_strlit("///");
            lemma_line_bounds(cs@, q as int);
        }
        let s = scan(cs, q, 5);
        let found = starts_with_exec(cs, s, "///");
        if !found {
            proof {
                assert(comment_view(Comment(lines)) + Seq::<Seq<char>>::empty() =~= comment_view(
                    Comment(lines),
                ));
            }
            break;
        }
        let t = scan(cs, s + 3, 5);
        let l = scan(cs, t, 7);
        if !char_is(cs, l, '\n') {
            proof {
                assert(comment_view(Comment(lines)) + Seq::<Seq<char>>::empty() =~= comment_view(
                    Comment(lines),
                ));
            }
            break;
        }
        let ghost before = comment_view(Comment(lines));
        lines.push(CommentLine::new(input.substring_char(t, l), Span::new(s, l)));
        proof {
            assert(comment_view(Comment(lines)) =~= before.push(cs@.subrange(t as int, l as int)));
            assert(before + comments_at(cs@, q as int).0 =~= comment_view(Comment(lines))
                + comments_at(cs@, l + 1).0);
        }
        q = l + 1;
    }
    (Comment(lines), q)
}

// ------------------------------------------------------------------------------------------------
// Fields
// ------------------------------------------------------------------------------------------------

/// A field without source locations: its comment lines, its name (empty for an unnamed field),
/// its type and its identifier.
pub struct FieldShape {
    /// Texts of the comment lines.
    pub comment: Seq<Seq<char>>,
    /// Name (empty for an unnamed field).
    pub name: Seq<char>,
    /// Type.
    pub ty: Shape,
    /// Value of the identifier.
    pub id: Option<nat>,
}

/// The fields of a struct or variant without source locations.
pub enum FieldsShape {
    /// Named fields, each with whether a comma follows it.
    Named(Seq<(FieldShape, bool)>),
    /// Unnamed fields, each with whether a comma follows it.
    Unnamed(Seq<(FieldShape, bool)>),
    /// No fields.
    Unit,
}

/// A named field without source locations.
pub open spec fn named_view(field: NamedField) -> FieldShape {
    FieldShape {
        comment: comment_view(field.comment),
        name: field.name.spec_get(),
        ty: shape(field.ty),
        id: id_view(field.id),
    }
}

/// An unnamed field without source locations.
pub open spec fn unnamed_view(field: UnnamedField) -> FieldShape {
    FieldShape { comment: Seq::empty(), name: Seq::empty(), ty: shape(field.ty), id: id_view(field.id) }
}

/// Named fields without source locations, each with whether a comma follows it.
pub open spec fn named_list_view(fields: Punctuated<NamedField>) -> Seq<(FieldShape, bool)> {
    Seq::new(
        fields.items().len(),
        |i: int| (named_view(fields.items()[i]), fields.spec_punct(i)),
    )
}

/// Unnamed fields without source locations, each with whether a comma follows it.
pub open spec fn unnamed_list_view(fields: Punctuated<UnnamedField>) -> Seq<(FieldShape, bool)> {
    Seq::new(
        fields.items().len(),
        |i: int| (unnamed_view(fields.items()[i]), fields.spec_punct(i)),
    )
}

/// Fields without source locations.
pub open spec fn fields_view(fields: Fields) -> FieldsShape {
    match fields {
        Fields::Named(_, list) => FieldsShape::Named(named_list_view(list)),
        Fields::Unnamed(_, list) => FieldsShape::Unnamed(unnamed_list_view(list)),
        Fields::Unit => FieldsShape::Unit,
    }
}

/// An unnamed field at `q`: a type after optional whitespace, then an optional identifier.
pub open spec fn unnamed_field_at(cs: Seq<char>, q: int) -> Parsed<FieldShape> {
    match type_at(cs, ws_end(cs, q)) {
        Parsed::Done(ty, e) => {
            let (id, end) = opt_id_at(cs, e);
            Parsed::Done(FieldShape { comment: Seq::empty(), name: Seq::empty(), ty, id }, end)
        },
        Parsed::Back => Parsed::Back,
        Parsed::Cut => Parsed::Cut,
    }
}

/// Where a lowercase name (a lowercase letter, then lowercase letters, digits and underscores)
/// at `p` ends, if there is one.
pub open spec fn lower_name_end(cs: Seq<char>, p: int) -> Option<int> {
    if 0 <= p < cs.len() && is_lower(cs[p]) {
        Some(run_end(cs, p + 1, 2))
    } else {
        None
    }
}

/// A named field at `q`: after optional whitespace, comment lines, then, each after spaces and
/// tabs, a lowercase name, `:`, a type and an optional identifier. Gives the field, where it
/// ends, and where it starts after its comment.
pub open spec fn named_field_at(cs: Seq<char>, q: int) -> Parsed<FieldShape> {
    let (comment, c) = comments_at(cs, ws_end(cs, q));
    let s = run_end(cs, c, 5);
    match lower_name_end(cs, s) {
        Some(ne) => {
            let s2 = run_end(cs, ne, 5);
            if !char_at(cs, s2, ':') {
                Parsed::Back
            } else {
                match type_at(cs, run_end(cs, s2 + 1, 5)) {
                    Parsed::Done(ty, e) => {
                        let (id, end) = opt_id_at(cs, e);
                        Parsed::Done(
                            FieldShape { comment, name: cs.subrange(s, ne), ty, id },
                            end,
                        )
                    },
                    Parsed::Back => Parsed::Back,
                    Parsed::Cut => Parsed::Cut,
                }
            }
        },
        None => Parsed::Back,
    }
}

/// A field at `q`, named or not.
pub open spec fn field_at(cs: Seq<char>, q: int, named: bool) -> Parsed<FieldShape> {
    if named {
        named_field_at(cs, q)
    } else {
        unnamed_field_at(cs, q)
    }
}

/// A list of fields at `q`: each followed by whitespace and a comma, but for the last one, whose
/// comma is optional. A list that is not the first (`first` false) may also be empty.
pub open spec fn field_list_at(cs: Seq<char>, q: int, first: bool, named: bool) -> Parsed<
    Seq<(FieldShape, bool)>,
>
    decreases cs.len() - q,
{
    if !(0 <= q <= cs.len()) {
        Parsed::Back
    } else {
        match field_at(cs, q, named) {
            Parsed::Cut => Parsed::Cut,
            Parsed::Back => if first {
                Parsed::Back
            } else {
                Parsed::Done(Seq::empty(), q)
            },
            Parsed::Done(field, e) => {
                let c = ws_end(cs, e);
                if !char_at(cs, c, ',') {
                    Parsed::Done(seq![(field, false)], e)
                } else if c + 1 <= q {
                    Parsed::Cut
                } else {
                    match field_list_at(cs, c + 1, false, named) {
                        Parsed::Done(rest, end) => Parsed::Done(seq![(field, true)] + rest, end),
                        _ => Parsed::Cut,
                    }
                }
            },
        }
    }
}

/// The fields at `p`, chosen by the next character: named fields in braces after `{`, unnamed
/// fields in parentheses after `(` (after either, any failure is fatal), and no fields before
/// anything else. At the end of the text there is nothing to choose by, which fails recoverably.
pub open spec fn fields_at(cs: Seq<char>, p: int) -> Parsed<FieldsShape> {
    if !(0 <= p < cs.len()) {
        Parsed::Back
    } else if cs[p] == '{' || cs[p] == '(' {
        let named = cs[p] == '{';
        match field_list_at(cs, p + 1, true, named) {
            Parsed::Done(fields, e) => {
                let c = ws_end(cs, e);
                if char_at(cs, c, if named {
                    '}'
                } else {
                    ')'
                }) {
                    Parsed::Done(
                        if named {
                            FieldsShape::Named(fields)
                        } else {
                            FieldsShape::Unnamed(fields)
                        },
                        c + 1,
                    )
                } else {
                    Parsed::Cut
                }
            },
            _ => Parsed::Cut,
        }
    } else {
        Parsed::Done(FieldsShape::Unit, p)
    }
}

/// An unnamed field at `q` (see `unnamed_field_at`).
fn unnamed_field_from<'a>(input: &'a str, cs: &Vec<char>, q: usize) -> (r: Result<
    (UnnamedField<'a>, usize),
    bool,
>)
    requires
        cs@ == input@,
        q <= cs.len(),
    ensures
        match r {
            Ok((field, e)) => field_at(cs@, q as int, false) == Parsed::Done(
                unnamed_view(field),
                e as int,
            ) && field.span == (Span { start: q, end: e }) && q < e <= cs.len(),
            Err(cut) => if cut {
                field_at(cs@, q as int, false) is Cut
            } else {
                field_at(cs@, q as int, false) is Back
            },
        },
{
    let w = scan(cs, q, 4);
    match type_from(input, cs, w) {
        Ok((ty, e)) => {
            proof {
                lemma_type_bounds(cs@, w as int);
            }
            let (id, end) = opt_id_from(cs, e);
            Ok((UnnamedField { ty, id, span: Span::new(q, end) }, end))
        },
        Err(cut) => Err(cut),
    }
}

/// A named field at `q` (see `named_field_at`).
fn named_field_from<'a>(input: &'a str, cs: &Vec<char>, q: usize) -> (r: Result<
    (NamedField<'a>, usize),
    bool,
>)
    requires
        cs@ == input@,
        q <= cs.len(),
    ensures
        match r {
            Ok((field, e)) => field_at(cs@, q as int, true) == Parsed::Done(
                named_view(field),
                e as int,
            ) && field.span.end == e && q < e <= cs.len(),
            Err(cut) => if cut {
                field_at(cs@, q as int, true) is Cut
            } else {
                field_at(cs@, q as int, true) is Back
            },
        },
{
    let w = scan(cs, q, 4);
    let (comment, c) = comments_from(input, cs, w);
    let s = scan(cs, c, 5);
    if !(s < cs.len() && 'a' <= cs[s] && cs[s] <= 'z') {
        return Err(false);
    }
    let ne = scan(cs, s + 1, 2);
    let s2 = scan(cs, ne, 5);
    if !char_is(cs, s2, ':') {
        return Err(false);
    }
    let s3 = scan(cs, s2 + 1, 5);
    match type_from(input, cs, s3) {
        Ok((ty, e)) => {
            proof {
                lemma_type_bounds(cs@, s3 as int);
            }
            let (id, end) = opt_id_from(cs, e);
            let name = Name::new(input.substring_char(s, ne), Span::new(s, ne));
            let colon = token::Colon::new(Span::new(s2, s2 + 1));
            Ok((NamedField { comment, name, colon, ty, id, span: Span::new(c, end) }, end))
        },
        Err(cut) => Err(cut),
    }
}

/// The shapes of parsed fields that are each followed by a comma, then the rest of the list.
spec fn fields_followed(acc: Seq<(FieldShape, bool)>, rest: Parsed<Seq<(FieldShape, bool)>>) -> Parsed<
    Seq<(FieldShape, bool)>,
> {
    match rest {
        Parsed::Done(items, e) => Parsed::Done(acc + items, e),
        Parsed::Back => Parsed::Back,
        Parsed::Cut => Parsed::Cut,
    }
}

/// A list of named fields at `q0` that holds at least one (see `field_list_at`).
fn named_list_from<'a>(input: &'a str, cs: &Vec<char>, q0: usize) -> (r: Result<
    (Punctuated<NamedField<'a>>, usize),
    bool,
>)
    requires
        cs@ == input@,
        1 <= q0 <= cs.len(),
    ensures
        match r {
            Ok((fields, e)) => field_list_at(cs@, q0 as int, true, true) == Parsed::Done(
                named_list_view(fields),
                e as int,
            ) && q0 <= e <= cs.len(),
            Err(cut) => if cut {
                field_list_at(cs@, q0 as int, true, true) is Cut
            } else {
                field_list_at(cs@, q0 as int, true, true) is Back
            },
        },
{
    let mut values: Vec<(NamedField<'a>, token::Comma)> = Vec::new();
    let ghost mut acc: Seq<(FieldShape, bool)> = Seq::empty();
    let mut q = q0;
    proof {
        assert(fields_followed(acc, field_list_at(cs@, q as int, true, true)) =~= field_list_at(
            cs@,
            q as int,
            true,
            true,
        )) by {
            match field_list_at(cs@, q as int, true, true) {
                Parsed::Done(items, e) => {
                    assert(acc + items =~= items);
                },
                _ => {},
            }
        }
    }
    loop
        invariant
            cs@ == input@,
            1 <= q0 <= q <= cs.len(),
            values.len() <= q - q0,
            acc.len() == values.len(),
            forall|i: int|
                0 <= i < values.len() ==> acc[i] == (named_view(#[trigger] values@[i].0), true),
            field_list_at(cs@, q0 as int, true, true) == fields_followed(
                acc,
                field_list_at(cs@, q as int, values.len() == 0, true),
            ),
        decreases cs.len() - q,
    {
        match named_field_from(input, cs, q) {
            Err(true) => {
                return Err(true);
            },
            Err(false) => {
                if values.len() == 0 {
                    return Err(false);
                }
                let (field, comma) = values.pop().unwrap();
                let ghost popped = acc;
                let fields = Punctuated::new(values, (field, Some(comma)));
                proof {
                    assert(popped + Seq::<(FieldShape, bool)>::empty() =~= popped);
                    assert(named_list_view(fields) =~= popped);
                }
                return Ok((fields, q));
            },
            Ok((field, e)) => {
                let c = scan(cs, e, 4);
                if !char_is(cs, c, ',') {
                    let ghost prefix = acc;
                    let view = Ghost(named_view(field));
                    let fields = Punctuated::new(values, (field, None));
                    proof {
                        assert(named_list_view(fields) =~= prefix + seq![(view@, false)]);
                    }
                    return Ok((fields, e));
                }
                proof {
                    let rest = field_list_at(cs@, c + 1, false, true);
                    assert(!(rest is Back));
                    assert(fields_followed(acc, field_list_at(cs@, q as int, values.len() == 0, true))
                        == fields_followed(acc.push((named_view(field), true)), rest)) by {
                        match rest {
                            Parsed::Done(items, end) => {
                                assert(acc + (seq![(named_view(field), true)] + items) =~= acc.push(
                                    (named_view(field), true),
                                ) + items);
                            },
                            _ => {},
                        }
                    }
                    acc = acc.push((named_view(field), true));
                }
                values.push((field, token::Comma::new(Span::new(c, c + 1))));
                q = c + 1;
            },
        }
    }
}

/// A list of unnamed fields at `q0` that holds at least one (see `field_list_at`).
fn unnamed_list_from<'a>(input: &'a str, cs: &Vec<char>, q0: usize) -> (r: Result<
    (Punctuated<UnnamedField<'a>>, usize),
    bool,
>)
    requires
        cs@ == input@,
        1 <= q0 <= cs.len(),
    ensures
        match r {
            Ok((fields, e)) => field_list_at(cs@, q0 as int, true, false) == Parsed::Done(
                unnamed_list_view(fields),
                e as int,
            ) && q0 <= e <= cs.len(),
            Err(cut) => if cut {
                field_list_at(cs@, q0 as int, true, false) is Cut
            } else {
                field_list_at(cs@, q0 as int, true, false) is Back
            },
        },
{
    let mut values: Vec<(UnnamedField<'a>, token::Comma)> = Vec::new();
    let ghost mut acc: Seq<(FieldShape, bool)> = Seq::empty();
    let mut q = q0;
    proof {
        assert(fields_followed(acc, field_list_at(cs@, q as int, true, false)) =~= field_list_at(
            cs@,
            q as int,
            true,
            false,
        )) by {
            match field_list_at(cs@, q as int, true, false) {
                Parsed::Done(items, e) => {
                    assert(acc + items =~= items);
                },
                _ => {},
            }
        }
    }
    loop
        invariant
            cs@ == input@,
            1 <= q0 <= q <= cs.len(),
            values.len() <= q - q0,
            acc.len() == values.len(),
            forall|i: int|
                0 <= i < values.len() ==> acc[i] == (unnamed_view(#[trigger] values@[i].0), true),
            field_list_at(cs@, q0 as int, true, false) == fields_followed(
                acc,
                field_list_at(cs@, q as int, values.len() == 0, false),
            ),
        decreases cs.len() - q,
    {
        match unnamed_field_from(input, cs, q) {
            Err(true) => {
                return Err(true);
            },
            Err(false) => {
                if values.len() == 0 {
                    return Err(false);
                }
                let (field, comma) = values.pop().unwrap();
                let ghost popped = acc;
                let fields = Punctuated::new(values, (field, Some(comma)));
                proof {
                    assert(popped + Seq::<(FieldShape, bool)>::empty() =~= popped);
                    assert(unnamed_list_view(fields) =~= popped);
                }
                return Ok((fields, q));
            },
            Ok((field, e)) => {
                let c = scan(cs, e, 4);
                if !char_is(cs, c, ',') {
                    let ghost prefix = acc;
                    let view = Ghost(unnamed_view(field));
                    let fields = Punctuated::new(values, (field, None));
                    proof {
                        assert(unnamed_list_view(fields) =~= prefix + seq![(view@, false)]);
                    }
                    return Ok((fields, e));
                }
                proof {
                    let rest = field_list_at(cs@, c + 1, false, false);
                    assert(!(rest is Back));
                    assert(fields_followed(acc, field_list_at(cs@, q as int, values.len() == 0, false))
                        == fields_followed(acc.push((unnamed_view(field), true)), rest)) by {
                        match rest {
                            Parsed::Done(items, end) => {
                                assert(acc + (seq![(unnamed_view(field), true)] + items)
                                    =~= acc.push((unnamed_view(field), true)) + items);
                            },
                            _ => {},
                        }
                    }
                    acc = acc.push((unnamed_view(field), true));
                }
                values.push((field, token::Comma::new(Span::new(c, c + 1))));
                q = c + 1;
            },
        }
    }
}

/// The fields at `p` (see `fields_at`).
pub(crate) fn fields_from<'a>(input: &'a str, cs: &Vec<char>, p: usize) -> (r: Result<
    (Fields<'a>, usize),
    bool,
>)
    requires
        cs@ == input@,
        p <= cs.len(),
    ensures
        match r {
            Ok((fields, e)) => fields_at(cs@, p as int) == Parsed::Done(
                fields_view(fields),
                e as int,
            ) && p <= e <= cs.len(),
            Err(cut) => if cut {
                fields_at(cs@, p as int) is Cut
            } else {
                fields_at(cs@, p as int) is Back
            },
        },
{
    if p >= cs.len() {
        return Err(false);
    }
    if cs[p] == '{' {
        let (list, e) = match named_list_from(input, cs, p + 1) {
            Ok(parsed) => parsed,
            Err(_) => {
                return Err(true);
            },
        };
        let c = scan(cs, e, 4);
        if !char_is(cs, c, '}') {
            return Err(true);
        }
        let brace = token::Brace::new(Span::new(p, p + 1), Span::new(c, c + 1));
        let fields = Fields::Named(brace, list);
        proof {
            assert(fields_view(fields) == FieldsShape::Named(named_list_view(list)));
            assert(fields_at(cs@, p as int) == Parsed::Done(fields_view(fields), c + 1));
        }
        Ok((fields, c + 1))
    } else if cs[p] == '(' {
        let (list, e) = match unnamed_list_from(input, cs, p + 1) {
            Ok(parsed) => parsed,
            Err(_) => {
                return Err(true);
            },
        };
        let c = scan(cs, e, 4);
        if !char_is(cs, c, ')') {
            return Err(true);
        }
        let paren = token::Parenthesis::new(Span::new(p, p + 1), Span::new(c, c + 1));
        let fields = Fields::Unnamed(paren, list);
        proof {
            assert(fields_view(fields) == FieldsShape::Unnamed(unnamed_list_view(list)));
            assert(fields_at(cs@, p as int) == Parsed::Done(fields_view(fields), c + 1));
        }
        Ok((fields, c + 1))
    } else {
        proof {
            assert(fields_view(Fields::Unit) == FieldsShape::Unit);
            assert(fields_at(cs@, p as int) == Parsed::<FieldsShape>::Done(FieldsShape::Unit, p as int));
        }
        Ok((Fields::Unit, p))
    }
}

/// Failure to parse fields.
#[derive(Clone, Copy, Debug, PartialEq, Eq)]
pub struct ParseFieldsError {
    /// The rest of the line or list entry where the fields were expected (counted in characters):
    /// up to the next comma, or else the next line break, or empty.
    pub at: Span,
    /// Whether the failure is fatal: the text opened a list of fields that it does not hold.
    /// Otherwise the text ended where the fields were expected.
    pub cut: bool,
}

/// Parse the fields of a struct or variant that start at `pos` (counted in characters) of
/// `input`: named ones in braces, unnamed ones in parentheses, or none. Gives the fields and
/// where they end; an error says whether the failure is fatal.
pub fn parse_fields<'a>(input: &'a str, pos: usize) -> (r: Result<(Fields<'a>, usize), ParseFieldsError>)
    ensures
        match r {
            Ok((fields, e)) => fields_at(input@, pos as int) == Parsed::Done(
                fields_view(fields),
                e as int,
            ),
            Err(err) => err.at == (Span {
                start: pos,
                end: match until_end(input@, pos as int, seq![',', '\n']) {
                    Some(e) => e as usize,
                    None => pos,
                },
            }) && if err.cut {
                fields_at(input@, pos as int) is Cut
            } else {
                fields_at(input@, pos as int) is Back
            },
        },
{
    let cs = chars_of(input);
    if pos > cs.len() {
        proof {
            assert(until_end(input@, pos as int, seq![',', '\n']) is None) by {
                assert(find_char(input@, pos as int, ',') is None);
                assert(find_char(input@, pos as int, '\n') is None);
                assert(seq![',', '\n'].drop_first() =~= seq!['\n']);
                assert(seq!['\n'].drop_first() =~= Seq::<char>::empty());
                reveal_with_fuel(until_end, 3);
            }
        }
        return Err(ParseFieldsError { at: Span::new(pos, pos), cut: false });
    }
    match fields_from(input, &cs, pos) {
        Ok(parsed) => Ok(parsed),
        Err(cut) => {
            let targets: [char; 2] = [',', '\n'];
            proof {
                assert(targets@ =~= seq![',', '\n']);
            }
            Err(ParseFieldsError { at: from_until(&cs, pos, targets.as_slice()), cut })
        },
    }
}

} // verus!
