//! Parsing reads back what printing writes, for generics and type aliases.

use super::definitions::{
    alias_at, alias_view, enum_at, enum_view, generics_at, generics_view, names_at, upper_name_end,
    variant_at, variant_view, variants_at, variants_view, AliasShape, VariantShape,
};
use super::fields::{
    comment_view, comments_at, field_list_at, fields_at, fields_view, id_at, id_view, line_at,
    lower_name_end, named_field_at, named_list_view, named_view, opt_id_at, unnamed_field_at,
    unnamed_list_view, unnamed_view, FieldShape, FieldsShape,
};
use super::print::{
    alias_text, attributes_text, comment_text, decimal, enum_text, generics_text, id_text, indent_text, names_text,
    named_body, named_field_text, opt_generics_text, opt_id_text, separator_text, type_text,
    fields_text, unnamed_body, unnamed_field_text, variant_text, variants_body,
};
use super::punctuated::Punctuated;
use super::types::{
    char_at, in_class, is_digit, is_lower, is_upper, lemma_decimal, lemma_no_type_at_close, lemma_read_type,
    lemma_read_uint, lemma_run_all, lemma_run_in, lemma_starts_concat,
    printable, run_end, shape, starts_with, stop_at, type_at, ws_end, Parsed,
};
use super::{
    Comment, CommentLine, Enum, Fields, Generics, Id, Name, NamedField, TypeAlias, UnnamedField,
    Variant,
};
use vstd::prelude::*;

verus! {

/// A definition name that reads back: an uppercase letter, then ASCII letters and digits.
pub open spec fn def_name_ok(s: Seq<char>) -> bool {
    &&& s.len() >= 1
    &&& is_upper(s[0])
    &&& forall|k: int| 1 <= k < s.len() ==> in_class(8, #[trigger] s[k])
}

/// Every name of the list reads back.
pub open spec fn names_ok(names: Punctuated<Name>) -> bool {
    forall|i: int| 0 <= i < names.items().len() ==> def_name_ok(#[trigger] names.items()[i].spec_get())
}

/// Generics whose names read back.
pub open spec fn generics_printable(generics: Generics) -> bool {
    names_ok(generics.types)
}

/// A type alias that reads back from its text: no comment, names that follow the grammar and a
/// target type that reads back.
pub open spec fn alias_printable(alias: TypeAlias) -> bool {
    &&& alias.comment.0@.len() == 0
    &&& def_name_ok(alias.name.spec_get())
    &&& match alias.generics {
        Some(g) => generics_printable(g),
        None => true,
    }
    &&& printable(alias.target)
}

/// The space that the text of a name list puts before the name at `i`, as the parser sees it
/// after the comma before.
spec fn name_lead(names: Punctuated<Name>, i: int) -> Seq<char> {
    if 0 < i < names.items().len() {
        " "@
    } else {
        Seq::empty()
    }
}

/// The names of a list from position `i` on, each with whether a comma follows it.
spec fn names_from(names: Punctuated<Name>, i: int) -> Seq<(Seq<char>, bool)> {
    Seq::new(
        (names.items().len() - i) as nat,
        |k: int| (names.items()[i + k].spec_get(), names.spec_punct(i + k)),
    )
}

/// A name that follows the grammar, before a character that is no letter or digit, reads as the
/// name.
proof fn lemma_read_name(cs: Seq<char>, w: int, name: Seq<char>)
    requires
        def_name_ok(name),
        starts_with(cs, w, name),
        w + name.len() < cs.len(),
        !in_class(8, cs[w + name.len()]),
    ensures
        upper_name_end(cs, w) == Some(w + name.len()),
        cs.subrange(w, w + name.len()) == name,
        !in_class(4, cs[w]),
{
    assert(cs.subrange(w, w + name.len())[0] == cs[w]);
    lemma_run_all(name, 8, 1);
    lemma_run_in(cs, w, name, 8, 1);
}

/// The text of the names of a list from position `i` on, after its separator and followed by
/// `>`, reads back as those names.
proof fn lemma_read_names(cs: Seq<char>, q: int, names: Punctuated<Name>, i: int)
    requires
        names_ok(names),
        0 <= i <= names.items().len(),
        starts_with(cs, q, name_lead(names, i) + names_text(names, i)),
        q + name_lead(names, i).len() + names_text(names, i).len() < cs.len(),
        cs[q + name_lead(names, i).len() + names_text(names, i).len()] == '>',
        i == names.items().len() ==> names.spec_punct(names.items().len() - 1),
    ensures
        names_at(cs, q, i == 0) == Parsed::Done(
            names_from(names, i),
            q + name_lead(names, i).len() + names_text(names, i).len(),
        ),
    decreases names.items().len() - i,
{
    reveal_strlit(" ");
    reveal_strlit(",");
    let n = names.items().len();
    names.lemma_not_empty();
    names.lemma_punct_between();
    let sep = name_lead(names, i);
    let body = names_text(names, i);
    let end = q + sep.len() + body.len();
    if i == n {
        assert(body.len() == 0);
        assert(sep.len() == 0);
        assert(ws_end(cs, q) == q);
        assert(upper_name_end(cs, q) is None);
        assert(names_from(names, i) =~= Seq::<(Seq<char>, bool)>::empty());
    } else {
        let name = names.items()[i].spec_get();
        let comma = if names.spec_punct(i) {
            ","@
        } else {
            Seq::empty()
        };
        let space = if i < n - 1 {
            " "@
        } else {
            Seq::empty()
        };
        let rest = names_text(names, i + 1);
        assert(body == name + comma + space + rest);
        lemma_starts_concat(cs, q, sep, body);
        let w = q + sep.len();
        lemma_starts_concat(cs, w, name + comma + space, rest);
        lemma_starts_concat(cs, w, name + comma, space);
        lemma_starts_concat(cs, w, name, comma);
        let e = w + name.len();
        if names.spec_punct(i) {
            assert(cs.subrange(e, e + 1)[0] == cs[e]);
        } else {
            assert(rest.len() == 0);
            assert(space.len() == 0);
        }
        assert(def_name_ok(names.items()[i].spec_get()));
        lemma_read_name(cs, w, name);
        if sep.len() > 0 {
            assert(cs.subrange(q, q + 1)[0] == cs[q]);
            assert(ws_end(cs, q + 1) == q + 1);
        }
        assert(ws_end(cs, q) == w);
        assert(ws_end(cs, e) == e);
        if names.spec_punct(i) {
            assert(space == name_lead(names, i + 1));
            assert(name_lead(names, i + 1) + rest =~= space + rest);
            assert(name + comma + space + rest =~= name + (comma + (space + rest)));
            lemma_starts_concat(cs, w, name, comma + (space + rest));
            lemma_starts_concat(cs, e, comma, space + rest);
            lemma_read_names(cs, e + 1, names, i + 1);
            assert(names_from(names, i) =~= seq![(name, true)] + names_from(names, i + 1));
        } else {
            assert(names_from(names, i) =~= seq![(name, false)]);
        }
    }
}

/// Printed generics followed by another character read back as their names.
proof fn lemma_read_generics(cs: Seq<char>, p: int, generics: Generics)
    requires
        generics_printable(generics),
        starts_with(cs, p, generics_text(generics)),
    ensures
        generics_at(cs, p) == Parsed::Done(
            generics_view(generics),
            p + generics_text(generics).len(),
        ),
{
    reveal_strlit("<");
    reveal_strlit(">");
    let names = generics.types;
    let body = names_text(names, 0);
    lemma_starts_concat(cs, p, "<"@ + body, ">"@);
    lemma_starts_concat(cs, p, "<"@, body);
    assert(cs.subrange(p, p + 1)[0] == cs[p]);
    let e = p + 1 + body.len();
    assert(cs.subrange(e, e + 1)[0] == cs[e]);
    assert(name_lead(names, 0) + body =~= body);
    names.lemma_not_empty();
    lemma_read_names(cs, p + 1, names, 0);
    assert(ws_end(cs, e) == e);
    assert(names_from(names, 0) =~= generics_view(generics));
}

/// Parsing reads back what printing wrote: the text of generics whose names follow the grammar
/// parses as those names, and the parse takes up the whole text.
pub proof fn law_parse_printed_generics(generics: Generics)
    requires
        generics_printable(generics),
    ensures
        generics_at(generics_text(generics), 0) == Parsed::Done(
            generics_view(generics),
            generics_text(generics).len() as int,
        ),
{
    let text = generics_text(generics);
    assert(text.subrange(0, text.len() as int) =~= text);
    lemma_read_generics(text, 0, generics);
}

/// Parsing reads back what printing wrote: the text of a type alias without comment, whose names
/// and target type follow the grammar, parses as that alias, and the parse takes up the whole
/// text.
#[verifier::spinoff_prover]
#[verifier::rlimit(40)]
pub proof fn law_parse_printed_alias(alias: TypeAlias)
    requires
        alias_printable(alias),
    ensures
        alias_at(alias_text(alias, 0), 0) == Parsed::Done(
            alias_view(alias),
            alias_text(alias, 0).len() as int,
        ),
{
    reveal_strlit("type");
    reveal_strlit(" ");
    reveal_strlit("=");
    reveal_strlit(";");
    let cs = alias_text(alias, 0);
    let name = alias.name.spec_get();
    let g = opt_generics_text(alias.generics);
    let t = type_text(alias.target);
    let head = "type"@ + " "@ + name + g;
    assert(cs =~= head + " "@ + "="@ + " "@ + t + ";"@);
    let ne: int = 5 + name.len() as int;
    let ge: int = ne + g.len();
    let te: int = ge + 3 + t.len();
    assert(cs.len() == te + 1);
    // The keyword and the spaces after it.
    assert(cs.subrange(0, 4) =~= "type"@);
    assert(cs[4] == ' ');
    assert(cs[5] == name[0]);
    assert(run_end(cs, 5, 5) == 5);
    assert(run_end(cs, 4, 5) == 5);
    // The name.
    assert(cs.subrange(5, ne) =~= name);
    assert(cs[ne] == (if g.len() > 0 {
        g[0]
    } else {
        ' '
    }));
    match alias.generics {
        Some(gen) => {
            reveal_strlit("<");
            assert(g[0] == '<');
        },
        None => {},
    }
    lemma_read_name(cs, 5, name);
    // The generics.
    match alias.generics {
        Some(gen) => {
            assert(cs.subrange(ne, ge) =~= g);
            lemma_read_generics(cs, ne, gen);
        },
        None => {
            assert(!char_at(cs, ne, '<'));
        },
    }
    // The equal sign and the target type.
    assert(cs[ge] == ' ');
    assert(cs[ge + 1] == '=');
    assert(cs[ge + 2] == ' ');
    assert(run_end(cs, ge + 1, 5) == ge + 1);
    assert(run_end(cs, ge, 5) == ge + 1);
    assert(cs.subrange(ge + 3, te) =~= t);
    assert(cs[te] == ';');
    assert(stop_at(cs, te));
    lemma_read_type(cs, ge + 3, alias.target);
    assert(cs[ge + 3] == t[0]);
    assert(run_end(cs, ge + 3, 5) == ge + 3);
    assert(run_end(cs, ge + 2, 5) == ge + 3);
    assert(run_end(cs, te, 5) == te);
}

// ------------------------------------------------------------------------------------------------
// Whitespace and comments
// ------------------------------------------------------------------------------------------------

/// A run of characters of a class, before one that is not of it, is skipped whole.
proof fn lemma_skip(cs: Seq<char>, p: int, sp: Seq<char>, class: nat)
    requires
        starts_with(cs, p, sp),
        forall|k: int| 0 <= k < sp.len() ==> in_class(class, #[trigger] sp[k]),
        p + sp.len() < cs.len(),
        !in_class(class, cs[p + sp.len()]),
    ensures
        run_end(cs, p, class) == p + sp.len(),
{
    lemma_run_all(sp, class, 0);
    lemma_run_in(cs, p, sp, class, 0);
}

/// Indentation is made of spaces, four per level.
proof fn lemma_indent(level: nat)
    ensures
        indent_text(level).len() == 4 * level,
        forall|k: int| 0 <= k < indent_text(level).len() ==> #[trigger] indent_text(level)[k] == ' ',
    decreases level,
{
    reveal_strlit("    ");
    if level > 0 {
        lemma_indent((level - 1) as nat);
    }
}

/// A comment line that reads back: no line break in it, and no space or tab at its start.
pub open spec fn line_ok(v: Seq<char>) -> bool {
    &&& forall|k: int| 0 <= k < v.len() ==> #[trigger] v[k] != '\n'
    &&& v.len() > 0 ==> !in_class(5, v[0])
}

/// A comment whose lines read back.
pub open spec fn comment_ok(comment: Comment) -> bool {
    forall|i: int| 0 <= i < comment.0@.len() ==> line_ok(#[trigger] comment.0@[i].value@)
}

/// The text of one comment line.
spec fn line_text(line: CommentLine, level: nat) -> Seq<char> {
    indent_text(level) + "/// "@ + line.value@ + "\n"@
}

/// The text of a comment is its first line, then the others.
proof fn lemma_comment_front(lines: Seq<CommentLine>, level: nat)
    requires
        lines.len() > 0,
    ensures
        comment_text(lines, level) == line_text(lines[0], level) + comment_text(lines.drop_first(), level),
    decreases lines.len(),
{
    if lines.len() == 1 {
        assert(lines.drop_last() =~= Seq::<CommentLine>::empty());
        assert(lines.drop_first() =~= Seq::<CommentLine>::empty());
        assert(comment_text(lines, level) =~= line_text(lines[0], level));
    } else {
        lemma_comment_front(lines.drop_last(), level);
        assert(lines.drop_last().drop_first() =~= lines.drop_first().drop_last());
        assert(lines.drop_first().last() == lines.last());
        assert(lines.drop_last()[0] == lines[0]);
        assert(comment_text(lines, level) =~= line_text(lines[0], level) + comment_text(
            lines.drop_first(),
            level,
        ));
    }
}

/// A comment line after a run of spaces reads back as its text.
proof fn lemma_read_line(cs: Seq<char>, p: int, sp: Seq<char>, v: Seq<char>)
    requires
        line_ok(v),
        forall|k: int| 0 <= k < sp.len() ==> #[trigger] sp[k] == ' ',
        starts_with(cs, p, sp + "/// "@ + v + "\n"@),
    ensures
        line_at(cs, p) == Some((v, p + (sp + "/// "@ + v + "\n"@).len())),
{
    reveal_strlit("/// ");
    reveal_strlit("///");
    reveal_strlit("\n");
    let marker = "/// "@;
    let s = p + sp.len();
    let t = s + 4;
    let l = t + v.len();
    lemma_starts_concat(cs, p, sp + marker + v, "\n"@);
    lemma_starts_concat(cs, p, sp + marker, v);
    lemma_starts_concat(cs, p, sp, marker);
    assert(cs.subrange(s, s + 4)[0] == cs[s]);
    assert(cs.subrange(s, s + 4)[1] == cs[s + 1]);
    assert(cs.subrange(s, s + 4)[2] == cs[s + 2]);
    assert(cs.subrange(s, s + 4)[3] == cs[s + 3]);
    assert(cs.subrange(l, l + 1)[0] == cs[l]);
    assert(cs[s] == '/');
    lemma_skip(cs, p, sp, 5);
    assert(cs.subrange(s, s + 3) =~= "///"@);
    if v.len() > 0 {
        assert(cs.subrange(t, t + v.len())[0] == cs[t]);
    }
    assert(cs.subrange(s + 3, s + 4) =~= seq![' ']);
    lemma_skip(cs, s + 3, seq![' '], 5);
    lemma_run_all(v, 7, 0);
    lemma_run_in(cs, t, v, 7, 0);
}

/// The texts of comment lines.
spec fn lines_view(lines: Seq<CommentLine>) -> Seq<Seq<char>> {
    Seq::new(lines.len(), |i: int| lines[i].value@)
}

/// Comment lines whose texts read back, followed by the indentation and a character that starts
/// no comment, read back as their texts.
proof fn lemma_comments_from(cs: Seq<char>, e: int, lines: Seq<CommentLine>, level: nat)
    requires
        forall|i: int| 0 <= i < lines.len() ==> line_ok(#[trigger] lines[i].value@),
        starts_with(cs, e, comment_text(lines, level) + indent_text(level)),
        e + comment_text(lines, level).len() + indent_text(level).len() < cs.len(),
        !in_class(5, cs[e + comment_text(lines, level).len() + indent_text(level).len()]),
        cs[e + comment_text(lines, level).len() + indent_text(level).len()] != '/',
    ensures
        comments_at(cs, e) == (lines_view(lines), e + comment_text(lines, level).len()),
    decreases lines.len(),
{
    reveal_strlit("///");
    reveal_strlit("/// ");
    lemma_indent(level);
    let indent = indent_text(level);
    if lines.len() == 0 {
        assert(comment_text(lines, level).len() == 0);
        assert(Seq::<char>::empty() + indent =~= indent);
        lemma_skip(cs, e, indent, 5);
        let s = e + indent.len();
        assert(!starts_with(cs, s, "///"@)) by {
            if starts_with(cs, s, "///"@) {
                assert(cs.subrange(s, s + 3)[0] == cs[s]);
            }
        }
        assert(lines_view(lines) =~= Seq::<Seq<char>>::empty());
        assert(line_at(cs, e) is None);
    } else {
        lemma_comment_front(lines, level);
        let first = line_text(lines[0], level);
        let rest = lines.drop_first();
        let tail = comment_text(rest, level);
        assert(first + tail + indent =~= first + (tail + indent));
        lemma_starts_concat(cs, e, first, tail + indent);
        assert(line_ok(lines[0].value@));
        lemma_read_line(cs, e, indent, lines[0].value@);
        let e1 = e + first.len();
        assert forall|i: int| 0 <= i < rest.len() implies line_ok(#[trigger] rest[i].value@) by {
            assert(rest[i] == lines[i + 1]);
        }
        lemma_comments_from(cs, e1, rest, level);
        assert(line_at(cs, e) == Some((lines[0].value@, e1)));
        assert(e < e1 <= cs.len());
        assert(comments_at(cs, e1) == (lines_view(rest), e1 + tail.len()));
        assert(lines_view(lines) =~= seq![lines[0].value@] + lines_view(rest));
        assert(comment_text(lines, level).len() == first.len() + tail.len());
    }
}

/// After a line break, comment lines that read back, then the indentation and a character that
/// is no whitespace and starts no comment: skipping whitespace and reading comments gives their
/// texts, and skipping spaces after them reaches that character.
proof fn lemma_read_block(cs: Seq<char>, q: int, lines: Seq<CommentLine>, level: nat)
    requires
        forall|i: int| 0 <= i < lines.len() ==> line_ok(#[trigger] lines[i].value@),
        starts_with(cs, q, "\n"@ + comment_text(lines, level) + indent_text(level)),
        q + 1 + comment_text(lines, level).len() + indent_text(level).len() < cs.len(),
        !in_class(4, cs[q + 1 + comment_text(lines, level).len() + indent_text(level).len()]),
        cs[q + 1 + comment_text(lines, level).len() + indent_text(level).len()] != '/',
    ensures
        comments_at(cs, ws_end(cs, q)).0 == lines_view(lines),
        run_end(cs, comments_at(cs, ws_end(cs, q)).1, 5) == q + 1 + comment_text(lines, level).len()
            + indent_text(level).len(),
{
    reveal_strlit("\n");
    reveal_strlit("///");
    reveal_strlit("/// ");
    lemma_indent(level);
    let indent = indent_text(level);
    let body = comment_text(lines, level);
    let x = q + 1 + body.len() + indent.len();
    lemma_starts_concat(cs, q, "\n"@ + body, indent);
    lemma_starts_concat(cs, q, "\n"@, body);
    if lines.len() == 0 {
        assert("\n"@ + body + indent =~= "\n"@ + indent);
        lemma_skip(cs, q, "\n"@ + indent, 4);
        assert(indent =~= Seq::<char>::empty() + indent);
        assert(run_end(cs, x, 5) == x);
        assert(!starts_with(cs, x, "///"@)) by {
            if starts_with(cs, x, "///"@) {
                assert(cs.subrange(x, x + 3)[0] == cs[x]);
            }
        }
        assert(line_at(cs, x) is None);
        assert(lines_view(lines) =~= Seq::<Seq<char>>::empty());
    } else {
        lemma_comment_front(lines, level);
        let v = lines[0].value@;
        let rest = lines.drop_first();
        let tail = comment_text(rest, level);
        let w = q + 1 + indent.len();
        let mark = "/// "@ + v + "\n"@;
        assert(body =~= indent + mark + tail);
        assert("\n"@ + body + indent =~= ("\n"@ + indent) + (mark + (tail + indent)));
        lemma_starts_concat(cs, q, "\n"@ + indent, mark + (tail + indent));
        lemma_starts_concat(cs, w, mark, tail + indent);
        assert(cs.subrange(w, w + mark.len())[0] == cs[w]);
        lemma_skip(cs, q, "\n"@ + indent, 4);
        assert(Seq::<char>::empty() + "/// "@ + v + "\n"@ =~= mark);
        assert(line_ok(v));
        lemma_read_line(cs, w, Seq::empty(), v);
        let e1 = w + mark.len();
        assert forall|i: int| 0 <= i < rest.len() implies line_ok(#[trigger] rest[i].value@) by {
            assert(rest[i] == lines[i + 1]);
        }
        lemma_comments_from(cs, e1, rest, level);
        assert(lines_view(lines) =~= seq![v] + lines_view(rest));
        let c = e1 + tail.len();
        lemma_starts_concat(cs, e1, tail, indent);
        lemma_skip(cs, c, indent, 5);
    }
}

// ------------------------------------------------------------------------------------------------
// Identifiers
// ------------------------------------------------------------------------------------------------

/// An optional identifier, followed by a character that continues no identifier, reads back as
/// its value; where there is one, also from after the space before it.
proof fn lemma_read_opt_id(cs: Seq<char>, p: int, id: Option<Id>)
    requires
        starts_with(cs, p, opt_id_text(id)),
        p + opt_id_text(id).len() < cs.len(),
        !in_class(5, cs[p + opt_id_text(id).len()]),
        !is_digit(cs[p + opt_id_text(id).len()]),
        cs[p + opt_id_text(id).len()] != '@',
    ensures
        opt_id_at(cs, p) == (id_view(id), p + opt_id_text(id).len()),
        id is Some ==> opt_id_at(cs, p + 1) == opt_id_at(cs, p),
{
    reveal_strlit(" ");
    reveal_strlit("@");
    match id {
        Some(i) => {
            let n = i.spec_get() as nat;
            let digits = decimal(n);
            assert(opt_id_text(id) =~= " "@ + ("@"@ + digits));
            lemma_starts_concat(cs, p, " "@, "@"@ + digits);
            lemma_starts_concat(cs, p + 1, "@"@, digits);
            assert(cs.subrange(p, p + 1)[0] == cs[p]);
            assert(cs.subrange(p + 1, p + 2)[0] == cs[p + 1]);
            assert(run_end(cs, p + 1, 5) == p + 1);
            assert(run_end(cs, p, 5) == p + 1);
            lemma_read_uint(cs, p + 2, n);
        },
        None => {
            assert(run_end(cs, p, 5) == p);
        },
    }
}

// ------------------------------------------------------------------------------------------------
// Unnamed fields
// ------------------------------------------------------------------------------------------------

/// Unnamed fields whose types read back.
pub open spec fn unnamed_ok(fields: Punctuated<UnnamedField>) -> bool {
    forall|i: int| 0 <= i < fields.items().len() ==> printable(#[trigger] fields.items()[i].ty)
}

/// The space that the text of unnamed fields puts before the field at `i`, as the parser sees it
/// after the comma before.
spec fn unnamed_lead(fields: Punctuated<UnnamedField>, i: int) -> Seq<char> {
    if 0 < i < fields.items().len() {
        " "@
    } else {
        Seq::empty()
    }
}

/// The unnamed fields of a list from position `i` on, each with whether a comma follows it.
spec fn unnamed_from(fields: Punctuated<UnnamedField>, i: int) -> Seq<(FieldShape, bool)> {
    Seq::new(
        (fields.items().len() - i) as nat,
        |k: int| (unnamed_view(fields.items()[i + k]), fields.spec_punct(i + k)),
    )
}

/// An unnamed field followed by a comma or `)` reads back as its shape.
proof fn lemma_read_unnamed(cs: Seq<char>, s0: int, field: UnnamedField)
    requires
        printable(field.ty),
        starts_with(cs, s0, unnamed_field_text(field)),
        s0 + unnamed_field_text(field).len() < cs.len(),
        cs[s0 + unnamed_field_text(field).len()] == ',' || cs[s0 + unnamed_field_text(field).len()]
            == ')',
    ensures
        unnamed_field_at(cs, s0) == Parsed::Done(
            unnamed_view(field),
            s0 + unnamed_field_text(field).len(),
        ),
        !in_class(4, cs[s0]),
{
    reveal_strlit(" ");
    let t = type_text(field.ty);
    let idt = opt_id_text(field.id);
    let e0 = s0 + t.len();
    lemma_starts_concat(cs, s0, t, idt);
    if idt.len() > 0 {
        assert(cs.subrange(e0, e0 + idt.len())[0] == cs[e0]);
        assert(idt[0] == ' ');
    }
    lemma_read_type(cs, s0, field.ty);
    assert(cs.subrange(s0, s0 + t.len())[0] == cs[s0]);
    assert(ws_end(cs, s0) == s0);
    lemma_read_opt_id(cs, e0, field.id);
}

/// The text of the unnamed fields of a list from position `i` on, after its separator and
/// followed by `)`, reads back as those fields.
#[verifier::spinoff_prover]
#[verifier::rlimit(30)]
proof fn lemma_read_unnamed_list(cs: Seq<char>, q: int, fields: Punctuated<UnnamedField>, i: int)
    requires
        unnamed_ok(fields),
        0 <= i <= fields.items().len(),
        starts_with(cs, q, unnamed_lead(fields, i) + unnamed_body(fields, i)),
        q + unnamed_lead(fields, i).len() + unnamed_body(fields, i).len() < cs.len(),
        cs[q + unnamed_lead(fields, i).len() + unnamed_body(fields, i).len()] == ')',
        i == fields.items().len() ==> fields.spec_punct(fields.items().len() - 1),
    ensures
        field_list_at(cs, q, i == 0, false) == Parsed::Done(
            unnamed_from(fields, i),
            q + unnamed_lead(fields, i).len() + unnamed_body(fields, i).len(),
        ),
    decreases fields.items().len() - i,
{
    reveal_strlit(" ");
    reveal_strlit(",");
    let n = fields.items().len();
    fields.lemma_not_empty();
    fields.lemma_punct_between();
    let sep = unnamed_lead(fields, i);
    let body = unnamed_body(fields, i);
    if i == n {
        assert(body.len() == 0);
        assert(sep.len() == 0);
        assert(ws_end(cs, q) == q);
        lemma_no_type_at_close(cs, q);
        assert(unnamed_from(fields, i) =~= Seq::<(FieldShape, bool)>::empty());
    } else {
        let field = fields.items()[i];
        let text = unnamed_field_text(field);
        let comma = if fields.spec_punct(i) {
            ","@
        } else {
            Seq::empty()
        };
        let space = if i < n - 1 {
            " "@
        } else {
            Seq::empty()
        };
        let rest = unnamed_body(fields, i + 1);
        assert(separator_text(fields.spec_punct(i), i == n - 1, " "@) =~= comma + space);
        assert(body =~= text + comma + space + rest);
        lemma_starts_concat(cs, q, sep, body);
        let s0 = q + sep.len();
        lemma_starts_concat(cs, s0, text + comma + space, rest);
        lemma_starts_concat(cs, s0, text + comma, space);
        lemma_starts_concat(cs, s0, text, comma);
        let e = s0 + text.len();
        if fields.spec_punct(i) {
            assert(cs.subrange(e, e + 1)[0] == cs[e]);
        } else {
            assert(rest.len() == 0);
            assert(space.len() == 0);
        }
        assert(printable(fields.items()[i].ty));
        lemma_read_unnamed(cs, s0, field);
        if sep.len() > 0 {
            assert(cs.subrange(q, q + 1)[0] == cs[q]);
            assert(ws_end(cs, q + 1) == q + 1);
        }
        assert(ws_end(cs, q) == s0);
        assert(ws_end(cs, e) == e);
        if fields.spec_punct(i) {
            assert(space == unnamed_lead(fields, i + 1));
            assert(unnamed_lead(fields, i + 1) + rest =~= space + rest);
            assert(text + comma + space + rest =~= text + (comma + (space + rest)));
            lemma_starts_concat(cs, s0, text, comma + (space + rest));
            lemma_starts_concat(cs, e, comma, space + rest);
            lemma_read_unnamed_list(cs, e + 1, fields, i + 1);
            assert(unnamed_from(fields, i) =~= seq![(unnamed_view(field), true)] + unnamed_from(
                fields,
                i + 1,
            ));
        } else {
            assert(unnamed_from(fields, i) =~= seq![(unnamed_view(field), false)]);
        }
    }
}

// ------------------------------------------------------------------------------------------------
// Named fields
// ------------------------------------------------------------------------------------------------

/// A field name that reads back: a lowercase letter, then lowercase letters, digits and
/// underscores.
pub open spec fn field_name_ok(s: Seq<char>) -> bool {
    &&& s.len() >= 1
    &&& is_lower(s[0])
    &&& forall|k: int| 1 <= k < s.len() ==> in_class(2, #[trigger] s[k])
}

/// A named field that reads back from its text.
pub open spec fn named_field_ok(field: NamedField) -> bool {
    &&& comment_ok(field.comment)
    &&& field_name_ok(field.name.spec_get())
    &&& printable(field.ty)
}

/// Named fields that read back.
pub open spec fn named_ok(fields: Punctuated<NamedField>) -> bool {
    forall|i: int| 0 <= i < fields.items().len() ==> named_field_ok(#[trigger] fields.items()[i])
}

/// The line break that the text of named fields puts before the field at `i`, as the parser sees
/// it after the brace or comma before.
spec fn named_lead(fields: Punctuated<NamedField>, i: int) -> Seq<char> {
    if 0 <= i < fields.items().len() {
        "\n"@
    } else {
        Seq::empty()
    }
}

/// The named fields of a list from position `i` on, each with whether a comma follows it.
spec fn named_from(fields: Punctuated<NamedField>, i: int) -> Seq<(FieldShape, bool)> {
    Seq::new(
        (fields.items().len() - i) as nat,
        |k: int| (named_view(fields.items()[i + k]), fields.spec_punct(i + k)),
    )
}

/// The texts of a comment's lines are its view.
proof fn lemma_comment_view(comment: Comment)
    ensures
        comment_view(comment) == lines_view(comment.0@),
{
    assert(comment_view(comment) =~= lines_view(comment.0@));
}

/// A name of a class, before a character that is not of it, is read whole.
proof fn lemma_read_run_name(cs: Seq<char>, s: int, name: Seq<char>, class: nat)
    requires
        name.len() >= 1,
        in_class(class, name[0]),
        forall|k: int| 1 <= k < name.len() ==> in_class(class, #[trigger] name[k]),
        starts_with(cs, s, name),
        s + name.len() < cs.len(),
        !in_class(class, cs[s + name.len()]),
    ensures
        run_end(cs, s + 1, class) == s + name.len(),
        cs.subrange(s, s + name.len()) == name,
        cs[s] == name[0],
{
    assert(cs.subrange(s, s + name.len())[0] == cs[s]);
    lemma_run_all(name, class, 1);
    lemma_run_in(cs, s, name, class, 1);
}

/// After a line break, a named field that reads back, followed by a comma or a line break, reads
/// back as its shape.
proof fn lemma_read_named(cs: Seq<char>, q: int, field: NamedField, level: nat)
    requires
        named_field_ok(field),
        starts_with(cs, q, "\n"@ + named_field_text(field, level)),
        q + 1 + named_field_text(field, level).len() < cs.len(),
        cs[q + 1 + named_field_text(field, level).len()] == ',' || cs[q + 1 + named_field_text(
            field,
            level,
        ).len()] == '\n',
    ensures
        named_field_at(cs, q) == Parsed::Done(
            named_view(field),
            q + 1 + named_field_text(field, level).len(),
        ),
{
    reveal_strlit("\n");
    reveal_strlit(":");
    reveal_strlit(" ");
    lemma_indent(level);
    let lines = field.comment.0@;
    let ct = comment_text(lines, level);
    let indent = indent_text(level);
    let name = field.name.spec_get();
    let t = type_text(field.ty);
    let idt = opt_id_text(field.id);
    let rest = name + ":"@ + " "@ + t + idt;
    assert("\n"@ + named_field_text(field, level) =~= ("\n"@ + ct + indent) + rest);
    lemma_starts_concat(cs, q, "\n"@ + ct + indent, rest);
    let s = q + 1 + ct.len() + indent.len();
    lemma_starts_concat(cs, s, name + ":"@ + " "@ + t, idt);
    lemma_starts_concat(cs, s, name + ":"@ + " "@, t);
    lemma_starts_concat(cs, s, name + ":"@, " "@);
    lemma_starts_concat(cs, s, name, ":"@);
    let ne = s + name.len();
    let ts = ne + 2;
    let e0 = ts + t.len();
    assert(cs.subrange(s, s + rest.len())[0] == cs[s]);
    assert(cs.subrange(ne, ne + 1)[0] == cs[ne]);
    assert(cs.subrange(ne + 1, ne + 2)[0] == cs[ne + 1]);
    assert(forall|i: int| 0 <= i < lines.len() ==> line_ok(#[trigger] lines[i].value@));
    lemma_read_block(cs, q, lines, level);
    lemma_comment_view(field.comment);
    lemma_read_run_name(cs, s, name, 2);
    assert(run_end(cs, ne, 5) == ne);
    if idt.len() > 0 {
        assert(cs.subrange(e0, e0 + idt.len())[0] == cs[e0]);
        assert(idt[0] == ' ');
    }
    lemma_read_type(cs, ts, field.ty);
    assert(cs.subrange(ts, ts + t.len())[0] == cs[ts]);
    assert(run_end(cs, ts, 5) == ts);
    assert(run_end(cs, ne + 1, 5) == ts);
    lemma_read_opt_id(cs, e0, field.id);
}

/// A text that starts with a word holds its characters.
proof fn lemma_char_at(cs: Seq<char>, p: int, w: Seq<char>, k: int)
    requires
        starts_with(cs, p, w),
        0 <= k < w.len(),
    ensures
        cs[p + k] == w[k],
{
    assert(cs.subrange(p, p + w.len())[k] == cs[p + k]);
}

/// The text of the named fields of a list from position `i` on, after the brace or comma before
/// and followed by a line break, the indentation of the level above and `}`, reads back as those
/// fields.
#[verifier::spinoff_prover]
#[verifier::rlimit(30)]
proof fn lemma_read_named_list(
    cs: Seq<char>,
    q: int,
    fields: Punctuated<NamedField>,
    i: int,
    level: nat,
)
    requires
        named_ok(fields),
        level >= 1,
        0 <= i <= fields.items().len(),
        starts_with(
            cs,
            q,
            named_lead(fields, i) + named_body(fields, i, level) + ("\n"@ + indent_text(
                (level - 1) as nat,
            ) + "}"@),
        ),
        i == fields.items().len() ==> fields.spec_punct(fields.items().len() - 1),
    ensures
        field_list_at(cs, q, i == 0, true) == Parsed::Done(
            named_from(fields, i),
            q + named_lead(fields, i).len() + named_body(fields, i, level).len(),
        ),
    decreases fields.items().len() - i,
{
    reveal_strlit("\n");
    reveal_strlit(",");
    reveal_strlit("}");
    reveal_strlit("///");
    let n = fields.items().len();
    fields.lemma_not_empty();
    fields.lemma_punct_between();
    let sep = named_lead(fields, i);
    let body = named_body(fields, i, level);
    let outer = indent_text((level - 1) as nat);
    lemma_indent((level - 1) as nat);
    let tail = "\n"@ + outer + "}"@;
    let end = q + sep.len() + body.len();
    lemma_starts_concat(cs, q, sep + body, tail);
    let close = end + 1 + outer.len();
    lemma_char_at(cs, end, tail, outer.len() + 1int);
    lemma_char_at(cs, end, tail, 0);
    if i == n {
        assert(body.len() == 0);
        assert(sep.len() == 0);
        assert(tail =~= ("\n"@ + outer) + "}"@);
        lemma_starts_concat(cs, end, "\n"@ + outer, "}"@);
        lemma_skip(cs, q, "\n"@ + outer, 4);
        assert(run_end(cs, close, 5) == close);
        assert(!starts_with(cs, close, "///"@)) by {
            if starts_with(cs, close, "///"@) {
                lemma_char_at(cs, close, "///"@, 0);
            }
        }
        assert(comments_at(cs, close) == (Seq::<Seq<char>>::empty(), close));
        assert(lower_name_end(cs, close) is None);
        assert(named_field_at(cs, q) is Back);
        assert(named_from(fields, i) =~= Seq::<(FieldShape, bool)>::empty());
    } else {
        let field = fields.items()[i];
        let text = named_field_text(field, level);
        let comma = if fields.spec_punct(i) {
            ","@
        } else {
            Seq::empty()
        };
        let brk = if i < n - 1 {
            "\n"@
        } else {
            Seq::empty()
        };
        let rest = named_body(fields, i + 1, level);
        assert(separator_text(fields.spec_punct(i), i == n - 1, "\n"@) =~= comma + brk);
        assert(body =~= text + comma + brk + rest);
        let whole = sep + body + tail;
        assert(whole =~= ("\n"@ + text) + (comma + (brk + rest + tail)));
        lemma_starts_concat(cs, q, "\n"@ + text, comma + (brk + rest + tail));
        let e = q + 1 + text.len();
        assert(named_field_ok(fields.items()[i]));
        if fields.spec_punct(i) {
            lemma_starts_concat(cs, e, comma, brk + rest + tail);
            lemma_char_at(cs, e, comma, 0);
            lemma_read_named(cs, q, field, level);
            assert(ws_end(cs, e) == e);
            assert(brk == named_lead(fields, i + 1));
            lemma_read_named_list(cs, e + 1, fields, i + 1, level);
            assert(named_from(fields, i) =~= seq![(named_view(field), true)] + named_from(
                fields,
                i + 1,
            ));
        } else {
            assert(rest.len() == 0);
            assert(brk.len() == 0);
            assert(comma.len() == 0);
            assert(e == end);
            lemma_read_named(cs, q, field, level);
            assert(tail =~= ("\n"@ + outer) + "}"@);
            lemma_starts_concat(cs, end, "\n"@ + outer, "}"@);
            lemma_skip(cs, e, "\n"@ + outer, 4);
            assert(named_from(fields, i) =~= seq![(named_view(field), false)]);
        }
    }
}

/// Parsing reads back what printing wrote: the text of named or unnamed fields whose names,
/// comments and types follow the grammar parses as those fields from its brace or parenthesis on
/// (named fields are printed after a space), and the parse takes up the rest of the text.
#[verifier::spinoff_prover]
#[verifier::rlimit(40)]
pub proof fn law_parse_printed_fields(fields: Fields)
    requires
        fields_ok(fields),
        !(fields is Unit),
    ensures
        fields_at(fields_text(fields, 0), if fields is Named {
            1
        } else {
            0
        }) == Parsed::Done(fields_view(fields), fields_text(fields, 0).len() as int),
{
    reveal_strlit(" ");
    reveal_strlit("{");
    reveal_strlit("}");
    reveal_strlit("(");
    reveal_strlit(")");
    reveal_strlit("\n");
    let cs = fields_text(fields, 0);
    match fields {
        Fields::Named(_, list) => {
            let nb = named_body(list, 0, 1);
            let outer = indent_text(0);
            assert(outer =~= Seq::<char>::empty());
            list.lemma_not_empty();
            let inner = named_lead(list, 0) + nb + ("\n"@ + outer + "}"@);
            assert(cs =~= " "@ + "{"@ + inner);
            assert(cs.subrange(2, cs.len() as int) =~= inner);
            assert(cs[1] == '{');
            lemma_read_named_list(cs, 2, list, 0, 1);
            let e: int = 3 + nb.len() as int;
            assert(cs[e] == '\n');
            assert(cs[e + 1] == '}');
            assert(ws_end(cs, e + 1) == e + 1);
            assert(ws_end(cs, e) == e + 1);
            assert(named_from(list, 0) =~= named_list_view(list));
        },
        Fields::Unnamed(_, list) => {
            let ub = unnamed_body(list, 0);
            let k: int = 1 + ub.len() as int;
            list.lemma_not_empty();
            assert(cs =~= "("@ + (unnamed_lead(list, 0) + ub) + ")"@);
            assert(cs.subrange(1, k) =~= unnamed_lead(list, 0) + ub);
            assert(cs[0] == '(');
            assert(cs[k] == ')');
            lemma_read_unnamed_list(cs, 1, list, 0);
            assert(ws_end(cs, k) == k);
            assert(unnamed_from(list, 0) =~= unnamed_list_view(list));
        },
        Fields::Unit => {},
    }
}

// ------------------------------------------------------------------------------------------------
// Variants
// ------------------------------------------------------------------------------------------------

/// Fields that read back from their text.
pub open spec fn fields_ok(fields: Fields) -> bool {
    match fields {
        Fields::Named(_, list) => named_ok(list),
        Fields::Unnamed(_, list) => unnamed_ok(list),
        Fields::Unit => true,
    }
}

/// An enum variant that reads back from its text.
pub open spec fn variant_ok(variant: Variant) -> bool {
    &&& comment_ok(variant.comment)
    &&& def_name_ok(variant.name.spec_get())
    &&& fields_ok(variant.fields)
}

/// The fields of a variant, after its name, followed by its identifier and a comma or a line
/// break, read back as their shape, and the identifier after them as its value.
#[verifier::spinoff_prover]
#[verifier::rlimit(30)]
proof fn lemma_read_variant_fields(cs: Seq<char>, ne: int, fields: Fields, id: Option<Id>, level: nat)
    requires
        fields_ok(fields),
        starts_with(cs, ne, fields_text(fields, level) + opt_id_text(id)),
        ne + fields_text(fields, level).len() + opt_id_text(id).len() < cs.len(),
        cs[ne + fields_text(fields, level).len() + opt_id_text(id).len()] == ',' || cs[ne
            + fields_text(fields, level).len() + opt_id_text(id).len()] == '\n',
    ensures
        fields_at(cs, run_end(cs, ne, 5)) matches Parsed::Done(shape, fe) && shape == fields_view(
            fields,
        ) && opt_id_at(cs, fe) == (id_view(id), ne + fields_text(fields, level).len() + opt_id_text(
            id,
        ).len()),
{
    reveal_strlit(" ");
    reveal_strlit("{");
    reveal_strlit("}");
    reveal_strlit("(");
    reveal_strlit(")");
    reveal_strlit("\n");
    let ft = fields_text(fields, level);
    let idt = opt_id_text(id);
    let fe = ne + ft.len();
    lemma_starts_concat(cs, ne, ft, idt);
    let after = fe + idt.len();
    if idt.len() > 0 {
        lemma_char_at(cs, fe, idt, 0);
        assert(idt[0] == ' ');
    }
    lemma_read_opt_id(cs, fe, id);
    match fields {
        Fields::Named(_, list) => {
            let nb = named_body(list, 0, level + 1);
            let outer = indent_text(level);
            lemma_indent(level);
            list.lemma_not_empty();
            assert(ft =~= " "@ + "{"@ + (named_lead(list, 0) + nb + ("\n"@ + outer + "}"@)));
            lemma_starts_concat(cs, ne, " "@ + "{"@, named_lead(list, 0) + nb + ("\n"@ + outer
                + "}"@));
            lemma_char_at(cs, ne, " "@ + "{"@, 0);
            lemma_char_at(cs, ne, " "@ + "{"@, 1);
            assert(run_end(cs, ne + 1, 5) == ne + 1);
            assert(run_end(cs, ne, 5) == ne + 1);
            lemma_read_named_list(cs, ne + 2, list, 0, level + 1);
            let e = ne + 3 + nb.len();
            let tail = "\n"@ + outer + "}"@;
            lemma_starts_concat(cs, ne + 2, named_lead(list, 0) + nb, tail);
            assert(tail =~= ("\n"@ + outer) + "}"@);
            lemma_starts_concat(cs, e, "\n"@ + outer, "}"@);
            lemma_char_at(cs, e + 1 + outer.len(), "}"@, 0);
            lemma_skip(cs, e, "\n"@ + outer, 4);
            assert(named_from(list, 0) =~= named_list_view(list));
            assert(fe == e + 1 + outer.len() + 1);
        },
        Fields::Unnamed(_, list) => {
            let ub = unnamed_body(list, 0);
            list.lemma_not_empty();
            assert(ft =~= "("@ + (unnamed_lead(list, 0) + ub) + ")"@);
            lemma_starts_concat(cs, ne, "("@ + (unnamed_lead(list, 0) + ub), ")"@);
            lemma_starts_concat(cs, ne, "("@, unnamed_lead(list, 0) + ub);
            lemma_char_at(cs, ne, "("@, 0);
            lemma_char_at(cs, ne + 1 + ub.len(), ")"@, 0);
            assert(run_end(cs, ne, 5) == ne);
            lemma_read_unnamed_list(cs, ne + 1, list, 0);
            assert(ws_end(cs, ne + 1 + ub.len()) == ne + 1 + ub.len());
            assert(unnamed_from(list, 0) =~= unnamed_list_view(list));
        },
        Fields::Unit => {
            assert(ft.len() == 0);
            if idt.len() > 0 {
                lemma_char_at(cs, fe, idt, 1);
                reveal_strlit("@");
                assert(idt[1] == '@');
                assert(run_end(cs, ne + 1, 5) == ne + 1);
                assert(run_end(cs, ne, 5) == ne + 1);
            } else {
                assert(run_end(cs, ne, 5) == ne);
            }
        },
    }
}

/// After a line break, a variant that reads back, followed by a comma or a line break, reads
/// back as its shape.
#[verifier::spinoff_prover]
proof fn lemma_read_variant(cs: Seq<char>, q: int, variant: Variant, level: nat)
    requires
        variant_ok(variant),
        starts_with(cs, q, "\n"@ + variant_text(variant, level)),
        q + 1 + variant_text(variant, level).len() < cs.len(),
        cs[q + 1 + variant_text(variant, level).len()] == ',' || cs[q + 1 + variant_text(
            variant,
            level,
        ).len()] == '\n',
    ensures
        variant_at(cs, q) == Parsed::Done(
            variant_view(variant),
            q + 1 + variant_text(variant, level).len(),
        ),
{
    reveal_strlit("\n");
    lemma_indent(level);
    let lines = variant.comment.0@;
    let ct = comment_text(lines, level);
    let indent = indent_text(level);
    let name = variant.name.spec_get();
    let ft = fields_text(variant.fields, level);
    let idt = opt_id_text(variant.id);
    let rest = name + (ft + idt);
    assert("\n"@ + variant_text(variant, level) =~= ("\n"@ + ct + indent) + rest);
    lemma_starts_concat(cs, q, "\n"@ + ct + indent, rest);
    let s = q + 1 + ct.len() + indent.len();
    lemma_starts_concat(cs, s, name, ft + idt);
    let ne = s + name.len();
    lemma_char_at(cs, s, rest, 0);
    assert(forall|i: int| 0 <= i < lines.len() ==> line_ok(#[trigger] lines[i].value@));
    lemma_read_block(cs, q, lines, level);
    lemma_comment_view(variant.comment);
    if (ft + idt).len() > 0 {
        lemma_char_at(cs, ne, ft + idt, 0);
        match variant.fields {
            Fields::Named(_, _) => {
                reveal_strlit(" ");
                assert(ft[0] == ' ');
            },
            Fields::Unnamed(_, _) => {
                reveal_strlit("(");
                assert(ft[0] == '(');
            },
            Fields::Unit => {
                reveal_strlit(" ");
                assert(idt[0] == ' ');
            },
        }
    }
    lemma_read_run_name(cs, s, name, 8);
    lemma_read_variant_fields(cs, ne, variant.fields, variant.id, level);
}

/// The line break that the text of variants puts before the variant at `i`, as the parser sees
/// it after the brace or comma before.
spec fn variant_lead(variants: Punctuated<Variant>, i: int) -> Seq<char> {
    if 0 <= i < variants.items().len() {
        "\n"@
    } else {
        Seq::empty()
    }
}

/// Variants that read back.
pub open spec fn variants_ok(variants: Punctuated<Variant>) -> bool {
    forall|i: int| 0 <= i < variants.items().len() ==> variant_ok(#[trigger] variants.items()[i])
}

/// The variants of a list from position `i` on, each with whether a comma follows it.
spec fn variants_from(variants: Punctuated<Variant>, i: int) -> Seq<(VariantShape, bool)> {
    Seq::new(
        (variants.items().len() - i) as nat,
        |k: int| (variant_view(variants.items()[i + k]), variants.spec_punct(i + k)),
    )
}

/// The text of the variants of a list from position `i` on, after the brace or comma before and
/// followed by a line break, the indentation of the level above and `}`, reads back as those
/// variants.
#[verifier::spinoff_prover]
#[verifier::rlimit(30)]
proof fn lemma_read_variants(cs: Seq<char>, q: int, variants: Punctuated<Variant>, i: int, level: nat)
    requires
        variants_ok(variants),
        level >= 1,
        0 <= i <= variants.items().len(),
        starts_with(
            cs,
            q,
            variant_lead(variants, i) + variants_body(variants, i, level) + ("\n"@ + indent_text(
                (level - 1) as nat,
            ) + "}"@),
        ),
        i == variants.items().len() ==> variants.spec_punct(variants.items().len() - 1),
    ensures
        variants_at(cs, q, i == 0) == Parsed::Done(
            variants_from(variants, i),
            q + variant_lead(variants, i).len() + variants_body(variants, i, level).len(),
        ),
    decreases variants.items().len() - i,
{
    reveal_strlit("\n");
    reveal_strlit(",");
    reveal_strlit("}");
    reveal_strlit("///");
    let n = variants.items().len();
    variants.lemma_not_empty();
    variants.lemma_punct_between();
    let sep = variant_lead(variants, i);
    let body = variants_body(variants, i, level);
    let outer = indent_text((level - 1) as nat);
    lemma_indent((level - 1) as nat);
    let tail = "\n"@ + outer + "}"@;
    let end = q + sep.len() + body.len();
    lemma_starts_concat(cs, q, sep + body, tail);
    let close = end + 1 + outer.len();
    lemma_char_at(cs, end, tail, outer.len() + 1int);
    lemma_char_at(cs, end, tail, 0);
    if i == n {
        assert(body.len() == 0);
        assert(sep.len() == 0);
        assert(tail =~= ("\n"@ + outer) + "}"@);
        lemma_starts_concat(cs, end, "\n"@ + outer, "}"@);
        lemma_skip(cs, q, "\n"@ + outer, 4);
        assert(run_end(cs, close, 5) == close);
        assert(!starts_with(cs, close, "///"@)) by {
            if starts_with(cs, close, "///"@) {
                lemma_char_at(cs, close, "///"@, 0);
            }
        }
        assert(comments_at(cs, close) == (Seq::<Seq<char>>::empty(), close));
        assert(upper_name_end(cs, close) is None);
        assert(variant_at(cs, q) is Back);
        assert(variants_from(variants, i) =~= Seq::<(VariantShape, bool)>::empty());
    } else {
        let variant = variants.items()[i];
        let text = variant_text(variant, level);
        let comma = if variants.spec_punct(i) {
            ","@
        } else {
            Seq::empty()
        };
        let brk = if i < n - 1 {
            "\n"@
        } else {
            Seq::empty()
        };
        let rest = variants_body(variants, i + 1, level);
        assert(separator_text(variants.spec_punct(i), i == n - 1, "\n"@) =~= comma + brk);
        assert(body =~= text + comma + brk + rest);
        let whole = sep + body + tail;
        assert(whole =~= ("\n"@ + text) + (comma + (brk + rest + tail)));
        lemma_starts_concat(cs, q, "\n"@ + text, comma + (brk + rest + tail));
        let e = q + 1 + text.len();
        assert(variant_ok(variants.items()[i]));
        if variants.spec_punct(i) {
            lemma_starts_concat(cs, e, comma, brk + rest + tail);
            lemma_char_at(cs, e, comma, 0);
            lemma_read_variant(cs, q, variant, level);
            assert(ws_end(cs, e) == e);
            assert(brk == variant_lead(variants, i + 1));
            lemma_read_variants(cs, e + 1, variants, i + 1, level);
            assert(variants_from(variants, i) =~= seq![(variant_view(variant), true)]
                + variants_from(variants, i + 1));
        } else {
            assert(rest.len() == 0);
            assert(brk.len() == 0);
            assert(comma.len() == 0);
            assert(e == end);
            lemma_read_variant(cs, q, variant, level);
            assert(tail =~= ("\n"@ + outer) + "}"@);
            lemma_starts_concat(cs, end, "\n"@ + outer, "}"@);
            lemma_skip(cs, e, "\n"@ + outer, 4);
            assert(variants_from(variants, i) =~= seq![(variant_view(variant), false)]);
        }
    }
}

// ------------------------------------------------------------------------------------------------
// Enums
// ------------------------------------------------------------------------------------------------

/// An enum that reads back from its text: no comment or attributes (which the enclosing
/// definition reads), and names, generics and variants that follow the grammar.
pub open spec fn enum_printable(definition: Enum) -> bool {
    &&& definition.comment.0@.len() == 0
    &&& definition.attributes.0@.len() == 0
    &&& def_name_ok(definition.name.spec_get())
    &&& match definition.generics {
        Some(g) => generics_printable(g),
        None => true,
    }
    &&& variants_ok(definition.variants)
}

/// Parsing reads back what printing wrote: the text of an enum without comment and attributes,
/// whose names, comments and types follow the grammar, parses as that enum, and the parse takes
/// up the whole text but its final line break.
#[verifier::spinoff_prover]
#[verifier::rlimit(40)]
pub proof fn law_parse_printed_enum(definition: Enum)
    requires
        enum_printable(definition),
    ensures
        enum_at(enum_text(definition, 0), 0) == Parsed::Done(
            enum_view(definition),
            enum_text(definition, 0).len() - 1,
        ),
{
    reveal_strlit("enum");
    reveal_strlit(" ");
    reveal_strlit("{");
    reveal_strlit("}");
    reveal_strlit("\n");
    let cs = enum_text(definition, 0);
    let name = definition.name.spec_get();
    let g = opt_generics_text(definition.generics);
    let variants = definition.variants;
    let body = variants_body(variants, 0, 1);
    variants.lemma_not_empty();
    let inner = variant_lead(variants, 0) + body + ("\n"@ + indent_text(0) + "}"@);
    assert(indent_text(0) =~= Seq::<char>::empty());
    assert(attributes_text(definition.attributes.0@, 0) =~= Seq::<char>::empty());
    assert(cs =~= ("enum"@ + " "@ + name + g + " "@ + "{"@) + inner + "\n"@);
    let ne: int = 5 + name.len() as int;
    let ge: int = ne + g.len();
    let b: int = ge + 1;
    let e: int = b + 2 + body.len();
    assert(cs.len() == e + 3);
    // The keyword and the spaces after it.
    assert(cs.subrange(0, 4) =~= "enum"@);
    assert(cs[4] == ' ');
    assert(cs[5] == name[0]);
    assert(run_end(cs, 5, 5) == 5);
    assert(run_end(cs, 4, 5) == 5);
    // The name.
    assert(cs.subrange(5, ne) =~= name);
    assert(cs[ne] == (if g.len() > 0 {
        g[0]
    } else {
        ' '
    }));
    match definition.generics {
        Some(gen) => {
            reveal_strlit("<");
            assert(g[0] == '<');
        },
        None => {},
    }
    lemma_read_name(cs, 5, name);
    // The generics.
    match definition.generics {
        Some(gen) => {
            assert(cs.subrange(ne, ge) =~= g);
            lemma_read_generics(cs, ne, gen);
        },
        None => {
            assert(!char_at(cs, ne, '<'));
        },
    }
    // The braces and the variants between them.
    assert(cs[ge] == ' ');
    assert(cs[b] == '{');
    assert(run_end(cs, b, 5) == b);
    assert(run_end(cs, ge, 5) == b);
    assert(cs.subrange(b + 1, b + 1 + inner.len()) =~= inner);
    lemma_read_variants(cs, b + 1, variants, 0, 1);
    assert(cs[e] == '\n');
    assert(cs[e + 1] == '}');
    assert(ws_end(cs, e + 1) == e + 1);
    assert(ws_end(cs, e) == e + 1);
    assert(variants_from(variants, 0) =~= variants_view(variants));
}

} // verus!
