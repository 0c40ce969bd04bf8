//! Pieces of text for the generated schema documentation: relative links and comment texts.

use vstd::prelude::*;

use std::rc::Rc;

use crate::parser::{Comment, TypeAlias};

verus! {

/// Whether a character has the Unicode property White_Space.
pub open spec fn is_white_space(c: char) -> bool {
    let n = c as u32;
    ||| 0x9 <= n <= 0xd
    ||| n == 0x20
    ||| n == 0x85
    ||| n == 0xa0
    ||| n == 0x1680
    ||| 0x2000 <= n <= 0x200a
    ||| n == 0x2028
    ||| n == 0x2029
    ||| n == 0x202f
    ||| n == 0x205f
    ||| n == 0x3000
}

/// The text without its leading whitespace.
pub open spec fn trim_start(s: Seq<char>) -> Seq<char>
    decreases s.len(),
{
    if s.len() > 0 && is_white_space(s[0]) {
        trim_start(s.drop_first())
    } else {
        s
    }
}

/// The text without its trailing whitespace.
pub open spec fn trim_end(s: Seq<char>) -> Seq<char>
    decreases s.len(),
{
    if s.len() > 0 && is_white_space(s.last()) {
        trim_end(s.drop_last())
    } else {
        s
    }
}

/// The text without its leading and trailing whitespace.
pub open spec fn trimmed(s: Seq<char>) -> Seq<char> {
    trim_end(trim_start(s))
}

/// Whether the text holds nothing but whitespace.
pub open spec fn is_blank(s: Seq<char>) -> bool {
    forall|k: int| 0 <= k < s.len() ==> is_white_space(#[trigger] s[k])
}

/// `str::trim`: the slice without its leading and trailing whitespace, whitespace being the
/// characters with the Unicode property White_Space.
#[verifier::external_body]
fn trim(s: &str) -> (r: &str)
    ensures
        r@ == trimmed(s@),
{
    s.trim()
}

proof fn lemma_trim_end_empty(s: Seq<char>)
    ensures
        trim_end(s).len() == 0 <==> is_blank(s),
    decreases s.len(),
{
    if s.len() > 0 && is_white_space(s.last()) {
        lemma_trim_end_empty(s.drop_last());
        if is_blank(s.drop_last()) {
            assert forall|k: int| 0 <= k < s.len() implies is_white_space(#[trigger] s[k]) by {
                if k < s.len() - 1 {
                    assert(s.drop_last()[k] == s[k]);
                }
            }
        }
        if is_blank(s) {
            assert forall|k: int| 0 <= k < s.drop_last().len() implies is_white_space(
                #[trigger] s.drop_last()[k],
            ) by {
                assert(s[k] == s.drop_last()[k]);
            }
        }
    } else if s.len() > 0 {
        assert(!is_white_space(s[s.len() - 1]));
    }
}

proof fn lemma_trim_start_blank(s: Seq<char>)
    ensures
        is_blank(trim_start(s)) <==> is_blank(s),
    decreases s.len(),
{
    if s.len() > 0 && is_white_space(s[0]) {
        lemma_trim_start_blank(s.drop_first());
        if is_blank(s.drop_first()) {
            assert forall|k: int| 0 <= k < s.len() implies is_white_space(#[trigger] s[k]) by {
                if k > 0 {
                    assert(s.drop_first()[k - 1] == s[k]);
                }
            }
        }
        if is_blank(s) {
            assert forall|k: int| 0 <= k < s.drop_first().len() implies is_white_space(
                #[trigger] s.drop_first()[k],
            ) by {
                assert(s[k + 1] == s.drop_first()[k]);
            }
        }
    }
}

/// A text trims to nothing exactly when it is blank.
proof fn lemma_trimmed_empty(s: Seq<char>)
    ensures
        trimmed(s).len() == 0 <==> is_blank(s),
{
    lemma_trim_start_blank(s);
    lemma_trim_end_empty(trim_start(s));
}

/// What the detail page of a type alias shows: the alias and the module path it stands in.
pub struct AliasDetail<'a> {
    /// Names of the modules from the schema root down to the alias.
    pub path: &'a [Rc<str>],
    /// The alias itself.
    pub item: &'a TypeAlias<'a>,
}

/// The path that leads `n` directory levels up.
pub struct PathUp(pub usize);

/// `"../"` repeated `n` times.
pub open spec fn ups(n: nat) -> Seq<char>
    decreases n,
{
    if n == 0 {
        Seq::empty()
    } else {
        ups((n - 1) as nat) + "../"@
    }
}

impl PathUp {
    /// The path's text: `../` once per level.
    pub fn to_text(&self) -> (r: String)
        ensures
            r@ == ups(self.0 as nat),
    {
        let mut text = String::new();
        let mut i: usize = 0;
        while i < self.0
            invariant
                i <= self.0,
                text@ == ups(i as nat),
            decreases self.0 - i,
        {
            text.append("../");
            i = i + 1;
        }
        text
    }
}

/// The path from the module at index `i` of a module path of `len` modules up to the root, one
/// level up for each module below it.
pub fn path_up(len: usize, i: &usize) -> (r: PathUp)
    requires
        len > *i,
    ensures
        r.0 == len - *i - 1,
{
    PathUp(len - *i - 1)
}

/// The comment's lines, as texts.
pub open spec fn comment_lines(item: &Comment) -> Seq<Seq<char>> {
    Seq::new(item.0@.len(), |i: int| item.0@[i].value@)
}

/// The lines, each followed by a line break.
pub open spec fn lines_text(lines: Seq<Seq<char>>) -> Seq<char>
    decreases lines.len(),
{
    if lines.len() == 0 {
        Seq::empty()
    } else {
        lines_text(lines.drop_last()) + lines.last() + "\n"@
    }
}

/// How many lines come before the first blank one (all of them where none is blank).
pub open spec fn paragraph_len(lines: Seq<Seq<char>>) -> nat
    decreases lines.len(),
{
    if lines.len() == 0 || is_blank(lines[0]) {
        0
    } else {
        1 + paragraph_len(lines.drop_first())
    }
}

proof fn lemma_paragraph_len(lines: Seq<Seq<char>>, n: int)
    requires
        0 <= n <= lines.len(),
        forall|k: int| 0 <= k < n ==> !is_blank(#[trigger] lines[k]),
        n == lines.len() || is_blank(lines[n]),
    ensures
        paragraph_len(lines) == n,
    decreases n,
{
    if n > 0 {
        let rest = lines.drop_first();
        assert forall|k: int| 0 <= k < n - 1 implies !is_blank(#[trigger] rest[k]) by {
            assert(rest[k] == lines[k + 1]);
        }
        if n < lines.len() {
            assert(rest[n - 1] == lines[n]);
        }
        lemma_paragraph_len(rest, n - 1);
        assert(!is_blank(lines[0]));
    }
}

/// The first paragraph of the comment: its lines up to the first blank one, each followed by a
/// line break.
pub fn first_comment(item: &Comment) -> (r: String)
    ensures
        r@ == lines_text(comment_lines(item).take(paragraph_len(comment_lines(item)) as int)),
{
    let ghost lines = comment_lines(item);
    let mut acc = String::new();
    let mut i: usize = 0;
    while i < item.0.len()
        invariant_except_break
            forall|k: int| 0 <= k < i ==> !is_blank(#[trigger] lines[k]),
        invariant
            lines == comment_lines(item),
            i <= item.0@.len(),
            acc@ == lines_text(lines.take(i as int)),
        ensures
            i <= item.0@.len(),
            forall|k: int| 0 <= k < i ==> !is_blank(#[trigger] lines[k]),
            i == item.0@.len() || is_blank(lines[i as int]),
        decreases item.0@.len() - i,
    {
        let value = item.0[i].value;
        let t = trim(value);
        proof {
            lemma_trimmed_empty(value@);
            assert(lines[i as int] == value@);
        }
        if t.is_empty() {
            break;
        }
        acc.append(value);
        acc.append("\n");
        proof {
            assert(lines.take(i + 1).drop_last() =~= lines.take(i as int));
        }
        i = i + 1;
    }
    proof {
        lemma_paragraph_len(lines, i as int);
    }
    acc
}

/// All lines of the comment, each followed by a line break.
pub fn merge_comments(item: &Comment) -> (r: String)
    ensures
        r@ == lines_text(comment_lines(item)),
{
    let ghost lines = comment_lines(item);
    let mut acc = String::new();
    let mut i: usize = 0;
    while i < item.0.len()
        invariant
            lines == comment_lines(item),
            i <= item.0@.len(),
            acc@ == lines_text(lines.take(i as int)),
        decreases item.0@.len() - i,
    {
        let value = item.0[i].value;
        acc.append(value);
        acc.append("\n");
        proof {
            assert(lines[i as int] == value@);
            assert(lines.take(i + 1).drop_last() =~= lines.take(i as int));
        }
        i = i + 1;
    }
    proof {
        assert(lines.take(i as int) =~= lines);
    }
    acc
}

} // verus!
