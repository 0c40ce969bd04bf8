//! Locations in the text of a schema, for error reports.

use super::Span;
use vstd::prelude::*;

verus! {

/// The first position at or after `start` that holds `c`, if there is one.
pub open spec fn find_char(cs: Seq<char>, start: int, c: char) -> Option<int>
    decreases cs.len() - start,
{
    if !(0 <= start < cs.len()) {
        None
    } else if cs[start] == c {
        Some(start)
    } else {
        find_char(cs, start + 1, c)
    }
}

/// Where the span that [`from_until`] gives ends: right after the first occurrence (at or after
/// `start`) of the first of `targets` that occurs there at all.
pub open spec fn until_end(cs: Seq<char>, start: int, targets: Seq<char>) -> Option<int>
    decreases targets.len(),
{
    if targets.len() == 0 {
        None
    } else {
        match find_char(cs, start, targets[0]) {
            Some(i) => Some(i + 1),
            None => until_end(cs, start, targets.drop_first()),
        }
    }
}

/// The first position at or after `start` that holds `c` (see `find_char`).
fn find_char_exec(cs: &Vec<char>, start: usize, c: char) -> (r: Option<usize>)
    requires
        start <= cs.len(),
    ensures
        match r {
            Some(i) => find_char(cs@, start as int, c) == Some(i as int) && i < cs.len(),
            None => find_char(cs@, start as int, c) is None,
        },
{
    let mut i = start;
    while i < cs.len()
        invariant
            start <= i <= cs.len(),
            find_char(cs@, i as int, c) == find_char(cs@, start as int, c),
        decreases cs.len() - i,
    {
        if cs[i] == c {
            return Some(i);
        }
        i = i + 1;
    }
    None
}

/// The span from `start` up to and including the first occurrence (at or after `start`) of the
/// first of `targets` that occurs there at all; an empty span at `start` when none does. Errors
/// point with it at the rest of a line or list entry.
pub fn from_until(cs: &Vec<char>, start: usize, targets: &[char]) -> (r: Span)
    requires
        start <= cs.len(),
    ensures
        r == (Span {
            start,
            end: match until_end(cs@, start as int, targets@) {
                Some(e) => e as usize,
                None => start,
            },
        }),
        r.start <= r.end <= cs.len(),
{
    let mut k: usize = 0;
    proof {
        assert(targets@.skip(0) =~= targets@);
    }
    while k < targets.len()
        invariant
            start <= cs.len(),
            k <= targets@.len(),
            until_end(cs@, start as int, targets@) == until_end(
                cs@,
                start as int,
                targets@.skip(k as int),
            ),
        decreases targets@.len() - k,
    {
        proof {
            assert(targets@.skip(k as int).drop_first() =~= targets@.skip(k + 1));
            assert(targets@.skip(k as int)[0] == targets@[k as int]);
        }
        match find_char_exec(cs, start, targets[k]) {
            Some(i) => {
                proof {
                    lemma_find_char_bounds(cs@, start as int, targets@[k as int]);
                }
                return Span::new(start, i + 1);
            },
            None => {},
        }
        k = k + 1;
    }
    proof {
        assert(targets@.skip(k as int).len() == 0);
    }
    Span::new(start, start)
}

/// A found position lies at or after where the search starts.
proof fn lemma_find_char_bounds(cs: Seq<char>, start: int, c: char)
    ensures
        find_char(cs, start, c) matches Some(i) ==> start <= i < cs.len(),
    decreases cs.len() - start,
{
    if 0 <= start < cs.len() && cs[start] != c {
        lemma_find_char_bounds(cs, start + 1, c);
    }
}

} // verus!
