//! Validation rules of the Mabo compiler: identifiers and names must be unique within their scope.
//!
//! Identifiers may be omitted in a schema; the [`IdGenerator`] derives them: an omitted
//! identifier is one more than the previous one (starting at 1).

pub mod ids;
pub mod names;
pub mod resolve;

use crate::parser::{Id, Span, Spanned};
use vstd::prelude::*;

verus! {

/// The raw identifier value, if one was given explicitly.
pub open spec fn explicit_id(id: Option<Id>) -> Option<u32> {
    match id {
        Some(i) => Some(i.spec_get()),
        None => None,
    }
}

/// The identifiers that the generator assigns: an explicit identifier is kept, an omitted one
/// becomes one more than the previous one (or 1 for the first one).
pub open spec fn assigned(ids: Seq<Option<u32>>) -> Seq<nat>
    decreases ids.len(),
{
    if ids.len() == 0 {
        seq![]
    } else {
        let prev = assigned(ids.drop_last());
        let next = if prev.len() == 0 {
            1
        } else {
            prev.last() + 1
        };
        prev.push(
            match ids.last() {
                Some(v) => v as nat,
                None => next,
            },
        )
    }
}

/// One identifier is assigned per element, and the assignment of a prefix is the prefix of the
/// assignment.
pub proof fn lemma_assigned_prefix(ids: Seq<Option<u32>>, k: int)
    requires
        0 <= k <= ids.len(),
    ensures
        assigned(ids).len() == ids.len(),
        assigned(ids.take(k)) == assigned(ids).take(k),
    decreases ids.len(),
{
    if ids.len() > 0 {
        lemma_assigned_prefix(ids.drop_last(), if k == ids.len() {
            0
        } else {
            k
        });
        if k == ids.len() {
            assert(ids.take(k) =~= ids);
            assert(assigned(ids).take(k) =~= assigned(ids));
        } else {
            assert(ids.drop_last().take(k) =~= ids.take(k));
            assert(assigned(ids).take(k) =~= assigned(ids.drop_last()).take(k));
        }
    } else {
        assert(ids.take(k) =~= ids);
    }
}

/// All assigned identifiers stay below `u32::MAX`, so that deriving the next one cannot overflow.
pub open spec fn ids_in_range(ids: Seq<Option<u32>>) -> bool {
    forall|k: int| 0 <= k < ids.len() ==> #[trigger] assigned(ids)[k] < u32::MAX
}

/// No two of the first `j` values are equal.
pub open spec fn distinct_before<T>(values: Seq<T>, j: int) -> bool {
    forall|a: int, b: int| 0 <= a < b < j ==> values[a] != values[b]
}

/// No two values are equal.
pub open spec fn all_distinct<T>(values: Seq<T>) -> bool {
    distinct_before(values, values.len() as int)
}

/// `(i, j)` is the first repetition: `j` is the earliest position whose value occurred before, at
/// position `i`.
pub open spec fn first_repeat<T>(values: Seq<T>, i: int, j: int) -> bool {
    &&& 0 <= i < j < values.len()
    &&& values[i] == values[j]
    &&& distinct_before(values, j)
}

/// Distinctness and first repetitions are the same for machine identifiers and the
/// mathematical values they stand for.
pub proof fn lemma_repeat_transfer(ids: Seq<u32>, values: Seq<nat>)
    requires
        ids.len() == values.len(),
        forall|k: int| 0 <= k < ids.len() ==> ids[k] == #[trigger] values[k],
    ensures
        forall|j: int|
            j <= ids.len() ==> (distinct_before(ids, j) <==> #[trigger] distinct_before(values, j)),
        all_distinct(ids) <==> all_distinct(values),
        forall|i: int, j: int| first_repeat(ids, i, j) <==> #[trigger] first_repeat(values, i, j),
{
    assert forall|j: int| j <= ids.len() implies (distinct_before(ids, j) <==> #[trigger] distinct_before(
        values,
        j,
    )) by {
        if distinct_before(ids, j) {
            assert forall|a: int, b: int| 0 <= a < b < j implies values[a] != values[b] by {
                assert(ids[a] != ids[b]);
            }
        }
        if distinct_before(values, j) {
            assert forall|a: int, b: int| 0 <= a < b < j implies ids[a] != ids[b] by {
                assert(values[a] != values[b]);
            }
        }
    }
}

/// Generator that is responsible for deriving omitted field and enum identifiers.
pub struct IdGenerator {
    /// The next available ID.
    next_id: u32,
}

impl IdGenerator {
    /// The identifier that is given to the next element without an explicit one.
    pub closed spec fn next_value(&self) -> nat {
        self.next_id as nat
    }

    /// Create a new instance of the ID generator.
    pub fn new() -> (r: Self)
        ensures
            r.next_value() == 1,
    {
        Self { next_id: 1 }
    }

    /// Get the next ID, which is either already explicitly defined by the given parameter, or
    /// derived otherwise.
    ///
    /// Identifiers can have gaps, and must be consistently increasing (currently).
    pub fn next(&mut self, id: Option<&Id>) -> (r: u32)
        requires
            match id {
                Some(i) => i.spec_get() < u32::MAX,
                None => old(self).next_value() < u32::MAX,
            },
        ensures
            r == match id {
                Some(i) => i.spec_get() as nat,
                None => old(self).next_value(),
            },
            final(self).next_value() == r + 1,
    {
        let id = match id {
            Some(i) => i.get(),
            None => self.next_id,
        };
        self.next_id = id + 1;
        id
    }

    /// Get the next ID, but additionally combine it with a span to construct a new [`Id`]
    /// instance: the explicit identifier's span, or the `fallback` span where it was omitted.
    pub fn next_with_span<F: FnOnce() -> Span>(&mut self, id: Option<&Id>, fallback: F) -> (r: Id)
        requires
            fallback.requires(()),
            match id {
                Some(i) => i.spec_get() < u32::MAX,
                None => old(self).next_value() < u32::MAX,
            },
        ensures
            r.spec_get() == match id {
                Some(i) => i.spec_get() as nat,
                None => old(self).next_value(),
            },
            match id {
                Some(i) => r.spec_span() == i.spec_span(),
                None => fallback.ensures((), r.spec_span()),
            },
            final(self).next_value() == r.spec_get() + 1,
    {
        let new_id = self.next(id);
        let span = match id {
            Some(i) => i.span(),
            None => fallback(),
        };
        Id::new(new_id, span)
    }
}

/// Find the first repetition among the identifiers, if any.
pub(crate) fn find_repeat_ids(values: &Vec<u32>) -> (r: Option<(usize, usize)>)
    ensures
        match r {
            Some((i, j)) => first_repeat(values@, i as int, j as int),
            None => all_distinct(values@),
        },
{
    let mut j: usize = 0;
    while j < values.len()
        invariant
            j <= values@.len(),
            distinct_before(values@, j as int),
        decreases values@.len() - j,
    {
        let mut i: usize = 0;
        while i < j
            invariant
                i <= j < values@.len(),
                distinct_before(values@, j as int),
                forall|a: int| 0 <= a < i ==> values@[a] != values@[j as int],
            decreases j - i,
        {
            if values[i] == values[j] {
                return Some((i, j));
            }
            i = i + 1;
        }
        j = j + 1;
    }
    None
}

/// The characters of each string.
pub open spec fn views(values: Seq<String>) -> Seq<Seq<char>> {
    values.map_values(|s: String| s@)
}

/// Find the first repetition among the names, if any.
pub(crate) fn find_repeat_names(values: &Vec<String>) -> (r: Option<(usize, usize)>)
    ensures
        match r {
            Some((i, j)) => first_repeat(views(values@), i as int, j as int),
            None => all_distinct(views(values@)),
        },
{
    let mut j: usize = 0;
    while j < values.len()
        invariant
            j <= values@.len(),
            distinct_before(views(values@), j as int),
        decreases values@.len() - j,
    {
        let mut i: usize = 0;
        while i < j
            invariant
                i <= j < values@.len(),
                distinct_before(views(values@), j as int),
                forall|a: int| 0 <= a < i ==> views(values@)[a] != views(values@)[j as int],
            decreases j - i,
        {
            if values[i] == values[j] {
                return Some((i, j));
            }
            i = i + 1;
        }
        j = j + 1;
    }
    None
}

} // verus!
