//! Punctuation logic for many Mabo schema elements. The main point of interest is the
//! [`Punctuated`] container.

use super::token::Comma;
use vstd::prelude::*;

verus! {

/// Container for a list of elements that are separated by punctuation.
///
/// This structure is never empty, always holding at least one element. All values must be separated
/// by punctuation and the last element can have an optional trailing punctuation.
///
/// The punctuation defaults to a comma `,` as this is the most common one.
#[derive(Debug, PartialEq, Eq)]
pub struct Punctuated<T, P = Comma> {
    values: Vec<(T, P)>,
    last: Box<(T, Option<P>)>,
}

impl<T, P> Punctuated<T, P> {
    /// The count of elements always fits in a `usize`.
    #[verifier::type_invariant]
    spec fn count_fits(&self) -> bool {
        self.values@.len() < usize::MAX
    }

    /// All elements in order, each with the punctuation that follows it (`None` only for the
    /// last one without trailing punctuation).
    pub closed spec fn entries(&self) -> Seq<(T, Option<P>)> {
        self.values@.map_values(|e: (T, P)| (e.0, Some(e.1))).push(*self.last)
    }

    /// All elements in order, without the punctuation.
    pub open spec fn items(&self) -> Seq<T> {
        self.entries().map_values(|e: (T, Option<P>)| e.0)
    }

    /// Every element is structurally smaller than the container, so definitions may recurse into
    /// them.
    pub proof fn lemma_items_decrease(&self)
        ensures
            forall|i: int|
                0 <= i < self.items().len() ==> decreases_to!(*self => #[trigger] self.items()[i]),
    {
        assert forall|i: int| 0 <= i < self.items().len() implies decreases_to!(*self => #[trigger] self.items()[i]) by {
            if i < self.values@.len() {
                assert(self.items()[i] == self.values@[i].0);
                assert(decreases_to!(*self => self.values));
                assert(decreases_to!(self.values => self.values@));
                assert(decreases_to!(self.values@ => self.values@[i]));
                assert(decreases_to!(self.values@[i] => self.values@[i].0));
            } else {
                assert(self.items()[i] == self.last.0);
                assert(decreases_to!(*self => self.last));
                assert(decreases_to!(self.last => self.last.0));
            }
        }
    }

    /// Construct a new `Punctuated<T, P>` from the given arguments.
    pub fn new(values: Vec<(T, P)>, last: (T, Option<P>)) -> (r: Self)
        requires
            values@.len() < usize::MAX,
        ensures
            r.entries() == values@.map_values(|e: (T, P)| (e.0, Some(e.1))).push(last),
            r.items().len() == values@.len() + 1,
            forall|i: int|
                0 <= i < values@.len() ==> #[trigger] r.items()[i] == values@[i].0 && r.spec_punct(
                    i,
                ),
            r.items()[values@.len() as int] == last.0,
            r.spec_punct(values@.len() as int) == (last.1 is Some),
    {
        let r = Self { values, last: Box::new(last) };
        proof {
            assert forall|i: int| 0 <= i < r.values@.len() implies #[trigger] r.items()[i]
                == r.values@[i].0 && r.spec_punct(i) by {
                assert(r.entries()[i] == (r.values@[i].0, Some(r.values@[i].1)));
            }
        }
        r
    }

    /// Returns an iterator over the values (excluding the punctuation).
    pub fn values(&self) -> (r: ValuesIter<'_, T, P>)
        ensures
            r.remaining() == self.items(),
    {
        let r = ValuesIter { items: self.values.as_slice(), pos: 0, last: Some(&self.last.0) };
        proof {
            assert(r.remaining() =~= self.items());
        }
        r
    }

    /// Returns the number of elements.
    ///
    /// **Note:** There is no `is_empty` method because this type always carries at least one
    /// element and can never be empty.
    pub fn len(&self) -> (r: usize)
        ensures
            r == self.items().len(),
            r >= 1,
    {
        proof {
            use_type_invariant(self);
        }
        self.values.len() + 1
    }

    /// Whether the element at position `i` is followed by punctuation (always the case but for
    /// the last one, which may have trailing punctuation).
    pub closed spec fn spec_punct(&self, i: int) -> bool {
        self.entries()[i].1 is Some
    }

    /// There is always at least one element.
    pub proof fn lemma_not_empty(&self)
        ensures
            self.items().len() >= 1,
    {
    }

    /// A punctuated list is never empty, and its elements and its entries (element and
    /// punctuation) are equally many: what [`Punctuated::len`] reports is what walking it with
    /// [`Punctuated::values`] or [`Punctuated::iter`] yields. (Built with [`Punctuated::new`], it
    /// holds one element more than the pairs of element and punctuation it was given.)
    pub proof fn law_len(&self)
        ensures
            self.items().len() >= 1,
            self.entries().len() == self.items().len(),
    {
    }

    /// Every element but the last is followed by punctuation.
    pub proof fn lemma_punct_between(&self)
        ensures
            forall|i: int| 0 <= i < self.items().len() - 1 ==> #[trigger] self.spec_punct(i),
    {
        assert forall|i: int| 0 <= i < self.items().len() - 1 implies #[trigger] self.spec_punct(i) by {
            assert(self.entries()[i] == (self.values@[i].0, Some(self.values@[i].1)));
        }
    }

    /// Whether the element at `index` is followed by punctuation.
    pub fn has_punct(&self, index: usize) -> (r: bool)
        requires
            index < self.items().len(),
        ensures
            r == self.spec_punct(index as int),
    {
        if index < self.values.len() {
            true
        } else {
            self.last.1.is_some()
        }
    }

    /// Whether there is an element at `index`.
    pub fn has_index(&self, index: usize) -> (r: bool)
        ensures
            r == (index < self.items().len()),
    {
        index <= self.values.len()
    }

    /// The element at `index`, counted from the first one.
    pub fn get(&self, index: usize) -> (r: &T)
        requires
            index < self.items().len(),
        ensures
            *r == self.items()[index as int],
    {
        if index < self.values.len() {
            &self.values[index].0
        } else {
            &self.last.0
        }
    }
}

impl<T: Clone, P: Clone> Clone for Punctuated<T, P> {
    fn clone(&self) -> (r: Self) {
        proof {
            use_type_invariant(self);
        }
        Self { values: self.values.clone(), last: self.last.clone() }
    }
}

impl<T, P: Copy> Punctuated<T, P> {
    /// Returns an iterator over the elements, each with its following punctuation.
    pub fn iter(&self) -> (r: Iter<'_, T, P>)
        ensures
            r.remaining() == self.entries(),
    {
        let r = Iter { items: self.values.as_slice(), pos: 0, last: Some(&*self.last) };
        proof {
            assert(r.remaining() =~= self.entries());
        }
        r
    }
}

/// An iterator over the entries of a [`Punctuated`].
///
/// This `struct` is created by the [`iter`](Punctuated::iter) method on [`Punctuated`]. See
/// its documentation for more.
pub struct Iter<'a, T, P = Comma> {
    items: &'a [(T, P)],
    pos: usize,
    last: Option<&'a (T, Option<P>)>,
}

impl<'a, T, P> Iter<'a, T, P> {
    #[verifier::type_invariant]
    spec fn position_in_bounds(&self) -> bool {
        self.pos <= self.items@.len()
    }
}

impl<'a, T, P: Copy> Iter<'a, T, P> {
    /// The entries that the iterator has yet to return.
    pub closed spec fn remaining(&self) -> Seq<(T, Option<P>)> {
        let rest = self.items@.skip(self.pos as int).map_values(|e: (T, P)| (e.0, Some(e.1)));
        match self.last {
            Some(l) => rest.push(*l),
            None => rest,
        }
    }

    /// Return the next entry: an element and the punctuation that follows it.
    pub fn next(&mut self) -> (r: Option<(&'a T, Option<P>)>)
        ensures
            old(self).remaining().len() == 0 ==> r.is_none() && final(self).remaining().len() == 0,
            old(self).remaining().len() > 0 ==> (r matches Some((t, p)) && (*t, p) == old(
                self,
            ).remaining()[0]) && final(self).remaining() == old(self).remaining().drop_first(),
    {
        proof {
            use_type_invariant(&*self);
        }
        if self.pos < self.items.len() {
            let (t, p) = &self.items[self.pos];
            let ghost before = self.remaining();
            self.pos = self.pos + 1;
            proof {
                assert(self.items@.skip(self.pos as int) =~= self.items@.skip(self.pos - 1).drop_first());
                assert(self.remaining() =~= before.drop_first());
            }
            Some((t, Some(*p)))
        } else {
            proof {
                assert(self.items@.skip(self.pos as int) =~= Seq::<(T, P)>::empty());
            }
            let l = self.last;
            self.last = None;
            match l {
                Some(l) => {
                    proof {
                        assert(self.remaining() =~= Seq::<(T, Option<P>)>::empty());
                    }
                    Some((&l.0, l.1))
                },
                None => None,
            }
        }
    }

    /// The count of entries that the iterator has yet to return.
    pub fn len(&self) -> (r: usize)
        requires
            self.remaining().len() <= usize::MAX,
        ensures
            r == self.remaining().len(),
    {
        proof {
            use_type_invariant(self);
        }
        let rest = self.items.len() - self.pos;
        match self.last {
            Some(_) => rest + 1,
            None => rest,
        }
    }
}

/// An iterator over the values of a [`Punctuated`].
///
/// This `struct` is created by the [`values`](Punctuated::values) method on [`Punctuated`]. See
/// its documentation for more.
pub struct ValuesIter<'a, T, P = Comma> {
    items: &'a [(T, P)],
    pos: usize,
    last: Option<&'a T>,
}

impl<'a, T, P> ValuesIter<'a, T, P> {
    #[verifier::type_invariant]
    spec fn position_in_bounds(&self) -> bool {
        self.pos <= self.items@.len()
    }

    /// The values that the iterator has yet to return.
    pub closed spec fn remaining(&self) -> Seq<T> {
        let rest = self.items@.skip(self.pos as int).map_values(|e: (T, P)| e.0);
        match self.last {
            Some(l) => rest.push(*l),
            None => rest,
        }
    }

    /// Return the next value.
    pub fn next(&mut self) -> (r: Option<&'a T>)
        ensures
            old(self).remaining().len() == 0 ==> r.is_none() && final(self).remaining().len() == 0,
            old(self).remaining().len() > 0 ==> (r matches Some(t) && *t == old(self).remaining()[0])
                && final(self).remaining() == old(self).remaining().drop_first(),
    {
        proof {
            use_type_invariant(&*self);
        }
        if self.pos < self.items.len() {
            let (t, _) = &self.items[self.pos];
            let ghost before = self.remaining();
            self.pos = self.pos + 1;
            proof {
                assert(self.items@.skip(self.pos as int) =~= self.items@.skip(self.pos - 1).drop_first());
                assert(self.remaining() =~= before.drop_first());
            }
            Some(t)
        } else {
            proof {
                assert(self.items@.skip(self.pos as int) =~= Seq::<(T, P)>::empty());
            }
            let l = self.last;
            self.last = None;
            match l {
                Some(l) => {
                    proof {
                        assert(self.remaining() =~= Seq::<T>::empty());
                    }
                    Some(l)
                },
                None => None,
            }
        }
    }

    /// The count of values that the iterator has yet to return.
    pub fn len(&self) -> (r: usize)
        requires
            self.remaining().len() <= usize::MAX,
        ensures
            r == self.remaining().len(),
    {
        proof {
            use_type_invariant(self);
        }
        let rest = self.items.len() - self.pos;
        match self.last {
            Some(_) => rest + 1,
            None => rest,
        }
    }
}

} // verus!
