//! Sequential stand-ins for the `rayon` prelude's extension traits: they
//! give slices and vectors `par_iter` and `par_iter_mut`, which here return
//! the ordinary sequential iterators, so that call sites read the same in
//! both builds.

use vstd::prelude::*;

verus! {

#[verifier::external_type_specification]
#[verifier::external_body]
#[verifier::reject_recursive_types(T)]
pub struct ExIterMut<'a, T: 'a>(core::slice::IterMut<'a, T>);

/// `<[T]>::iter_mut`: per its documentation, an iterator that "allows
/// modifying each value" and "yields all items from start to end". Stated:
/// the iterator obeys the iterator laws; it will yield one mutable reference
/// per element, in order, each to that element's value; and the slice ends
/// up holding what is left behind each reference. Not stated: a bound on
/// the iterator's decrease metric.
pub assume_specification<'a, Elem>[ <[Elem]>::iter_mut ](s: &'a mut [Elem]) -> (it: core::slice::IterMut<'a, Elem>)
    ensures
        vstd::std_specs::iter::IteratorSpec::obeys_prophetic_iter_laws(&it),
        vstd::std_specs::iter::IteratorSpec::will_return_none(&it),
        vstd::std_specs::iter::IteratorSpec::remaining(&it).len() == old(s)@.len(),
        final(s)@.len() == old(s)@.len(),
        forall|i: int| 0 <= i < old(s)@.len() ==> *#[trigger] vstd::std_specs::iter::IteratorSpec::remaining(&it)[i] == old(s)@[i],
        forall|i: int| 0 <= i < old(s)@.len() ==> final(s)@[i] == *final(#[trigger] vstd::std_specs::iter::IteratorSpec::remaining(&it)[i]),
;

/// Sequential stand-in for `rayon::iter::IntoParallelRefMutIterator`.
pub trait IntoParallelRefMutIterator<'data> {
    type Iter: Iterator<Item = &'data mut Self::Item>;

    type Item: 'data + ?Sized;

    fn par_iter_mut(&'data mut self) -> Self::Iter;
}

impl<'data, T: 'data + Send> IntoParallelRefMutIterator<'data> for [T] {
    type Iter = core::slice::IterMut<'data, T>;

    type Item = T;

    /// The slice's own mutable iterator: it yields a reference to each
    /// element, in order.
    fn par_iter_mut(&'data mut self) -> (it: Self::Iter)
        ensures
            vstd::std_specs::iter::IteratorSpec::obeys_prophetic_iter_laws(&it),
            vstd::std_specs::iter::IteratorSpec::will_return_none(&it),
            vstd::std_specs::iter::IteratorSpec::remaining(&it).len() == old(self)@.len(),
            final(self)@.len() == old(self)@.len(),
            forall|i: int| 0 <= i < old(self)@.len() ==> *#[trigger] vstd::std_specs::iter::IteratorSpec::remaining(&it)[i] == old(self)@[i],
            forall|i: int| 0 <= i < old(self)@.len() ==> final(self)@[i] == *final(#[trigger] vstd::std_specs::iter::IteratorSpec::remaining(&it)[i]),
    {
        self.iter_mut()
    }
}

impl<'data, T: 'data + Send> IntoParallelRefMutIterator<'data> for Vec<T> {
    type Iter = core::slice::IterMut<'data, T>;

    type Item = T;

    /// The vector's own mutable iterator: it yields a reference to each
    /// element, in order.
    fn par_iter_mut(&'data mut self) -> (it: Self::Iter)
        ensures
            vstd::std_specs::iter::IteratorSpec::obeys_prophetic_iter_laws(&it),
            vstd::std_specs::iter::IteratorSpec::will_return_none(&it),
            vstd::std_specs::iter::IteratorSpec::remaining(&it).len() == old(self)@.len(),
            final(self)@.len() == old(self)@.len(),
            forall|i: int| 0 <= i < old(self)@.len() ==> *#[trigger] vstd::std_specs::iter::IteratorSpec::remaining(&it)[i] == old(self)@[i],
            forall|i: int| 0 <= i < old(self)@.len() ==> final(self)@[i] == *final(#[trigger] vstd::std_specs::iter::IteratorSpec::remaining(&it)[i]),
    {
        self.iter_mut()
    }
}

/// Sequential stand-in for `rayon::iter::IntoParallelRefIterator`.
pub trait IntoParallelRefIterator<'data> {
    type Iter: Iterator<Item = &'data Self::Item>;

    type Item: 'data + ?Sized;

    fn par_iter(&'data self) -> Self::Iter;
}

impl<'data, T: 'data + Sync> IntoParallelRefIterator<'data> for [T] {
    type Iter = core::slice::Iter<'data, T>;

    type Item = T;

    /// The slice's own iterator: it yields the slice's elements in order.
    fn par_iter(&'data self) -> (it: Self::Iter)
        ensures
            vstd::std_specs::iter::IteratorSpec::remaining(&it) == self@.as_ref(),
    {
        self.iter()
    }
}

impl<'data, T: 'data + Sync> IntoParallelRefIterator<'data> for Vec<T> {
    type Iter = core::slice::Iter<'data, T>;

    type Item = T;

    /// The vector's own iterator: it yields the vector's elements in order.
    fn par_iter(&'data self) -> (it: Self::Iter)
        ensures
            vstd::std_specs::iter::IteratorSpec::remaining(&it) == self@.as_ref(),
    {
        self.iter()
    }
}

} // verus!
