//! An interface for the kinds of parallel computations involved in `halo2`,
//! here in its sequential form: every item runs its work on the calling
//! thread, in program order, with the signatures of the `rayon` items that
//! it stands in for.

use vstd::prelude::*;

pub mod prelude;

verus! {

/// Returns 1, the single-thread equivalent of `rayon::current_num_threads`.
pub fn current_num_threads() -> (n: usize)
    ensures
        n == 1,
{
    1
}

/// Sequential stand-in for `rayon::join`: runs `oper_a`, then `oper_b`, and
/// returns both results.
pub fn join<A, B, RA, RB>(oper_a: A, oper_b: B) -> (r: (RA, RB)) where
    A: FnOnce() -> RA,
    B: FnOnce() -> RB,

    requires
        oper_a.requires(()),
        oper_b.requires(()),
    ensures
        oper_a.ensures((), r.0),
        oper_b.ensures((), r.1),
{
    (oper_a(), oper_b())
}

/// Sequential stand-in for `rayon::Scope`.
///
/// Every `spawn` runs its body at once on the calling thread, so there is
/// nothing to keep track of. The marker makes `Scope` invariant over
/// `'scope`, as rayon's is, so that the `'scope` bound of the closures that
/// it runs keeps them from capturing short-lived references.
pub struct Scope<'scope> {
    _marker: core::marker::PhantomData<&'scope mut &'scope ()>,
}

impl<'scope> Scope<'scope> {
    /// The scope that [`scope`] hands to its operation.
    pub closed spec fn fresh() -> Scope<'scope> {
        Scope { _marker: core::marker::PhantomData }
    }

    /// Runs `body` immediately on the current thread rather than spawning it.
    pub fn spawn<BODY>(&self, body: BODY) where BODY: FnOnce(&Scope<'scope>) + Send
        requires
            body.requires((self,)),
        ensures
            body.ensures((self,), ()),
    {
        body(self)
    }
}

/// Sequential stand-in for `rayon::scope`: calls `op` with a fresh scope and
/// returns its result. Since `spawn` runs its body at once, all work is done
/// when `op` returns.
pub fn scope<'scope, OP, R>(op: OP) -> (r: R) where OP: FnOnce(&Scope<'scope>) -> R
    requires
        op.requires((&Scope::<'scope>::fresh(),)),
    ensures
        op.ensures((&Scope::<'scope>::fresh(),), r),
{
    op(&Scope { _marker: core::marker::PhantomData })
}

/// Sequential stand-in for `rayon::iter::ParallelIterator`: a marker over
/// `Iterator`, implemented for every `Iterator`, so that the adapters that
/// call sites chain on it resolve to those of `Iterator`.
pub trait ParallelIterator: Iterator {}

impl<I: Iterator> ParallelIterator for I {}

/// Sequential stand-in for `rayon::iter::IndexedParallelIterator`: a marker
/// over `Iterator` that lets bounds written with it compile.
pub trait IndexedParallelIterator: Iterator {}

} // verus!
