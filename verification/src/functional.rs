//! Small helpers for chaining computations that may fail.

use vstd::prelude::*;

verus! {

/// Describes a computation that could fail: if `v` is `Some(x)`, then `f` is
/// called on `x` and its result is returned; otherwise `None` is returned.
pub fn maybe<A, B, F: FnOnce(A) -> Option<B>>(v: Option<A>, f: F) -> (r: Option<B>)
    requires
        forall|x: A| v == Some(x) ==> call_requires(f, (x,)),
    ensures
        match v {
            Some(x) => call_ensures(f, (x,), r),
            None => r is None,
        },
{
    match v {
        Some(x) => f(x),
        None => None,
    }
}

/// Same as `maybe(v, f)`, but `f` borrows the value instead of taking it.
pub fn borrowed_maybe<A, B, F: FnOnce(&A) -> Option<B>>(v: &Option<A>, f: F) -> (r: Option<B>)
    requires
        forall|x: &A| *v == Some(*x) ==> call_requires(f, (x,)),
    ensures
        match v {
            Some(x) => call_ensures(f, (x,), r),
            None => r is None,
        },
{
    match v {
        Some(x) => f(x),
        None => None,
    }
}

} // verus!
