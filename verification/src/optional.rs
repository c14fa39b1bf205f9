//! Values that may be missing.

use vstd::prelude::*;

verus! {

/// Given a function `f` (which is typically either a least or a greatest
/// value of two):
///
/// 1. If both values are there, return what `f` makes of them.
/// 2. If only one value is there, return it.
/// 3. Otherwise, return nothing.
pub fn reduce_discarding_nulls<F: FnOnce(T, T) -> T, T>(
    f: F,
    v1: Option<T>,
    v2: Option<T>,
) -> (r: Option<T>)
    requires
        v1 is Some && v2 is Some ==> f.requires((v1->0, v2->0)),
    ensures
        match (v1, v2) {
            (None, None) => r is None,
            (Some(v), None) => r == Some(v),
            (None, Some(v)) => r == Some(v),
            (Some(a), Some(b)) => r is Some && f.ensures((a, b), r->0),
        },
{
    match (v1, v2) {
        (None, None) => None,
        (Some(v), None) => Some(v),
        (None, Some(v)) => Some(v),
        (Some(v1), Some(v2)) => Some(f(v1, v2)),
    }
}

} // verus!
