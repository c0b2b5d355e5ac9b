use vstd::prelude::*;

verus! {

/// Run `func` on the relation when the heap fetch found the tuple visible
/// to the snapshot, and give back its result; give back `None`, without
/// running it, when the tuple is not visible.
pub fn exec_if_visible<R, T, F: FnOnce(R) -> T>(found: bool, rel: R, func: F) -> (r: Option<T>)
    requires
        found ==> call_requires(func, (rel,)),
    ensures
        r is Some <==> found,
        r matches Some(v) ==> call_ensures(func, (rel,), v),
{
    if found {
        Some(func(rel))
    } else {
        None
    }
}

} // verus!
