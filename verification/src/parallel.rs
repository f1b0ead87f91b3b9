//! The one call that evaluation makes outside this library.

use vstd::prelude::*;

verus! {

/// `rayon::join` runs both closures, possibly on two threads, and returns
/// the pair of what they returned: the first component is a result of
/// `oper_a`, the second a result of `oper_b`. Nothing else is claimed of it,
/// and this much is taken on trust, not proved.
///
/// It panics where one of the closures panics, which the two `requires`
/// clauses leave to the caller to rule out, and where rayon cannot start its
/// pool of worker threads, which depends on the machine.
pub assume_specification<A, B, RA, RB>[ rayon::join::<A, B, RA, RB> ](oper_a: A, oper_b: B) -> (r: (
    RA,
    RB,
))
    where
        A: FnOnce() -> RA + Send,
        B: FnOnce() -> RB + Send,
        RA: Send,
        RB: Send,
    requires
        oper_a.requires(()),
        oper_b.requires(()),
    ensures
        oper_a.ensures((), r.0),
        oper_b.ensures((), r.1),
;

} // verus!
