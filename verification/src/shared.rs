//! Sharing of immutable nodes.
use std::rc::Rc;
use vstd::prelude::*;

verus! {

/// A second handle on the value behind `rc`.
///
/// Trusted: the body is `Rc::clone`, which std documents as making another
/// pointer to the same allocation. The contract claims that the new handle
/// points to a value equal to the one `rc` points to.
#[verifier::external_body]
pub(crate) fn share<T>(rc: &Rc<T>) -> (r: Rc<T>)
    ensures
        r == *rc,
{
    Rc::clone(rc)
}

} // verus!
