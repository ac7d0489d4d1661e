//! Choosing the name of a binder so that it differs from every name in
//! sight.
use crate::laws::lemma_fresh_avoids;
use crate::list::List;
use crate::name::{placeholder, Name};
use crate::semantics;
use crate::value::names_model;
use vstd::prelude::*;

verus! {

/// The name for a binder called `x` where the names in `ns` are in sight.
///
/// The placeholder `_` is handed back as it is, whatever `ns` holds. Any
/// other name gets a mark appended for as long as it is found in `ns`.
pub fn fresh(ns: &List<Name>, x: Name) -> (r: Name)
    ensures
        r@ == semantics::fresh(names_model(ns), x@),
        x@ == placeholder() ==> r@ == x@,
        x@ != placeholder() ==> !names_model(ns).contains(r@),
    decreases semantics::count_long(names_model(ns), x@.len()),
{
    let ghost seen = names_model(ns);
    proof {
        lemma_fresh_avoids(seen, x@);
    }
    if x.is_placeholder() {
        x
    } else {
        let found = ns.containes(&x);
        proof {
            if found {
                let i = choose|i: int| 0 <= i < ns@.len() && (#[trigger] ns@[i])@ == x@;
                assert(seen[i] == x@);
            } else {
                assert forall|i: int| 0 <= i < seen.len() implies seen[i] != x@ by {
                    assert(ns@[i]@ != x@);
                }
            }
            assert(found == seen.contains(x@));
        }
        if found {
            proof {
                semantics::lemma_count_long_drops(seen, x@);
            }
            fresh(ns, x.prime())
        } else {
            x
        }
    }
}

} // verus!
