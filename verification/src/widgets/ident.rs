//! Hit identifiers of widgets.
use crate::paint::HitId;
use vstd::prelude::*;

verus! {

/// Hands out the next hit identifier: identifiers are dense and start at 1.
pub fn next_id(counter: &mut HitId) -> (id: HitId)
    requires
        *old(counter) < HitId::MAX,
    ensures
        id == *old(counter) + 1,
        *final(counter) == id,
{
    *counter = *counter + 1;
    *counter
}

} // verus!
