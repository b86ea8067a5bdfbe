use vstd::prelude::*;

verus! {

/// Hands out the current value of a counter and advances it by one.
pub fn next_id(counter: &mut i64) -> (id: i64)
    requires
        *old(counter) < i64::MAX,
    ensures
        id == *old(counter),
        *final(counter) == *old(counter) + 1,
{
    let id = *counter;
    *counter = id + 1;
    id
}

} // verus!
