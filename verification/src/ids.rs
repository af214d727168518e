//! Request identifiers handed to the upstream JSON-RPC server.

use vstd::prelude::*;

verus! {

/// The identifier that a counter holding `counter` hands out next:
/// the counter restarts from zero once it has reached `u32::MAX`.
pub open spec fn next_id_spec(counter: u32) -> u32 {
    if counter == u32::MAX {
        0
    } else {
        counter
    }
}

/// Hands out the next request identifier and advances the counter.
///
/// When the counter has reached `u32::MAX` it first restarts from zero, so an
/// identifier is never `u32::MAX` and the counter always ends one past the
/// identifier returned.
pub fn get_next_id(counter: &mut u32) -> (id: u32)
    ensures
        id == next_id_spec(*old(counter)),
        *final(counter) == id + 1,
        id < u32::MAX,
{
    if *counter == u32::MAX {
        *counter = 0;
    }
    let id = *counter;
    *counter = id + 1;
    id
}

} // verus!
