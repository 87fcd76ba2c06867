//! Instants and ages. An instant is a count of milliseconds on a clock that
//! the caller reads; the library never reads a clock itself.

use vstd::prelude::*;

verus! {

/// The time that has passed at `agora` since `desde`, in milliseconds. A
/// clock that has stepped back ages nothing.
pub open spec fn idade(desde: u64, agora: u64) -> int {
    if agora >= desde {
        agora - desde
    } else {
        0
    }
}

/// The age at `agora` of something that happened at `desde`.
pub fn decorrido(desde: u64, agora: u64) -> (r: u64)
    ensures
        r == idade(desde, agora),
{
    if agora >= desde {
        agora - desde
    } else {
        0
    }
}

} // verus!
