//! Single instance: the local port that the running instance holds.
use vstd::prelude::*;

verus! {

/// The local port that the running instance listens on; a second instance
/// that finds it taken asks the first to show its window and quits.
pub const INSTANCE_PORT: u16 = 17453;

/// The port that the running instance holds.
pub fn _unused() -> (r: u16)
    ensures
        r == INSTANCE_PORT,
{
    INSTANCE_PORT
}

} // verus!
