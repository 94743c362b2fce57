use vstd::prelude::*;

verus! {

/// The handle by which the world knows a connected player.
#[derive(Debug, Clone, Copy, PartialEq, Eq, Hash, Structural)]
pub struct PlayerId(pub u64);

} // verus!
