use vstd::prelude::*;

verus! {

/// The number of ticks since the world began.
#[derive(Debug, Clone, Copy, PartialEq, Eq, Structural)]
pub struct Timestamp(pub i64);

/// A number of ticks.
#[derive(Debug, Clone, Copy, PartialEq, Eq, Structural)]
pub struct Duration(pub i64);

} // verus!
