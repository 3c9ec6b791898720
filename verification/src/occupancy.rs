use vstd::prelude::*;

verus! {

/// What a side finds on a square: nothing, one of its own pieces, or one of the opponent's.
#[derive(Copy, Clone, Debug, PartialEq, Eq, Structural)]
pub enum Occupancy {
    Empty,
    SameColor,
    OtherColor,
}

} // verus!
