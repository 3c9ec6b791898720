use vstd::prelude::*;

verus! {

/// The two sides of the game. White moves first and advances towards higher ranks.
#[derive(Copy, Clone, Debug, PartialEq, Eq, Structural)]
pub enum Color {
    White,
    Black,
}

impl Color {
    /// The opposing side.
    pub open spec fn spec_inverse(&self) -> Color {
        match self {
            Color::White => Color::Black,
            Color::Black => Color::White,
        }
    }

    /// The rank step by which this side's pawns advance: 1 for White, -1 for Black.
    pub open spec fn spec_forward(&self) -> i32 {
        match self {
            Color::White => 1i32,
            Color::Black => -1i32,
        }
    }

    /// The rank from which this side's pawns step onto their last rank: 6 for White, 1
    /// for Black.
    pub open spec fn spec_seventh_rank(&self) -> i32 {
        match self {
            Color::White => 6i32,
            Color::Black => 1i32,
        }
    }

    /// The slot of this side in a two-element table: 0 for White, 1 for Black.
    pub open spec fn spec_index(&self) -> usize {
        match self {
            Color::White => 0usize,
            Color::Black => 1usize,
        }
    }

    /// The opposing side.
    #[verifier::when_used_as_spec(spec_inverse)]
    pub fn inverse(&self) -> (r: Color)
        ensures
            r == self.spec_inverse(),
    {
        match self {
            Color::Black => Color::White,
            Color::White => Color::Black,
        }
    }

    /// The rank step by which this side's pawns advance.
    #[verifier::when_used_as_spec(spec_forward)]
    pub fn forward(&self) -> (r: i32)
        ensures
            r == self.spec_forward(),
    {
        match self {
            Color::Black => -1,
            Color::White => 1,
        }
    }

    /// The rank from which this side's pawns step onto their last rank.
    #[verifier::when_used_as_spec(spec_seventh_rank)]
    pub fn seventh_rank(&self) -> (r: i32)
        ensures
            r == self.spec_seventh_rank(),
    {
        match self {
            Color::Black => 1,
            Color::White => 6,
        }
    }

    /// The slot of this side in a two-element table: 0 for White, 1 for Black.
    #[verifier::when_used_as_spec(spec_index)]
    pub fn index(&self) -> (r: usize)
        ensures
            r == self.spec_index(),
    {
        match self {
            Color::White => 0,
            Color::Black => 1,
        }
    }

    /// The side's name, as shown to players.
    pub fn name(&self) -> (r: &'static str)
        ensures
            r@ == (match self {
                Color::White => "White"@,
                Color::Black => "Black"@,
            }),
    {
        match self {
            Color::White => "White",
            Color::Black => "Black",
        }
    }
}

/// Taking the opposing side twice gives the side back. The two sides differ, advance in
/// opposite directions and have the two slots of a table between them.
pub proof fn lemma_inverse_involutive(c: Color)
    ensures
        c.inverse().inverse() == c,
        c.inverse() != c,
        c.inverse().forward() == -c.forward(),
        c.inverse().index() == 1 - c.index(),
{
}

} // verus!
