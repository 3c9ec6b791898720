use vstd::prelude::*;

verus! {

/// What kind of piece stands on a square. How each kind moves is the generator's business.
#[derive(Copy, Clone, Debug, PartialEq, Eq, Structural)]
pub enum Title {
    Pawn,
    Knight,
    Bishop,
    Rook,
    Queen,
    King,
}

impl Title {
    /// The title's name, as shown to players.
    pub fn name(&self) -> (r: &'static str)
        ensures
            r@ == (match self {
                Title::Pawn => "Pawn"@,
                Title::Knight => "Knight"@,
                Title::Bishop => "Bishop"@,
                Title::Rook => "Rook"@,
                Title::Queen => "Queen"@,
                Title::King => "King"@,
            }),
    {
        match self {
            Title::Pawn => "Pawn",
            Title::Knight => "Knight",
            Title::Rook => "Rook",
            Title::Bishop => "Bishop",
            Title::Queen => "Queen",
            Title::King => "King",
        }
    }
}

} // verus!
