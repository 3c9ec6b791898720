use crate::square::Square;
use crate::title::Title;
use vstd::prelude::*;

verus! {

/// How a move changes the board beyond carrying a piece from one square to another.
#[derive(Copy, Clone, Debug, PartialEq, Eq, Structural)]
pub enum MoveType {
    /// A plain relocation that captures whatever stands on the destination.
    Standard,
    /// The king's move of castling, with the rook's origin and destination.
    Casteling(Square, Square),
    /// A pawn capturing in passing; the square holds the pawn that is taken.
    EnPassant(Square),
    /// A pawn's two-square advance; the square is the one it passed over.
    DoubleStep(Square),
    /// A pawn reaching its last rank, with the title it takes there, if one was chosen.
    Promotion(Option<Title>),
}

/// One move: origin, destination and kind.
#[derive(Copy, Clone, Debug, PartialEq, Eq, Structural)]
pub struct MoveData {
    pub from: Square,
    pub to: Square,
    pub move_type: MoveType,
}

impl MoveData {
    pub open spec fn spec_new_standard(from: Square, to: Square) -> MoveData {
        MoveData { from, to, move_type: MoveType::Standard }
    }

    pub open spec fn spec_new_casteling(
        from: Square,
        to: Square,
        rook_from: Square,
        rook_to: Square,
    ) -> MoveData {
        MoveData { from, to, move_type: MoveType::Casteling(rook_from, rook_to) }
    }

    pub open spec fn spec_new_en_passant(from: Square, to: Square, capture: Square) -> MoveData {
        MoveData { from, to, move_type: MoveType::EnPassant(capture) }
    }

    pub open spec fn spec_new_double_step(
        from: Square,
        to: Square,
        en_passant_oppertunity: Square,
    ) -> MoveData {
        MoveData { from, to, move_type: MoveType::DoubleStep(en_passant_oppertunity) }
    }

    pub open spec fn spec_new_promotion(
        from: Square,
        to: Square,
        promote_to: Option<Title>,
    ) -> MoveData {
        MoveData { from, to, move_type: MoveType::Promotion(promote_to) }
    }

    /// The move as it is written down: the two squares' names with a space between them.
    pub open spec fn spec_notation(&self) -> Seq<char> {
        self.from.spec_notation() + seq![' '] + self.to.spec_notation()
    }

    /// A plain relocation from `from` to `to`.
    #[verifier::when_used_as_spec(spec_new_standard)]
    pub fn new_standard(from: Square, to: Square) -> (m: MoveData)
        ensures
            m == MoveData::spec_new_standard(from, to),
    {
        Self { from, to, move_type: MoveType::Standard }
    }

    /// The king's move from `from` to `to`, with the rook going from `rook_from` to
    /// `rook_to`.
    #[verifier::when_used_as_spec(spec_new_casteling)]
    pub fn new_casteling(from: Square, to: Square, rook_from: Square, rook_to: Square) -> (m:
        MoveData)
        ensures
            m == MoveData::spec_new_casteling(from, to, rook_from, rook_to),
    {
        Self { from, to, move_type: MoveType::Casteling(rook_from, rook_to) }
    }

    /// A pawn's capture in passing from `from` to `to`, taking the pawn on `capture`.
    #[verifier::when_used_as_spec(spec_new_en_passant)]
    pub fn new_en_passant(from: Square, to: Square, capture: Square) -> (m: MoveData)
        ensures
            m == MoveData::spec_new_en_passant(from, to, capture),
    {
        Self { from, to, move_type: MoveType::EnPassant(capture) }
    }

    /// A pawn's two-square advance from `from` to `to` over `en_passant_oppertunity`.
    #[verifier::when_used_as_spec(spec_new_double_step)]
    pub fn new_double_step(from: Square, to: Square, en_passant_oppertunity: Square) -> (m:
        MoveData)
        ensures
            m == MoveData::spec_new_double_step(from, to, en_passant_oppertunity),
    {
        Self { from, to, move_type: MoveType::DoubleStep(en_passant_oppertunity) }
    }

    /// A pawn's move from `from` onto its last rank at `to`, taking the title `promote_to`
    /// there, or a queen's where none is given.
    #[verifier::when_used_as_spec(spec_new_promotion)]
    pub fn new_promotion(from: Square, to: Square, promote_to: Option<Title>) -> (m: MoveData)
        ensures
            m == MoveData::spec_new_promotion(from, to, promote_to),
    {
        Self { from, to, move_type: MoveType::Promotion(promote_to) }
    }

    /// The move as it is written down, such as `e2 e4`. The kind of the move is not part
    /// of it.
    pub fn get_move_notation(&self) -> (r: String)
        ensures
            r@ == self.spec_notation(),
    {
        proof {
            reveal_strlit(" ");
        }
        let mut r = self.from.notation();
        r.append(" ");
        let to = self.to.notation();
        r.append(to.as_str());
        assert(r@ =~= self.spec_notation());
        r
    }
}

} // verus!
