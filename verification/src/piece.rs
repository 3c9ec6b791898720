use crate::color::Color;
use crate::moverules::{
    is_direction, BISHOP_MOVES, KING_MOVES, KNIGHT_MOVES, QUEEN_MOVES, ROOK_MOVES,
};
use crate::title::Title;
use vstd::prelude::*;

verus! {

/// A piece on the board. Two pieces are the same when colour, title and `has_moved` agree.
#[derive(Copy, Clone, Debug, PartialEq, Eq, Structural)]
pub struct Piece {
    pub color: Color,
    pub title: Title,
    /// Set once the piece has been relocated; the pawn's double step and castling
    /// are open to pieces that have not moved.
    pub has_moved: bool,
}

/// The letter that stands for a title: upper case for White, lower case for Black.
pub open spec fn piece_letter(color: Color, title: Title) -> char {
    match (color, title) {
        (Color::White, Title::Pawn) => 'P',
        (Color::White, Title::Knight) => 'N',
        (Color::White, Title::Bishop) => 'B',
        (Color::White, Title::Rook) => 'R',
        (Color::White, Title::Queen) => 'Q',
        (Color::White, Title::King) => 'K',
        (Color::Black, Title::Pawn) => 'p',
        (Color::Black, Title::Knight) => 'n',
        (Color::Black, Title::Bishop) => 'b',
        (Color::Black, Title::Rook) => 'r',
        (Color::Black, Title::Queen) => 'q',
        (Color::Black, Title::King) => 'k',
    }
}

/// The directions in which a title moves, each with the flag that says whether the step
/// repeats. A pawn has none: its moves are not a matter of directions alone.
pub open spec fn move_pattern(title: Title) -> Seq<(i32, i32, bool)> {
    match title {
        Title::Pawn => Seq::empty(),
        Title::Knight => KNIGHT_MOVES@,
        Title::Bishop => BISHOP_MOVES@,
        Title::Rook => ROOK_MOVES@,
        Title::Queen => QUEEN_MOVES@,
        Title::King => KING_MOVES@,
    }
}

/// Every direction of a title can be followed: what repeats is a step to a neighbouring
/// square.
pub proof fn lemma_pattern_directions(title: Title)
    ensures
        forall|i: int|
            0 <= i < move_pattern(title).len() ==> is_direction(#[trigger] move_pattern(title)[i]),
{
    assert forall|i: int| 0 <= i < move_pattern(title).len() implies is_direction(
        #[trigger] move_pattern(title)[i],
    ) by {
        match title {
            Title::Pawn => {},
            Title::Knight => {
                assert(is_direction(KNIGHT_MOVES[i]));
            },
            Title::Bishop => {
                assert(is_direction(BISHOP_MOVES[i]));
            },
            Title::Rook => {
                assert(is_direction(ROOK_MOVES[i]));
            },
            Title::Queen => {
                assert(is_direction(QUEEN_MOVES[i]));
            },
            Title::King => {
                assert(is_direction(KING_MOVES[i]));
            },
        }
    }
}

/// Copies a table of directions into a vector.
fn table_to_vec<const N: usize>(table: &[(i32, i32, bool); N]) -> (v: Vec<(i32, i32, bool)>)
    ensures
        v@ == table@,
{
    let mut v: Vec<(i32, i32, bool)> = Vec::new();
    let mut i: usize = 0;
    while i < N
        invariant
            i <= N,
            v@ == table@.subrange(0, i as int),
        decreases N - i,
    {
        v.push(table[i]);
        i += 1;
    }
    v
}

impl Piece {
    /// A piece that has not moved yet.
    pub fn new(color: Color, title: Title) -> (p: Piece)
        ensures
            p == (Piece { color, title, has_moved: false }),
    {
        Self { color, title, has_moved: false }
    }

    pub open spec fn spec_to_char(&self) -> char {
        piece_letter(self.color, self.title)
    }

    /// The letter that stands for this piece on a printed board.
    #[verifier::when_used_as_spec(spec_to_char)]
    pub fn to_char(&self) -> (c: char)
        ensures
            c == self.spec_to_char(),
    {
        match self.color {
            Color::White => match self.title {
                Title::Pawn => 'P',
                Title::Knight => 'N',
                Title::Rook => 'R',
                Title::Bishop => 'B',
                Title::Queen => 'Q',
                Title::King => 'K',
            },
            Color::Black => match self.title {
                Title::Pawn => 'p',
                Title::Knight => 'n',
                Title::Rook => 'r',
                Title::Bishop => 'b',
                Title::Queen => 'q',
                Title::King => 'k',
            },
        }
    }

    /// The piece's name, as shown to players: its colour, a space, its title.
    pub fn name(&self) -> (r: String)
        ensures
            r@ == (match self.color {
                Color::White => "White"@,
                Color::Black => "Black"@,
            }) + " "@ + (match self.title {
                Title::Pawn => "Pawn"@,
                Title::Knight => "Knight"@,
                Title::Bishop => "Bishop"@,
                Title::Rook => "Rook"@,
                Title::Queen => "Queen"@,
                Title::King => "King"@,
            }),
    {
        let mut r = String::from_str(self.color.name());
        r.append(" ");
        r.append(self.title.name());
        r
    }

    pub open spec fn spec_sprite_index(&self) -> usize {
        let title: usize = match self.title {
            Title::Pawn => 0,
            Title::Rook => 1,
            Title::Knight => 2,
            Title::Bishop => 3,
            Title::Queen => 4,
            Title::King => 5,
        };
        match self.color {
            Color::White => title,
            Color::Black => (title + 6) as usize,
        }
    }

    /// The place of this piece's picture in a list of twelve: White's pawn, rook, knight,
    /// bishop, queen and king, then Black's in the same order.
    #[verifier::when_used_as_spec(spec_sprite_index)]
    pub fn sprite_index(&self) -> (i: usize)
        ensures
            i == self.spec_sprite_index(),
            i < 12,
    {
        let title: usize = match self.title {
            Title::Pawn => 0,
            Title::Rook => 1,
            Title::Knight => 2,
            Title::Bishop => 3,
            Title::Queen => 4,
            Title::King => 5,
        };
        match self.color {
            Color::White => title,
            Color::Black => title + 6,
        }
    }

    /// The directions in which this piece moves.
    pub fn get_move_pattern(&self) -> (v: Vec<(i32, i32, bool)>)
        ensures
            v@ == move_pattern(self.title),
    {
        match self.title {
            Title::Knight => table_to_vec(&KNIGHT_MOVES),
            Title::Bishop => table_to_vec(&BISHOP_MOVES),
            Title::Rook => table_to_vec(&ROOK_MOVES),
            Title::Queen => table_to_vec(&QUEEN_MOVES),
            Title::King => table_to_vec(&KING_MOVES),
            Title::Pawn => Vec::new(),
        }
    }
}

} // verus!
