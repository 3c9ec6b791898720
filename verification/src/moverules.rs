use vstd::prelude::*;

verus! {

/// The knight's eight jumps. The flag says that none of them repeats.
pub const KNIGHT_MOVES: [(i32, i32, bool); 8] = [
    (2, 1, false),
    (2, -1, false),
    (-2, 1, false),
    (-2, -1, false),
    (1, 2, false),
    (-1, 2, false),
    (1, -2, false),
    (-1, -2, false),
];

/// The four diagonals, each walked until something is in the way.
pub const BISHOP_MOVES: [(i32, i32, bool); 4] = [
    (1, 1, true),
    (-1, -1, true),
    (-1, 1, true),
    (1, -1, true),
];

/// The two ranks and two files, each walked until something is in the way.
pub const ROOK_MOVES: [(i32, i32, bool); 4] = [
    (1, 0, true),
    (-1, 0, true),
    (0, 1, true),
    (0, -1, true),
];

/// The rook's directions followed by the bishop's.
pub const QUEEN_MOVES: [(i32, i32, bool); 8] = [
    (1, 0, true),
    (-1, 0, true),
    (0, 1, true),
    (0, -1, true),
    (1, 1, true),
    (-1, -1, true),
    (-1, 1, true),
    (1, -1, true),
];

/// The queen's directions, taken one step only.
pub const KING_MOVES: [(i32, i32, bool); 8] = [
    (1, 0, false),
    (-1, 0, false),
    (0, 1, false),
    (0, -1, false),
    (1, 1, false),
    (-1, -1, false),
    (-1, 1, false),
    (1, -1, false),
];

/// A step to one of the eight neighbouring squares.
pub open spec fn is_step(rank_step: int, file_step: int) -> bool {
    &&& -1 <= rank_step <= 1
    &&& -1 <= file_step <= 1
    &&& (rank_step != 0 || file_step != 0)
}

/// A direction that a piece can be asked to follow: a repeated one must be a step to a
/// neighbouring square, so that walking it leaves the board after at most seven steps.
pub open spec fn is_direction(d: (i32, i32, bool)) -> bool {
    &&& -8 <= d.0 <= 8
    &&& -8 <= d.1 <= 8
    &&& d.2 ==> is_step(d.0 as int, d.1 as int)
}

} // verus!
