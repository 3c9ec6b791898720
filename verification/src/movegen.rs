use crate::board::{Board, BoardView};
use crate::color::Color;
use crate::movedata::{MoveData, MoveType};
use crate::moverules::{is_direction, is_step};
use crate::occupancy::Occupancy;
use crate::piece::{lemma_pattern_directions, move_pattern, Piece};
use crate::square::Square;
use crate::threat::{ray_room, threatened};
use crate::title::Title;
use vstd::prelude::*;

verus! {

/// Whether, once `m` has been made, the king of the side that made it is not attacked.
pub open spec fn keeps_king_safe(b: BoardView, m: MoveData) -> bool {
    let after = b.after_move(m);
    !threatened(after.pieces, after.king_pos[b.to_act.index() as int], b.to_act)
}

/// Whether `m` has to be tried out before it is accepted: the side to act is in check, the
/// piece starts on one of the blockers, or the move is a capture in passing, which empties
/// a second square and so can open a line that no blocker stands on.
pub open spec fn needs_trial(b: BoardView, m: MoveData) -> bool {
    b.blockers.contains(m.from) || b.in_check || m.move_type is EnPassant
}

/// Whether the candidate `m` passes the legality filter: it needs no trial, or it leaves
/// the king of the side that makes it unattacked.
pub open spec fn accepted(b: BoardView, m: MoveData) -> bool {
    needs_trial(b, m) ==> keeps_king_safe(b, m)
}

/// The candidate `m` where it passes the legality filter, else nothing.
pub open spec fn filtered(b: BoardView, m: MoveData) -> Seq<MoveData> {
    if accepted(b, m) {
        seq![m]
    } else {
        Seq::empty()
    }
}

/// The move that advances or captures with a pawn from `from` to `to`: a promotion to
/// `promote_to` where the pawn leaves the seventh rank of its colour, else a plain move.
pub open spec fn pawn_step(from: Square, to: Square, color: Color, promote_to: Title) -> MoveData {
    if from.spec_rank() == color.seventh_rank() {
        MoveData::new_promotion(from, to, Some(promote_to))
    } else {
        MoveData::new_standard(from, to)
    }
}

/// The double step of the pawn `piece` from `from` over the empty square `passed`: offered
/// where the pawn has not moved and the square behind `passed` is empty too.
pub open spec fn pawn_double_step(
    b: BoardView,
    from: Square,
    passed: Square,
    piece: Piece,
) -> Seq<MoveData> {
    match passed.spec_offset(piece.color.forward() as int, 0) {
        Some(to) => if !piece.has_moved && b.occupancy(to, piece.color) == Occupancy::Empty {
            filtered(b, MoveData::new_double_step(from, to, passed))
        } else {
            Seq::empty()
        },
        None => Seq::empty(),
    }
}

/// The advances of the pawn `piece` on `from`: one step onto an empty square, as a
/// promotion from the seventh rank; else followed by the double step.
pub open spec fn pawn_advances(
    b: BoardView,
    from: Square,
    piece: Piece,
    promote_to: Title,
) -> Seq<MoveData> {
    match from.spec_offset(piece.color.forward() as int, 0) {
        Some(to) => if b.occupancy(to, piece.color) != Occupancy::Empty {
            Seq::empty()
        } else if from.spec_rank() == piece.color.seventh_rank() {
            filtered(b, pawn_step(from, to, piece.color, promote_to))
        } else {
            filtered(b, pawn_step(from, to, piece.color, promote_to)) + pawn_double_step(
                b,
                from,
                to,
                piece,
            )
        },
        None => Seq::empty(),
    }
}

/// The capture of the pawn `piece` on `from` towards the file `file_offset` away: onto an
/// opposing piece, as a promotion from the seventh rank; else onto the en-passant square,
/// taking the pawn that stands beside `from` on the file of that square.
pub open spec fn pawn_capture(
    b: BoardView,
    from: Square,
    piece: Piece,
    file_offset: int,
    promote_to: Title,
) -> Seq<MoveData> {
    match from.spec_offset(piece.color.forward() as int, file_offset) {
        Some(to) => if b.occupancy(to, piece.color) == Occupancy::OtherColor {
            filtered(b, pawn_step(from, to, piece.color, promote_to))
        } else if b.en_passant == Some(to) {
            match to.spec_offset(piece.color.inverse().forward() as int, 0) {
                Some(capture) => filtered(b, MoveData::new_en_passant(from, to, capture)),
                None => Seq::empty(),
            }
        } else {
            Seq::empty()
        },
        None => Seq::empty(),
    }
}

/// The moves of the piece on `from`, taken as a pawn: its advances, then its captures
/// towards the higher file, then those towards the lower file.
pub open spec fn pawn_moves(b: BoardView, from: Square, promote_to: Title) -> Seq<MoveData> {
    match b.piece_at(from) {
        Some(piece) => pawn_advances(b, from, piece, promote_to) + pawn_capture(
            b,
            from,
            piece,
            1,
            promote_to,
        ) + pawn_capture(b, from, piece, -1, promote_to),
        None => Seq::empty(),
    }
}

/// The moves of a piece of colour `color` that started on `from` and has slid as far as
/// `cur`: onto each empty square further along, and onto the first piece met if it is
/// the opponent's.
pub open spec fn slide_moves(
    b: BoardView,
    from: Square,
    cur: Square,
    rank_step: int,
    file_step: int,
    color: Color,
) -> Seq<MoveData>
    decreases ray_room(cur, rank_step, file_step),
{
    if is_step(rank_step, file_step) && cur.spec_is_in_bounds() {
        match cur.spec_offset(rank_step, file_step) {
            Some(to) => match b.occupancy(to, color) {
                Occupancy::Empty => filtered(b, MoveData::new_standard(from, to)) + slide_moves(
                    b,
                    from,
                    to,
                    rank_step,
                    file_step,
                    color,
                ),
                Occupancy::OtherColor => filtered(b, MoveData::new_standard(from, to)),
                Occupancy::SameColor => Seq::empty(),
            },
            None => Seq::empty(),
        }
    } else {
        Seq::empty()
    }
}

/// The move of a piece of colour `color` from `from` by one jump of the given offset:
/// onto a square of the board that holds no piece of its own colour.
pub open spec fn jump_moves(
    b: BoardView,
    from: Square,
    rank_offset: int,
    file_offset: int,
    color: Color,
) -> Seq<MoveData> {
    match from.spec_offset(rank_offset, file_offset) {
        Some(to) => if b.occupancy(to, color) == Occupancy::SameColor {
            Seq::empty()
        } else {
            filtered(b, MoveData::new_standard(from, to))
        },
        None => Seq::empty(),
    }
}

/// The moves of a piece of colour `color` from `from` in one direction of a table.
pub open spec fn direction_moves(
    b: BoardView,
    from: Square,
    d: (i32, i32, bool),
    color: Color,
) -> Seq<MoveData> {
    if d.2 {
        slide_moves(b, from, from, d.0 as int, d.1 as int, color)
    } else {
        jump_moves(b, from, d.0 as int, d.1 as int, color)
    }
}

/// The moves of a piece of colour `color` from `from` in the first `n` directions of
/// `dirs`, in the order of the table.
pub open spec fn pattern_moves(
    b: BoardView,
    from: Square,
    dirs: Seq<(i32, i32, bool)>,
    n: nat,
    color: Color,
) -> Seq<MoveData>
    decreases n,
{
    if n == 0 {
        Seq::empty()
    } else {
        pattern_moves(b, from, dirs, (n - 1) as nat, color) + direction_moves(
            b,
            from,
            dirs[n - 1],
            color,
        )
    }
}

/// Whether `s` is a square of the board with nothing on it.
pub open spec fn is_vacant(b: BoardView, s: Option<Square>) -> bool {
    s matches Some(sq) && !b.pieces.dom().contains(sq)
}

/// Whether `s` is a square that holds a rook of colour `color` that has not moved.
pub open spec fn has_unmoved_rook(b: BoardView, s: Option<Square>, color: Color) -> bool {
    &&& s matches Some(sq)
    &&& b.pieces.dom().contains(sq)
    &&& b.pieces[sq] == (Piece { color, title: Title::Rook, has_moved: false })
}

/// Whether, in the position that the castling move `m` leads to, none of the king's
/// origin, the square it passes and its destination is attacked by the other side.
pub open spec fn castling_is_safe(b: BoardView, m: MoveData, passed: Square) -> bool {
    let after = b.after_move(m);
    &&& !threatened(after.pieces, m.from, b.to_act)
    &&& !threatened(after.pieces, passed, b.to_act)
    &&& !threatened(after.pieces, m.to, b.to_act)
}

/// Castling towards the higher files, for the king `piece` on `from`: the two squares
/// beside the king are empty, an unmoved rook of its colour stands on the third, and the
/// king's three squares are safe afterwards. The king goes two squares, the rook beside it.
pub open spec fn kingside_castling(b: BoardView, from: Square, piece: Piece) -> Seq<MoveData> {
    let passed = from.spec_offset(0, 1);
    let to = from.spec_offset(0, 2);
    let rook = from.spec_offset(0, 3);
    if is_vacant(b, passed) && is_vacant(b, to) && has_unmoved_rook(b, rook, piece.color) {
        let m = MoveData::new_casteling(from, to->0, rook->0, passed->0);
        if castling_is_safe(b, m, passed->0) {
            seq![m]
        } else {
            Seq::empty()
        }
    } else {
        Seq::empty()
    }
}

/// Castling towards the lower files, for the king `piece` on `from`: the three squares
/// beside the king are empty, an unmoved rook of its colour stands on the fourth, and the
/// king's three squares are safe afterwards. The king goes two squares, the rook beside it.
pub open spec fn queenside_castling(b: BoardView, from: Square, piece: Piece) -> Seq<MoveData> {
    let passed = from.spec_offset(0, -1);
    let to = from.spec_offset(0, -2);
    let beside_rook = from.spec_offset(0, -3);
    let rook = from.spec_offset(0, -4);
    if is_vacant(b, passed) && is_vacant(b, to) && is_vacant(b, beside_rook) && has_unmoved_rook(
        b,
        rook,
        piece.color,
    ) {
        let m = MoveData::new_casteling(from, to->0, rook->0, passed->0);
        if castling_is_safe(b, m, passed->0) {
            seq![m]
        } else {
            Seq::empty()
        }
    } else {
        Seq::empty()
    }
}

/// The castling moves of `piece` on `from`: none unless it is a king that has not moved
/// and the side to act is not in check.
pub open spec fn castling_moves(b: BoardView, from: Square, piece: Piece) -> Seq<MoveData> {
    if piece.title == Title::King && !piece.has_moved && !b.in_check {
        kingside_castling(b, from, piece) + queenside_castling(b, from, piece)
    } else {
        Seq::empty()
    }
}

/// The moves of the piece on `from`, taken as anything but a pawn: those of its title's
/// directions, then castling.
pub open spec fn piece_moves(b: BoardView, from: Square) -> Seq<MoveData> {
    match b.piece_at(from) {
        Some(piece) => pattern_moves(
            b,
            from,
            move_pattern(piece.title),
            move_pattern(piece.title).len(),
            piece.color,
        ) + castling_moves(b, from, piece),
        None => Seq::empty(),
    }
}

/// The moves that start on `from`: those of the piece there, if it belongs to the side to
/// act.
pub open spec fn moves_from(b: BoardView, from: Square, promote_to: Title) -> Seq<MoveData> {
    match b.piece_at(from) {
        Some(piece) => if piece.color != b.to_act {
            Seq::empty()
        } else if piece.title == Title::Pawn {
            pawn_moves(b, from, promote_to)
        } else {
            piece_moves(b, from)
        },
        None => Seq::empty(),
    }
}

/// The moves that start on one of the first `n` squares, read rank by rank.
pub open spec fn moves_below(b: BoardView, n: nat, promote_to: Title) -> Seq<MoveData>
    decreases n,
{
    if n == 0 {
        Seq::empty()
    } else {
        moves_below(b, (n - 1) as nat, promote_to) + moves_from(
            b,
            Square::spec_at(n - 1),
            promote_to,
        )
    }
}

/// The moves open to the side to act, with pawns promoting to `promote_to`: square by
/// square, rank by rank.
pub open spec fn action_space(b: BoardView, promote_to: Title) -> Seq<MoveData> {
    moves_below(b, 64, promote_to)
}

/// Whether `s` is among `squares`.
fn contains_square(squares: &Vec<Square>, s: Square) -> (r: bool)
    ensures
        r == squares@.contains(s),
{
    let mut i: usize = 0;
    while i < squares.len()
        invariant
            i <= squares.len(),
            forall|k: int| 0 <= k < i ==> squares@[k] != s,
        decreases squares.len() - i,
    {
        if squares[i] == s {
            return true;
        }
        i += 1;
    }
    false
}

/// Whether `m` is a capture in passing.
fn is_en_passant(m: &MoveData) -> (r: bool)
    ensures
        r == (m.move_type is EnPassant),
{
    match m.move_type {
        MoveType::EnPassant(_) => true,
        _ => false,
    }
}

/// Appends the candidate `m` to `buffer` if it passes the legality filter: a move of a
/// blocker, one made in check, or a capture in passing is tried out on a copy of the board
/// and dropped where it leaves the mover's king attacked. `board` is never changed.
pub fn add_move(m: MoveData, buffer: &mut Vec<MoveData>, board: &Board)
    ensures
        final(buffer)@ == old(buffer)@ + filtered(board@, m),
{
    if contains_square(&board.blockers, m.from) || board.in_check || is_en_passant(&m) {
        let mut result = board.clone();
        result.make_move(m);
        let (c, _) = result.check_if_threatend(result.king_pos[board.to_act.index()], board.to_act);
        if c {
            assert(buffer@ =~= old(buffer)@ + filtered(board@, m));
            return ;
        }
    }
    buffer.push(m);
    assert(buffer@ =~= old(buffer)@ + filtered(board@, m));
}

/// Appends the capture of the pawn `piece` on `from` towards the file `file_offset` away.
fn add_pawn_capture(
    board: &Board,
    from: Square,
    piece: Piece,
    file_offset: i32,
    promote_to: Title,
    moves: &mut Vec<MoveData>,
)
    ensures
        final(moves)@ == old(moves)@ + pawn_capture(
            board@,
            from,
            piece,
            file_offset as int,
            promote_to,
        ),
{
    let ghost before = moves@;
    if let Some(to_capture) = from.offset(piece.color.forward(), file_offset) {
        if board.occupancy(to_capture, piece.color) == Occupancy::OtherColor {
            if from.rank() == piece.color.seventh_rank() {
                add_move(MoveData::new_promotion(from, to_capture, Some(promote_to)), moves, board);
            } else {
                add_move(MoveData::new_standard(from, to_capture), moves, board);
            }
            return ;
        } else if board.en_passant == Some(to_capture) {
            if let Some(capture) = to_capture.offset(piece.color.inverse().forward(), 0) {
                add_move(MoveData::new_en_passant(from, to_capture, capture), moves, board);
                return ;
            }
        }
    }
    assert(moves@ =~= before + Seq::<MoveData>::empty());
}

/// The moves of the piece on `from`, taken as a pawn, with promotions to `promote_to`:
/// one step ahead onto an empty square, two from its first move over empty squares, and
/// the captures diagonally ahead, in passing too. Each has passed the legality filter.
/// None where `from` is empty.
pub fn pawn_moves_from(board: &Board, from: Square, promote_to: Title) -> (moves: Vec<MoveData>)
    ensures
        moves@ == pawn_moves(board@, from, promote_to),
{
    let mut moves: Vec<MoveData> = Vec::new();
    let piece = match board.pieces.get(&from) {
        Some(p) => p,
        None => {
            return moves;
        },
    };
    if let Some(to_step) = from.offset(piece.color.forward(), 0) {
        if board.occupancy(to_step, piece.color) == Occupancy::Empty {
            if from.rank() == piece.color.seventh_rank() {
                add_move(
                    MoveData::new_promotion(from, to_step, Some(promote_to)),
                    &mut moves,
                    board,
                );
            } else {
                add_move(MoveData::new_standard(from, to_step), &mut moves, board);
                if !piece.has_moved {
                    if let Some(to_double_step) = to_step.offset(piece.color.forward(), 0) {
                        if board.occupancy(to_double_step, piece.color) == Occupancy::Empty {
                            add_move(
                                MoveData::new_double_step(from, to_double_step, to_step),
                                &mut moves,
                                board,
                            );
                        }
                    }
                }
            }
        }
    }
    assert(moves@ =~= pawn_advances(board@, from, piece, promote_to));
    add_pawn_capture(board, from, piece, 1, promote_to, &mut moves);
    add_pawn_capture(board, from, piece, -1, promote_to, &mut moves);
    moves
}

/// Appends the moves of a piece of colour `color` from `from` in the direction `d`.
fn add_direction_moves(
    board: &Board,
    from: Square,
    d: (i32, i32, bool),
    color: Color,
    moves: &mut Vec<MoveData>,
)
    requires
        is_direction(d),
    ensures
        final(moves)@ == old(moves)@ + direction_moves(board@, from, d, color),
{
    let ghost before = moves@;
    let ghost b = board@;
    let (rank_move, file_move, repeating) = d;
    let mut to = from;
    proof {
        use_type_invariant(&from);
        assert(before + Seq::<MoveData>::empty() =~= before);
    }
    loop
        invariant_except_break
            to.spec_is_in_bounds(),
            repeating ==> is_step(rank_move as int, file_move as int),
            repeating ==> moves@ + slide_moves(
                b,
                from,
                to,
                rank_move as int,
                file_move as int,
                color,
            ) == before + direction_moves(b, from, d, color),
            !repeating ==> to == from && moves@ == before,
        invariant
            b == board@,
            d == (rank_move, file_move, repeating),
            -8 <= rank_move <= 8,
            -8 <= file_move <= 8,
        ensures
            moves@ == before + direction_moves(b, from, d, color),
        decreases ray_room(to, rank_move as int, file_move as int),
    {
        let ghost cur = to;
        let ghost so_far = moves@;
        if let Some(temp) = to.offset(rank_move, file_move) {
            to = temp;
            let m = MoveData::new_standard(from, to);
            let o = board.occupancy(to, color);
            if o == Occupancy::Empty {
                add_move(m, moves, board);
                if !repeating {
                    break ;
                }
                assert(moves@ + slide_moves(
                    b,
                    from,
                    to,
                    rank_move as int,
                    file_move as int,
                    color,
                ) =~= so_far + slide_moves(
                    b,
                    from,
                    cur,
                    rank_move as int,
                    file_move as int,
                    color,
                ));
            } else if o == Occupancy::OtherColor {
                add_move(m, moves, board);
                break ;
            } else {
                assert(moves@ =~= so_far + Seq::<MoveData>::empty());
                break ;
            }
        } else {
            assert(moves@ =~= so_far + Seq::<MoveData>::empty());
            break ;
        }
    }
}

/// Whether `s` is a square of the board with nothing on it.
fn vacant(board: &Board, s: Option<Square>) -> (r: bool)
    ensures
        r == is_vacant(board@, s),
{
    match s {
        Some(sq) => !board.pieces.contains_key(&sq),
        None => false,
    }
}

/// Whether `s` is a square that holds a rook of colour `color` that has not moved.
fn unmoved_rook(board: &Board, s: Option<Square>, color: Color) -> (r: bool)
    ensures
        r == has_unmoved_rook(board@, s, color),
{
    match s {
        Some(sq) => match board.pieces.get(&sq) {
            Some(p) => p.color == color && p.title == Title::Rook && !p.has_moved,
            None => false,
        },
        None => false,
    }
}

/// Appends the castling move `m`, in which the king passes over `passed`, if the king's
/// three squares are safe in the position that it leads to.
fn add_castling(board: &Board, m: MoveData, passed: Square, moves: &mut Vec<MoveData>)
    ensures
        final(moves)@ == old(moves)@ + (if castling_is_safe(board@, m, passed) {
            seq![m]
        } else {
            Seq::empty()
        }),
{
    let mut result = board.clone();
    result.make_move(m);
    let (c1, _) = result.check_if_threatend(m.from, board.to_act);
    let (c2, _) = result.check_if_threatend(passed, board.to_act);
    let (c3, _) = result.check_if_threatend(m.to, board.to_act);
    if !c1 && !c2 && !c3 {
        moves.push(m);
        assert(moves@ =~= old(moves)@ + seq![m]);
    } else {
        assert(moves@ =~= old(moves)@ + Seq::<MoveData>::empty());
    }
}

/// Appends the castling moves of `piece` on `from`.
fn add_castling_moves(board: &Board, from: Square, piece: Piece, moves: &mut Vec<MoveData>)
    ensures
        final(moves)@ == old(moves)@ + castling_moves(board@, from, piece),
{
    let ghost before = moves@;
    let ghost b = board@;
    proof {
        assert(before + Seq::<MoveData>::empty() =~= before);
    }
    if piece.title == Title::King && !piece.has_moved && !board.in_check {
        let passed = from.offset(0, 1);
        let to = from.offset(0, 2);
        let rook = from.offset(0, 3);
        if vacant(board, passed) && vacant(board, to) && unmoved_rook(board, rook, piece.color) {
            let m = MoveData::new_casteling(from, to.unwrap(), rook.unwrap(), passed.unwrap());
            add_castling(board, m, passed.unwrap(), moves);
        }
        assert(moves@ =~= before + kingside_castling(b, from, piece));
        let passed = from.offset(0, -1);
        let to = from.offset(0, -2);
        let beside_rook = from.offset(0, -3);
        let rook = from.offset(0, -4);
        if vacant(board, passed) && vacant(board, to) && vacant(board, beside_rook)
            && unmoved_rook(board, rook, piece.color) {
            let m = MoveData::new_casteling(from, to.unwrap(), rook.unwrap(), passed.unwrap());
            add_castling(board, m, passed.unwrap(), moves);
        }
        assert(moves@ =~= before + (kingside_castling(b, from, piece) + queenside_castling(
            b,
            from,
            piece,
        )));
    }
}

/// The moves of the piece on `from`, taken as anything but a pawn: along each direction of
/// its title onto empty squares and onto the first opposing piece, each having passed the
/// legality filter; then, for a king that has not moved and is not in check, castling to
/// either side. None where `from` is empty.
pub fn piece_moves_from(board: &Board, from: Square) -> (moves: Vec<MoveData>)
    ensures
        moves@ == piece_moves(board@, from),
{
    let mut moves: Vec<MoveData> = Vec::new();
    let piece = match board.pieces.get(&from) {
        Some(p) => p,
        None => {
            return moves;
        },
    };
    let move_directions = piece.get_move_pattern();
    let mut i: usize = 0;
    while i < move_directions.len()
        invariant
            i <= move_directions.len(),
            move_directions@ == move_pattern(piece.title),
            moves@ == pattern_moves(board@, from, move_directions@, i as nat, piece.color),
        decreases move_directions.len() - i,
    {
        proof {
            lemma_pattern_directions(piece.title);
        }
        add_direction_moves(board, from, move_directions[i], piece.color, &mut moves);
        i += 1;
    }
    add_castling_moves(board, from, piece, &mut moves);
    moves
}

/// The moves that start on `from`: those of the piece there, if it belongs to the side to
/// act.
pub fn moves_from_square(board: &Board, from: Square, promote_to: Title) -> (moves: Vec<
    MoveData,
>)
    ensures
        moves@ == moves_from(board@, from, promote_to),
{
    match board.pieces.get(&from) {
        Some(piece) => if piece.color != board.to_act {
            Vec::new()
        } else if piece.title == Title::Pawn {
            pawn_moves_from(board, from, promote_to)
        } else {
            piece_moves_from(board, from)
        },
        None => Vec::new(),
    }
}

/// The moves open to the side to act, with pawns promoting to `promote_to`. The board is
/// gone through square by square, rank by rank, and each piece of the side to act adds
/// its moves.
pub fn generate_action_space_with(board: &Board, promote_to: Title) -> (moves: Vec<MoveData>)
    ensures
        moves@ == action_space(board@, promote_to),
{
    let mut action_space: Vec<MoveData> = Vec::new();
    let mut i: usize = 0;
    while i < 64
        invariant
            i <= 64,
            action_space@ == moves_below(board@, i as nat, promote_to),
        decreases 64 - i,
    {
        let mut found = moves_from_square(board, Square::at(i), promote_to);
        action_space.append(&mut found);
        i += 1;
    }
    action_space
}

/// The moves open to the side to act, with pawns promoting to queens.
pub fn generate_action_space(board: Board) -> (moves: Vec<MoveData>)
    ensures
        moves@ == action_space(board@, Title::Queen),
{
    generate_action_space_with(&board, Title::Queen)
}

} // verus!
