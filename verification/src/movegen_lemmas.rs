use crate::board::{moved, BoardView};
use crate::color::Color;
use crate::movedata::{MoveData, MoveType};
use crate::movegen::{
    accepted, action_space, castling_is_safe, castling_moves, direction_moves, filtered,
    has_unmoved_rook, is_vacant, keeps_king_safe, kingside_castling, moves_below, moves_from,
    pattern_moves, pawn_advances, pawn_capture, pawn_double_step, pawn_moves, pawn_step,
    queenside_castling, slide_moves,
};
use crate::moverules::{is_direction, is_step};
use crate::occupancy::Occupancy;
use crate::piece::{lemma_pattern_directions, move_pattern, Piece};
use crate::square::{lemma_index_at, Square};
use crate::threat::{
    lemma_ray_square_shift, lemma_reached_first_step, lemma_reached_shift, ray_room, reached_in,
};
use crate::title::Title;
use vstd::prelude::*;
use vstd::seq_lib::lemma_seq_concat_contains_all_elements;

verus! {

/// A candidate is offered exactly where it passes the legality filter, and nothing else
/// comes with it.
pub proof fn lemma_filtered_contains(b: BoardView, m: MoveData, x: MoveData)
    ensures
        filtered(b, m).contains(x) <==> x == m && accepted(b, m),
{
    if accepted(b, m) {
        assert(filtered(b, m)[0] == m);
    }
}

/// Every move of a slide is a plain move from the square on which the piece started.
pub proof fn lemma_slide_moves_plain(
    b: BoardView,
    from: Square,
    cur: Square,
    rank_step: int,
    file_step: int,
    color: Color,
    x: MoveData,
)
    requires
        slide_moves(b, from, cur, rank_step, file_step, color).contains(x),
    ensures
        x.from == from,
        x.move_type == MoveType::Standard,
    decreases ray_room(cur, rank_step, file_step),
{
    if is_step(rank_step, file_step) && cur.spec_is_in_bounds() {
        if let Some(to) = cur.spec_offset(rank_step, file_step) {
            let m = MoveData::new_standard(from, to);
            lemma_filtered_contains(b, m, x);
            let rest = slide_moves(b, from, to, rank_step, file_step, color);
            lemma_seq_concat_contains_all_elements(filtered(b, m), rest, x);
            if b.occupancy(to, color) == Occupancy::Empty && rest.contains(x) {
                lemma_slide_moves_plain(b, from, to, rank_step, file_step, color, x);
            }
        }
    }
}

/// Every move along the directions of a table is a plain move from the square on which
/// the piece stands.
pub proof fn lemma_pattern_moves_plain(
    b: BoardView,
    from: Square,
    dirs: Seq<(i32, i32, bool)>,
    n: nat,
    color: Color,
    x: MoveData,
)
    requires
        pattern_moves(b, from, dirs, n, color).contains(x),
    ensures
        x.from == from,
        x.move_type == MoveType::Standard,
    decreases n,
{
    if n > 0 {
        let d = dirs[n - 1];
        let before = pattern_moves(b, from, dirs, (n - 1) as nat, color);
        lemma_seq_concat_contains_all_elements(before, direction_moves(b, from, d, color), x);
        if before.contains(x) {
            lemma_pattern_moves_plain(b, from, dirs, (n - 1) as nat, color, x);
        } else if d.2 {
            lemma_slide_moves_plain(b, from, from, d.0 as int, d.1 as int, color, x);
        } else {
            if let Some(to) = from.spec_offset(d.0 as int, d.1 as int) {
                lemma_filtered_contains(b, MoveData::new_standard(from, to), x);
            }
        }
    }
}

/// The king's move of castling towards the higher files from `from`, where the board is
/// wide enough for it.
pub open spec fn kingside_move(from: Square) -> Option<MoveData> {
    match (from.spec_offset(0, 1), from.spec_offset(0, 2), from.spec_offset(0, 3)) {
        (Some(passed), Some(to), Some(rook)) => Some(
            MoveData::new_casteling(from, to, rook, passed),
        ),
        _ => None,
    }
}

/// The king's move of castling towards the lower files from `from`, where the board is
/// wide enough for it.
pub open spec fn queenside_move(from: Square) -> Option<MoveData> {
    match (from.spec_offset(0, -1), from.spec_offset(0, -2), from.spec_offset(0, -4)) {
        (Some(passed), Some(to), Some(rook)) => Some(
            MoveData::new_casteling(from, to, rook, passed),
        ),
        _ => None,
    }
}

/// Whether the king of the side to act stands on `from` and has not moved.
pub open spec fn has_unmoved_king(b: BoardView, from: Square) -> bool {
    &&& b.pieces.dom().contains(from)
    &&& b.pieces[from] == (Piece { color: b.to_act, title: Title::King, has_moved: false })
}

/// Whether the pieces stand for castling towards the higher files from `from`: the king
/// is there and has not moved, the two squares between king and rook are empty, the rook
/// is there and has not moved, and none of the king's origin, the square it passes and
/// its destination is attacked in the position that castling leads to.
pub open spec fn stands_for_kingside(b: BoardView, from: Square) -> bool {
    &&& has_unmoved_king(b, from)
    &&& is_vacant(b, from.spec_offset(0, 1))
    &&& is_vacant(b, from.spec_offset(0, 2))
    &&& has_unmoved_rook(b, from.spec_offset(0, 3), b.to_act)
    &&& castling_is_safe(b, kingside_move(from)->0, from.spec_offset(0, 1)->0)
}

/// Whether the pieces stand for castling towards the lower files from `from`: the king
/// is there and has not moved, the three squares between king and rook are empty, the
/// rook is there and has not moved, and none of the king's origin, the square it passes
/// and its destination is attacked in the position that castling leads to.
pub open spec fn stands_for_queenside(b: BoardView, from: Square) -> bool {
    &&& has_unmoved_king(b, from)
    &&& is_vacant(b, from.spec_offset(0, -1))
    &&& is_vacant(b, from.spec_offset(0, -2))
    &&& is_vacant(b, from.spec_offset(0, -3))
    &&& has_unmoved_rook(b, from.spec_offset(0, -4), b.to_act)
    &&& castling_is_safe(b, queenside_move(from)->0, from.spec_offset(0, -1)->0)
}

/// Whether castling towards the higher files is open to the king on `from`: the pieces
/// stand for it, and the position does not say that the side to act is in check.
pub open spec fn may_castle_kingside(b: BoardView, from: Square) -> bool {
    stands_for_kingside(b, from) && !b.in_check
}

/// Whether castling towards the lower files is open to the king on `from`: the pieces
/// stand for it, and the position does not say that the side to act is in check.
pub open spec fn may_castle_queenside(b: BoardView, from: Square) -> bool {
    stands_for_queenside(b, from) && !b.in_check
}

/// What the castling of the piece `piece` on `from` offers.
pub proof fn lemma_castling_moves_contains(b: BoardView, from: Square, piece: Piece, x: MoveData)
    requires
        b.piece_at(from) == Some(piece),
        piece.color == b.to_act,
    ensures
        castling_moves(b, from, piece).contains(x) <==> (may_castle_kingside(b, from) && Some(x)
            == kingside_move(from)) || (may_castle_queenside(b, from) && Some(x) == queenside_move(
            from,
        )),
{
    let king = kingside_castling(b, from, piece);
    let queen = queenside_castling(b, from, piece);
    lemma_seq_concat_contains_all_elements(king, queen, x);
    if king.len() > 0 {
        assert(king[0] == kingside_move(from)->0);
    }
    if queen.len() > 0 {
        assert(queen[0] == queenside_move(from)->0);
    }
    if piece.title == Title::King && !piece.has_moved {
        assert(has_unmoved_king(b, from));
    }
}

/// Every move of a pawn starts on the pawn's square and is no castling.
pub proof fn lemma_pawn_moves_from(b: BoardView, from: Square, promote_to: Title, x: MoveData)
    requires
        pawn_moves(b, from, promote_to).contains(x),
    ensures
        x.from == from,
        !(x.move_type is Casteling),
{
    let piece = b.piece_at(from)->0;
    let advances = pawn_advances(b, from, piece, promote_to);
    let right = pawn_capture(b, from, piece, 1, promote_to);
    let left = pawn_capture(b, from, piece, -1, promote_to);
    lemma_seq_concat_contains_all_elements(advances + right, left, x);
    lemma_seq_concat_contains_all_elements(advances, right, x);
    if advances.contains(x) {
        lemma_pawn_advances_contains(b, from, piece, promote_to, x);
    } else if right.contains(x) {
        lemma_pawn_capture_contains(b, from, piece, 1, promote_to, x);
    } else {
        lemma_pawn_capture_contains(b, from, piece, -1, promote_to, x);
    }
}

/// What a pawn's advances offer: a step or a promotion ahead, or a double step.
pub proof fn lemma_pawn_advances_contains(
    b: BoardView,
    from: Square,
    piece: Piece,
    promote_to: Title,
    x: MoveData,
)
    requires
        pawn_advances(b, from, piece, promote_to).contains(x),
    ensures
        x.from == from,
        x.move_type is Standard || x.move_type is Promotion || x.move_type is DoubleStep,
{
    let to = from.spec_offset(piece.color.forward() as int, 0)->0;
    let step = pawn_step(from, to, piece.color, promote_to);
    lemma_filtered_contains(b, step, x);
    let double = pawn_double_step(b, from, to, piece);
    lemma_seq_concat_contains_all_elements(filtered(b, step), double, x);
    if let Some(to2) = to.spec_offset(piece.color.forward() as int, 0) {
        lemma_filtered_contains(b, MoveData::new_double_step(from, to2, to), x);
    }
}

/// What a pawn's capture towards one side offers: a capture or a promotion onto an
/// opposing piece, or else the capture in passing onto the en-passant square.
pub proof fn lemma_pawn_capture_contains(
    b: BoardView,
    from: Square,
    piece: Piece,
    file_offset: int,
    promote_to: Title,
    x: MoveData,
)
    requires
        pawn_capture(b, from, piece, file_offset, promote_to).contains(x),
    ensures
        x.from == from,
        Some(x.to) == from.spec_offset(piece.color.forward() as int, file_offset),
        x.move_type is Standard || x.move_type is Promotion || x.move_type is EnPassant,
        x.move_type is EnPassant ==> b.en_passant == Some(x.to) && Some(x)
            == en_passant_move(from, piece.color, file_offset) && accepted(b, x),
{
    let to = from.spec_offset(piece.color.forward() as int, file_offset)->0;
    lemma_filtered_contains(b, pawn_step(from, to, piece.color, promote_to), x);
    if let Some(capture) = to.spec_offset(piece.color.inverse().forward() as int, 0) {
        lemma_filtered_contains(b, MoveData::new_en_passant(from, to, capture), x);
    }
}

/// The capture in passing of a pawn of colour `color` on `from` towards the file
/// `file_offset` away: onto the square diagonally ahead, taking the pawn beside `from`.
pub open spec fn en_passant_move(from: Square, color: Color, file_offset: int) -> Option<MoveData> {
    let to = from.spec_offset(color.forward() as int, file_offset);
    match (to, from.spec_offset(0, file_offset)) {
        (Some(to), Some(capture)) => Some(MoveData::new_en_passant(from, to, capture)),
        _ => None,
    }
}

/// Every move that starts the list of a square starts on that square.
pub proof fn lemma_moves_from_start(b: BoardView, from: Square, promote_to: Title, x: MoveData)
    requires
        moves_from(b, from, promote_to).contains(x),
    ensures
        x.from == from,
        b.pieces.dom().contains(from),
        b.pieces[from].color == b.to_act,
{
    let piece = b.piece_at(from)->0;
    if piece.title == Title::Pawn {
        lemma_pawn_moves_from(b, from, promote_to, x);
    } else {
        let pattern = move_pattern(piece.title);
        let along = pattern_moves(b, from, pattern, pattern.len(), piece.color);
        lemma_seq_concat_contains_all_elements(along, castling_moves(b, from, piece), x);
        if along.contains(x) {
            lemma_pattern_moves_plain(b, from, pattern, pattern.len(), piece.color, x);
        } else {
            lemma_castling_moves_contains(b, from, piece, x);
        }
    }
}

/// What the first `n` squares offer is what each of them offers.
pub proof fn lemma_moves_below_contains(b: BoardView, n: nat, promote_to: Title, x: MoveData)
    requires
        n <= 64,
    ensures
        moves_below(b, n, promote_to).contains(x) <==> x.from.spec_is_in_bounds()
            && x.from.spec_index() < n && moves_from(b, x.from, promote_to).contains(x),
    decreases n,
{
    if n > 0 {
        let s = Square::spec_at(n - 1);
        let before = moves_below(b, (n - 1) as nat, promote_to);
        let here = moves_from(b, s, promote_to);
        lemma_moves_below_contains(b, (n - 1) as nat, promote_to, x);
        lemma_seq_concat_contains_all_elements(before, here, x);
        lemma_index_at(x.from, n - 1);
        if here.contains(x) {
            lemma_moves_from_start(b, s, promote_to, x);
        }
    }
}

/// A move is open to the side to act exactly if the square on which it starts offers it.
pub proof fn lemma_action_space_contains(b: BoardView, promote_to: Title, x: MoveData)
    ensures
        action_space(b, promote_to).contains(x) <==> x.from.spec_is_in_bounds() && moves_from(
            b,
            x.from,
            promote_to,
        ).contains(x),
        action_space(b, promote_to).contains(x) ==> b.pieces.dom().contains(x.from)
            && b.pieces[x.from].color == b.to_act,
{
    lemma_moves_below_contains(b, 64, promote_to, x);
    lemma_index_at(x.from, 0);
    if moves_from(b, x.from, promote_to).contains(x) {
        lemma_moves_from_start(b, x.from, promote_to, x);
    }
}

/// Castling is open to the side to act exactly if its king has not moved and is not in
/// check, the squares between king and rook are empty, the rook has not moved, and none
/// of the king's origin, the square it passes and its destination is attacked in the
/// position that castling leads to. The move offered is then the king's two squares
/// towards the rook, with the rook going to the square that the king passed.
pub proof fn lemma_castling_offered(b: BoardView, promote_to: Title, x: MoveData)
    requires
        x.move_type is Casteling,
    ensures
        action_space(b, promote_to).contains(x) <==> x.from.spec_is_in_bounds() && ((
        may_castle_kingside(b, x.from) && Some(x) == kingside_move(x.from)) || (
        may_castle_queenside(b, x.from) && Some(x) == queenside_move(x.from))),
{
    lemma_action_space_contains(b, promote_to, x);
    let from = x.from;
    if from.spec_is_in_bounds() {
        if b.pieces.dom().contains(from) && b.pieces[from].color == b.to_act {
            let piece = b.pieces[from];
            if piece.title == Title::Pawn {
                if pawn_moves(b, from, promote_to).contains(x) {
                    lemma_pawn_moves_from(b, from, promote_to, x);
                }
            } else {
                let pattern = move_pattern(piece.title);
                let along = pattern_moves(b, from, pattern, pattern.len(), piece.color);
                lemma_seq_concat_contains_all_elements(along, castling_moves(b, from, piece), x);
                if along.contains(x) {
                    lemma_pattern_moves_plain(b, from, pattern, pattern.len(), piece.color, x);
                }
                lemma_castling_moves_contains(b, from, piece, x);
            }
        }
    }
}

/// The test for a capture in passing that starts on `q`.
pub open spec fn en_passant_from(q: Square) -> spec_fn(MoveData) -> bool {
    |x: MoveData| x.from == q && x.move_type is EnPassant
}

/// Nothing is left of a list when no item passes the test.
proof fn lemma_filter_nothing(moves: Seq<MoveData>, test: spec_fn(MoveData) -> bool)
    requires
        forall|x: MoveData| moves.contains(x) ==> !test(x),
    ensures
        moves.filter(test) == Seq::<MoveData>::empty(),
    decreases moves.len(),
{
    reveal(Seq::filter);
    if moves.len() > 0 {
        assert forall|x: MoveData| moves.drop_last().contains(x) implies !test(x) by {
            let i = choose|i: int| 0 <= i < moves.drop_last().len() && moves.drop_last()[i] == x;
            assert(moves[i] == x);
            assert(moves.contains(x));
        }
        lemma_filter_nothing(moves.drop_last(), test);
        assert(moves.contains(moves.last())) by {
            assert(moves[moves.len() - 1] == moves.last());
        }
    }
}

/// A list of one item that passes the test is left as it is.
proof fn lemma_filter_one(m: MoveData, test: spec_fn(MoveData) -> bool)
    requires
        test(m),
    ensures
        seq![m].filter(test) == seq![m],
{
    reveal(Seq::filter);
    assert(seq![m].drop_last() =~= Seq::<MoveData>::empty());
    assert(seq![m].drop_last().filter(test) =~= Seq::<MoveData>::empty());
    assert(seq![m].filter(test) =~= seq![m]);
}

/// Where the en-passant square lies diagonally ahead of a pawn of the side to act and
/// holds no opposing piece, and the capture in passing does not leave the king of its own
/// side attacked, the pawn's moves hold that capture once, and no other capture in passing.
pub proof fn lemma_pawn_en_passant_once(
    b: BoardView,
    q: Square,
    file_offset: int,
    promote_to: Title,
    ep: MoveData,
)
    requires
        b.pieces.dom().contains(q),
        file_offset == 1 || file_offset == -1,
        Some(ep) == en_passant_move(q, b.pieces[q].color, file_offset),
        b.en_passant == Some(ep.to),
        b.occupancy(ep.to, b.pieces[q].color) != Occupancy::OtherColor,
        keeps_king_safe(b, ep),
    ensures
        pawn_moves(b, q, promote_to).filter(en_passant_from(q)) == seq![ep],
{
    let piece = b.pieces[q];
    let test = en_passant_from(q);
    let advances = pawn_advances(b, q, piece, promote_to);
    let right = pawn_capture(b, q, piece, 1, promote_to);
    let left = pawn_capture(b, q, piece, -1, promote_to);
    assert forall|x: MoveData| advances.contains(x) implies !test(x) by {
        lemma_pawn_advances_contains(b, q, piece, promote_to, x);
    }
    lemma_filter_nothing(advances, test);
    let (this, other) = if file_offset == 1 {
        (right, left)
    } else {
        (left, right)
    };
    assert forall|x: MoveData| other.contains(x) implies !test(x) by {
        lemma_pawn_capture_contains(b, q, piece, -file_offset, promote_to, x);
    }
    lemma_filter_nothing(other, test);
    assert(this =~= seq![ep]);
    lemma_filter_one(ep, test);
    Seq::filter_distributes_over_add(advances + right, left, test);
    Seq::filter_distributes_over_add(advances, right, test);
    assert(pawn_moves(b, q, promote_to).filter(test) =~= seq![ep]);
}

/// The captures in passing from `q` among what the first `n` squares offer are those
/// among what `q` offers, once `q` is one of them.
proof fn lemma_moves_below_en_passant(b: BoardView, n: nat, q: Square, promote_to: Title)
    requires
        n <= 64,
        q.spec_is_in_bounds(),
    ensures
        moves_below(b, n, promote_to).filter(en_passant_from(q)) == (if q.spec_index() < n {
            moves_from(b, q, promote_to).filter(en_passant_from(q))
        } else {
            Seq::empty()
        }),
    decreases n,
{
    let test = en_passant_from(q);
    if n == 0 {
        lemma_filter_nothing(moves_below(b, 0, promote_to), test);
    } else {
        let s = Square::spec_at(n - 1);
        let before = moves_below(b, (n - 1) as nat, promote_to);
        let here = moves_from(b, s, promote_to);
        lemma_moves_below_en_passant(b, (n - 1) as nat, q, promote_to);
        Seq::filter_distributes_over_add(before, here, test);
        lemma_index_at(q, n - 1);
        if s != q {
            assert forall|x: MoveData| here.contains(x) implies !test(x) by {
                lemma_moves_from_start(b, s, promote_to, x);
            }
            lemma_filter_nothing(here, test);
            assert(before.filter(test) + Seq::<MoveData>::empty() =~= before.filter(test));
        } else {
            assert(Seq::<MoveData>::empty() + here.filter(test) =~= here.filter(test));
        }
    }
}

/// Where the en-passant square lies diagonally ahead of a pawn of the side to act and
/// holds no opposing piece, and the capture in passing does not leave the king of its own
/// side attacked, the moves open to the side to act hold exactly one capture in passing
/// for that pawn: the one onto the en-passant square that takes the pawn beside it.
pub proof fn lemma_en_passant_offered_once(
    b: BoardView,
    q: Square,
    file_offset: int,
    promote_to: Title,
    ep: MoveData,
)
    requires
        q.spec_is_in_bounds(),
        b.pieces.dom().contains(q),
        b.pieces[q].color == b.to_act,
        b.pieces[q].title == Title::Pawn,
        file_offset == 1 || file_offset == -1,
        Some(ep) == en_passant_move(q, b.to_act, file_offset),
        b.en_passant == Some(ep.to),
        b.occupancy(ep.to, b.to_act) != Occupancy::OtherColor,
        keeps_king_safe(b, ep),
    ensures
        action_space(b, promote_to).filter(en_passant_from(q)) == seq![ep],
        action_space(b, promote_to).contains(ep),
{
    lemma_moves_below_en_passant(b, 64, q, promote_to);
    lemma_pawn_en_passant_once(b, q, file_offset, promote_to, ep);
    let found = action_space(b, promote_to).filter(en_passant_from(q));
    assert(found[0] == ep);
    action_space(b, promote_to).lemma_filter_contains_rev(en_passant_from(q), ep);
}

/// After a pawn has made its double step past an opposing pawn that stands beside its
/// destination, the moves open to the other side hold exactly one capture in passing for
/// that pawn, provided that it does not leave the king of its own side attacked: a
/// capture in passing that does is never offered. Making it puts the capturing
/// pawn on the square that was passed over, and takes the pawn that made the double
/// step off its square and into the captures.
pub proof fn lemma_en_passant_round_trip(
    b: BoardView,
    double_step: MoveData,
    q: Square,
    promote_to: Title,
)
    requires
        double_step.from.spec_is_in_bounds(),
        b.pieces.dom().contains(double_step.from),
        b.pieces[double_step.from].color == b.to_act,
        double_step.move_type matches MoveType::DoubleStep(passed) && Some(passed)
            == double_step.from.spec_offset(b.to_act.forward() as int, 0) && Some(double_step.to)
            == passed.spec_offset(b.to_act.forward() as int, 0) && !b.pieces.dom().contains(passed),
        !b.pieces.dom().contains(double_step.to),
        Some(q) == double_step.to.spec_offset(0, 1) || Some(q) == double_step.to.spec_offset(0, -1),
        b.pieces.dom().contains(q),
        b.pieces[q].color == b.to_act.inverse(),
        b.pieces[q].title == Title::Pawn,
        keeps_king_safe(
            b.after_move(double_step),
            MoveData::new_en_passant(q, double_step.move_type->DoubleStep_0, double_step.to),
        ),
    ensures
        ({
            let passed = double_step.move_type->DoubleStep_0;
            let ep = MoveData::new_en_passant(q, passed, double_step.to);
            let between = b.after_move(double_step);
            let after = between.after_move(ep);
            &&& action_space(between, promote_to).filter(en_passant_from(q)) == seq![ep]
            &&& action_space(between, promote_to).contains(ep)
            &&& after.piece_at(double_step.to) is None
            &&& after.piece_at(q) is None
            &&& after.piece_at(passed) == Some(moved(b.pieces[q]))
            &&& after.captures == b.captures.push(moved(b.pieces[double_step.from]))
        }),
{
    let passed = double_step.move_type->DoubleStep_0;
    let ep = MoveData::new_en_passant(q, passed, double_step.to);
    let between = b.after_move(double_step);
    let file_offset: int = if Some(q) == double_step.to.spec_offset(0, 1) {
        -1
    } else {
        1
    };
    assert(between.pieces.dom().contains(q) && between.pieces[q] == b.pieces[q]);
    assert(between.pieces.dom().contains(double_step.to));
    assert(between.pieces[double_step.to] == moved(b.pieces[double_step.from]));
    assert(!between.pieces.dom().contains(passed));
    assert(Some(ep) == en_passant_move(q, between.to_act, file_offset));
    lemma_en_passant_offered_once(between, q, file_offset, promote_to, ep);
    crate::board::lemma_en_passant_capture(between, q, passed, double_step.to);
}

/// Whether a piece of colour `color` on `from` gets to `to` in the direction `d`: by one
/// jump, or, where the direction repeats, by a walk over empty squares; and `to` holds no
/// piece of its own colour.
pub open spec fn reaches_along(
    b: BoardView,
    from: Square,
    to: Square,
    d: (i32, i32, bool),
    color: Color,
) -> bool {
    &&& b.occupancy(to, color) != Occupancy::SameColor
    &&& if d.2 {
        exists|k: int| #[trigger] reached_in(b.pieces, from, d.0 as int, d.1 as int, k, to)
    } else {
        from.spec_offset(d.0 as int, d.1 as int) == Some(to)
    }
}

/// Whether `piece` on `from` gets to `to` in one of the directions of its title.
pub open spec fn reaches(b: BoardView, from: Square, to: Square, piece: Piece) -> bool {
    exists|i: int|
        0 <= i < move_pattern(piece.title).len() && #[trigger] reaches_along(
            b,
            from,
            to,
            move_pattern(piece.title)[i],
            piece.color,
        )
}

/// A slide offers the plain moves onto the squares that the piece reaches by a walk over
/// empty squares and that hold no piece of its own colour, as far as they pass the
/// legality filter.
pub proof fn lemma_slide_moves_contains(
    b: BoardView,
    from: Square,
    cur: Square,
    rank_step: int,
    file_step: int,
    color: Color,
    x: MoveData,
)
    requires
        is_step(rank_step, file_step),
        cur.spec_is_in_bounds(),
    ensures
        slide_moves(b, from, cur, rank_step, file_step, color).contains(x) <==> x
            == MoveData::new_standard(from, x.to) && accepted(b, x) && b.occupancy(x.to, color)
            != Occupancy::SameColor && exists|k: int| #[trigger]
            reached_in(b.pieces, cur, rank_step, file_step, k, x.to),
    decreases ray_room(cur, rank_step, file_step),
{
    assert forall|k: int| #[trigger]
        reached_in(b.pieces, cur, rank_step, file_step, k, x.to) implies cur.spec_offset(
        rank_step,
        file_step,
    ) matches Some(next) && (if k == 1 {
        x.to == next
    } else {
        !b.pieces.dom().contains(next)
    }) by {
        lemma_reached_first_step(b.pieces, cur, rank_step, file_step, k, x.to);
    }
    if let Some(to) = cur.spec_offset(rank_step, file_step) {
        let m = MoveData::new_standard(from, to);
        let rest = slide_moves(b, from, to, rank_step, file_step, color);
        lemma_ray_square_shift(cur, to, rank_step, file_step, 0);
        lemma_filtered_contains(b, m, x);
        lemma_seq_concat_contains_all_elements(filtered(b, m), rest, x);
        assert(reached_in(b.pieces, cur, rank_step, file_step, 1, to));
        if b.occupancy(to, color) == Occupancy::Empty {
            lemma_slide_moves_contains(b, from, to, rank_step, file_step, color, x);
            assert forall|k: int| k >= 1 implies (reached_in(
                b.pieces,
                to,
                rank_step,
                file_step,
                k,
                x.to,
            ) <==> #[trigger] reached_in(b.pieces, cur, rank_step, file_step, k + 1, x.to)) by {
                lemma_reached_shift(b.pieces, cur, to, rank_step, file_step, k, x.to);
            }
            if exists|k: int| reached_in(b.pieces, to, rank_step, file_step, k, x.to) {
                let k = choose|k: int| reached_in(b.pieces, to, rank_step, file_step, k, x.to);
                assert(reached_in(b.pieces, cur, rank_step, file_step, k + 1, x.to));
            }
            if exists|k: int| reached_in(b.pieces, cur, rank_step, file_step, k, x.to) {
                let k = choose|k: int| reached_in(b.pieces, cur, rank_step, file_step, k, x.to);
                if k > 1 {
                    assert(reached_in(b.pieces, cur, rank_step, file_step, (k - 1) + 1, x.to));
                    assert(reached_in(b.pieces, to, rank_step, file_step, k - 1, x.to));
                }
            }
        }
    }
}

/// One direction of a table offers the plain moves onto the squares that the piece
/// reaches in that direction, as far as they pass the legality filter.
pub proof fn lemma_direction_moves_contains(
    b: BoardView,
    from: Square,
    d: (i32, i32, bool),
    color: Color,
    x: MoveData,
)
    requires
        is_direction(d),
        from.spec_is_in_bounds(),
    ensures
        direction_moves(b, from, d, color).contains(x) <==> x == MoveData::new_standard(
            from,
            x.to,
        ) && accepted(b, x) && reaches_along(b, from, x.to, d, color),
{
    if d.2 {
        lemma_slide_moves_contains(b, from, from, d.0 as int, d.1 as int, color, x);
    } else {
        if let Some(to) = from.spec_offset(d.0 as int, d.1 as int) {
            lemma_filtered_contains(b, MoveData::new_standard(from, to), x);
        }
    }
}

/// The directions of a table offer the plain moves onto the squares that the piece reaches
/// in one of them, as far as they pass the legality filter.
pub proof fn lemma_pattern_moves_contains(
    b: BoardView,
    from: Square,
    dirs: Seq<(i32, i32, bool)>,
    n: nat,
    color: Color,
    x: MoveData,
)
    requires
        n <= dirs.len(),
        forall|i: int| 0 <= i < dirs.len() ==> is_direction(#[trigger] dirs[i]),
        from.spec_is_in_bounds(),
    ensures
        pattern_moves(b, from, dirs, n, color).contains(x) <==> x == MoveData::new_standard(
            from,
            x.to,
        ) && accepted(b, x) && exists|i: int|
            0 <= i < n && #[trigger] reaches_along(b, from, x.to, dirs[i], color),
    decreases n,
{
    if n > 0 {
        let before = pattern_moves(b, from, dirs, (n - 1) as nat, color);
        let here = direction_moves(b, from, dirs[n - 1], color);
        lemma_pattern_moves_contains(b, from, dirs, (n - 1) as nat, color, x);
        lemma_direction_moves_contains(b, from, dirs[n - 1], color, x);
        lemma_seq_concat_contains_all_elements(before, here, x);
        if exists|i: int| 0 <= i < n && reaches_along(b, from, x.to, dirs[i], color) {
            let i = choose|i: int| 0 <= i < n && reaches_along(b, from, x.to, dirs[i], color);
            if i < n - 1 {
                assert(0 <= i < n - 1 && reaches_along(b, from, x.to, dirs[i], color));
            }
        }
    }
}

/// Whether `x` is one of the moves that the rules of the pawn give to `piece` on `x.from`,
/// with promotions to `promote_to`:
/// one step ahead onto an empty square; two steps ahead over empty squares, for a pawn
/// that has not moved and does not stand on its seventh rank; one step diagonally ahead
/// onto an opposing piece; or one step diagonally ahead onto the en-passant square, where
/// no opposing piece stands, taking what stands beside the pawn on that file. A step or a
/// capture from the seventh rank is a promotion.
pub open spec fn is_pawn_candidate(
    b: BoardView,
    x: MoveData,
    piece: Piece,
    promote_to: Title,
) -> bool {
    let from = x.from;
    let ahead = piece.color.forward() as int;
    let diagonal = from.spec_offset(ahead, 1) == Some(x.to) || from.spec_offset(ahead, -1) == Some(
        x.to,
    );
    ||| {
        &&& from.spec_offset(ahead, 0) == Some(x.to)
        &&& b.occupancy(x.to, piece.color) == Occupancy::Empty
        &&& x == pawn_step(from, x.to, piece.color, promote_to)
    }
    ||| {
        &&& x.move_type matches MoveType::DoubleStep(passed)
        &&& from.spec_offset(ahead, 0) == Some(passed)
        &&& passed.spec_offset(ahead, 0) == Some(x.to)
        &&& b.occupancy(passed, piece.color) == Occupancy::Empty
        &&& b.occupancy(x.to, piece.color) == Occupancy::Empty
        &&& !piece.has_moved
        &&& from.spec_rank() != piece.color.seventh_rank()
    }
    ||| {
        &&& diagonal
        &&& b.occupancy(x.to, piece.color) == Occupancy::OtherColor
        &&& x == pawn_step(from, x.to, piece.color, promote_to)
    }
    ||| {
        &&& x.move_type matches MoveType::EnPassant(capture)
        &&& diagonal
        &&& b.occupancy(x.to, piece.color) != Occupancy::OtherColor
        &&& b.en_passant == Some(x.to)
        &&& x.to.spec_offset(-ahead, 0) == Some(capture)
    }
}

/// A pawn is offered exactly the moves that the rules of the pawn give it, as far as they
/// pass the legality filter.
pub proof fn lemma_pawn_moves_contains(b: BoardView, from: Square, promote_to: Title, x: MoveData)
    requires
        b.pieces.dom().contains(from),
    ensures
        pawn_moves(b, from, promote_to).contains(x) <==> x.from == from && is_pawn_candidate(
            b,
            x,
            b.pieces[from],
            promote_to,
        ) && accepted(b, x),
{
    let piece = b.pieces[from];
    let ahead = piece.color.forward() as int;
    let advances = pawn_advances(b, from, piece, promote_to);
    let right = pawn_capture(b, from, piece, 1, promote_to);
    let left = pawn_capture(b, from, piece, -1, promote_to);
    lemma_seq_concat_contains_all_elements(advances + right, left, x);
    lemma_seq_concat_contains_all_elements(advances, right, x);
    if let Some(to) = from.spec_offset(ahead, 0) {
        let step = pawn_step(from, to, piece.color, promote_to);
        lemma_filtered_contains(b, step, x);
        lemma_seq_concat_contains_all_elements(
            filtered(b, step),
            pawn_double_step(b, from, to, piece),
            x,
        );
        if let Some(to2) = to.spec_offset(ahead, 0) {
            lemma_filtered_contains(b, MoveData::new_double_step(from, to2, to), x);
        }
    }
    if let Some(to) = from.spec_offset(ahead, 1) {
        lemma_filtered_contains(b, pawn_step(from, to, piece.color, promote_to), x);
        if let Some(capture) = to.spec_offset(-ahead, 0) {
            lemma_filtered_contains(b, MoveData::new_en_passant(from, to, capture), x);
        }
    }
    if let Some(to) = from.spec_offset(ahead, -1) {
        lemma_filtered_contains(b, pawn_step(from, to, piece.color, promote_to), x);
        if let Some(capture) = to.spec_offset(-ahead, 0) {
            lemma_filtered_contains(b, MoveData::new_en_passant(from, to, capture), x);
        }
    }
}

/// Whether `x` is open to the side to act as the rules say: it starts on a square of the
/// board that holds a piece of that side; for a pawn it is one of the pawn's moves, for
/// any other piece a plain move onto a square that the piece reaches, and either has
/// passed the legality filter; or it is castling to one side, and that is open to the
/// king.
pub open spec fn is_offered(b: BoardView, x: MoveData, promote_to: Title) -> bool {
    let from = x.from;
    let piece = b.pieces[from];
    &&& from.spec_is_in_bounds()
    &&& b.pieces.dom().contains(from)
    &&& piece.color == b.to_act
    &&& if piece.title == Title::Pawn {
        is_pawn_candidate(b, x, piece, promote_to) && accepted(b, x)
    } else {
        ||| x == MoveData::new_standard(from, x.to) && reaches(b, from, x.to, piece) && accepted(
            b,
            x,
        )
        ||| may_castle_kingside(b, from) && Some(x) == kingside_move(from)
        ||| may_castle_queenside(b, from) && Some(x) == queenside_move(from)
    }
}

/// Whether the rules of movement give `x` to a piece of the side to act, whatever becomes
/// of its king: `x` starts on a square of the board that holds a piece of that side; for a
/// pawn it is one of the pawn's moves, for any other piece a plain move onto a square that
/// the piece reaches, or castling to a side for which the pieces stand.
pub open spec fn is_candidate(b: BoardView, x: MoveData, promote_to: Title) -> bool {
    let from = x.from;
    let piece = b.pieces[from];
    &&& from.spec_is_in_bounds()
    &&& b.pieces.dom().contains(from)
    &&& piece.color == b.to_act
    &&& if piece.title == Title::Pawn {
        is_pawn_candidate(b, x, piece, promote_to)
    } else {
        ||| x == MoveData::new_standard(from, x.to) && reaches(b, from, x.to, piece)
        ||| stands_for_kingside(b, from) && Some(x) == kingside_move(from)
        ||| stands_for_queenside(b, from) && Some(x) == queenside_move(from)
    }
}

/// The moves that are worked out for a position are exactly those that are open to the
/// side to act as the rules say.
pub proof fn lemma_action_space_is_offered(b: BoardView, promote_to: Title, x: MoveData)
    ensures
        action_space(b, promote_to).contains(x) <==> is_offered(b, x, promote_to),
{
    lemma_action_space_contains(b, promote_to, x);
    let from = x.from;
    if from.spec_is_in_bounds() && b.pieces.dom().contains(from) && b.pieces[from].color
        == b.to_act {
        let piece = b.pieces[from];
        if piece.title == Title::Pawn {
            lemma_pawn_moves_contains(b, from, promote_to, x);
        } else {
            let pattern = move_pattern(piece.title);
            let along = pattern_moves(b, from, pattern, pattern.len(), piece.color);
            lemma_pattern_directions(piece.title);
            lemma_pattern_moves_contains(b, from, pattern, pattern.len(), piece.color, x);
            lemma_castling_moves_contains(b, from, piece, x);
            lemma_seq_concat_contains_all_elements(along, castling_moves(b, from, piece), x);
        }
    }
}

/// Working out the moves of one position twice gives the same moves.
pub proof fn lemma_generation_repeatable(
    b: BoardView,
    promote_to: Title,
    first: Seq<MoveData>,
    second: Seq<MoveData>,
)
    requires
        first == action_space(b, promote_to),
        second == action_space(b, promote_to),
    ensures
        first == second,
        first.to_set() == second.to_set(),
{
}

} // verus!
