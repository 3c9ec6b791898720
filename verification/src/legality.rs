use crate::board::{is_king_of, is_settled, last_king, BoardView};
use crate::color::Color;
use crate::movedata::MoveData;
use crate::movegen::{accepted, action_space, keeps_king_safe, needs_trial};
use crate::movegen_lemmas::{
    is_candidate, kingside_move, lemma_action_space_is_offered, lemma_castling_offered,
    may_castle_kingside, may_castle_queenside, queenside_move, stands_for_kingside,
    stands_for_queenside,
};
use crate::moverules::{is_step, BISHOP_MOVES, ROOK_MOVES};
use crate::occupancy::Occupancy;
use crate::piece::Piece;
use crate::square::{lemma_index_at, Square};
use crate::threat::{
    bishop_threat_at, blockers_of, knight_threat_at, lemma_ray_hit_is_nearest, pawn_threat,
    ray_hit, ray_hits, ray_square, ray_threat, reached_in, rook_threat_at, threatened,
};
use crate::title::Title;
use vstd::prelude::*;

verus! {

/// Where a king of colour `c` stands among the first `n` squares, the search for the last
/// one finds a square that holds such a king.
pub proof fn lemma_last_king_found(pieces: Map<Square, Piece>, c: Color, n: nat, s: Square)
    requires
        n <= 64,
        s.spec_is_in_bounds(),
        s.spec_index() < n,
        is_king_of(pieces, s, c),
    ensures
        last_king(pieces, c, n) matches Some(t) && is_king_of(pieces, t, c)
            && t.spec_is_in_bounds(),
    decreases n,
{
    lemma_index_at(s, n - 1);
    if !is_king_of(pieces, Square::spec_at(n - 1), c) {
        lemma_last_king_found(pieces, c, (n - 1) as nat, s);
    }
}

/// Once the kings have been looked up, the square remembered for a side holds its king,
/// if that side has a king on the board at all.
pub proof fn lemma_kings_tracked(b: BoardView, c: Color, s: Square)
    requires
        b.wf(),
        is_king_of(b.pieces, s, c),
    ensures
        is_king_of(b.pieces, b.with_kings_refreshed().king_pos[c.index() as int], c),
        b.with_kings_refreshed().king_pos[c.index() as int].spec_is_in_bounds(),
{
    lemma_index_at(s, 0);
    lemma_last_king_found(b.pieces, c, 64, s);
}

/// Passing the turn settles the position, if the side that comes to act has a king on the
/// board. So does making a move after which it has one.
pub proof fn lemma_next_turn_settles(b: BoardView, s: Square)
    requires
        b.wf(),
        is_king_of(b.pieces, s, b.to_act.inverse()),
    ensures
        is_settled(b.next_turn()),
{
    lemma_kings_tracked(b, b.to_act.inverse(), s);
}

/// Along one direction, different numbers of steps lead to different squares.
proof fn lemma_ray_squares_differ(from: Square, rank_step: int, file_step: int, j: int, k: int)
    requires
        is_step(rank_step, file_step),
        ray_square(from, rank_step, file_step, j) is Some,
        ray_square(from, rank_step, file_step, j) == ray_square(from, rank_step, file_step, k),
    ensures
        j == k,
{
    if rank_step != 0 {
        assert(j * rank_step == k * rank_step);
        assert(j == k) by (nonlinear_arith)
            requires
                j * rank_step == k * rank_step,
                rank_step == 1 || rank_step == -1,
        ;
    } else {
        assert(j * file_step == k * file_step);
        assert(j == k) by (nonlinear_arith)
            requires
                j * file_step == k * file_step,
                file_step == 1 || file_step == -1,
        ;
    }
}

/// A line from `king` on which the piece on `from` is not the first piece met stays
/// harmless when that piece goes to `to`, where it stands as a piece of colour `c`.
proof fn lemma_line_stays_closed(
    pieces: Map<Square, Piece>,
    from: Square,
    to: Square,
    arrived: Piece,
    king: Square,
    c: Color,
    rank_step: int,
    file_step: int,
    title: Title,
)
    requires
        is_step(rank_step, file_step),
        king.spec_is_in_bounds(),
        pieces.dom().contains(from),
        from != to,
        arrived.color == c,
        ray_hit(pieces, king, rank_step, file_step) != Some(from),
        !ray_threat(pieces, king, c, rank_step, file_step, title),
    ensures
        !ray_threat(pieces.remove(from).insert(to, arrived), king, c, rank_step, file_step, title),
{
    let after = pieces.remove(from).insert(to, arrived);
    if let Some(s) = ray_hit(after, king, rank_step, file_step) {
        if after[s].color != c {
            lemma_ray_hit_is_nearest(after, king, rank_step, file_step, s);
            let k = choose|k: int| reached_in(after, king, rank_step, file_step, k, s);
            assert(s != to && s != from && pieces.dom().contains(s) && pieces[s] == after[s]);
            if exists|j: int|
                1 <= j < k && ray_square(king, rank_step, file_step, j) == Some(from) {
                let j0 = choose|j: int|
                    1 <= j < k && ray_square(king, rank_step, file_step, j) == Some(from);
                assert forall|j: int| 1 <= j < j0 implies ((#[trigger] ray_square(
                    king,
                    rank_step,
                    file_step,
                    j,
                )) matches Some(t) && !pieces.dom().contains(t)) by {
                    let t = ray_square(king, rank_step, file_step, j)->0;
                    assert(!after.dom().contains(t));
                    if t == from {
                        lemma_ray_squares_differ(king, rank_step, file_step, j, j0);
                    }
                }
                assert(reached_in(pieces, king, rank_step, file_step, j0, from));
                lemma_ray_hit_is_nearest(pieces, king, rank_step, file_step, from);
            } else {
                assert forall|j: int| 1 <= j < k implies ((#[trigger] ray_square(
                    king,
                    rank_step,
                    file_step,
                    j,
                )) matches Some(t) && !pieces.dom().contains(t)) by {
                    let t = ray_square(king, rank_step, file_step, j)->0;
                    assert(!after.dom().contains(t));
                }
                assert(reached_in(pieces, king, rank_step, file_step, k, s));
                lemma_ray_hit_is_nearest(pieces, king, rank_step, file_step, s);
            }
        }
    }
}

/// The first piece met along a diagonal, a rank or a file is one of the blockers.
proof fn lemma_hits_are_blockers(pieces: Map<Square, Piece>, king: Square, i: int)
    requires
        0 <= i < 4,
    ensures
        ray_hit(pieces, king, BISHOP_MOVES[i].0 as int, BISHOP_MOVES[i].1 as int) matches Some(s)
            ==> blockers_of(pieces, king).contains(s),
        ray_hit(pieces, king, ROOK_MOVES[i].0 as int, ROOK_MOVES[i].1 as int) matches Some(s)
            ==> blockers_of(pieces, king).contains(s),
{
    let start = seq![king];
    let diagonal = ray_hits(pieces, king, BISHOP_MOVES@, 4);
    let straight = ray_hits(pieces, king, ROOK_MOVES@, 4);
    lemma_hits_listed(pieces, king, BISHOP_MOVES@, 4, i);
    lemma_hits_listed(pieces, king, ROOK_MOVES@, 4, i);
    if let Some(s) = ray_hit(pieces, king, BISHOP_MOVES[i].0 as int, BISHOP_MOVES[i].1 as int) {
        vstd::seq_lib::lemma_seq_concat_contains_all_elements(start, diagonal, s);
        vstd::seq_lib::lemma_seq_concat_contains_all_elements(start + diagonal, straight, s);
    }
    if let Some(s) = ray_hit(pieces, king, ROOK_MOVES[i].0 as int, ROOK_MOVES[i].1 as int) {
        vstd::seq_lib::lemma_seq_concat_contains_all_elements(start + diagonal, straight, s);
    }
}

/// The first piece met in the `i`-th direction of a table is listed among those of the
/// first `n` directions, for `i` below `n`.
proof fn lemma_hits_listed(
    pieces: Map<Square, Piece>,
    king: Square,
    dirs: Seq<(i32, i32, bool)>,
    n: nat,
    i: int,
)
    requires
        0 <= i < n,
    ensures
        ray_hit(pieces, king, dirs[i].0 as int, dirs[i].1 as int) matches Some(s) ==> ray_hits(
            pieces,
            king,
            dirs,
            n,
        ).contains(s),
    decreases n,
{
    let rest = ray_hits(pieces, king, dirs, (n - 1) as nat);
    let last = ray_hit(pieces, king, dirs[n - 1].0 as int, dirs[n - 1].1 as int);
    if i < n - 1 {
        lemma_hits_listed(pieces, king, dirs, (n - 1) as nat, i);
        if let Some(s) = ray_hit(pieces, king, dirs[i].0 as int, dirs[i].1 as int) {
            if let Some(t) = last {
                let at = choose|at: int| 0 <= at < rest.len() && rest[at] == s;
                assert(rest.push(t)[at] == s);
            }
        }
    } else {
        if let Some(t) = last {
            assert(rest.push(t)[rest.len() as int] == t);
        }
    }
}

/// A square that is not attacked stays so when a piece that is not one of its blockers
/// goes from `from` to `to` and stands there as a piece of colour `c`.
pub proof fn lemma_unblocked_move_is_safe(
    pieces: Map<Square, Piece>,
    from: Square,
    to: Square,
    arrived: Piece,
    king: Square,
    c: Color,
)
    requires
        king.spec_is_in_bounds(),
        pieces.dom().contains(from),
        from != to,
        arrived.color == c,
        !blockers_of(pieces, king).contains(from),
        !threatened(pieces, king, c),
    ensures
        !threatened(pieces.remove(from).insert(to, arrived), king, c),
{
    let after = pieces.remove(from).insert(to, arrived);
    assert forall|i: int| 0 <= i < 8 implies !knight_threat_at(after, king, c, i) by {
        assert(!knight_threat_at(pieces, king, c, i));
    }
    assert forall|i: int| 0 <= i < 4 implies !bishop_threat_at(after, king, c, i) by {
        assert(!bishop_threat_at(pieces, king, c, i));
        lemma_hits_are_blockers(pieces, king, i);
        lemma_line_stays_closed(
            pieces,
            from,
            to,
            arrived,
            king,
            c,
            BISHOP_MOVES[i].0 as int,
            BISHOP_MOVES[i].1 as int,
            Title::Bishop,
        );
    }
    assert forall|i: int| 0 <= i < 4 implies !rook_threat_at(after, king, c, i) by {
        assert(!rook_threat_at(pieces, king, c, i));
        lemma_hits_are_blockers(pieces, king, i);
        lemma_line_stays_closed(
            pieces,
            from,
            to,
            arrived,
            king,
            c,
            ROOK_MOVES[i].0 as int,
            ROOK_MOVES[i].1 as int,
            Title::Rook,
        );
    }
}

/// In a settled position the legality filter decides as a trial of every move would: a
/// move of a piece of the side to act, castling aside, which goes to another square than
/// its own and not onto a piece of its own side, is accepted exactly if it leaves the king
/// of that side unattacked. So a move that is accepted without a trial, being made out of
/// check by a piece that is no blocker and taking nothing in passing, cannot bare the
/// king.
pub proof fn lemma_filter_decides_as_trial(b: BoardView, x: MoveData)
    requires
        is_settled(b),
        b.pieces.dom().contains(x.from),
        b.pieces[x.from].color == b.to_act,
        x.from != x.to,
        b.occupancy(x.to, b.to_act) != Occupancy::SameColor,
        !(x.move_type is Casteling),
    ensures
        accepted(b, x) <==> keeps_king_safe(b, x),
{
    if !needs_trial(b, x) {
        let king = b.king_to_act();
        let c = b.to_act;
        assert(b.blockers[0] == king);
        assert(x.from != king);
        let applied = b.apply(x);
        let arrived = applied.pieces[x.to];
        assert(applied.pieces =~= b.pieces.remove(x.from).insert(x.to, arrived));
        assert(arrived.color == c);
        assert(x.to != king);
        lemma_unblocked_move_is_safe(b.pieces, x.from, x.to, arrived, king, c);
        let after = b.after_move(x);
        assert(after.pieces == applied.pieces);
        assert(is_king_of(applied.pieces, king, c));
        assert(after.king_pos[c.index() as int] == king);
    }
}

/// Whether the side to act has no king but the one on the square remembered for it.
pub open spec fn has_one_king(b: BoardView) -> bool {
    forall|s: Square| is_king_of(b.pieces, s, b.to_act) ==> s == b.king_to_act()
}

/// After castling the king is found on its destination, if the side has no other king.
proof fn lemma_king_found_after_castling(b: BoardView, x: MoveData)
    requires
        is_settled(b),
        has_one_king(b),
        x.from == b.king_to_act(),
        (may_castle_kingside(b, x.from) && Some(x) == kingside_move(x.from)) || (
        may_castle_queenside(b, x.from) && Some(x) == queenside_move(x.from)),
    ensures
        b.after_move(x).king_pos[b.to_act.index() as int] == x.to,
{
    let c = b.to_act;
    let after = b.after_move(x);
    assert(x.to.spec_is_in_bounds());
    assert(is_king_of(after.pieces, x.to, c));
    assert forall|s: Square| is_king_of(after.pieces, s, c) implies s == x.to by {
        if s != x.to {
            assert(is_king_of(b.pieces, s, c));
        }
    }
    lemma_index_at(x.to, 0);
    lemma_last_king_found(after.pieces, c, 64, x.to);
}

/// In a settled position of a side with one king, no move that is worked out for that
/// side leaves its king attacked.
pub proof fn lemma_offered_moves_keep_king_safe(b: BoardView, promote_to: Title, x: MoveData)
    requires
        is_settled(b),
        has_one_king(b),
        action_space(b, promote_to).contains(x),
    ensures
        keeps_king_safe(b, x),
{
    lemma_action_space_is_offered(b, promote_to, x);
    let piece = b.pieces[x.from];
    if piece.title != Title::Pawn && x != MoveData::new_standard(x.from, x.to) {
        assert(is_king_of(b.pieces, x.from, b.to_act));
        lemma_king_found_after_castling(b, x);
    } else if !(x.move_type is EnPassant) {
        lemma_filter_decides_as_trial(b, x);
    }
}

/// The pieces after castling from `from` towards `side`, with the rook coming from `rook`.
pub open spec fn castled(
    pieces: Map<Square, Piece>,
    from: Square,
    side: int,
    rook: Square,
    king_piece: Piece,
    rook_piece: Piece,
) -> Map<Square, Piece> {
    let passed = ray_square(from, 0, side, 1)->0;
    let to = ray_square(from, 0, side, 2)->0;
    pieces.remove(from).insert(to, king_piece).remove(rook).insert(passed, rook_piece)
}

/// An attack on the king's square along a line is still there after castling: the line
/// cannot be the one towards the rook, on which the rook is the first piece met, and on
/// no other line do king and rook come to stand.
proof fn lemma_line_stays_open(
    pieces: Map<Square, Piece>,
    from: Square,
    side: int,
    n: int,
    rook: Square,
    king_piece: Piece,
    rook_piece: Piece,
    c: Color,
    rank_step: int,
    file_step: int,
    title: Title,
)
    requires
        is_step(rank_step, file_step),
        from.spec_is_in_bounds(),
        side == 1 || side == -1,
        n >= 3,
        reached_in(pieces, from, 0, side, n, rook),
        pieces.dom().contains(rook),
        pieces[rook].color == c,
        pieces.dom().contains(from),
        ray_threat(pieces, from, c, rank_step, file_step, title),
    ensures
        ray_threat(
            castled(pieces, from, side, rook, king_piece, rook_piece),
            from,
            c,
            rank_step,
            file_step,
            title,
        ),
{
    let after = castled(pieces, from, side, rook, king_piece, rook_piece);
    let passed = ray_square(from, 0, side, 1)->0;
    let to = ray_square(from, 0, side, 2)->0;
    let h = ray_hit(pieces, from, rank_step, file_step)->0;
    lemma_ray_hit_is_nearest(pieces, from, rank_step, file_step, h);
    lemma_ray_hit_is_nearest(pieces, from, 0, side, rook);
    let k = choose|k: int| reached_in(pieces, from, rank_step, file_step, k, h);
    assert(ray_square(from, 0, side, 1) is Some && !pieces.dom().contains(passed));
    assert(ray_square(from, 0, side, 2) is Some && !pieces.dom().contains(to));
    assert(ray_square(from, rank_step, file_step, 0) == Some(from));
    assert(h != from) by {
        if h == from {
            lemma_ray_squares_differ(from, rank_step, file_step, k, 0);
        }
    }
    assert(rank_step != 0 || file_step != side);
    assert forall|j: int| 1 <= j implies ray_square(from, rank_step, file_step, j) != Some(passed)
        && ray_square(from, rank_step, file_step, j) != Some(to) by {
        let t = ray_square(from, rank_step, file_step, j);
        if t == Some(passed) || t == Some(to) {
            assert(j * rank_step == 0);
            assert(rank_step == 0) by (nonlinear_arith)
                requires
                    j * rank_step == 0,
                    j >= 1,
            ;
            assert(j * file_step == 1 * side || j * file_step == 2 * side);
            assert(file_step == side) by (nonlinear_arith)
                requires
                    j * file_step == 1 * side || j * file_step == 2 * side,
                    j >= 1,
                    side == 1 || side == -1,
                    file_step == 1 || file_step == -1,
            ;
        }
    }
    assert(after.dom().contains(h) && after[h] == pieces[h]);
    assert forall|j: int| 1 <= j < k implies ((#[trigger] ray_square(
        from,
        rank_step,
        file_step,
        j,
    )) matches Some(t) && !after.dom().contains(t)) by {
        let t = ray_square(from, rank_step, file_step, j)->0;
        assert(!pieces.dom().contains(t));
    }
    assert(reached_in(after, from, rank_step, file_step, k, h));
    lemma_ray_hit_is_nearest(after, from, rank_step, file_step, h);
}

/// An attack on the king's square is still there after castling.
proof fn lemma_attack_survives_castling(
    pieces: Map<Square, Piece>,
    from: Square,
    side: int,
    n: int,
    rook: Square,
    king_piece: Piece,
    rook_piece: Piece,
    c: Color,
)
    requires
        from.spec_is_in_bounds(),
        side == 1 || side == -1,
        n >= 3,
        reached_in(pieces, from, 0, side, n, rook),
        pieces.dom().contains(rook),
        pieces[rook].color == c,
        pieces.dom().contains(from),
        pieces[from].color == c,
        threatened(pieces, from, c),
    ensures
        threatened(castled(pieces, from, side, rook, king_piece, rook_piece), from, c),
{
    let after = castled(pieces, from, side, rook, king_piece, rook_piece);
    let passed = ray_square(from, 0, side, 1)->0;
    let to = ray_square(from, 0, side, 2)->0;
    assert(ray_square(from, 0, side, 1) is Some && !pieces.dom().contains(passed));
    assert(ray_square(from, 0, side, 2) is Some && !pieces.dom().contains(to));
    assert forall|s: Square| pieces.dom().contains(s) && pieces[s].color != c implies after.dom()
        .contains(s) && after[s] == pieces[s] by {}
    if exists|i: int| 0 <= i < 8 && knight_threat_at(pieces, from, c, i) {
        let i = choose|i: int| 0 <= i < 8 && knight_threat_at(pieces, from, c, i);
        assert(knight_threat_at(after, from, c, i));
    } else if exists|i: int| 0 <= i < 4 && bishop_threat_at(pieces, from, c, i) {
        let i = choose|i: int| 0 <= i < 4 && bishop_threat_at(pieces, from, c, i);
        lemma_line_stays_open(
            pieces,
            from,
            side,
            n,
            rook,
            king_piece,
            rook_piece,
            c,
            BISHOP_MOVES[i].0 as int,
            BISHOP_MOVES[i].1 as int,
            Title::Bishop,
        );
        assert(bishop_threat_at(after, from, c, i));
    } else if exists|i: int| 0 <= i < 4 && rook_threat_at(pieces, from, c, i) {
        let i = choose|i: int| 0 <= i < 4 && rook_threat_at(pieces, from, c, i);
        lemma_line_stays_open(
            pieces,
            from,
            side,
            n,
            rook,
            king_piece,
            rook_piece,
            c,
            ROOK_MOVES[i].0 as int,
            ROOK_MOVES[i].1 as int,
            Title::Rook,
        );
        assert(rook_threat_at(after, from, c, i));
    } else {
        assert(pawn_threat(after, from, c));
    }
}

/// In a settled position of a side with one king, where the pieces stand for castling
/// the side is not in check: a check would still be an attack on the king's origin in the
/// position that castling leads to.
pub proof fn lemma_standing_for_castling_is_out_of_check(b: BoardView, from: Square)
    requires
        is_settled(b),
        has_one_king(b),
        stands_for_kingside(b, from) || stands_for_queenside(b, from),
    ensures
        !b.in_check,
{
    let c = b.to_act;
    assert(is_king_of(b.pieces, from, c));
    let king_piece = crate::board::moved(b.pieces[from]);
    if b.in_check {
        if stands_for_kingside(b, from) {
            let x = kingside_move(from)->0;
            let rook = from.spec_offset(0, 3)->0;
            let rook_piece = crate::board::moved(b.pieces[rook]);
            assert(ray_square(from, 0, 1, 1) == from.spec_offset(0, 1));
            assert(ray_square(from, 0, 1, 2) == from.spec_offset(0, 2));
            assert(ray_square(from, 0, 1, 3) == from.spec_offset(0, 3));
            assert(reached_in(b.pieces, from, 0, 1, 3, rook));
            lemma_attack_survives_castling(b.pieces, from, 1, 3, rook, king_piece, rook_piece, c);
            assert(b.after_move(x).pieces =~= castled(
                b.pieces,
                from,
                1,
                rook,
                king_piece,
                rook_piece,
            ));
        } else {
            let x = queenside_move(from)->0;
            let rook = from.spec_offset(0, -4)->0;
            let rook_piece = crate::board::moved(b.pieces[rook]);
            assert(ray_square(from, 0, -1, 1) == from.spec_offset(0, -1));
            assert(ray_square(from, 0, -1, 2) == from.spec_offset(0, -2));
            assert(ray_square(from, 0, -1, 3) == from.spec_offset(0, -3));
            assert(ray_square(from, 0, -1, 4) == from.spec_offset(0, -4));
            assert(reached_in(b.pieces, from, 0, -1, 4, rook));
            lemma_attack_survives_castling(b.pieces, from, -1, 4, rook, king_piece, rook_piece, c);
            assert(b.after_move(x).pieces =~= castled(
                b.pieces,
                from,
                -1,
                rook,
                king_piece,
                rook_piece,
            ));
        }
    }
}

/// In a settled position of a side with one king, castling is open to the side to act
/// exactly if king and rook have not moved, the squares between them are empty, and none
/// of the king's origin, the square it passes and its destination is attacked in the
/// position that castling leads to.
pub proof fn lemma_castling_in_settled_position(b: BoardView, promote_to: Title, x: MoveData)
    requires
        is_settled(b),
        has_one_king(b),
        x.move_type is Casteling,
    ensures
        action_space(b, promote_to).contains(x) <==> x.from.spec_is_in_bounds() && ((
        stands_for_kingside(b, x.from) && Some(x) == kingside_move(x.from)) || (
        stands_for_queenside(b, x.from) && Some(x) == queenside_move(x.from))),
{
    lemma_castling_offered(b, promote_to, x);
    if stands_for_kingside(b, x.from) || stands_for_queenside(b, x.from) {
        lemma_standing_for_castling_is_out_of_check(b, x.from);
    }
}

/// In a settled position of a side with one king, the moves that are worked out are
/// exactly the legal moves: those that the rules of movement give to the pieces of the
/// side to act and that do not leave its king attacked.
pub proof fn lemma_action_space_is_the_legal_moves(b: BoardView, promote_to: Title, x: MoveData)
    requires
        is_settled(b),
        has_one_king(b),
    ensures
        action_space(b, promote_to).contains(x) <==> is_candidate(b, x, promote_to)
            && keeps_king_safe(b, x),
{
    lemma_action_space_is_offered(b, promote_to, x);
    if action_space(b, promote_to).contains(x) {
        lemma_offered_moves_keep_king_safe(b, promote_to, x);
    }
    if is_candidate(b, x, promote_to) {
        if stands_for_kingside(b, x.from) || stands_for_queenside(b, x.from) {
            lemma_standing_for_castling_is_out_of_check(b, x.from);
        }
    }
}

} // verus!
