use crate::board::BoardView;
use crate::color::Color;
use crate::movedata::MoveData;
use crate::movegen::{
    action_space, castling_moves, direction_moves, filtered, kingside_castling, moves_below,
    moves_from, pattern_moves, pawn_advances, pawn_capture, pawn_double_step, pawn_moves,
    pawn_step, piece_moves, queenside_castling, slide_moves,
};
use crate::movegen_lemmas::{
    lemma_direction_moves_contains, lemma_filtered_contains, lemma_moves_below_contains,
    lemma_moves_from_start, lemma_pattern_moves_contains, lemma_pattern_moves_plain,
    lemma_pawn_advances_contains, lemma_pawn_capture_contains, lemma_slide_moves_contains,
    reaches_along,
};
use crate::moverules::{
    is_step, BISHOP_MOVES, KING_MOVES, KNIGHT_MOVES, QUEEN_MOVES, ROOK_MOVES,
};
use crate::occupancy::Occupancy;
use crate::piece::{lemma_pattern_directions, move_pattern, Piece};
use crate::square::{lemma_index_at, Square};
use crate::threat::{ray_room, reached_in};
use crate::title::Title;
use vstd::prelude::*;
use vstd::seq_lib::{lemma_no_dup_in_concat, lemma_seq_concat_contains_all_elements};

verus! {

/// Two lists without repeats that share no move make a list without repeats.
proof fn lemma_joined_without_repeats(a: Seq<MoveData>, b: Seq<MoveData>)
    requires
        a.no_duplicates(),
        b.no_duplicates(),
        forall|x: MoveData| a.contains(x) ==> !b.contains(x),
    ensures
        (a + b).no_duplicates(),
{
    assert forall|i: int, j: int| 0 <= i < a.len() && 0 <= j < b.len() implies a[i] != b[j] by {
        assert(a.contains(a[i]));
        assert(b.contains(b[j]));
    }
    lemma_no_dup_in_concat(a, b);
}

/// A walk of at least one step leads away from where it starts, and two walks from one
/// square to another go in the same direction.
proof fn lemma_walks_agree(
    pieces: Map<Square, Piece>,
    from: Square,
    to: Square,
    d1: (int, int),
    k1: int,
    d2: (int, int),
    k2: int,
)
    requires
        is_step(d1.0, d1.1),
        is_step(d2.0, d2.1),
        from.spec_is_in_bounds(),
        reached_in(pieces, from, d1.0, d1.1, k1, to),
        reached_in(pieces, from, d2.0, d2.1, k2, to),
    ensures
        to != from,
        d1 == d2,
{
    assert(k1 * d1.0 == k2 * d2.0);
    assert(k1 * d1.1 == k2 * d2.1);
    assert(d1.0 == d2.0) by (nonlinear_arith)
        requires
            k1 * d1.0 == k2 * d2.0,
            k1 >= 1,
            k2 >= 1,
            -1 <= d1.0 <= 1,
            -1 <= d2.0 <= 1,
    ;
    assert(d1.1 == d2.1) by (nonlinear_arith)
        requires
            k1 * d1.1 == k2 * d2.1,
            k1 >= 1,
            k2 >= 1,
            -1 <= d1.1 <= 1,
            -1 <= d2.1 <= 1,
    ;
    if to == from {
        assert(k1 * d1.0 == 0 && k1 * d1.1 == 0);
        assert(d1.0 == 0 && d1.1 == 0) by (nonlinear_arith)
            requires
                k1 * d1.0 == 0,
                k1 * d1.1 == 0,
                k1 >= 1,
        ;
    }
}

/// A slide offers no move twice.
pub proof fn lemma_slide_moves_distinct(
    b: BoardView,
    from: Square,
    cur: Square,
    rank_step: int,
    file_step: int,
    color: Color,
)
    requires
        is_step(rank_step, file_step),
        cur.spec_is_in_bounds(),
    ensures
        slide_moves(b, from, cur, rank_step, file_step, color).no_duplicates(),
    decreases ray_room(cur, rank_step, file_step),
{
    if let Some(to) = cur.spec_offset(rank_step, file_step) {
        if b.occupancy(to, color) == Occupancy::Empty {
            let m = MoveData::new_standard(from, to);
            let rest = slide_moves(b, from, to, rank_step, file_step, color);
            lemma_slide_moves_distinct(b, from, to, rank_step, file_step, color);
            assert forall|x: MoveData| filtered(b, m).contains(x) implies !rest.contains(x) by {
                lemma_filtered_contains(b, m, x);
                lemma_slide_moves_contains(b, from, to, rank_step, file_step, color, x);
                if rest.contains(x) {
                    let k = choose|k: int|
                        reached_in(b.pieces, to, rank_step, file_step, k, x.to);
                    lemma_walks_agree(
                        b.pieces,
                        to,
                        x.to,
                        (rank_step, file_step),
                        k,
                        (rank_step, file_step),
                        k,
                    );
                }
            }
            lemma_joined_without_repeats(filtered(b, m), rest);
        }
    }
}

/// No square is reached in two directions of one table: the directions of a table differ,
/// and either all of them repeat or none does.
proof fn lemma_directions_apart(
    b: BoardView,
    from: Square,
    to: Square,
    title: Title,
    color: Color,
    i: int,
    j: int,
)
    requires
        from.spec_is_in_bounds(),
        0 <= i < move_pattern(title).len(),
        0 <= j < move_pattern(title).len(),
        reaches_along(b, from, to, move_pattern(title)[i], color),
        reaches_along(b, from, to, move_pattern(title)[j], color),
    ensures
        i == j,
{
    let d1 = move_pattern(title)[i];
    let d2 = move_pattern(title)[j];
    lemma_pattern_directions(title);
    match title {
        Title::Pawn => {},
        Title::Knight => {
            assert(d1 == KNIGHT_MOVES[i] && d2 == KNIGHT_MOVES[j]);
        },
        Title::King => {
            assert(d1 == KING_MOVES[i] && d2 == KING_MOVES[j]);
        },
        Title::Bishop => {
            assert(d1 == BISHOP_MOVES[i] && d2 == BISHOP_MOVES[j]);
        },
        Title::Rook => {
            assert(d1 == ROOK_MOVES[i] && d2 == ROOK_MOVES[j]);
        },
        Title::Queen => {
            assert(d1 == QUEEN_MOVES[i] && d2 == QUEEN_MOVES[j]);
        },
    }
    if d1.2 {
        assert(d2.2);
        let k1 = choose|k: int| reached_in(b.pieces, from, d1.0 as int, d1.1 as int, k, to);
        let k2 = choose|k: int| reached_in(b.pieces, from, d2.0 as int, d2.1 as int, k, to);
        lemma_walks_agree(
            b.pieces,
            from,
            to,
            (d1.0 as int, d1.1 as int),
            k1,
            (d2.0 as int, d2.1 as int),
            k2,
        );
    }
}

/// The directions of a piece's title offer no move twice.
pub proof fn lemma_pattern_moves_distinct(
    b: BoardView,
    from: Square,
    title: Title,
    n: nat,
    color: Color,
)
    requires
        n <= move_pattern(title).len(),
        from.spec_is_in_bounds(),
    ensures
        pattern_moves(b, from, move_pattern(title), n, color).no_duplicates(),
    decreases n,
{
    let dirs = move_pattern(title);
    lemma_pattern_directions(title);
    if n > 0 {
        let d = dirs[n - 1];
        let before = pattern_moves(b, from, dirs, (n - 1) as nat, color);
        let here = direction_moves(b, from, d, color);
        lemma_pattern_moves_distinct(b, from, title, (n - 1) as nat, color);
        if d.2 {
            lemma_slide_moves_distinct(b, from, from, d.0 as int, d.1 as int, color);
        }
        assert forall|x: MoveData| before.contains(x) implies !here.contains(x) by {
            lemma_pattern_moves_contains(b, from, dirs, (n - 1) as nat, color, x);
            lemma_direction_moves_contains(b, from, d, color, x);
            if here.contains(x) {
                let i = choose|i: int|
                    0 <= i < n - 1 && reaches_along(b, from, x.to, dirs[i], color);
                lemma_directions_apart(b, from, x.to, title, color, i, n - 1);
            }
        }
        lemma_joined_without_repeats(before, here);
    }
}

/// A pawn is offered no move twice.
pub proof fn lemma_pawn_moves_distinct(b: BoardView, from: Square, promote_to: Title)
    ensures
        pawn_moves(b, from, promote_to).no_duplicates(),
{
    if let Some(piece) = b.piece_at(from) {
        let ahead = piece.color.forward() as int;
        let advances = pawn_advances(b, from, piece, promote_to);
        let right = pawn_capture(b, from, piece, 1, promote_to);
        let left = pawn_capture(b, from, piece, -1, promote_to);
        if let Some(to) = from.spec_offset(ahead, 0) {
            let step = filtered(b, pawn_step(from, to, piece.color, promote_to));
            let double = pawn_double_step(b, from, to, piece);
            assert forall|x: MoveData| step.contains(x) implies !double.contains(x) by {
                lemma_filtered_contains(b, pawn_step(from, to, piece.color, promote_to), x);
                if let Some(to2) = to.spec_offset(ahead, 0) {
                    lemma_filtered_contains(b, MoveData::new_double_step(from, to2, to), x);
                }
            }
            lemma_joined_without_repeats(step, double);
        }
        assert forall|x: MoveData| advances.contains(x) implies !right.contains(x) by {
            if right.contains(x) {
                lemma_pawn_advances_contains(b, from, piece, promote_to, x);
                lemma_pawn_capture_contains(b, from, piece, 1, promote_to, x);
                lemma_advance_goes_ahead(b, from, piece, promote_to, x);
            }
        }
        lemma_joined_without_repeats(advances, right);
        assert forall|x: MoveData| (advances + right).contains(x) implies !left.contains(x) by {
            lemma_seq_concat_contains_all_elements(advances, right, x);
            if left.contains(x) {
                lemma_pawn_capture_contains(b, from, piece, -1, promote_to, x);
                if advances.contains(x) {
                    lemma_advance_goes_ahead(b, from, piece, promote_to, x);
                } else {
                    lemma_pawn_capture_contains(b, from, piece, 1, promote_to, x);
                }
            }
        }
        lemma_joined_without_repeats(advances + right, left);
    }
}

/// A pawn's advance stays on the pawn's file.
proof fn lemma_advance_goes_ahead(
    b: BoardView,
    from: Square,
    piece: Piece,
    promote_to: Title,
    x: MoveData,
)
    requires
        pawn_advances(b, from, piece, promote_to).contains(x),
    ensures
        x.to.spec_file() == from.spec_file(),
{
    let ahead = piece.color.forward() as int;
    let to = from.spec_offset(ahead, 0)->0;
    let step = pawn_step(from, to, piece.color, promote_to);
    lemma_filtered_contains(b, step, x);
    lemma_seq_concat_contains_all_elements(
        filtered(b, step),
        pawn_double_step(b, from, to, piece),
        x,
    );
    if let Some(to2) = to.spec_offset(ahead, 0) {
        lemma_filtered_contains(b, MoveData::new_double_step(from, to2, to), x);
    }
}

/// A piece that is no pawn is offered no move twice.
pub proof fn lemma_piece_moves_distinct(b: BoardView, from: Square)
    requires
        from.spec_is_in_bounds(),
    ensures
        piece_moves(b, from).no_duplicates(),
{
    if let Some(piece) = b.piece_at(from) {
        let pattern = move_pattern(piece.title);
        let along = pattern_moves(b, from, pattern, pattern.len(), piece.color);
        let castling = castling_moves(b, from, piece);
        let king = kingside_castling(b, from, piece);
        let queen = queenside_castling(b, from, piece);
        lemma_pattern_moves_distinct(b, from, piece.title, pattern.len(), piece.color);
        assert forall|x: MoveData| king.contains(x) implies !queen.contains(x) by {
            if queen.contains(x) {
                assert(king[0] == x && queen[0] == x);
            }
        }
        lemma_joined_without_repeats(king, queen);
        assert forall|x: MoveData| along.contains(x) implies !castling.contains(x) by {
            lemma_pattern_moves_plain(b, from, pattern, pattern.len(), piece.color, x);
            lemma_seq_concat_contains_all_elements(king, queen, x);
            if king.contains(x) {
                assert(king[0] == x);
            }
            if queen.contains(x) {
                assert(queen[0] == x);
            }
        }
        lemma_joined_without_repeats(along, castling);
    }
}

/// What the first `n` squares offer holds no move twice.
pub proof fn lemma_moves_below_distinct(b: BoardView, n: nat, promote_to: Title)
    requires
        n <= 64,
    ensures
        moves_below(b, n, promote_to).no_duplicates(),
    decreases n,
{
    if n > 0 {
        let s = Square::spec_at(n - 1);
        let before = moves_below(b, (n - 1) as nat, promote_to);
        let here = moves_from(b, s, promote_to);
        lemma_moves_below_distinct(b, (n - 1) as nat, promote_to);
        lemma_index_at(s, n - 1);
        lemma_pawn_moves_distinct(b, s, promote_to);
        lemma_piece_moves_distinct(b, s);
        assert forall|x: MoveData| before.contains(x) implies !here.contains(x) by {
            lemma_moves_below_contains(b, (n - 1) as nat, promote_to, x);
            if here.contains(x) {
                lemma_moves_from_start(b, s, promote_to, x);
            }
        }
        lemma_joined_without_repeats(before, here);
    }
}

/// No move is worked out twice: the list of the moves that are open to the side to act is
/// a set written down in some order.
pub proof fn lemma_action_space_distinct(b: BoardView, promote_to: Title)
    ensures
        action_space(b, promote_to).no_duplicates(),
{
    lemma_moves_below_distinct(b, 64, promote_to);
}

} // verus!
