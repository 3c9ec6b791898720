use crate::color::Color;
use crate::piece::Piece;
use crate::piecemap::PieceMap;
use crate::square::Square;
use crate::moverules::{BISHOP_MOVES, ROOK_MOVES};
use crate::threat::{blockers_of, ray_hit, ray_hits, threatened};
use crate::title::Title;
use vstd::prelude::*;
use vstd::set_lib::{lemma_int_range, lemma_map_size, lemma_set_disjoint_lens, set_int_range};

verus! {

/// The title that starts on the given file of a side's first rank.
pub open spec fn back_rank_title(file: int) -> Title {
    if file == 0 || file == 7 {
        Title::Rook
    } else if file == 1 || file == 6 {
        Title::Knight
    } else if file == 2 || file == 5 {
        Title::Bishop
    } else if file == 3 {
        Title::Queen
    } else {
        Title::King
    }
}

/// The piece that starts on `s`: White's pieces on the first rank and its pawns on the
/// second, Black's pawns on the seventh rank and its pieces on the eighth, none of them
/// moved; nothing in between.
pub open spec fn standard_piece(s: Square) -> Option<Piece> {
    let rank = s.spec_rank();
    let file = s.spec_file() as int;
    if !s.spec_is_in_bounds() {
        None
    } else if rank == 0 {
        Some(Piece { color: Color::White, title: back_rank_title(file), has_moved: false })
    } else if rank == 1 {
        Some(Piece { color: Color::White, title: Title::Pawn, has_moved: false })
    } else if rank == 6 {
        Some(Piece { color: Color::Black, title: Title::Pawn, has_moved: false })
    } else if rank == 7 {
        Some(Piece { color: Color::Black, title: back_rank_title(file), has_moved: false })
    } else {
        None
    }
}

/// The part of the starting placement that lies on the files below `files`.
pub open spec fn standard_files(files: int) -> Map<Square, Piece> {
    Map::new(
        |s: Square| standard_piece(s) is Some && s.spec_file() < files,
        |s: Square| standard_piece(s)->0,
    )
}

/// The starting placement.
pub open spec fn standard_layout() -> Map<Square, Piece> {
    standard_files(8)
}

/// The squares on which `pieces` has a piece of colour `c`.
pub open spec fn squares_of(pieces: Map<Square, Piece>, c: Color) -> Set<Square> {
    pieces.dom().filter(|s: Square| pieces[s].color == c)
}

/// The squares whose place, when the board is read rank by rank, is at least `lo` and
/// below `hi`, are `hi - lo` in number.
proof fn lemma_square_range(lo: int, hi: int) -> (squares: Set<Square>)
    requires
        0 <= lo <= hi <= 64,
    ensures
        squares.finite(),
        squares.len() == hi - lo,
        forall|s: Square|
            squares.contains(s) <==> s.spec_is_in_bounds() && lo <= s.spec_index() < hi,
{
    let squares = Set::new(|s: Square| s.spec_is_in_bounds() && lo <= s.spec_index() < hi);
    let places = set_int_range(lo, hi);
    let at = |i: int| Square::spec_at(i);
    lemma_int_range(lo, hi);
    assert forall|s: Square| squares.contains(s) implies places.map(at).contains(s) by {
        assert(places.contains(s.spec_index()) && at(s.spec_index()) == s);
    }
    assert(places.map(at) =~= squares);
    assert(vstd::relations::injective_on(at, places));
    lemma_map_size(places, squares, at);
    squares
}

/// The starting placement has 32 pieces, 16 of each colour.
pub proof fn lemma_standard_layout_counts()
    ensures
        standard_layout().dom().finite(),
        standard_layout().dom().len() == 32,
        squares_of(standard_layout(), Color::White).len() == 16,
        squares_of(standard_layout(), Color::Black).len() == 16,
{
    let layout = standard_layout();
    let low = lemma_square_range(0, 16);
    let high = lemma_square_range(48, 64);
    assert(squares_of(layout, Color::White) =~= low);
    assert(squares_of(layout, Color::Black) =~= high);
    assert(layout.dom() =~= low + high);
    assert(low.disjoint(high));
    lemma_set_disjoint_lens(low, high);
}

/// The square with the given coordinates, which lie on the board.
pub open spec fn square_at(rank: int, file: int) -> Square
    recommends
        0 <= rank < 8,
        0 <= file < 8,
{
    Square::spec_new(rank, file)->0
}

/// The blockers of White's king at the start: its own square e1, then the pieces beside
/// it on f2 and d2, on e2, on f1 and on d1.
pub open spec fn starting_blockers() -> Seq<Square> {
    seq![
        square_at(0, 4),
        square_at(1, 5),
        square_at(1, 3),
        square_at(1, 4),
        square_at(0, 5),
        square_at(0, 3),
    ]
}

/// At the start White's king on e1 is not attacked, and its blockers are its own square
/// and the five pieces that stand round it.
pub proof fn lemma_start_is_quiet()
    ensures
        !threatened(standard_layout(), square_at(0, 4), Color::White),
        blockers_of(standard_layout(), square_at(0, 4)) == starting_blockers(),
        standard_layout().dom().contains(square_at(0, 4)),
        standard_layout()[square_at(0, 4)] == (Piece {
            color: Color::White,
            title: Title::King,
            has_moved: false,
        }),
{
    let pieces = standard_layout();
    let e1 = square_at(0, 4);
    reveal_with_fuel(ray_hits, 5);
    assert(ray_hit(pieces, e1, 1, 1) == Some(square_at(1, 5)));
    assert(ray_hit(pieces, e1, -1, -1) is None);
    assert(ray_hit(pieces, e1, -1, 1) is None);
    assert(ray_hit(pieces, e1, 1, -1) == Some(square_at(1, 3)));
    assert(ray_hit(pieces, e1, 1, 0) == Some(square_at(1, 4)));
    assert(ray_hit(pieces, e1, -1, 0) is None);
    assert(ray_hit(pieces, e1, 0, 1) == Some(square_at(0, 5)));
    assert(ray_hit(pieces, e1, 0, -1) == Some(square_at(0, 3)));
    assert(ray_hits(pieces, e1, BISHOP_MOVES@, 4) =~= seq![square_at(1, 5), square_at(1, 3)]);
    assert(ray_hits(pieces, e1, ROOK_MOVES@, 4) =~= seq![
        square_at(1, 4),
        square_at(0, 5),
        square_at(0, 3),
    ]);
    assert(blockers_of(pieces, e1) =~= starting_blockers());
}

/// The title that starts on the given file of a side's first rank.
fn back_rank(file: i32) -> (t: Title)
    ensures
        t == back_rank_title(file as int),
{
    if file == 0 || file == 7 {
        Title::Rook
    } else if file == 1 || file == 6 {
        Title::Knight
    } else if file == 2 || file == 5 {
        Title::Bishop
    } else if file == 3 {
        Title::Queen
    } else {
        Title::King
    }
}

/// Clears `pieces` and sets up the starting placement.
pub fn standard_setup(pieces: &mut PieceMap)
    ensures
        final(pieces)@ == standard_layout(),
{
    pieces.clear();
    assert(pieces@ =~= standard_files(0));
    let mut file: i32 = 0;
    while file < 8
        invariant
            0 <= file <= 8,
            pieces@ == standard_files(file as int),
        decreases 8 - file,
    {
        let title = back_rank(file);
        pieces.insert(Square::new(0, file).unwrap(), Piece::new(Color::White, title));
        pieces.insert(Square::new(1, file).unwrap(), Piece::new(Color::White, Title::Pawn));
        pieces.insert(Square::new(6, file).unwrap(), Piece::new(Color::Black, Title::Pawn));
        pieces.insert(Square::new(7, file).unwrap(), Piece::new(Color::Black, title));
        assert(pieces@ =~= standard_files(file + 1));
        file += 1;
    }
}

} // verus!
