use crate::color::Color;
use crate::movedata::{MoveData, MoveType};
use crate::occupancy::Occupancy;
use crate::piece::Piece;
use crate::piecemap::PieceMap;
use crate::square::{lemma_index_at, Square};
use crate::standardstart::{
    lemma_standard_layout_counts, lemma_start_is_quiet, squares_of, standard_layout,
    standard_setup, starting_blockers,
};
use crate::threat::{blockers_of, lemma_empty_board_is_quiet, threatened};
use crate::title::Title;
use vstd::prelude::*;

verus! {

/// The position of record.
#[derive(Debug)]
pub struct Board {
    /// Which piece stands on which square.
    pub pieces: PieceMap,
    /// The pieces taken so far, in the order in which they left the board.
    pub captures: Vec<Piece>,
    /// The side whose turn it is.
    pub to_act: Color,
    /// Whether the king of the side to act is attacked.
    pub in_check: bool,
    /// The blockers of the king of the side to act: the square remembered for that king,
    /// then the first piece met on each line that leaves it.
    pub blockers: Vec<Square>,
    /// Where each king was last seen, White's first.
    pub king_pos: [Square; 2],
    /// The square onto which a pawn may capture in passing, right after a double step.
    pub en_passant: Option<Square>,
}

/// A position as a mathematical value. The contracts of `Board` are stated over it.
pub struct BoardView {
    pub pieces: Map<Square, Piece>,
    pub captures: Seq<Piece>,
    pub to_act: Color,
    pub in_check: bool,
    pub blockers: Seq<Square>,
    pub king_pos: Seq<Square>,
    pub en_passant: Option<Square>,
}

impl View for Board {
    type V = BoardView;

    /// The position, field by field.
    open spec fn view(&self) -> BoardView {
        BoardView {
            pieces: self.pieces@,
            captures: self.captures@,
            to_act: self.to_act,
            in_check: self.in_check,
            blockers: self.blockers@,
            king_pos: self.king_pos@,
            en_passant: self.en_passant,
        }
    }
}

/// A piece after it has been carried to another square.
pub open spec fn moved(p: Piece) -> Piece {
    Piece { has_moved: true, ..p }
}

/// What a side of colour `c` finds on `s`.
pub open spec fn occupancy_of(pieces: Map<Square, Piece>, s: Square, c: Color) -> Occupancy {
    if !pieces.dom().contains(s) {
        Occupancy::Empty
    } else if pieces[s].color == c {
        Occupancy::SameColor
    } else {
        Occupancy::OtherColor
    }
}

/// The piece on `s`, if there is one.
pub open spec fn piece_on(pieces: Map<Square, Piece>, s: Square) -> Option<Piece> {
    if pieces.dom().contains(s) {
        Some(pieces[s])
    } else {
        None
    }
}

/// Whether the king of colour `c` stands on `s`.
pub open spec fn is_king_of(pieces: Map<Square, Piece>, s: Square, c: Color) -> bool {
    &&& pieces.dom().contains(s)
    &&& pieces[s].title == Title::King
    &&& pieces[s].color == c
}

/// The last of the first `n` squares, read rank by rank, on which a king of colour `c`
/// stands.
pub open spec fn last_king(pieces: Map<Square, Piece>, c: Color, n: nat) -> Option<Square>
    decreases n,
{
    if n == 0 {
        None
    } else if is_king_of(pieces, Square::spec_at(n - 1), c) {
        Some(Square::spec_at(n - 1))
    } else {
        last_king(pieces, c, (n - 1) as nat)
    }
}

/// Where the king of colour `c` is taken to stand, given the square `cached` on which it
/// was last seen: still there if a king of that colour is there, else on the last square
/// of the board that holds one, else, with no such king on the board, on `cached`.
pub open spec fn refreshed_king(pieces: Map<Square, Piece>, cached: Square, c: Color) -> Square {
    if is_king_of(pieces, cached, c) {
        cached
    } else {
        match last_king(pieces, c, 64) {
            Some(s) => s,
            None => cached,
        }
    }
}

/// The title that a promoting pawn takes: the one asked for, or a queen.
pub open spec fn promotion_title(promote_to: Option<Title>) -> Title {
    match promote_to {
        Some(t) => t,
        None => Title::Queen,
    }
}

impl BoardView {
    /// A view is well formed when pieces stand on squares of the board only and there is
    /// one remembered square for each king.
    pub open spec fn wf(self) -> bool {
        &&& self.king_pos.len() == 2
        &&& forall|s: Square| self.pieces.dom().contains(s) ==> s.spec_is_in_bounds()
    }

    /// What a side of colour `c` finds on `s`.
    pub open spec fn occupancy(self, s: Square, c: Color) -> Occupancy {
        occupancy_of(self.pieces, s, c)
    }

    /// The piece on `s`, if there is one.
    pub open spec fn piece_at(self, s: Square) -> Option<Piece> {
        piece_on(self.pieces, s)
    }

    /// The position with `s` emptied.
    pub open spec fn remove_piece(self, s: Square) -> BoardView {
        BoardView { pieces: self.pieces.remove(s), ..self }
    }

    /// The position with `p` standing on `s`, whatever stood there before.
    pub open spec fn replace_piece(self, s: Square, p: Piece) -> BoardView {
        BoardView { pieces: self.pieces.insert(s, p), ..self }
    }

    /// The position with the piece on `from` carried to `to` and marked as moved. What
    /// stood on `to` is gone without a record. Nothing changes where `from` is empty.
    pub open spec fn move_piece(self, from: Square, to: Square) -> BoardView {
        if self.pieces.dom().contains(from) {
            self.remove_piece(from).replace_piece(to, moved(self.pieces[from]))
        } else {
            self
        }
    }

    /// The captures with the piece on `s` appended, where there is one.
    pub open spec fn captures_with(self, s: Square) -> Seq<Piece> {
        if self.pieces.dom().contains(s) {
            self.captures.push(self.pieces[s])
        } else {
            self.captures
        }
    }

    /// The position with `s` emptied and what stood there recorded as captured.
    pub open spec fn remove_piece_with_capture(self, s: Square) -> BoardView {
        BoardView { captures: self.captures_with(s), ..self.remove_piece(s) }
    }

    /// The position with `p` standing on `s` and what stood there recorded as captured.
    pub open spec fn replace_piece_with_capture(self, s: Square, p: Piece) -> BoardView {
        BoardView { captures: self.captures_with(s), ..self.replace_piece(s, p) }
    }

    /// The position with the piece on `from` carried to `to` and marked as moved, and what
    /// stood on `to` recorded as captured. Nothing changes where `from` is empty.
    pub open spec fn move_piece_with_capture(self, from: Square, to: Square) -> BoardView {
        if self.pieces.dom().contains(from) {
            self.remove_piece(from).replace_piece_with_capture(to, moved(self.pieces[from]))
        } else {
            self
        }
    }

    /// The position with the piece on `s` replaced by a fresh piece of its colour with the
    /// promotion title. Nothing changes where `s` is empty.
    pub open spec fn promote(self, s: Square, promote_to: Option<Title>) -> BoardView {
        if self.pieces.dom().contains(s) {
            self.replace_piece(
                s,
                Piece {
                    color: self.pieces[s].color,
                    title: promotion_title(promote_to),
                    has_moved: false,
                },
            )
        } else {
            self
        }
    }

    /// The position after the pieces have been rearranged as `m` says, before the turn
    /// passes. The en-passant square is forgotten first; only a double step sets a new one.
    pub open spec fn apply(self, m: MoveData) -> BoardView {
        let b = BoardView { en_passant: None, ..self };
        match m.move_type {
            MoveType::Standard => b.move_piece_with_capture(m.from, m.to),
            MoveType::DoubleStep(passed) => BoardView {
                en_passant: Some(passed),
                ..b.move_piece(m.from, m.to)
            },
            MoveType::Casteling(rook_from, rook_to) => b.move_piece(m.from, m.to).move_piece(
                rook_from,
                rook_to,
            ),
            MoveType::EnPassant(capture) => b.move_piece(m.from, m.to).remove_piece_with_capture(
                capture,
            ),
            MoveType::Promotion(promote_to) => b.move_piece_with_capture(m.from, m.to).promote(
                m.to,
                promote_to,
            ),
        }
    }

    /// The position with both kings looked up again.
    pub open spec fn with_kings_refreshed(self) -> BoardView {
        BoardView {
            king_pos: seq![
                refreshed_king(self.pieces, self.king_pos[0], Color::White),
                refreshed_king(self.pieces, self.king_pos[1], Color::Black),
            ],
            ..self
        }
    }

    /// The square on which the king of the side to act is taken to stand.
    pub open spec fn king_to_act(self) -> Square {
        self.king_pos[self.to_act.index() as int]
    }

    /// The position with check and blockers worked out anew, for the square remembered for
    /// the king of the side to act.
    pub open spec fn with_check_refreshed(self) -> BoardView {
        BoardView {
            in_check: threatened(self.pieces, self.king_to_act(), self.to_act),
            blockers: blockers_of(self.pieces, self.king_to_act()),
            ..self
        }
    }

    /// The position after the turn has passed: the other side is to act, the kings are
    /// looked up again, and check and blockers are those of the king of the side to act.
    pub open spec fn next_turn(self) -> BoardView {
        BoardView {
            to_act: self.to_act.inverse(),
            ..self
        }.with_kings_refreshed().with_check_refreshed()
    }

    /// The position after the move `m` has been made and the turn has passed.
    pub open spec fn after_move(self, m: MoveData) -> BoardView {
        self.apply(m).next_turn()
    }
}

/// A vector with the same items.
fn copy_of<T: Copy>(v: &Vec<T>) -> (r: Vec<T>)
    ensures
        r@ == v@,
{
    let mut r: Vec<T> = Vec::new();
    let mut i: usize = 0;
    while i < v.len()
        invariant
            i <= v.len(),
            r@ == v@.subrange(0, i as int),
        decreases v.len() - i,
    {
        r.push(v[i]);
        i += 1;
    }
    assert(v@.subrange(0, v.len() as int) =~= v@);
    r
}

impl Clone for Board {
    /// A second board in the same position.
    fn clone(&self) -> (b: Board)
        ensures
            b@ == self@,
    {
        Board {
            pieces: self.pieces,
            captures: copy_of(&self.captures),
            to_act: self.to_act,
            in_check: self.in_check,
            blockers: copy_of(&self.blockers),
            king_pos: self.king_pos,
            en_passant: self.en_passant,
        }
    }
}

/// Whether what a position remembers about the king of the side to act is true of its
/// pieces: the king stands on the square remembered for it, and check and blockers are
/// those of that square.
pub open spec fn is_settled(b: BoardView) -> bool {
    &&& b.king_pos.len() == 2
    &&& b.king_to_act().spec_is_in_bounds()
    &&& is_king_of(b.pieces, b.king_to_act(), b.to_act)
    &&& b.in_check == threatened(b.pieces, b.king_to_act(), b.to_act)
    &&& b.blockers == blockers_of(b.pieces, b.king_to_act())
}

/// The search for a king finds the king of colour `c` that stands last among the first
/// `n` squares of the board, read rank by rank: no later one of them holds such a king.
pub proof fn lemma_last_king_is_last(pieces: Map<Square, Piece>, c: Color, n: nat, t: Square)
    requires
        n <= 64,
    ensures
        last_king(pieces, c, n) == Some(t) <==> {
            &&& t.spec_is_in_bounds()
            &&& t.spec_index() < n
            &&& is_king_of(pieces, t, c)
            &&& forall|s: Square|
                s.spec_is_in_bounds() && t.spec_index() < s.spec_index() < n ==> !is_king_of(
                    pieces,
                    s,
                    c,
                )
        },
    decreases n,
{
    if n > 0 {
        let here = Square::spec_at(n - 1);
        lemma_index_at(here, n - 1);
        lemma_index_at(t, n - 1);
        lemma_last_king_is_last(pieces, c, (n - 1) as nat, t);
        if is_king_of(pieces, here, c) {
            if t != here && t.spec_is_in_bounds() && t.spec_index() < n {
                assert(here.spec_is_in_bounds() && t.spec_index() < here.spec_index() < n);
            }
        } else {
            assert forall|s: Square|
                s.spec_is_in_bounds() && s.spec_index() == n - 1 implies !is_king_of(
                pieces,
                s,
                c,
            ) by {
                lemma_index_at(s, n - 1);
            }
        }
    }
}

/// The view of every board is well formed.
pub proof fn lemma_board_view_wf(board: Board)
    ensures
        board@.wf(),
{
    board.pieces.lemma_view_on_board();
}

/// A promotion puts a fresh piece of the pawn's colour on the destination: with the title
/// asked for, or a queen where none is asked for. What stood there is captured.
pub proof fn lemma_promotion(b: BoardView, from: Square, to: Square, promote_to: Option<Title>)
    requires
        b.pieces.dom().contains(from),
    ensures
        ({
            let after = b.after_move(MoveData::new_promotion(from, to, promote_to));
            let title = match promote_to {
                Some(t) => t,
                None => Title::Queen,
            };
            &&& after.pieces.dom().contains(to)
            &&& after.pieces[to] == (Piece { color: b.pieces[from].color, title, has_moved: false })
            &&& from != to ==> !after.pieces.dom().contains(from)
            &&& forall|s: Square|
                s != from && s != to ==> after.piece_at(s) == #[trigger] b.piece_at(s)
            &&& after.captures == (if from != to && b.pieces.dom().contains(to) {
                b.captures.push(b.pieces[to])
            } else {
                b.captures
            })
        }),
{
}

/// Making a move passes the turn and forgets the en-passant square, unless the move is a
/// double step, which sets it to the square passed over.
pub proof fn lemma_move_passes_turn(b: BoardView, m: MoveData)
    ensures
        b.after_move(m).to_act == b.to_act.inverse(),
        b.after_move(m).en_passant == (match m.move_type {
            MoveType::DoubleStep(passed) => Some(passed),
            _ => None,
        }),
        b.after_move(m).king_pos.len() == 2,
{
}

/// A plain move carries the piece to its destination and marks it as moved; what stood
/// there is captured; every other square stays as it was.
pub proof fn lemma_standard_move(b: BoardView, from: Square, to: Square)
    requires
        b.pieces.dom().contains(from),
        from != to,
    ensures
        ({
            let after = b.after_move(MoveData::new_standard(from, to));
            &&& after.piece_at(to) == Some(moved(b.pieces[from]))
            &&& after.piece_at(from) is None
            &&& forall|s: Square|
                s != from && s != to ==> after.piece_at(s) == #[trigger] b.piece_at(s)
            &&& after.captures == (if b.pieces.dom().contains(to) {
                b.captures.push(b.pieces[to])
            } else {
                b.captures
            })
        }),
{
}

/// A capture in passing carries the pawn to its destination and takes the piece on the
/// capture square, not what stands on the destination: that piece is the one recorded.
pub proof fn lemma_en_passant_capture(b: BoardView, from: Square, to: Square, capture: Square)
    requires
        b.pieces.dom().contains(from),
        b.pieces.dom().contains(capture),
        capture != from,
        capture != to,
        from != to,
    ensures
        ({
            let after = b.after_move(MoveData::new_en_passant(from, to, capture));
            &&& after.piece_at(to) == Some(moved(b.pieces[from]))
            &&& after.piece_at(from) is None
            &&& after.piece_at(capture) is None
            &&& after.captures == b.captures.push(b.pieces[capture])
            &&& forall|s: Square|
                s != from && s != to && s != capture ==> after.piece_at(s) == #[trigger] b.piece_at(
                    s,
                )
        }),
{
}

/// Castling carries king and rook to their squares and marks both as moved; nothing is
/// captured.
pub proof fn lemma_castling_move(
    b: BoardView,
    from: Square,
    to: Square,
    rook_from: Square,
    rook_to: Square,
)
    requires
        b.pieces.dom().contains(from),
        b.pieces.dom().contains(rook_from),
        from != to,
        from != rook_from,
        from != rook_to,
        to != rook_from,
        to != rook_to,
        rook_from != rook_to,
    ensures
        ({
            let after = b.after_move(MoveData::new_casteling(from, to, rook_from, rook_to));
            &&& after.piece_at(to) == Some(moved(b.pieces[from]))
            &&& after.piece_at(rook_to) == Some(moved(b.pieces[rook_from]))
            &&& after.piece_at(from) is None
            &&& after.piece_at(rook_from) is None
            &&& after.captures == b.captures
            &&& forall|s: Square|
                s != from && s != to && s != rook_from && s != rook_to ==> after.piece_at(s)
                    == #[trigger] b.piece_at(s)
        }),
{
}

impl Board {
    /// A board without pieces: White to act, no check, and the kings' squares remembered as
    /// e1 and e8. The only blocker is the square remembered for White's king.
    pub fn new_empty() -> (b: Board)
        ensures
            b@.pieces == Map::<Square, Piece>::empty(),
            b@.captures == Seq::<Piece>::empty(),
            b@.to_act == Color::White,
            !b@.in_check,
            b@.blockers == seq![b@.king_pos[0]],
            Some(b@.king_pos[0]) == Square::spec_new(0, 4),
            Some(b@.king_pos[1]) == Square::spec_new(7, 4),
            b@.king_pos.len() == 2,
            b@.en_passant is None,
    {
        let e1 = Square::new(0, 4).unwrap();
        let e8 = Square::new(7, 4).unwrap();
        let mut board = Self {
            pieces: PieceMap::new(),
            captures: Vec::new(),
            to_act: Color::White,
            in_check: false,
            blockers: Vec::new(),
            king_pos: [e1, e8],
            en_passant: None,
        };
        board.update_check();
        proof {
            lemma_empty_board_is_quiet(e1, Color::White);
        }
        board
    }

    /// The starting position: the 32 pieces on their squares, White to act and not in
    /// check, and the blockers of White's king worked out, so that the position is settled.
    pub fn new_standard() -> (b: Board)
        ensures
            b@.pieces == standard_layout(),
            b@.pieces.dom().len() == 32,
            squares_of(b@.pieces, Color::White).len() == 16,
            squares_of(b@.pieces, Color::Black).len() == 16,
            b@.captures == Seq::<Piece>::empty(),
            b@.to_act == Color::White,
            !b@.in_check,
            b@.blockers == blockers_of(standard_layout(), b@.king_pos[0]),
            b@.blockers == starting_blockers(),
            Some(b@.king_pos[0]) == Square::spec_new(0, 4),
            Some(b@.king_pos[1]) == Square::spec_new(7, 4),
            b@.king_pos.len() == 2,
            b@.en_passant is None,
            is_settled(b@),
    {
        let mut board = Self::new_empty();
        standard_setup(&mut board.pieces);
        board.update_check();
        proof {
            lemma_standard_layout_counts();
            lemma_start_is_quiet();
        }
        board
    }

    /// What a side of colour `c` finds on `s`: nothing, a piece of its own, or one of the
    /// opponent's.
    pub fn occupancy(&self, s: Square, c: Color) -> (o: Occupancy)
        ensures
            o == self@.occupancy(s, c),
    {
        match self.pieces.get(&s) {
            Some(p) => if p.color == c {
                Occupancy::SameColor
            } else {
                Occupancy::OtherColor
            },
            None => Occupancy::Empty,
        }
    }

    /// Takes the piece off `s` and hands it back.
    pub fn remove_piece(&mut self, s: Square) -> (r: Option<Piece>)
        ensures
            final(self)@ == old(self)@.remove_piece(s),
            r == old(self)@.piece_at(s),
    {
        self.pieces.remove(&s)
    }

    /// Puts `p` on `s` and hands back what stood there.
    pub fn replace_piece(&mut self, s: Square, p: Piece) -> (r: Option<Piece>)
        ensures
            final(self)@ == old(self)@.replace_piece(s, p),
            r == old(self)@.piece_at(s),
    {
        self.pieces.insert(s, p)
    }

    /// Carries the piece on `from` to `to`, marks it as moved, and hands back what stood on
    /// `to`. Where `from` is empty nothing happens and nothing is handed back.
    pub fn move_piece(&mut self, from: Square, to: Square) -> (r: Option<Piece>)
        ensures
            final(self)@ == old(self)@.move_piece(from, to),
            r == (if old(self)@.pieces.dom().contains(from) {
                old(self)@.remove_piece(from).piece_at(to)
            } else {
                None
            }),
    {
        let p = self.remove_piece(from);
        if let Some(mut p) = p {
            p.has_moved = true;
            self.replace_piece(to, p)
        } else {
            assert(self@.pieces =~= old(self)@.pieces);
            None
        }
    }

    /// Takes the piece off `s` and records it as captured.
    pub fn remove_piece_with_capture(&mut self, s: Square)
        ensures
            final(self)@ == old(self)@.remove_piece_with_capture(s),
    {
        let c = self.remove_piece(s);
        if let Some(c) = c {
            self.captures.push(c);
        }
    }

    /// Puts `p` on `s` and records what stood there as captured.
    pub fn replace_piece_with_capture(&mut self, s: Square, p: Piece)
        ensures
            final(self)@ == old(self)@.replace_piece_with_capture(s, p),
    {
        let c = self.replace_piece(s, p);
        if let Some(c) = c {
            self.captures.push(c);
        }
    }

    /// Carries the piece on `from` to `to`, marks it as moved, and records what stood on
    /// `to` as captured. Where `from` is empty nothing happens.
    pub fn move_piece_with_capture(&mut self, from: Square, to: Square)
        ensures
            final(self)@ == old(self)@.move_piece_with_capture(from, to),
    {
        let p = self.remove_piece(from);
        if let Some(mut p) = p {
            p.has_moved = true;
            self.replace_piece_with_capture(to, p);
        } else {
            assert(self@.pieces =~= old(self)@.pieces);
        }
    }

    /// The last square of the board, read rank by rank, that holds a king of colour `c`.
    fn find_king(&self, c: Color) -> (r: Option<Square>)
        ensures
            r == last_king(self@.pieces, c, 64),
    {
        let mut found: Option<Square> = None;
        let mut i: usize = 0;
        while i < 64
            invariant
                i <= 64,
                found == last_king(self@.pieces, c, i as nat),
            decreases 64 - i,
        {
            let s = Square::at(i);
            if let Some(p) = self.pieces.get(&s) {
                if p.color == c && p.title == Title::King {
                    found = Some(s);
                }
            }
            i += 1;
        }
        found
    }

    /// Where the king of colour `c` is taken to stand, given where it was last seen.
    fn locate_king(&self, cached: Square, c: Color) -> (r: Square)
        ensures
            r == refreshed_king(self@.pieces, cached, c),
    {
        if let Some(p) = self.pieces.get(&cached) {
            if p.title == Title::King && p.color == c {
                return cached;
            }
        }
        match self.find_king(c) {
            Some(s) => s,
            None => cached,
        }
    }

    /// Looks both kings up again. A remembered square that still holds the king of its
    /// colour is kept.
    pub fn update_king_pos(&mut self)
        ensures
            final(self)@ == old(self)@.with_kings_refreshed(),
    {
        let white = self.locate_king(self.king_pos[0], Color::White);
        let black = self.locate_king(self.king_pos[1], Color::Black);
        self.king_pos = [white, black];
        assert(self@.king_pos =~= old(self)@.with_kings_refreshed().king_pos);
    }

    /// Works out check and blockers anew, for the square remembered for the king of the
    /// side to act. Where that king stands there, the position is settled afterwards.
    pub fn update_check(&mut self)
        ensures
            final(self)@ == old(self)@.with_check_refreshed(),
            is_king_of(final(self)@.pieces, final(self)@.king_to_act(), final(self)@.to_act)
                ==> is_settled(final(self)@),
    {
        let (c, b) = self.check_if_threatend(self.king_pos[self.to_act.index()], self.to_act);
        self.in_check = c;
        self.blockers = b;
        proof {
            self.pieces.lemma_view_on_board();
        }
    }

    /// Passes the turn: the other side is to act, the kings are looked up again, and check
    /// and blockers are worked out for the king of the side that is now to act. Where that
    /// side has its king on the square remembered for it, the position is settled
    /// afterwards.
    pub fn next_turn(&mut self)
        ensures
            final(self)@ == old(self)@.next_turn(),
            is_king_of(final(self)@.pieces, final(self)@.king_to_act(), final(self)@.to_act)
                ==> is_settled(final(self)@),
    {
        self.to_act = self.to_act.inverse();
        self.update_king_pos();
        self.update_check();
    }

    /// Makes the move and passes the turn. The move is not held against the rules: what
    /// it says is carried out, and a part of it that names an empty square does nothing.
    pub fn make_move(&mut self, move_data: MoveData)
        ensures
            final(self)@ == old(self)@.after_move(move_data),
            is_king_of(final(self)@.pieces, final(self)@.king_to_act(), final(self)@.to_act)
                ==> is_settled(final(self)@),
    {
        self.en_passant = None;
        match move_data.move_type {
            MoveType::Standard => self.make_standard_move(move_data),
            MoveType::DoubleStep(en_passant_oppertunity) => {
                self.make_double_step_move(move_data, en_passant_oppertunity)
            },
            MoveType::Casteling(rook_from, rook_to) => {
                self.make_casteling_move(move_data, rook_from, rook_to)
            },
            MoveType::EnPassant(capture) => self.make_en_passant_move(move_data, capture),
            MoveType::Promotion(promote_to) => self.make_promotion_move(move_data, promote_to),
        }
        self.next_turn();
    }

    /// A plain relocation that captures whatever stands on the destination.
    pub fn make_standard_move(&mut self, move_data: MoveData)
        ensures
            final(self)@ == old(self)@.move_piece_with_capture(move_data.from, move_data.to),
    {
        self.move_piece_with_capture(move_data.from, move_data.to);
    }

    /// A pawn's two-square advance: a relocation without capture that leaves the square
    /// passed over open to a capture in passing.
    pub fn make_double_step_move(&mut self, move_data: MoveData, en_passant_oppertunity: Square)
        ensures
            final(self)@ == (BoardView {
                en_passant: Some(en_passant_oppertunity),
                ..old(self)@.move_piece(move_data.from, move_data.to)
            }),
    {
        self.move_piece(move_data.from, move_data.to);
        self.en_passant = Some(en_passant_oppertunity);
    }

    /// Castling: the king's relocation, then the rook's, neither of them a capture.
    pub fn make_casteling_move(&mut self, move_data: MoveData, rook_from: Square, rook_to: Square)
        ensures
            final(self)@ == old(self)@.move_piece(move_data.from, move_data.to).move_piece(
                rook_from,
                rook_to,
            ),
    {
        self.move_piece(move_data.from, move_data.to);
        self.move_piece(rook_from, rook_to);
    }

    /// A capture in passing: the pawn's relocation, then the removal of the pawn on
    /// `capture`, which is recorded as captured.
    pub fn make_en_passant_move(&mut self, move_data: MoveData, capture: Square)
        ensures
            final(self)@ == old(self)@.move_piece(
                move_data.from,
                move_data.to,
            ).remove_piece_with_capture(capture),
    {
        self.move_piece(move_data.from, move_data.to);
        self.remove_piece_with_capture(capture);
    }

    /// A promotion: a relocation with capture, after which the piece on the destination is
    /// replaced by a fresh piece of its colour with the title asked for, or a queen.
    pub fn make_promotion_move(&mut self, move_data: MoveData, promote_to: Option<Title>)
        ensures
            final(self)@ == old(self)@.move_piece_with_capture(
                move_data.from,
                move_data.to,
            ).promote(move_data.to, promote_to),
    {
        self.move_piece_with_capture(move_data.from, move_data.to);
        if let Some(arrived) = self.pieces.get(&move_data.to) {
            let title = match promote_to {
                Some(t) => t,
                None => Title::Queen,
            };
            self.replace_piece(move_data.to, Piece::new(arrived.color, title));
        }
    }
}

} // verus!
