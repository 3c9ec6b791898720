use crate::piece::Piece;
use crate::square::Square;
use vstd::prelude::*;

verus! {

/// The placement of the pieces: a map from squares to pieces with at most one piece on a
/// square. It keeps one cell for each of the 64 squares, rank by rank.
#[derive(Copy, Clone, Debug)]
pub struct PieceMap {
    cells: [Option<Piece>; 64],
}

/// How many of the first `n` cells hold a piece.
spec fn count_occupied(cells: Seq<Option<Piece>>, n: nat) -> nat
    decreases n,
{
    if n == 0 {
        0
    } else {
        count_occupied(cells, (n - 1) as nat) + if cells[n - 1] is Some {
            1nat
        } else {
            0nat
        }
    }
}

impl View for PieceMap {
    type V = Map<Square, Piece>;

    /// The placement as a map: its domain holds the squares on which a piece stands.
    closed spec fn view(&self) -> Map<Square, Piece> {
        Map::new(
            |s: Square| s.spec_is_in_bounds() && self.cells@[s.spec_index()] is Some,
            |s: Square| self.cells@[s.spec_index()]->0,
        )
    }
}

impl PieceMap {
    /// The squares of the first `n` cells that hold a piece.
    spec fn occupied_below(self, n: int) -> Set<Square> {
        Set::new(|s: Square| self@.dom().contains(s) && s.spec_index() < n)
    }

    /// The squares of the first `n` cells that hold a piece are as many as those cells.
    proof fn lemma_occupied_below(self, n: nat)
        requires
            n <= 64,
        ensures
            self.occupied_below(n as int).finite(),
            self.occupied_below(n as int).len() == count_occupied(self.cells@, n),
        decreases n,
    {
        if n == 0 {
            assert(self.occupied_below(0) =~= Set::empty());
        } else {
            self.lemma_occupied_below((n - 1) as nat);
            let s = Square::spec_at(n - 1);
            if self.cells@[n - 1] is Some {
                assert(self.occupied_below(n as int) =~= self.occupied_below(n - 1).insert(s));
            } else {
                assert(self.occupied_below(n as int) =~= self.occupied_below(n - 1));
            }
        }
    }

    /// Only squares of the board hold pieces, so the placement is finite.
    pub proof fn lemma_view_on_board(self)
        ensures
            self@.dom().finite(),
            forall|s: Square| self@.dom().contains(s) ==> s.spec_is_in_bounds(),
    {
        self.lemma_occupied_below(64);
        assert(self.occupied_below(64) =~= self@.dom());
    }

    /// An empty placement.
    pub fn new() -> (m: PieceMap)
        ensures
            m@ == Map::<Square, Piece>::empty(),
    {
        let m = PieceMap { cells: [None; 64] };
        assert(m@ =~= Map::<Square, Piece>::empty());
        m
    }

    /// Takes every piece off.
    pub fn clear(&mut self)
        ensures
            final(self)@ == Map::<Square, Piece>::empty(),
    {
        *self = PieceMap::new();
    }

    /// Whether a piece stands on `s`.
    pub fn contains_key(&self, s: &Square) -> (r: bool)
        ensures
            r == self@.dom().contains(*s),
    {
        self.cells[s.index()].is_some()
    }

    /// The piece on `s`, if there is one.
    pub fn get(&self, s: &Square) -> (r: Option<Piece>)
        ensures
            r == (if self@.dom().contains(*s) {
                Some(self@[*s])
            } else {
                None
            }),
    {
        self.cells[s.index()]
    }

    /// Puts `p` on `s` and hands back the piece that stood there before.
    pub fn insert(&mut self, s: Square, p: Piece) -> (r: Option<Piece>)
        ensures
            final(self)@ == old(self)@.insert(s, p),
            r == (if old(self)@.dom().contains(s) {
                Some(old(self)@[s])
            } else {
                None
            }),
    {
        let i = s.index();
        let before = self.cells[i];
        self.cells[i] = Some(p);
        assert(self@ =~= old(self)@.insert(s, p));
        before
    }

    /// Takes the piece off `s` and hands it back, if there was one.
    pub fn remove(&mut self, s: &Square) -> (r: Option<Piece>)
        ensures
            final(self)@ == old(self)@.remove(*s),
            r == (if old(self)@.dom().contains(*s) {
                Some(old(self)@[*s])
            } else {
                None
            }),
    {
        let i = s.index();
        let before = self.cells[i];
        self.cells[i] = None;
        assert(self@ =~= old(self)@.remove(*s));
        before
    }

    /// The number of pieces on the board.
    pub fn len(&self) -> (n: usize)
        ensures
            n == self@.dom().len(),
            n <= 64,
    {
        let mut n: usize = 0;
        let mut i: usize = 0;
        while i < 64
            invariant
                i <= 64,
                n <= i,
                n == count_occupied(self.cells@, i as nat),
            decreases 64 - i,
        {
            if self.cells[i].is_some() {
                n += 1;
            }
            i += 1;
        }
        proof {
            self.lemma_occupied_below(64);
            assert(self.occupied_below(64) =~= self@.dom());
        }
        n
    }
}

} // verus!
