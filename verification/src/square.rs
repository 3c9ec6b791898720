use vstd::prelude::*;

verus! {

/// A square of the 8×8 board, held as (rank, file) with both coordinates in `0..8`.
#[derive(Copy, Clone, Debug, PartialEq, Eq, Hash, Structural)]
pub struct Square(pub(crate) i32, pub(crate) i32);

impl Square {
    /// Every square that a program holds lies on the board. A square that is only spoken
    /// of in a contract need not: there `spec_is_in_bounds` says whether it does.
    #[verifier::type_invariant]
    pub open(crate) spec fn inv(self) -> bool {
        self.spec_is_in_bounds()
    }

    /// Whether both coordinates lie in `0..8`.
    pub open(crate) spec fn spec_is_in_bounds(&self) -> bool {
        0 <= self.0 < 8 && 0 <= self.1 < 8
    }

    /// The rank, from 0 for the first to 7 for the eighth.
    pub open(crate) spec fn spec_rank(&self) -> i32 {
        self.0
    }

    /// The file, from 0 for `a` to 7 for `h`.
    pub open(crate) spec fn spec_file(&self) -> i32 {
        self.1
    }

    /// The square with the given coordinates; none unless both lie in `0..8`.
    pub open(crate) spec fn spec_new(rank: int, file: int) -> Option<Square> {
        if 0 <= rank < 8 && 0 <= file < 8 {
            Some(Square(rank as i32, file as i32))
        } else {
            None
        }
    }

    /// The square that lies the given numbers of ranks and files away; none where that is
    /// off the board.
    pub open(crate) spec fn spec_offset(self, rank_offset: int, file_offset: int) -> Option<
        Square,
    > {
        Square::spec_new(self.0 + rank_offset, self.1 + file_offset)
    }

    /// The place of the square when the board is read rank by rank: 0 for a1, 63 for h8.
    pub open(crate) spec fn spec_index(&self) -> int {
        self.0 * 8 + self.1
    }

    /// The square at place `index` when the board is read rank by rank.
    pub open(crate) spec fn spec_at(index: int) -> Square {
        Square((index / 8) as i32, (index % 8) as i32)
    }

    /// Whether both coordinates lie in `0..8`. Every square that a program holds does.
    #[verifier::when_used_as_spec(spec_is_in_bounds)]
    pub fn is_in_bounds(&self) -> (r: bool)
        ensures
            r == self.spec_is_in_bounds(),
            r,
    {
        proof {
            use_type_invariant(self);
        }
        self.0 >= 0 && self.0 < 8 && self.1 >= 0 && self.1 < 8
    }

    /// The square with the given coordinates; none unless both lie in `0..8`.
    pub fn new(rank: i32, file: i32) -> (r: Option<Square>)
        ensures
            r == Square::spec_new(rank as int, file as int),
            r is Some <==> 0 <= rank < 8 && 0 <= file < 8,
            r matches Some(s) ==> s.spec_rank() == rank && s.spec_file() == file
                && s.spec_is_in_bounds(),
    {
        if rank >= 0 && rank < 8 && file >= 0 && file < 8 {
            Some(Square(rank, file))
        } else {
            None
        }
    }

    /// The square that lies the given numbers of ranks and files away; none where that is
    /// off the board. It is what `new` gives for the sums of the coordinates, which are
    /// taken as whole numbers, so that no offset is too large.
    pub fn offset(&self, rank_offset: i32, file_offset: i32) -> (r: Option<Square>)
        ensures
            r == self.spec_offset(rank_offset as int, file_offset as int),
            r == Square::spec_new(
                self.spec_rank() + rank_offset,
                self.spec_file() + file_offset,
            ),
    {
        proof {
            use_type_invariant(self);
        }
        if rank_offset < -8 || rank_offset > 8 || file_offset < -8 || file_offset > 8 {
            return None;
        }
        Square::new(self.0 + rank_offset, self.1 + file_offset)
    }

    /// The rank, from 0 for the first to 7 for the eighth.
    #[verifier::when_used_as_spec(spec_rank)]
    pub fn rank(&self) -> (r: i32)
        ensures
            r == self.spec_rank(),
            0 <= r < 8,
    {
        proof {
            use_type_invariant(self);
        }
        self.0
    }

    /// The file, from 0 for `a` to 7 for `h`.
    #[verifier::when_used_as_spec(spec_file)]
    pub fn file(&self) -> (r: i32)
        ensures
            r == self.spec_file(),
            0 <= r < 8,
    {
        proof {
            use_type_invariant(self);
        }
        self.1
    }

    /// The square at place `index` when the board is read rank by rank.
    pub(crate) fn at(index: usize) -> (s: Square)
        requires
            index < 64,
        ensures
            s == Square::spec_at(index as int),
            s.spec_is_in_bounds(),
            s.spec_index() == index,
    {
        Square((index / 8) as i32, (index % 8) as i32)
    }

    /// The place of the square when the board is read rank by rank.
    pub fn index(&self) -> (i: usize)
        ensures
            i == self.spec_index(),
            i < 64,
            self.spec_is_in_bounds(),
    {
        proof {
            use_type_invariant(self);
        }
        (self.0 * 8 + self.1) as usize
    }
}

/// `new` gives a square exactly for the coordinates of the board, and that square has
/// those coordinates; `offset` is `new` of the summed coordinates.
pub proof fn lemma_new_and_offset(s: Square, rank: int, file: int)
    ensures
        Square::spec_new(rank, file) is Some <==> 0 <= rank < 8 && 0 <= file < 8,
        Square::spec_new(rank, file) matches Some(t) ==> t.spec_rank() == rank && t.spec_file()
            == file && t.spec_is_in_bounds(),
        s.spec_offset(rank, file) == Square::spec_new(s.spec_rank() + rank, s.spec_file() + file),
        s.spec_is_in_bounds() ==> Square::spec_new(s.spec_rank() as int, s.spec_file() as int)
            == Some(s),
{
}

/// Offsets add up: going on from where one offset leads is one offset by the sums.
pub proof fn lemma_offset_composes(s: Square, r1: int, f1: int, r2: int, f2: int)
    ensures
        s.spec_offset(r1, f1) matches Some(t) ==> t.spec_offset(r2, f2) == s.spec_offset(
            r1 + r2,
            f1 + f2,
        ),
{
}

/// A square of the board is the one at its own place, and places tell squares apart.
pub proof fn lemma_index_at(s: Square, index: int)
    ensures
        s.spec_is_in_bounds() ==> 0 <= s.spec_index() < 64 && Square::spec_at(s.spec_index()) == s,
        0 <= index < 64 ==> Square::spec_at(index).spec_is_in_bounds() && Square::spec_at(
            index,
        ).spec_index() == index,
{
}

/// The letter of a file: `a` for file 0 up to `h` for file 7.
pub open spec fn file_letter(file: int) -> char {
    if file == 0 {
        'a'
    } else if file == 1 {
        'b'
    } else if file == 2 {
        'c'
    } else if file == 3 {
        'd'
    } else if file == 4 {
        'e'
    } else if file == 5 {
        'f'
    } else if file == 6 {
        'g'
    } else {
        'h'
    }
}

/// The digit of a rank: `1` for rank 0 up to `8` for rank 7.
pub open spec fn rank_digit(rank: int) -> char {
    if rank == 0 {
        '1'
    } else if rank == 1 {
        '2'
    } else if rank == 2 {
        '3'
    } else if rank == 3 {
        '4'
    } else if rank == 4 {
        '5'
    } else if rank == 5 {
        '6'
    } else if rank == 6 {
        '7'
    } else {
        '8'
    }
}

/// The letter of a file, as a string.
fn file_name(file: i32) -> (r: &'static str)
    ensures
        r@ == seq![file_letter(file as int)],
{
    proof {
        reveal_strlit("a");
        reveal_strlit("b");
        reveal_strlit("c");
        reveal_strlit("d");
        reveal_strlit("e");
        reveal_strlit("f");
        reveal_strlit("g");
        reveal_strlit("h");
    }
    let r = if file == 0 {
        "a"
    } else if file == 1 {
        "b"
    } else if file == 2 {
        "c"
    } else if file == 3 {
        "d"
    } else if file == 4 {
        "e"
    } else if file == 5 {
        "f"
    } else if file == 6 {
        "g"
    } else {
        "h"
    };
    assert(r@ =~= seq![file_letter(file as int)]);
    r
}

/// The digit of a rank, as a string.
fn rank_name(rank: i32) -> (r: &'static str)
    ensures
        r@ == seq![rank_digit(rank as int)],
{
    proof {
        reveal_strlit("1");
        reveal_strlit("2");
        reveal_strlit("3");
        reveal_strlit("4");
        reveal_strlit("5");
        reveal_strlit("6");
        reveal_strlit("7");
        reveal_strlit("8");
    }
    let r = if rank == 0 {
        "1"
    } else if rank == 1 {
        "2"
    } else if rank == 2 {
        "3"
    } else if rank == 3 {
        "4"
    } else if rank == 4 {
        "5"
    } else if rank == 5 {
        "6"
    } else if rank == 6 {
        "7"
    } else {
        "8"
    };
    assert(r@ =~= seq![rank_digit(rank as int)]);
    r
}

impl Square {
    /// The square's name in algebraic notation: the letter of its file, then the digit of
    /// its rank.
    pub open(crate) spec fn spec_notation(&self) -> Seq<char> {
        seq![file_letter(self.1 as int), rank_digit(self.0 as int)]
    }

    /// The square's name in algebraic notation, such as `e4`.
    pub fn notation(&self) -> (r: String)
        ensures
            r@ == self.spec_notation(),
    {
        let mut r = String::from_str(file_name(self.1));
        r.append(rank_name(self.0));
        assert(r@ =~= self.spec_notation());
        r
    }
}

} // verus!
