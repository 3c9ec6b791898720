use crate::board::Board;
use crate::color::Color;
use crate::moverules::{is_step, BISHOP_MOVES, KNIGHT_MOVES, ROOK_MOVES};
use crate::piece::Piece;
use crate::square::Square;
use crate::title::Title;
use vstd::prelude::*;

verus! {

/// How many steps in the direction `(rank_step, file_step)` are left on the board after
/// `from`, counted along the coordinate that the direction changes first.
pub open spec fn ray_room(from: Square, rank_step: int, file_step: int) -> int {
    if rank_step > 0 {
        7 - from.spec_rank()
    } else if rank_step < 0 {
        from.spec_rank() as int
    } else if file_step > 0 {
        7 - from.spec_file()
    } else {
        from.spec_file() as int
    }
}

/// The first occupied square met when walking from `from`, itself left out, by repeated
/// steps of `(rank_step, file_step)`; none where the walk leaves the board first.
pub open spec fn ray_hit(
    pieces: Map<Square, Piece>,
    from: Square,
    rank_step: int,
    file_step: int,
) -> Option<Square>
    decreases ray_room(from, rank_step, file_step),
{
    if is_step(rank_step, file_step) && from.spec_is_in_bounds() {
        match from.spec_offset(rank_step, file_step) {
            Some(next) => if pieces.dom().contains(next) {
                Some(next)
            } else {
                ray_hit(pieces, next, rank_step, file_step)
            },
            None => None,
        }
    } else {
        None
    }
}

/// What a walk meets is a square of the board with a piece on it.
pub proof fn lemma_ray_hit_occupied(
    pieces: Map<Square, Piece>,
    from: Square,
    rank_step: int,
    file_step: int,
)
    ensures
        ray_hit(pieces, from, rank_step, file_step) matches Some(s) ==> pieces.dom().contains(s)
            && s.spec_is_in_bounds(),
    decreases ray_room(from, rank_step, file_step),
{
    if is_step(rank_step, file_step) && from.spec_is_in_bounds() {
        if let Some(next) = from.spec_offset(rank_step, file_step) {
            if !pieces.dom().contains(next) {
                lemma_ray_hit_occupied(pieces, next, rank_step, file_step);
            }
        }
    }
}

/// The square `k` steps of `(rank_step, file_step)` away from `from`, if it is on the
/// board.
pub open spec fn ray_square(from: Square, rank_step: int, file_step: int, k: int) -> Option<
    Square,
> {
    from.spec_offset(k * rank_step, k * file_step)
}

/// Whether the squares that lie fewer than `k` steps away from `from` are all on the
/// board and empty.
pub open spec fn clear_before(
    pieces: Map<Square, Piece>,
    from: Square,
    rank_step: int,
    file_step: int,
    k: int,
) -> bool {
    forall|j: int|
        1 <= j < k ==> ((#[trigger] ray_square(from, rank_step, file_step, j)) matches Some(s)
            && !pieces.dom().contains(s))
}

/// Whether `s` lies `k` steps away from `from` with nothing but empty squares of the board
/// in between.
pub open spec fn reached_in(
    pieces: Map<Square, Piece>,
    from: Square,
    rank_step: int,
    file_step: int,
    k: int,
    s: Square,
) -> bool {
    &&& k >= 1
    &&& ray_square(from, rank_step, file_step, k) == Some(s)
    &&& clear_before(pieces, from, rank_step, file_step, k)
}

/// One step further along a ray is one step along the ray that starts a step later.
pub proof fn lemma_ray_square_shift(
    from: Square,
    next: Square,
    rank_step: int,
    file_step: int,
    k: int,
)
    requires
        from.spec_offset(rank_step, file_step) == Some(next),
    ensures
        ray_square(next, rank_step, file_step, k) == ray_square(from, rank_step, file_step, k + 1),
        ray_square(from, rank_step, file_step, 1) == Some(next),
{
    assert((k + 1) * rank_step == k * rank_step + rank_step) by (nonlinear_arith);
    assert((k + 1) * file_step == k * file_step + file_step) by (nonlinear_arith);
}

/// Where a walk of `k` steps over empty squares begins: the first step stays on the
/// board; it is the whole walk if `k` is 1, and leads to an empty square if not.
pub proof fn lemma_reached_first_step(
    pieces: Map<Square, Piece>,
    from: Square,
    rank_step: int,
    file_step: int,
    k: int,
    s: Square,
)
    requires
        reached_in(pieces, from, rank_step, file_step, k, s),
    ensures
        from.spec_offset(rank_step, file_step) matches Some(next) && (if k == 1 {
            s == next
        } else {
            !pieces.dom().contains(next)
        }),
{
    assert(1 * rank_step == rank_step && 1 * file_step == file_step);
    if k > 1 {
        assert(ray_square(from, rank_step, file_step, 1) is Some);
    }
}

/// A walk that starts with a step onto the empty square `next` is one step longer than
/// the rest of it, which starts on `next`.
pub proof fn lemma_reached_shift(
    pieces: Map<Square, Piece>,
    from: Square,
    next: Square,
    rank_step: int,
    file_step: int,
    k: int,
    s: Square,
)
    requires
        from.spec_offset(rank_step, file_step) == Some(next),
        !pieces.dom().contains(next),
        k >= 1,
    ensures
        reached_in(pieces, next, rank_step, file_step, k, s) <==> reached_in(
            pieces,
            from,
            rank_step,
            file_step,
            k + 1,
            s,
        ),
{
    lemma_ray_square_shift(from, next, rank_step, file_step, k);
    if reached_in(pieces, next, rank_step, file_step, k, s) {
        assert forall|j: int| 1 <= j < k + 1 implies ((#[trigger] ray_square(
            from,
            rank_step,
            file_step,
            j,
        )) matches Some(t) && !pieces.dom().contains(t)) by {
            lemma_ray_square_shift(from, next, rank_step, file_step, j - 1);
            if j > 1 {
                assert(ray_square(next, rank_step, file_step, j - 1) is Some);
            }
        }
    }
    if reached_in(pieces, from, rank_step, file_step, k + 1, s) {
        assert forall|j: int| 1 <= j < k implies ((#[trigger] ray_square(
            next,
            rank_step,
            file_step,
            j,
        )) matches Some(t) && !pieces.dom().contains(t)) by {
            lemma_ray_square_shift(from, next, rank_step, file_step, j);
            assert(ray_square(from, rank_step, file_step, j + 1) is Some);
        }
    }
}

/// What a walk meets is the nearest occupied square in its direction: it lies some number
/// of steps away, it holds a piece, and every square before it is on the board and empty.
pub proof fn lemma_ray_hit_is_nearest(
    pieces: Map<Square, Piece>,
    from: Square,
    rank_step: int,
    file_step: int,
    s: Square,
)
    requires
        is_step(rank_step, file_step),
        from.spec_is_in_bounds(),
    ensures
        ray_hit(pieces, from, rank_step, file_step) == Some(s) <==> pieces.dom().contains(s)
            && exists|k: int| #[trigger] reached_in(pieces, from, rank_step, file_step, k, s),
    decreases ray_room(from, rank_step, file_step),
{
    assert forall|k: int| #[trigger]
        reached_in(pieces, from, rank_step, file_step, k, s) implies from.spec_offset(
        rank_step,
        file_step,
    ) matches Some(next) && (if k == 1 {
        s == next
    } else {
        !pieces.dom().contains(next)
    }) by {
        lemma_reached_first_step(pieces, from, rank_step, file_step, k, s);
    }
    if let Some(next) = from.spec_offset(rank_step, file_step) {
        lemma_ray_square_shift(from, next, rank_step, file_step, 0);
        if pieces.dom().contains(next) {
            if s == next {
                assert(reached_in(pieces, from, rank_step, file_step, 1, s));
            }
        } else {
            lemma_ray_hit_is_nearest(pieces, next, rank_step, file_step, s);
            lemma_ray_hit_occupied(pieces, next, rank_step, file_step);
            assert forall|k: int| k >= 1 implies (reached_in(
                pieces,
                next,
                rank_step,
                file_step,
                k,
                s,
            ) <==> #[trigger] reached_in(pieces, from, rank_step, file_step, k + 1, s)) by {
                lemma_reached_shift(pieces, from, next, rank_step, file_step, k, s);
            }
            if pieces.dom().contains(s) {
                if exists|k: int| reached_in(pieces, next, rank_step, file_step, k, s) {
                    let k = choose|k: int| reached_in(pieces, next, rank_step, file_step, k, s);
                    assert(reached_in(pieces, from, rank_step, file_step, k + 1, s));
                }
                if exists|k: int| reached_in(pieces, from, rank_step, file_step, k, s) {
                    let k = choose|k: int| reached_in(pieces, from, rank_step, file_step, k, s);
                    assert(reached_in(pieces, from, rank_step, file_step, (k - 1) + 1, s));
                    assert(reached_in(pieces, next, rank_step, file_step, k - 1, s));
                }
            }
        }
    }
}

/// Whether `s` is a square that holds a piece of the given title that is not of colour
/// `color`.
pub open spec fn holds_enemy(
    pieces: Map<Square, Piece>,
    s: Option<Square>,
    color: Color,
    title: Title,
) -> bool {
    &&& s matches Some(sq)
    &&& pieces.dom().contains(sq)
    &&& pieces[sq].color != color
    &&& pieces[sq].title == title
}

/// Whether the `i`-th knight's jump away from `to` stands a knight that is not of colour
/// `color`.
pub open spec fn knight_threat_at(
    pieces: Map<Square, Piece>,
    to: Square,
    color: Color,
    i: int,
) -> bool {
    holds_enemy(
        pieces,
        to.spec_offset(KNIGHT_MOVES[i].0 as int, KNIGHT_MOVES[i].1 as int),
        color,
        Title::Knight,
    )
}

/// Whether a knight that is not of colour `color` stands a knight's jump away from `to`.
pub open spec fn knight_threat(pieces: Map<Square, Piece>, to: Square, color: Color) -> bool {
    exists|i: int| 0 <= i < 8 && #[trigger] knight_threat_at(pieces, to, color, i)
}

/// Whether the first piece met from `to` along `(rank_step, file_step)` is not of colour
/// `color` and is a queen or has the title `title`.
pub open spec fn ray_threat(
    pieces: Map<Square, Piece>,
    to: Square,
    color: Color,
    rank_step: int,
    file_step: int,
    title: Title,
) -> bool {
    &&& ray_hit(pieces, to, rank_step, file_step) matches Some(s)
    &&& pieces[s].color != color
    &&& (pieces[s].title == title || pieces[s].title == Title::Queen)
}

/// Whether `to` is attacked along the `i`-th diagonal.
pub open spec fn bishop_threat_at(
    pieces: Map<Square, Piece>,
    to: Square,
    color: Color,
    i: int,
) -> bool {
    ray_threat(
        pieces,
        to,
        color,
        BISHOP_MOVES[i].0 as int,
        BISHOP_MOVES[i].1 as int,
        Title::Bishop,
    )
}

/// Whether a bishop or queen that is not of colour `color` sees `to` along a diagonal.
pub open spec fn bishop_threat(pieces: Map<Square, Piece>, to: Square, color: Color) -> bool {
    exists|i: int| 0 <= i < 4 && #[trigger] bishop_threat_at(pieces, to, color, i)
}

/// Whether `to` is attacked along the `i`-th rank or file direction.
pub open spec fn rook_threat_at(
    pieces: Map<Square, Piece>,
    to: Square,
    color: Color,
    i: int,
) -> bool {
    ray_threat(pieces, to, color, ROOK_MOVES[i].0 as int, ROOK_MOVES[i].1 as int, Title::Rook)
}

/// Whether a rook or queen that is not of colour `color` sees `to` along a rank or file.
pub open spec fn rook_threat(pieces: Map<Square, Piece>, to: Square, color: Color) -> bool {
    exists|i: int| 0 <= i < 4 && #[trigger] rook_threat_at(pieces, to, color, i)
}

/// Whether a pawn that is not of colour `color` stands where it captures onto `to`: on one
/// of the two squares diagonally ahead of `to`, as colour `color` looks at the board.
pub open spec fn pawn_threat(pieces: Map<Square, Piece>, to: Square, color: Color) -> bool {
    ||| holds_enemy(pieces, to.spec_offset(color.forward() as int, 1), color, Title::Pawn)
    ||| holds_enemy(pieces, to.spec_offset(color.forward() as int, -1), color, Title::Pawn)
}

/// Whether a piece that is not of colour `color` attacks `to`. Kings are not counted among
/// the attackers.
pub open spec fn threatened(pieces: Map<Square, Piece>, to: Square, color: Color) -> bool {
    ||| knight_threat(pieces, to, color)
    ||| bishop_threat(pieces, to, color)
    ||| rook_threat(pieces, to, color)
    ||| pawn_threat(pieces, to, color)
}

/// The first piece met from `to` in each of the first `n` directions of `dirs`, in the
/// order of the table.
pub open spec fn ray_hits(
    pieces: Map<Square, Piece>,
    to: Square,
    dirs: Seq<(i32, i32, bool)>,
    n: nat,
) -> Seq<Square>
    decreases n,
{
    if n == 0 {
        Seq::empty()
    } else {
        let d = dirs[n - 1];
        let rest = ray_hits(pieces, to, dirs, (n - 1) as nat);
        match ray_hit(pieces, to, d.0 as int, d.1 as int) {
            Some(s) => rest.push(s),
            None => rest,
        }
    }
}

/// The squares whose occupants stand between `to` and the rest of the board: `to` itself,
/// then the first piece met along each diagonal, then along each rank and file direction.
pub open spec fn blockers_of(pieces: Map<Square, Piece>, to: Square) -> Seq<Square> {
    seq![to] + ray_hits(pieces, to, BISHOP_MOVES@, 4) + ray_hits(pieces, to, ROOK_MOVES@, 4)
}

/// On a board without pieces no square is attacked, and a square has no blocker but
/// itself.
pub proof fn lemma_empty_board_is_quiet(to: Square, color: Color)
    ensures
        !threatened(Map::<Square, Piece>::empty(), to, color),
        blockers_of(Map::<Square, Piece>::empty(), to) == seq![to],
{
    let pieces = Map::<Square, Piece>::empty();
    assert forall|i: int| 0 <= i < 4 implies ray_hit(
        pieces,
        to,
        #[trigger] BISHOP_MOVES[i].0 as int,
        BISHOP_MOVES[i].1 as int,
    ) is None by {
        lemma_ray_hit_occupied(pieces, to, BISHOP_MOVES[i].0 as int, BISHOP_MOVES[i].1 as int);
    }
    assert forall|i: int| 0 <= i < 4 implies ray_hit(
        pieces,
        to,
        #[trigger] ROOK_MOVES[i].0 as int,
        ROOK_MOVES[i].1 as int,
    ) is None by {
        lemma_ray_hit_occupied(pieces, to, ROOK_MOVES[i].0 as int, ROOK_MOVES[i].1 as int);
    }
    reveal_with_fuel(ray_hits, 5);
    assert(ray_hits(pieces, to, BISHOP_MOVES@, 4) =~= Seq::<Square>::empty());
    assert(ray_hits(pieces, to, ROOK_MOVES@, 4) =~= Seq::<Square>::empty());
    assert(blockers_of(pieces, to) =~= seq![to]);
}

impl Board {
    /// The first piece met when walking from `from` in the direction given.
    pub(crate) fn first_on_ray(&self, from: Square, rank_step: i32, file_step: i32) -> (r:
        Option<Square>)
        requires
            is_step(rank_step as int, file_step as int),
        ensures
            r == ray_hit(self@.pieces, from, rank_step as int, file_step as int),
            r matches Some(s) ==> self@.pieces.dom().contains(s),
    {
        let mut cur = from;
        proof {
            use_type_invariant(&from);
        }
        loop
            invariant
                is_step(rank_step as int, file_step as int),
                cur.spec_is_in_bounds(),
                ray_hit(self@.pieces, cur, rank_step as int, file_step as int) == ray_hit(
                    self@.pieces,
                    from,
                    rank_step as int,
                    file_step as int,
                ),
            decreases ray_room(cur, rank_step as int, file_step as int),
        {
            match cur.offset(rank_step, file_step) {
                None => {
                    return None;
                },
                Some(next) => {
                    if self.pieces.contains_key(&next) {
                        return Some(next);
                    }
                    cur = next;
                },
            }
        }
    }

    /// Whether the piece on `s`, if there is one, is of the given title and not of colour
    /// `color`.
    fn enemy_on(&self, s: Option<Square>, color: Color, title: Title) -> (r: bool)
        ensures
            r == holds_enemy(self@.pieces, s, color, title),
    {
        match s {
            Some(sq) => match self.pieces.get(&sq) {
                Some(p) => p.color != color && p.title == title,
                None => false,
            },
            None => false,
        }
    }

    /// Whether a piece that is not of colour `color` attacks `to`, together with the
    /// blockers round `to`: `to` itself and the first piece met on each of the eight lines
    /// that leave it.
    pub fn check_if_threatend(&self, to: Square, color: Color) -> (r: (bool, Vec<Square>))
        ensures
            r.0 == threatened(self@.pieces, to, color),
            r.1@ == blockers_of(self@.pieces, to),
    {
        let ghost pieces = self@.pieces;
        let mut threatend = false;
        let mut blockers: Vec<Square> = Vec::new();
        blockers.push(to);
        let mut i: usize = 0;
        while i < 8
            invariant
                i <= 8,
                pieces == self@.pieces,
                threatend == (exists|j: int|
                    0 <= j < i && #[trigger] knight_threat_at(pieces, to, color, j)),
            decreases 8 - i,
        {
            let d = KNIGHT_MOVES[i];
            if self.enemy_on(to.offset(d.0, d.1), color, Title::Knight) {
                assert(knight_threat_at(pieces, to, color, i as int));
                threatend = true;
            }
            i += 1;
        }
        assert(threatend == knight_threat(pieces, to, color));
        i = 0;
        while i < 4
            invariant
                i <= 4,
                pieces == self@.pieces,
                threatend == (knight_threat(pieces, to, color) || exists|j: int|
                    0 <= j < i && #[trigger] bishop_threat_at(pieces, to, color, j)),
                blockers@ == seq![to] + ray_hits(pieces, to, BISHOP_MOVES@, i as nat),
            decreases 4 - i,
        {
            let d = BISHOP_MOVES[i];
            let ghost old_threat = threatend;
            if let Some(from) = self.first_on_ray(to, d.0, d.1) {
                blockers.push(from);
                if self.enemy_on(Some(from), color, Title::Bishop) || self.enemy_on(
                    Some(from),
                    color,
                    Title::Queen,
                ) {
                    threatend = true;
                }
            }
            assert(threatend == (old_threat || bishop_threat_at(pieces, to, color, i as int)));
            i += 1;
        }
        let ghost diagonal = seq![to] + ray_hits(pieces, to, BISHOP_MOVES@, 4);
        i = 0;
        while i < 4
            invariant
                i <= 4,
                pieces == self@.pieces,
                threatend == (knight_threat(pieces, to, color) || bishop_threat(pieces, to, color)
                    || exists|j: int|
                    0 <= j < i && #[trigger] rook_threat_at(pieces, to, color, j)),
                blockers@ == diagonal + ray_hits(pieces, to, ROOK_MOVES@, i as nat),
            decreases 4 - i,
        {
            let d = ROOK_MOVES[i];
            let ghost old_threat = threatend;
            if let Some(from) = self.first_on_ray(to, d.0, d.1) {
                blockers.push(from);
                if self.enemy_on(Some(from), color, Title::Rook) || self.enemy_on(
                    Some(from),
                    color,
                    Title::Queen,
                ) {
                    threatend = true;
                }
            }
            assert(threatend == (old_threat || rook_threat_at(pieces, to, color, i as int)));
            i += 1;
        }
        if self.enemy_on(to.offset(color.forward(), 1), color, Title::Pawn) {
            threatend = true;
        }
        if self.enemy_on(to.offset(color.forward(), -1), color, Title::Pawn) {
            threatend = true;
        }
        (threatend, blockers)
    }
}

} // verus!
