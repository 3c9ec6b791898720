use crate::game::{goes_between_at, Game};
use crate::square::Square;
use vstd::prelude::*;

verus! {

/// Takes one reading of a pointer with which pieces are dragged. `holding` is the square
/// on which the pointer went down, if it is down with a piece's square in hand; `pressed`
/// says whether the pointer is down now, and `at` is the square under it, if it is over
/// the board. What comes back is the square in hand after the reading.
///
/// Going down over the board takes that square in hand. Coming up lets go: over the
/// board, the first open move from the square in hand to the square under the pointer
/// is made, if there is one. Any other reading changes nothing.
pub fn pointer_event(
    game: &mut Game,
    holding: Option<Square>,
    pressed: bool,
    at: Option<Square>,
) -> (next: Option<Square>)
    ensures
        pressed && holding is None ==> next == at && *final(game) == *old(game),
        pressed && holding is Some ==> next == holding && *final(game) == *old(game),
        !pressed ==> next is None,
        !pressed && (holding is None || at is None) ==> *final(game) == *old(game),
        !pressed && holding is Some && at is Some ==> ({
            let moves = old(game)@.action_space;
            &&& (forall|i: int| !goes_between_at(moves, holding->0, at->0, i)) ==> *final(game)
                == *old(game)
            &&& forall|i: int|
                #[trigger] goes_between_at(moves, holding->0, at->0, i) && (forall|j: int|
                    0 <= j < i ==> !goes_between_at(moves, holding->0, at->0, j)) ==> final(game)@
                    == old(game)@.after_move(moves[i])
        }),
{
    if pressed {
        match holding {
            None => at,
            Some(_) => holding,
        }
    } else {
        if let Some(from) = holding {
            if let Some(to) = at {
                if let Some(m) = game.move_between(from, to) {
                    game.make_move(m);
                }
            }
        }
        None
    }
}

} // verus!
