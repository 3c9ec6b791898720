use crate::board::{is_king_of, is_settled, Board, BoardView};
use crate::color::Color;
use crate::movedata::MoveData;
use crate::movegen::{action_space, generate_action_space_with};
use crate::piece::Piece;
use crate::square::Square;
use crate::standardstart::{standard_layout, starting_blockers};
use crate::threat::blockers_of;
use crate::title::Title;
use vstd::prelude::*;

verus! {

/// How a game stands: still running, won by one side, or tied.
#[derive(Copy, Clone, Debug, PartialEq, Eq, Structural)]
pub enum GameResult {
    Won(Color),
    Tied,
    Ongoing,
}

/// A game: the board, the moves open to the side to act, and the result so far.
pub struct Game {
    pub board: Board,
    /// The moves open to the side to act. They are worked out anew after every move.
    pub action_space: Vec<MoveData>,
    /// Earlier positions. Nothing is recorded here by the game itself.
    pub history: Vec<Board>,
    pub result: GameResult,
    /// The title that pawns take in the promotions that the game offers.
    pub promote_to: Title,
}

/// A game as a mathematical value.
pub struct GameView {
    pub board: BoardView,
    pub action_space: Seq<MoveData>,
    pub history: Seq<BoardView>,
    pub result: GameResult,
    pub promote_to: Title,
}

impl View for Game {
    type V = GameView;

    open spec fn view(&self) -> GameView {
        GameView {
            board: self.board@,
            action_space: self.action_space@,
            history: self.history@.map_values(|b: Board| b@),
            result: self.result,
            promote_to: self.promote_to,
        }
    }
}

/// The result once the side to act in `board` has the moves `moves` open to it: with no
/// move left, the other side has won if the side to act is in check, and the game is tied
/// if it is not; with a move left, the result stays what it was.
pub open spec fn outcome(
    previous: GameResult,
    board: BoardView,
    moves: Seq<MoveData>,
) -> GameResult {
    if moves.len() == 0 {
        if board.in_check {
            GameResult::Won(board.to_act.inverse())
        } else {
            GameResult::Tied
        }
    } else {
        previous
    }
}

/// Whether the move at place `i` of `moves` is written `note`.
pub open spec fn matches_at(moves: Seq<MoveData>, note: Seq<char>, i: int) -> bool {
    0 <= i < moves.len() && moves[i].spec_notation() == note
}

/// Whether the move at place `i` is the first of `moves` that is written `note`.
pub open spec fn is_first_match(moves: Seq<MoveData>, note: Seq<char>, i: int) -> bool {
    &&& matches_at(moves, note, i)
    &&& forall|j: int| 0 <= j < i ==> !matches_at(moves, note, j)
}

/// Whether the move at place `i` of `moves` goes from `from` to `to`.
pub open spec fn goes_between_at(moves: Seq<MoveData>, from: Square, to: Square, i: int) -> bool {
    0 <= i < moves.len() && moves[i].from == from && moves[i].to == to
}

/// What is said when a game has ended with `result`; nothing while it is running.
pub open spec fn game_over_text(result: GameResult) -> Option<Seq<char>> {
    match result {
        GameResult::Won(Color::White) => Some("White"@ + " has won!"@),
        GameResult::Won(Color::Black) => Some("Black"@ + " has won!"@),
        GameResult::Tied => Some("The game has ended in a tie."@),
        GameResult::Ongoing => None,
    }
}

/// What is said when a game has ended with `result`; nothing while it is running.
pub fn game_over_message(result: GameResult) -> (r: Option<String>)
    ensures
        r is Some <==> result != GameResult::Ongoing,
        match r {
            Some(text) => game_over_text(result) == Some(text@),
            None => game_over_text(result) is None,
        },
{
    match result {
        GameResult::Won(color) => {
            let mut text = String::from_str(color.name());
            text.append(" has won!");
            Some(text)
        },
        GameResult::Tied => Some(String::from_str("The game has ended in a tie.")),
        GameResult::Ongoing => None,
    }
}

impl GameView {
    /// The game with the result brought up to date.
    pub open spec fn checked_for_game_over(self) -> GameView {
        GameView { result: outcome(self.result, self.board, self.action_space), ..self }
    }

    /// The game after `m` has been submitted. A move that is open to the side to act is
    /// made on the board, the moves are worked out anew and the result is brought up to
    /// date. Any other move changes nothing.
    pub open spec fn after_move(self, m: MoveData) -> GameView {
        if self.action_space.contains(m) {
            let board = self.board.after_move(m);
            GameView {
                board,
                action_space: action_space(board, self.promote_to),
                ..self
            }.checked_for_game_over()
        } else {
            self
        }
    }
}

impl Game {
    /// A game at the starting position, which is settled, with the moves open to White
    /// worked out and pawns promoting to queens.
    pub fn new() -> (game: Game)
        ensures
            game@.board.pieces == standard_layout(),
            game@.board.captures == Seq::<Piece>::empty(),
            game@.board.to_act == Color::White,
            !game@.board.in_check,
            game@.board.blockers == blockers_of(standard_layout(), game@.board.king_pos[0]),
            game@.board.blockers == starting_blockers(),
            is_settled(game@.board),
            Some(game@.board.king_pos[0]) == Square::spec_new(0, 4),
            Some(game@.board.king_pos[1]) == Square::spec_new(7, 4),
            game@.board.king_pos.len() == 2,
            game@.board.en_passant is None,
            game@.action_space == action_space(game@.board, Title::Queen),
            game@.history == Seq::<BoardView>::empty(),
            game@.result == GameResult::Ongoing,
            game@.promote_to == Title::Queen,
    {
        let board = Board::new_standard();
        let action_space = generate_action_space_with(&board, Title::Queen);
        let game = Self {
            board,
            action_space,
            history: Vec::new(),
            result: GameResult::Ongoing,
            promote_to: Title::Queen,
        };
        assert(game@.history =~= Seq::<BoardView>::empty());
        game
    }

    /// Sets the title that pawns take in the promotions that the game offers from the next
    /// move on. The moves that are open now stay as they are.
    pub fn set_deafault_promotion(&mut self, title: Title)
        ensures
            final(self)@ == (GameView { promote_to: title, ..old(self)@ }),
    {
        self.promote_to = title;
    }

    /// Whether `m` is one of the moves open to the side to act.
    pub fn is_legal(&self, m: &MoveData) -> (r: bool)
        ensures
            r == self@.action_space.contains(*m),
    {
        let mut i: usize = 0;
        while i < self.action_space.len()
            invariant
                i <= self.action_space.len(),
                forall|k: int| 0 <= k < i ==> self.action_space@[k] != *m,
            decreases self.action_space.len() - i,
        {
            if self.action_space[i] == *m {
                return true;
            }
            i += 1;
        }
        false
    }

    /// Submits a move. One that is open to the side to act is made, after which the moves
    /// are worked out anew and the result is brought up to date. Any other move is passed
    /// over in silence: nothing changes. A settled position stays settled as long as the
    /// side that comes to act has its king on the square remembered for it.
    pub fn make_move(&mut self, m: MoveData)
        ensures
            final(self)@ == old(self)@.after_move(m),
            !old(self)@.action_space.contains(m) ==> *final(self) == *old(self),
            is_settled(old(self)@.board) && is_king_of(
                final(self)@.board.pieces,
                final(self)@.board.king_to_act(),
                final(self)@.board.to_act,
            ) ==> is_settled(final(self)@.board),
    {
        if self.is_legal(&m) {
            self.board.make_move(m);
            self.action_space = generate_action_space_with(&self.board, self.promote_to);
            self.check_for_game_over();
        }
    }

    /// Submits the first of the open moves that is written `note`, such as `e2 e4`. Where
    /// none is written so, nothing changes.
    pub fn make_move_from_notation(&mut self, note: String)
        ensures
            forall|i: int|
                is_first_match(old(self)@.action_space, note@, i) ==> final(self)@ == old(
                    self,
                )@.after_move(old(self)@.action_space[i]),
            (forall|i: int| !matches_at(old(self)@.action_space, note@, i)) ==> *final(self)
                == *old(self),
    {
        let mut i: usize = 0;
        while i < self.action_space.len()
            invariant
                i <= self.action_space.len(),
                *self == *old(self),
                forall|j: int| 0 <= j < i ==> !matches_at(self@.action_space, note@, j),
            decreases self.action_space.len() - i,
        {
            let m = self.action_space[i];
            if m.get_move_notation() == note {
                assert(is_first_match(old(self)@.action_space, note@, i as int));
                self.make_move(m);
                return ;
            }
            i += 1;
        }
    }

    /// The first of the open moves that goes from `from` to `to`, whatever its kind.
    pub fn move_between(&self, from: Square, to: Square) -> (r: Option<MoveData>)
        ensures
            match r {
                Some(m) => exists|i: int|
                    #[trigger] goes_between_at(self@.action_space, from, to, i)
                        && self@.action_space[i] == m && forall|j: int|
                        0 <= j < i ==> !goes_between_at(self@.action_space, from, to, j),
                None => forall|i: int| !goes_between_at(self@.action_space, from, to, i),
            },
    {
        let mut i: usize = 0;
        while i < self.action_space.len()
            invariant
                i <= self.action_space.len(),
                forall|j: int| 0 <= j < i ==> !goes_between_at(self@.action_space, from, to, j),
            decreases self.action_space.len() - i,
        {
            let m = self.action_space[i];
            if m.from == from && m.to == to {
                assert(goes_between_at(self@.action_space, from, to, i as int));
                return Some(m);
            }
            i += 1;
        }
        None
    }

    /// Brings the result up to date: when no move is open to the side to act, the other
    /// side has won if the side to act is in check, and the game is tied if it is not.
    pub fn check_for_game_over(&mut self)
        ensures
            final(self)@ == old(self)@.checked_for_game_over(),
    {
        if self.action_space.len() == 0 {
            if self.board.in_check {
                self.result = GameResult::Won(self.board.to_act.inverse());
            } else {
                self.result = GameResult::Tied;
            }
        }
    }
}

} // verus!
