use crate::board::Board;
use crate::color::Color;
use crate::piece::{piece_letter, Piece};
use crate::square::{rank_digit, Square};
use crate::title::Title;
use vstd::prelude::*;

verus! {

/// What is printed for the square at `(rank, file)`: the letter of the piece on it, or, for
/// an empty square, a comma where rank and file add up to an even number and a full stop
/// where they do not.
pub open spec fn square_symbol(pieces: Map<Square, Piece>, rank: int, file: int) -> char {
    match Square::spec_new(rank, file) {
        Some(s) => if pieces.dom().contains(s) {
            pieces[s].to_char()
        } else if (rank + file) % 2 == 0 {
            ','
        } else {
            '.'
        },
        None => ' ',
    }
}

/// The symbols of the first `files` squares of a rank, each followed by a space.
pub open spec fn rank_symbols(pieces: Map<Square, Piece>, rank: int, files: nat) -> Seq<char>
    decreases files,
{
    if files == 0 {
        Seq::empty()
    } else {
        rank_symbols(pieces, rank, (files - 1) as nat) + seq![
            square_symbol(pieces, rank, files - 1),
            ' ',
        ]
    }
}

/// The printed line of a rank: its digit, a bar, a space, then its eight squares.
pub open spec fn rank_line(pieces: Map<Square, Piece>, rank: int) -> Seq<char> {
    seq![rank_digit(rank), '|', ' '] + rank_symbols(pieces, rank, 8)
}

/// The line that says whose turn it is.
pub open spec fn turn_line(to_act: Color) -> Seq<char> {
    "CHESS! "@ + (match to_act {
        Color::White => "White"@,
        Color::Black => "Black"@,
    }) + " to play."@
}

/// The lines of the ranks from the eighth down to the one above `rank`.
pub open spec fn rank_lines_above(pieces: Map<Square, Piece>, rank: int) -> Seq<Seq<char>>
    decreases 8 - rank,
{
    if rank >= 8 {
        Seq::empty()
    } else {
        rank_lines_above(pieces, rank + 1).push(rank_line(pieces, rank))
    }
}

/// The letter of a piece, as a string.
fn piece_symbol(p: Piece) -> (r: &'static str)
    ensures
        r@ == seq![p.to_char()],
{
    proof {
        reveal_strlit("P");
        reveal_strlit("N");
        reveal_strlit("B");
        reveal_strlit("R");
        reveal_strlit("Q");
        reveal_strlit("K");
        reveal_strlit("p");
        reveal_strlit("n");
        reveal_strlit("b");
        reveal_strlit("r");
        reveal_strlit("q");
        reveal_strlit("k");
    }
    let r = match p.color {
        Color::White => match p.title {
            Title::Pawn => "P",
            Title::Knight => "N",
            Title::Bishop => "B",
            Title::Rook => "R",
            Title::Queen => "Q",
            Title::King => "K",
        },
        Color::Black => match p.title {
            Title::Pawn => "p",
            Title::Knight => "n",
            Title::Bishop => "b",
            Title::Rook => "r",
            Title::Queen => "q",
            Title::King => "k",
        },
    };
    assert(r@ =~= seq![piece_letter(p.color, p.title)]);
    r
}

/// The digit of a rank followed by a bar and a space.
fn rank_label(rank: i32) -> (r: &'static str)
    requires
        0 <= rank < 8,
    ensures
        r@ == seq![rank_digit(rank as int), '|', ' '],
{
    proof {
        reveal_strlit("1| ");
        reveal_strlit("2| ");
        reveal_strlit("3| ");
        reveal_strlit("4| ");
        reveal_strlit("5| ");
        reveal_strlit("6| ");
        reveal_strlit("7| ");
        reveal_strlit("8| ");
    }
    let r = if rank == 0 {
        "1| "
    } else if rank == 1 {
        "2| "
    } else if rank == 2 {
        "3| "
    } else if rank == 3 {
        "4| "
    } else if rank == 4 {
        "5| "
    } else if rank == 5 {
        "6| "
    } else if rank == 6 {
        "7| "
    } else {
        "8| "
    };
    assert(r@ =~= seq![rank_digit(rank as int), '|', ' ']);
    r
}

/// The printed line of the rank `rank` of `board`.
fn rank_text(board: &Board, rank: i32) -> (line: String)
    requires
        0 <= rank < 8,
    ensures
        line@ == rank_line(board@.pieces, rank as int),
{
    proof {
        reveal_strlit(" ");
        reveal_strlit(",");
        reveal_strlit(".");
    }
    let mut line = String::from_str(rank_label(rank));
    let ghost label = line@;
    let mut file: i32 = 0;
    assert(line@ =~= label + rank_symbols(board@.pieces, rank as int, 0));
    while file < 8
        invariant
            0 <= file <= 8,
            0 <= rank < 8,
            ","@ == seq![','],
            "."@ == seq!['.'],
            " "@ == seq![' '],
            line@ == label + rank_symbols(board@.pieces, rank as int, file as nat),
        decreases 8 - file,
    {
        let ghost so_far = line@;
        let s = Square::new(rank, file).unwrap();
        match board.pieces.get(&s) {
            Some(p) => {
                line.append(piece_symbol(p));
            },
            None => {
                if (rank + file) % 2 == 0 {
                    line.append(",");
                } else {
                    line.append(".");
                }
            },
        }
        line.append(" ");
        assert(line@ =~= so_far + seq![
            square_symbol(board@.pieces, rank as int, file as int),
            ' ',
        ]);
        assert(line@ =~= label + rank_symbols(board@.pieces, rank as int, (file + 1) as nat));
        file += 1;
    }
    line
}

/// The board as it is printed for the players: an empty line, the line that says whose
/// turn it is, the files' letters, the eight ranks from the eighth down to the first,
/// and the files' letters again.
pub fn board_state_lines(board: &Board) -> (lines: Vec<String>)
    ensures
        lines@.len() == 12,
        lines@[0]@ == Seq::<char>::empty(),
        lines@[1]@ == turn_line(board@.to_act),
        lines@[2]@ == "  _a_b_c_d_e_f_g_h_"@,
        forall|rank: int| 0 <= rank < 8 ==> (#[trigger] lines@[10 - rank])@ == rank_line(
            board@.pieces,
            rank,
        ),
        lines@[11]@ == "  -a-b-c-d-e-f-g-h-"@,
{
    let mut lines: Vec<String> = Vec::new();
    lines.push(String::new());
    let mut title = String::from_str("CHESS! ");
    title.append(board.to_act.name());
    title.append(" to play.");
    lines.push(title);
    lines.push(String::from_str("  _a_b_c_d_e_f_g_h_"));
    let mut rank: i32 = 7;
    while rank >= 0
        invariant
            -1 <= rank <= 7,
            lines@.len() == 10 - rank,
            lines@[0]@ == Seq::<char>::empty(),
            lines@[1]@ == turn_line(board@.to_act),
            lines@[2]@ == "  _a_b_c_d_e_f_g_h_"@,
            forall|r: int| rank < r < 8 ==> (#[trigger] lines@[10 - r])@ == rank_line(
                board@.pieces,
                r,
            ),
        decreases rank + 1,
    {
        lines.push(rank_text(board, rank));
        rank -= 1;
    }
    lines.push(String::from_str("  -a-b-c-d-e-f-g-h-"));
    lines
}

} // verus!
