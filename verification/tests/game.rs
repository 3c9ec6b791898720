use hansing_chess::board::Board;
use hansing_chess::color::Color;
use hansing_chess::game::{game_over_message, Game, GameResult};
use hansing_chess::input::pointer_event;
use hansing_chess::movedata::{MoveData, MoveType};
use hansing_chess::movegen::generate_action_space;
use hansing_chess::piece::Piece;
use hansing_chess::render::board_state_lines;
use hansing_chess::square::Square;
use hansing_chess::title::Title;

fn sq(rank: i32, file: i32) -> Square {
    Square::new(rank, file).unwrap()
}

fn moved(color: Color, title: Title) -> Piece {
    Piece { color, title, has_moved: true }
}

/// A game in the position given, with `to_act` to act and its moves worked out.
fn game_at(pieces: &[(Square, Piece)], to_act: Color) -> Game {
    let mut board = Board::new_empty();
    for (s, p) in pieces {
        board.pieces.insert(*s, *p);
    }
    board.to_act = to_act.inverse();
    board.next_turn();
    let mut game = Game::new();
    game.action_space = generate_action_space(board.clone());
    game.board = board;
    game
}

#[test]
fn new_game() {
    let game = Game::new();
    assert_eq!(game.board.pieces.len(), 32);
    assert_eq!(game.board.to_act, Color::White);
    assert!(!game.board.in_check);
    assert_eq!(game.board.en_passant, None);
    assert_eq!(game.board.king_pos, [sq(0, 4), sq(7, 4)]);
    assert_eq!(game.action_space.len(), 20);
    assert_eq!(game.history.len(), 0);
    assert_eq!(game.result, GameResult::Ongoing);
    assert_eq!(game.promote_to, Title::Queen);
}

#[test]
fn starting_board_is_settled() {
    let board = Board::new_standard();
    let e1 = sq(0, 4);
    assert_eq!(board.king_pos, [e1, sq(7, 4)]);
    assert_eq!(board.en_passant, None);
    assert!(board.captures.is_empty());
    assert!(!board.in_check);
    assert!(board.blockers.contains(&board.king_pos[0]));
    assert_eq!(board.blockers, vec![e1, sq(1, 5), sq(1, 3), sq(1, 4), sq(0, 5), sq(0, 3)]);
    let (check, blockers) = board.check_if_threatend(e1, Color::White);
    assert_eq!((board.in_check, &board.blockers), (check, &blockers));

    let game = Game::new();
    assert!(!game.board.in_check);
    assert_eq!(game.board.blockers, blockers);
    assert_eq!(game.board.blockers[0], game.board.king_pos[0]);
}

#[test]
fn empty_board_has_the_kings_square_for_its_blocker() {
    let board = Board::new_empty();
    assert!(!board.in_check);
    assert_eq!(board.blockers, vec![board.king_pos[0]]);
    assert_eq!(board.king_pos, [sq(0, 4), sq(7, 4)]);
}

#[test]
fn update_check_reads_the_pieces() {
    let mut board = Board::new_empty();
    board.pieces.insert(sq(0, 4), Piece::new(Color::White, Title::King));
    board.pieces.insert(sq(5, 4), Piece::new(Color::Black, Title::Rook));
    board.pieces.insert(sq(0, 0), Piece::new(Color::White, Title::Rook));
    assert!(!board.in_check);
    board.update_check();
    assert!(board.in_check);
    assert_eq!(board.blockers, vec![sq(0, 4), sq(5, 4), sq(0, 0)]);
    assert_eq!(board.to_act, Color::White);
}

#[test]
fn blockers_start_with_the_king_after_every_move() {
    let mut game = Game::new();
    for note in ["e2 e4", "e7 e5", "e1 e2", "e8 e7", "e2 f3", "d7 d6"] {
        game.make_move_from_notation(note.to_string());
        let king = game.board.king_pos[game.board.to_act.index()];
        assert_eq!(game.board.blockers[0], king);
        assert_eq!(game.board.pieces.get(&king).map(|p| p.title), Some(Title::King));
    }
    assert_eq!(game.board.king_pos, [sq(2, 5), sq(6, 4)]);
}

#[test]
fn two_plain_pawn_moves_on_the_board() {
    let (e2, e4, e7, e5) = (sq(1, 4), sq(3, 4), sq(6, 4), sq(4, 4));
    let mut board = Board::new_standard();
    board.make_move(MoveData::new_standard(e2, e4));
    assert_eq!(board.to_act, Color::Black);
    board.make_move(MoveData::new_standard(e7, e5));
    assert!(!board.pieces.contains_key(&e2));
    assert!(!board.pieces.contains_key(&e7));
    assert_eq!(board.pieces.get(&e4), Some(moved(Color::White, Title::Pawn)));
    assert_eq!(board.pieces.get(&e5), Some(moved(Color::Black, Title::Pawn)));
    assert_eq!(board.captures.len(), 0);
    assert_eq!(board.to_act, Color::White);
    assert_eq!(board.en_passant, None);
    assert_eq!(board.pieces.len(), 32);
    assert!(!board.in_check);
}

#[test]
fn double_step_sets_and_the_next_move_clears_the_en_passant_square() {
    let mut board = Board::new_standard();
    board.make_move(MoveData::new_double_step(sq(1, 4), sq(3, 4), sq(2, 4)));
    assert_eq!(board.en_passant, Some(sq(2, 4)));
    board.make_move(MoveData::new_standard(sq(6, 0), sq(5, 0)));
    assert_eq!(board.en_passant, None);
}

#[test]
fn legal_move_is_made() {
    let mut game = Game::new();
    let m = MoveData::new_double_step(sq(1, 4), sq(3, 4), sq(2, 4));
    assert!(game.is_legal(&m));
    game.make_move(m);
    assert_eq!(game.board.to_act, Color::Black);
    assert_eq!(game.board.pieces.get(&sq(3, 4)), Some(moved(Color::White, Title::Pawn)));
    assert_eq!(game.action_space.len(), 20);
    assert!(game.action_space.iter().all(|m| m.from.rank() >= 6));
    assert_eq!(game.result, GameResult::Ongoing);
}

#[test]
fn illegal_move_changes_nothing() {
    let mut game = Game::new();
    game.make_move(MoveData::new_double_step(sq(1, 4), sq(3, 4), sq(2, 4)));
    let board = format!("{:?}", game.board);
    let moves = game.action_space.clone();

    let not_the_kind = MoveData::new_standard(sq(6, 4), sq(4, 4));
    assert!(!game.is_legal(&not_the_kind));
    game.make_move(not_the_kind);
    assert_eq!(format!("{:?}", game.board), board);
    assert_eq!(game.action_space, moves);
    assert_eq!(game.result, GameResult::Ongoing);

    let not_the_side = MoveData::new_standard(sq(1, 0), sq(2, 0));
    game.make_move(not_the_side);
    assert_eq!(format!("{:?}", game.board), board);
    assert_eq!(game.action_space, moves);
    assert_eq!(game.result, GameResult::Ongoing);

    let rook_through_pawn = MoveData::new_standard(sq(7, 0), sq(4, 0));
    game.make_move(rook_through_pawn);
    assert_eq!(format!("{:?}", game.board), board);
    assert_eq!(game.action_space, moves);
}

#[test]
fn move_from_notation() {
    let mut game = Game::new();
    game.make_move_from_notation("e2 e4".to_string());
    assert_eq!(game.board.to_act, Color::Black);
    assert_eq!(game.board.pieces.get(&sq(3, 4)), Some(moved(Color::White, Title::Pawn)));
    assert_eq!(game.board.en_passant, Some(sq(2, 4)));
    game.make_move_from_notation("g8 f6".to_string());
    assert_eq!(game.board.to_act, Color::White);
    assert_eq!(game.board.pieces.get(&sq(5, 5)), Some(moved(Color::Black, Title::Knight)));
    assert_eq!(game.board.en_passant, None);
}

#[test]
fn notation_without_a_move_changes_nothing() {
    let mut game = Game::new();
    let board = format!("{:?}", game.board);
    let moves = game.action_space.clone();
    for note in ["e2 e5", "e7 e5", "", "e2", "e2e4", "e2 e4 ", "E2 E4", "i9 z0", "castle"] {
        game.make_move_from_notation(note.to_string());
        assert_eq!(format!("{:?}", game.board), board);
        assert_eq!(game.action_space, moves);
        assert_eq!(game.result, GameResult::Ongoing);
    }
}

#[test]
fn checkmate_is_won_by_the_side_that_moved() {
    let mut game = Game::new();
    game.make_move_from_notation("f2 f3".to_string());
    game.make_move_from_notation("e7 e5".to_string());
    game.make_move_from_notation("g2 g4".to_string());
    assert_eq!(game.result, GameResult::Ongoing);
    game.make_move(MoveData::new_standard(sq(7, 3), sq(3, 7)));
    assert_eq!(game.board.to_act, Color::White);
    assert!(game.board.in_check);
    assert_eq!(game.action_space.len(), 0);
    assert_eq!(game.result, GameResult::Won(Color::Black));
}

#[test]
fn nothing_is_made_once_the_game_is_over() {
    let mut game = Game::new();
    game.make_move_from_notation("f2 f3".to_string());
    game.make_move_from_notation("e7 e5".to_string());
    game.make_move_from_notation("g2 g4".to_string());
    game.make_move_from_notation("d8 h4".to_string());
    assert_eq!(game.result, GameResult::Won(Color::Black));
    let board = format!("{:?}", game.board);
    game.make_move_from_notation("a2 a3".to_string());
    game.make_move(MoveData::new_standard(sq(1, 0), sq(2, 0)));
    assert_eq!(format!("{:?}", game.board), board);
    assert_eq!(game.result, GameResult::Won(Color::Black));
}

#[test]
fn stalemate_is_a_tie() {
    let mut game = game_at(
        &[
            (sq(7, 7), moved(Color::Black, Title::King)),
            (sq(6, 5), moved(Color::White, Title::King)),
            (sq(5, 2), moved(Color::White, Title::Queen)),
        ],
        Color::White,
    );
    game.make_move(MoveData::new_standard(sq(5, 2), sq(5, 6)));
    assert_eq!(game.board.to_act, Color::Black);
    assert!(!game.board.in_check);
    assert_eq!(game.action_space.len(), 0);
    assert_eq!(game.result, GameResult::Tied);
}

#[test]
fn check_for_game_over_reads_moves_and_check() {
    let mut game = Game::new();
    game.check_for_game_over();
    assert_eq!(game.result, GameResult::Ongoing);

    game.action_space.clear();
    game.check_for_game_over();
    assert_eq!(game.result, GameResult::Tied);

    game.board.in_check = true;
    game.check_for_game_over();
    assert_eq!(game.result, GameResult::Won(Color::Black));

    game.board.to_act = Color::Black;
    game.check_for_game_over();
    assert_eq!(game.result, GameResult::Won(Color::White));

    game.action_space.push(MoveData::new_standard(sq(0, 0), sq(0, 1)));
    game.check_for_game_over();
    assert_eq!(game.result, GameResult::Won(Color::White));
}

#[test]
fn promotion_title_of_the_game() {
    let mut game = game_at(
        &[
            (sq(0, 4), moved(Color::White, Title::King)),
            (sq(7, 7), moved(Color::Black, Title::King)),
            (sq(5, 0), moved(Color::White, Title::Pawn)),
            (sq(2, 7), moved(Color::Black, Title::Pawn)),
        ],
        Color::White,
    );
    game.set_deafault_promotion(Title::Knight);
    assert_eq!(game.promote_to, Title::Knight);
    game.make_move(MoveData::new_standard(sq(5, 0), sq(6, 0)));
    game.make_move(MoveData::new_standard(sq(2, 7), sq(1, 7)));
    let promotion = MoveData::new_promotion(sq(6, 0), sq(7, 0), Some(Title::Knight));
    assert!(game.action_space.contains(&promotion));
    assert!(!game
        .action_space
        .contains(&MoveData::new_promotion(sq(6, 0), sq(7, 0), Some(Title::Queen))));
    game.make_move(promotion);
    assert_eq!(game.board.pieces.get(&sq(7, 0)), Some(Piece::new(Color::White, Title::Knight)));
    assert!(game
        .action_space
        .contains(&MoveData::new_promotion(sq(1, 7), sq(0, 7), Some(Title::Knight))));
}

#[test]
fn promotion_without_a_title_gives_a_queen() {
    let pieces = [
        (sq(6, 0), moved(Color::White, Title::Pawn)),
        (sq(7, 1), Piece::new(Color::Black, Title::Rook)),
    ];
    let titles = [
        (None, Title::Queen),
        (Some(Title::Queen), Title::Queen),
        (Some(Title::Knight), Title::Knight),
        (Some(Title::Rook), Title::Rook),
        (Some(Title::Bishop), Title::Bishop),
    ];
    for (asked, got) in titles {
        let mut board = Board::new_empty();
        for (s, p) in pieces {
            board.pieces.insert(s, p);
        }
        board.make_move(MoveData::new_promotion(sq(6, 0), sq(7, 0), asked));
        assert_eq!(board.pieces.get(&sq(7, 0)), Some(Piece::new(Color::White, got)));
        assert!(!board.pieces.contains_key(&sq(6, 0)));
        assert_eq!(board.captures.len(), 0);

        let mut board = Board::new_empty();
        for (s, p) in pieces {
            board.pieces.insert(s, p);
        }
        board.make_move(MoveData::new_promotion(sq(6, 0), sq(7, 1), asked));
        assert_eq!(board.pieces.get(&sq(7, 1)), Some(Piece::new(Color::White, got)));
        assert_eq!(board.captures, vec![Piece::new(Color::Black, Title::Rook)]);
    }
}

#[test]
fn moves_that_name_empty_squares_do_nothing_to_the_pieces() {
    let start = Board::new_standard();
    let empty = sq(4, 4);
    let moves = [
        MoveData::new_standard(empty, sq(6, 0)),
        MoveData::new_double_step(empty, sq(6, 0), sq(5, 0)),
        MoveData::new_promotion(empty, sq(4, 5), Some(Title::Rook)),
        MoveData::new_casteling(empty, sq(4, 5), sq(4, 6), sq(4, 7)),
        MoveData::new_en_passant(empty, sq(4, 5), sq(4, 6)),
    ];
    for m in moves {
        let mut board = start.clone();
        board.make_move(m);
        assert_eq!(board.pieces.len(), 32);
        assert_eq!(board.captures.len(), 0);
        assert_eq!(board.pieces.get(&sq(6, 0)), Some(Piece::new(Color::Black, Title::Pawn)));
        assert_eq!(board.to_act, Color::Black);
        match m.move_type {
            MoveType::DoubleStep(s) => assert_eq!(board.en_passant, Some(s)),
            _ => assert_eq!(board.en_passant, None),
        }
    }
}

#[test]
fn next_turn_finds_check_and_blockers() {
    let mut board = Board::new_empty();
    board.pieces.insert(sq(0, 4), moved(Color::White, Title::King));
    board.pieces.insert(sq(7, 4), moved(Color::Black, Title::King));
    board.pieces.insert(sq(2, 4), moved(Color::White, Title::Rook));
    board.pieces.insert(sq(0, 0), moved(Color::White, Title::Queen));
    board.next_turn();
    assert_eq!(board.to_act, Color::Black);
    assert!(board.in_check);
    assert_eq!(board.blockers, vec![sq(7, 4), sq(2, 4)]);
    board.next_turn();
    assert_eq!(board.to_act, Color::White);
    assert!(!board.in_check);
    assert_eq!(board.blockers, vec![sq(0, 4), sq(2, 4), sq(0, 0)]);
}

#[test]
fn blockers_come_diagonals_first() {
    let mut board = Board::new_empty();
    let target = sq(3, 3);
    board.pieces.insert(sq(5, 5), Piece::new(Color::White, Title::Pawn));
    board.pieces.insert(sq(6, 6), Piece::new(Color::Black, Title::Bishop));
    board.pieces.insert(sq(0, 0), Piece::new(Color::Black, Title::Rook));
    board.pieces.insert(sq(1, 5), Piece::new(Color::Black, Title::Queen));
    board.pieces.insert(sq(3, 7), Piece::new(Color::Black, Title::Bishop));
    board.pieces.insert(sq(7, 3), Piece::new(Color::White, Title::Rook));
    let (threatened, blockers) = board.check_if_threatend(target, Color::White);
    assert!(threatened);
    assert_eq!(blockers, vec![target, sq(5, 5), sq(0, 0), sq(1, 5), sq(7, 3), sq(3, 7)]);
    board.pieces.remove(&sq(1, 5));
    let (threatened, blockers) = board.check_if_threatend(target, Color::White);
    assert!(!threatened);
    assert_eq!(blockers, vec![target, sq(5, 5), sq(0, 0), sq(7, 3), sq(3, 7)]);
    let (threatened, _) = board.check_if_threatend(target, Color::Black);
    assert!(threatened);
}

#[test]
fn a_king_is_no_attacker() {
    let mut board = Board::new_empty();
    board.pieces.insert(sq(3, 3), Piece::new(Color::White, Title::King));
    board.pieces.insert(sq(3, 4), Piece::new(Color::Black, Title::King));
    let (threatened, _) = board.check_if_threatend(sq(3, 3), Color::White);
    assert!(!threatened);
}

#[test]
fn pawns_attack_towards_the_other_side() {
    let mut board = Board::new_empty();
    board.pieces.insert(sq(4, 4), Piece::new(Color::Black, Title::Pawn));
    assert!(board.check_if_threatend(sq(3, 3), Color::White).0);
    assert!(board.check_if_threatend(sq(3, 5), Color::White).0);
    assert!(!board.check_if_threatend(sq(5, 3), Color::White).0);
    assert!(!board.check_if_threatend(sq(3, 4), Color::White).0);
    assert!(!board.check_if_threatend(sq(3, 3), Color::Black).0);
    let mut board = Board::new_empty();
    board.pieces.insert(sq(4, 4), Piece::new(Color::White, Title::Pawn));
    assert!(board.check_if_threatend(sq(5, 3), Color::Black).0);
    assert!(board.check_if_threatend(sq(5, 5), Color::Black).0);
    assert!(!board.check_if_threatend(sq(3, 3), Color::Black).0);
}

#[test]
fn king_lookup_keeps_a_square_that_still_holds_the_king() {
    let mut board = Board::new_empty();
    board.pieces.insert(sq(0, 4), Piece::new(Color::White, Title::King));
    board.pieces.insert(sq(5, 5), Piece::new(Color::White, Title::King));
    board.update_king_pos();
    assert_eq!(board.king_pos, [sq(0, 4), sq(7, 4)]);
    board.pieces.remove(&sq(0, 4));
    board.pieces.insert(sq(2, 2), Piece::new(Color::White, Title::King));
    board.pieces.insert(sq(6, 6), Piece::new(Color::Black, Title::King));
    board.update_king_pos();
    assert_eq!(board.king_pos, [sq(5, 5), sq(6, 6)]);
}

#[test]
fn clone_is_the_same_position() {
    let mut board = Board::new_standard();
    board.make_move(MoveData::new_standard(sq(1, 3), sq(6, 3)));
    let copy = board.clone();
    assert_eq!(format!("{:?}", copy), format!("{:?}", board));
    board.make_move(MoveData::new_standard(sq(7, 3), sq(6, 3)));
    assert_eq!(copy.captures.len(), 1);
    assert_eq!(board.captures.len(), 2);
    assert_eq!(copy.pieces.get(&sq(7, 3)), Some(Piece::new(Color::Black, Title::Queen)));
}

#[test]
fn piece_map_counts_and_forgets() {
    let mut board = Board::new_standard();
    assert_eq!(board.pieces.insert(sq(3, 3), Piece::new(Color::White, Title::Queen)), None);
    assert_eq!(board.pieces.len(), 33);
    assert_eq!(
        board.pieces.insert(sq(3, 3), Piece::new(Color::Black, Title::Queen)),
        Some(Piece::new(Color::White, Title::Queen))
    );
    assert_eq!(board.pieces.len(), 33);
    assert_eq!(board.pieces.remove(&sq(3, 3)), Some(Piece::new(Color::Black, Title::Queen)));
    assert_eq!(board.pieces.remove(&sq(3, 3)), None);
    assert_eq!(board.pieces.len(), 32);
    board.pieces.clear();
    assert_eq!(board.pieces.len(), 0);
    assert_eq!(board.pieces.get(&sq(0, 0)), None);
}

#[test]
fn sixteen_pieces_of_each_colour_at_the_start() {
    let board = Board::new_standard();
    let mut white = 0;
    let mut black = 0;
    for rank in 0..8 {
        for file in 0..8 {
            match board.pieces.get(&sq(rank, file)) {
                Some(p) if p.color == Color::White => white += 1,
                Some(_) => black += 1,
                None => assert!(2 <= rank && rank < 6),
            }
        }
    }
    assert_eq!(white, 16);
    assert_eq!(black, 16);
    let back = [
        Title::Rook,
        Title::Knight,
        Title::Bishop,
        Title::Queen,
        Title::King,
        Title::Bishop,
        Title::Knight,
        Title::Rook,
    ];
    for file in 0..8 {
        let title = back[file as usize];
        assert_eq!(board.pieces.get(&sq(0, file)), Some(Piece::new(Color::White, title)));
        assert_eq!(board.pieces.get(&sq(1, file)), Some(Piece::new(Color::White, Title::Pawn)));
        assert_eq!(board.pieces.get(&sq(6, file)), Some(Piece::new(Color::Black, Title::Pawn)));
        assert_eq!(board.pieces.get(&sq(7, file)), Some(Piece::new(Color::Black, title)));
    }
}

#[test]
fn printed_board_at_the_start() {
    let lines = board_state_lines(&Board::new_standard());
    let expected = [
        "",
        "CHESS! White to play.",
        "  _a_b_c_d_e_f_g_h_",
        "8| r n b q k b n r ",
        "7| p p p p p p p p ",
        "6| . , . , . , . , ",
        "5| , . , . , . , . ",
        "4| . , . , . , . , ",
        "3| , . , . , . , . ",
        "2| P P P P P P P P ",
        "1| R N B Q K B N R ",
        "  -a-b-c-d-e-f-g-h-",
    ];
    assert_eq!(lines, expected);
}

#[test]
fn printed_board_after_a_move() {
    let mut board = Board::new_standard();
    board.make_move(MoveData::new_double_step(sq(1, 4), sq(3, 4), sq(2, 4)));
    let lines = board_state_lines(&board);
    assert_eq!(lines[1], "CHESS! Black to play.");
    assert_eq!(lines[7], "4| . , . , P , . , ");
    assert_eq!(lines[9], "2| P P P P . P P P ");
}

#[test]
fn game_over_messages() {
    assert_eq!(game_over_message(GameResult::Ongoing), None);
    assert_eq!(game_over_message(GameResult::Tied), Some("The game has ended in a tie.".to_string()));
    assert_eq!(game_over_message(GameResult::Won(Color::White)), Some("White has won!".to_string()));
    assert_eq!(game_over_message(GameResult::Won(Color::Black)), Some("Black has won!".to_string()));
}

#[test]
fn move_between_goes_by_the_squares_alone() {
    let game = Game::new();
    assert_eq!(
        game.move_between(sq(1, 4), sq(3, 4)),
        Some(MoveData::new_double_step(sq(1, 4), sq(3, 4), sq(2, 4)))
    );
    assert_eq!(game.move_between(sq(1, 4), sq(2, 4)), Some(MoveData::new_standard(sq(1, 4), sq(2, 4))));
    assert_eq!(game.move_between(sq(1, 4), sq(4, 4)), None);
    assert_eq!(game.move_between(sq(6, 4), sq(4, 4)), None);
}

#[test]
fn dragging_a_piece_makes_the_move() {
    let mut game = Game::new();
    let mut holding = None;
    holding = pointer_event(&mut game, holding, false, Some(sq(1, 4)));
    assert_eq!(holding, None);
    holding = pointer_event(&mut game, holding, true, None);
    assert_eq!(holding, None);
    holding = pointer_event(&mut game, holding, true, Some(sq(1, 4)));
    assert_eq!(holding, Some(sq(1, 4)));
    holding = pointer_event(&mut game, holding, true, Some(sq(2, 4)));
    assert_eq!(holding, Some(sq(1, 4)));
    assert_eq!(game.board.to_act, Color::White);
    holding = pointer_event(&mut game, holding, false, Some(sq(3, 4)));
    assert_eq!(holding, None);
    assert_eq!(game.board.to_act, Color::Black);
    assert_eq!(game.board.pieces.get(&sq(3, 4)), Some(moved(Color::White, Title::Pawn)));
    assert_eq!(game.board.en_passant, Some(sq(2, 4)));

    holding = pointer_event(&mut game, holding, true, Some(sq(6, 0)));
    holding = pointer_event(&mut game, holding, false, None);
    assert_eq!(holding, None);
    assert_eq!(game.board.to_act, Color::Black);
    holding = pointer_event(&mut game, holding, true, Some(sq(6, 0)));
    holding = pointer_event(&mut game, holding, false, Some(sq(3, 0)));
    assert_eq!(holding, None);
    assert_eq!(game.board.to_act, Color::Black);
    assert_eq!(game.board.pieces.len(), 32);
}

#[test]
fn sprite_places() {
    let order = [Title::Pawn, Title::Rook, Title::Knight, Title::Bishop, Title::Queen, Title::King];
    for (i, title) in order.iter().enumerate() {
        assert_eq!(Piece::new(Color::White, *title).sprite_index(), i);
        assert_eq!(Piece::new(Color::Black, *title).sprite_index(), i + 6);
    }
}
