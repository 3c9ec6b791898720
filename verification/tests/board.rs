use hansing_chess::board::Board;
use hansing_chess::color::Color;
use hansing_chess::movedata::MoveData;
use hansing_chess::occupancy::Occupancy;
use hansing_chess::piece::Piece;
use hansing_chess::square::Square;
use hansing_chess::title::Title;

fn moved(color: Color, title: Title) -> Piece {
    Piece { color, title, has_moved: true }
}

#[test]
fn test_threatend_knight() {
    let mut board = Board::new_standard();

    let b8 = Square::new(7, 1).unwrap();
    let e4 = Square::new(3, 4).unwrap();
    let e1 = Square::new(0, 4).unwrap();
    let g3 = Square::new(2, 6).unwrap();
    let e2 = Square::new(1, 5).unwrap();
    let move1 = MoveData::new_standard(e1, g3);
    let move2 = MoveData::new_standard(b8, e4);

    board.make_move(move1);
    let (a, _) = board.check_if_threatend(g3, board.pieces.get(&g3).unwrap().color);
    assert!(!a);
    board.make_move(move2);
    let (a, b) = board.check_if_threatend(g3, board.pieces.get(&g3).unwrap().color);
    assert!(a);
    assert!(b.contains(&e2));
}

#[test]
fn test_threatend_bishop() {
    let mut board = Board::new_standard();

    let c8 = Square::new(7, 2).unwrap();
    let e5 = Square::new(4, 4).unwrap();
    let e1 = Square::new(0, 4).unwrap();
    let g3 = Square::new(2, 6).unwrap();
    let e2 = Square::new(1, 5).unwrap();
    let move1 = MoveData::new_standard(e1, g3);
    let move2 = MoveData::new_standard(c8, e5);

    board.make_move(move1);
    let (a, _) = board.check_if_threatend(g3, board.pieces.get(&g3).unwrap().color);
    assert!(!a);
    board.make_move(move2);
    let (a, b) = board.check_if_threatend(g3, board.pieces.get(&g3).unwrap().color);
    assert!(a);
    assert!(b.contains(&e2));
}

#[test]
fn test_threatend_rook() {
    let mut board = Board::new_standard();

    let a8 = Square::new(7, 0).unwrap();
    let e3 = Square::new(2, 4).unwrap();
    let e1 = Square::new(0, 4).unwrap();
    let g3 = Square::new(2, 6).unwrap();
    let g2 = Square::new(1, 6).unwrap();
    let g4 = Square::new(3, 6).unwrap();
    let move1 = MoveData::new_standard(e1, g3);
    let move2 = MoveData::new_standard(a8, e3);

    board.make_move(move1);
    let (a, _) = board.check_if_threatend(g3, board.pieces.get(&g3).unwrap().color);
    assert!(!a);
    board.make_move(move2);
    let (a, b) = board.check_if_threatend(g3, board.pieces.get(&g3).unwrap().color);
    assert!(a);
    assert!(b.contains(&g2));
    assert!(b.contains(&e3));
    assert!(!b.contains(&g4));
}

#[test]
fn test_threatend_pawn() {
    let mut board = Board::new_standard();

    let e1 = Square::new(0, 4).unwrap();
    let g6 = Square::new(5, 6).unwrap();

    let move1 = MoveData::new_standard(e1, g6);
    let (a, _) = board.check_if_threatend(e1, board.pieces.get(&e1).unwrap().color);

    assert!(!a);
    board.make_move(move1);
    let (a, _) = board.check_if_threatend(g6, board.pieces.get(&g6).unwrap().color);
    assert!(a);
}

#[test]
fn make_move_from_move_data() {
    let d2 = Square::new(1, 3).unwrap();
    let d5 = Square::new(4, 3).unwrap();
    let e5 = Square::new(4, 4).unwrap();
    let e6 = Square::new(5, 4).unwrap();
    let e7 = Square::new(6, 4).unwrap();

    let a2 = Square::new(1, 0).unwrap();
    let a8 = Square::new(7, 0).unwrap();

    let a1 = Square::new(0, 0).unwrap();
    let e1 = Square::new(0, 4).unwrap();
    let e3 = Square::new(2, 0).unwrap();
    let a3 = Square::new(2, 4).unwrap();

    let standard = MoveData::new_standard(d2, d5);
    let double_step = MoveData::new_double_step(e7, e5, e6);
    let en_passant = MoveData::new_en_passant(d5, e6, e5);
    let promotion = MoveData::new_promotion(a2, a8, Some(Title::Queen));
    let casteling = MoveData::new_casteling(e1, e3, a1, a3);
    let mut board = Board::new_standard();
    board.make_move(standard);
    assert!(!board.pieces.contains_key(&d2));
    assert_eq!(board.pieces.get(&d5).unwrap(), moved(Color::White, Title::Pawn));
    assert_eq!(board.captures.len(), 0);
    board.make_move(double_step);
    assert_eq!(board.en_passant.unwrap(), e6);
    board.make_move(en_passant);
    assert_eq!(board.captures.len(), 1);
    board.make_move(promotion);
    assert!(!board.pieces.contains_key(&a2));
    assert_eq!(board.pieces.get(&a8).unwrap(), Piece::new(Color::White, Title::Queen));
    board.make_move(casteling);
    assert!(!board.pieces.contains_key(&a1));
    assert!(!board.pieces.contains_key(&e1));
    assert_eq!(board.pieces.get(&a3).unwrap(), moved(Color::White, Title::Rook));
    assert_eq!(board.pieces.get(&e3).unwrap(), moved(Color::White, Title::King));
}

#[test]
fn king_pos() {
    let e1 = Square::new(0, 4).unwrap();
    let e8 = Square::new(7, 4).unwrap();
    let a4 = Square::new(3, 0).unwrap();

    let mut board = Board::new_standard();
    board.update_king_pos();

    assert_eq!(board.king_pos[0], e1);
    assert_eq!(board.king_pos[1], e8);

    let md = MoveData::new_standard(e1, a4);
    board.make_move(md);
    assert!(board.pieces.contains_key(&a4));
    board.update_king_pos();
    assert_eq!(board.king_pos[0], a4);
}

#[test]
fn new_empty() {
    let new_empty = Board::new_empty();
    assert_eq!(new_empty.to_act, Color::White);
    assert_eq!(new_empty.captures.len(), 0);
    assert_eq!(new_empty.pieces.len(), 0);
}

#[test]
fn new_standard() {
    let new_std = Board::new_standard();
    assert_eq!(new_std.to_act, Color::White);
    assert_eq!(new_std.captures.len(), 0);
    assert_eq!(new_std.pieces.len(), 32);
}

#[test]
fn standard_content() {
    let new_std = Board::new_standard();
    assert_eq!(
        new_std.pieces.get(&Square::new(1, 0).unwrap()).unwrap(),
        Piece::new(Color::White, Title::Pawn)
    );
    assert_eq!(
        new_std.pieces.get(&Square::new(1, 4).unwrap()).unwrap(),
        Piece::new(Color::White, Title::Pawn)
    );
    assert_eq!(
        new_std.pieces.get(&Square::new(1, 7).unwrap()).unwrap(),
        Piece::new(Color::White, Title::Pawn)
    );
    assert_eq!(
        new_std.pieces.get(&Square::new(6, 6).unwrap()).unwrap(),
        Piece::new(Color::Black, Title::Pawn)
    );
    assert_eq!(
        new_std.pieces.get(&Square::new(6, 7).unwrap()).unwrap(),
        Piece::new(Color::Black, Title::Pawn)
    );
    assert_eq!(
        new_std.pieces.get(&Square::new(6, 5).unwrap()).unwrap(),
        Piece::new(Color::Black, Title::Pawn)
    );

    assert_eq!(
        new_std.pieces.get(&Square::new(0, 0).unwrap()).unwrap(),
        Piece::new(Color::White, Title::Rook)
    );
    assert_eq!(
        new_std.pieces.get(&Square::new(0, 1).unwrap()).unwrap(),
        Piece::new(Color::White, Title::Knight)
    );
    assert_eq!(
        new_std.pieces.get(&Square::new(0, 4).unwrap()).unwrap(),
        Piece::new(Color::White, Title::King)
    );
    assert_eq!(
        new_std.pieces.get(&Square::new(7, 3).unwrap()).unwrap(),
        Piece::new(Color::Black, Title::Queen)
    );
    assert_eq!(
        new_std.pieces.get(&Square::new(7, 2).unwrap()).unwrap(),
        Piece::new(Color::Black, Title::Bishop)
    );
    assert_eq!(
        new_std.pieces.get(&Square::new(7, 4).unwrap()).unwrap(),
        Piece::new(Color::Black, Title::King)
    );
}

#[test]
fn occupancy() {
    let new_std = Board::new_standard();
    assert_eq!(
        new_std.occupancy(Square::new(4, 4).unwrap(), Color::Black),
        Occupancy::Empty
    );
    assert_eq!(
        new_std.occupancy(Square::new(4, 4).unwrap(), Color::White),
        Occupancy::Empty
    );
    assert_eq!(
        new_std.occupancy(Square::new(1, 0).unwrap(), Color::Black),
        Occupancy::OtherColor
    );
    assert_eq!(
        new_std.occupancy(Square::new(1, 0).unwrap(), Color::White),
        Occupancy::SameColor
    );
    assert_eq!(
        new_std.occupancy(Square::new(7, 1).unwrap(), Color::White),
        Occupancy::OtherColor
    );
    assert_eq!(
        new_std.occupancy(Square::new(7, 1).unwrap(), Color::Black),
        Occupancy::SameColor
    );
}

#[test]
fn primitive_piece_manipluation() {
    let mut board = Board::new_empty();

    board.pieces.insert(
        Square::new(7, 7).unwrap(),
        Piece::new(Color::Black, Title::Queen),
    );
    assert_eq!(
        board.pieces.get(&Square::new(7, 7).unwrap()).unwrap(),
        Piece::new(Color::Black, Title::Queen)
    );
    assert_eq!(
        board
            .replace_piece(
                Square::new(7, 7).unwrap(),
                Piece::new(Color::White, Title::Bishop)
            )
            .unwrap(),
        Piece::new(Color::Black, Title::Queen)
    );
    board.replace_piece_with_capture(
        Square::new(7, 7).unwrap(),
        Piece::new(Color::Black, Title::Rook),
    );
    assert_eq!(board.captures[0], Piece::new(Color::White, Title::Bishop));
    board.remove_piece(Square::new(7, 7).unwrap());
    assert!(!board.pieces.contains_key(&Square::new(7, 7).unwrap()));
}

#[test]
fn move_piece_manipluation() {
    let mut board = Board::new_empty();
    let (a, b, c) = (
        Square::new(7, 7).unwrap(),
        Square::new(5, 5).unwrap(),
        Square::new(4, 4).unwrap(),
    );
    board
        .pieces
        .insert(a, Piece::new(Color::White, Title::Queen));
    board
        .pieces
        .insert(b, Piece::new(Color::Black, Title::Knight));
    board
        .pieces
        .insert(c, Piece::new(Color::Black, Title::Bishop));
    board.move_piece(a, b);
    assert_eq!(board.captures.len(), 0);
    assert!(!board.pieces.contains_key(&a));
    assert_eq!(board.pieces.get(&b).unwrap(), moved(Color::White, Title::Queen));
    board.move_piece_with_capture(b, c);
    assert_eq!(board.captures.len(), 1);
    assert!(!board.pieces.contains_key(&b));
    assert_eq!(board.pieces.get(&c).unwrap(), moved(Color::White, Title::Queen));
}
