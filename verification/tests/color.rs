use hansing_chess::color::Color;
use hansing_chess::title::Title;

#[test]
fn color_eq() {
    assert_eq!(Color::White, Color::White)
}

#[test]
fn color_inverse() {
    assert_eq!(Color::White.inverse(), Color::Black)
}

#[test]
fn seventh_rank() {
    assert_eq!(Color::Black.seventh_rank(), 1)
}

#[test]
fn index() {
    let arr = [10, 20];
    assert_eq!(arr[Color::White.index()], 10);
    assert_eq!(arr[Color::Black.index()], 20)
}

#[test]
fn equals() {
    assert_eq!(Color::White, Color::White);
}

#[test]
#[allow(non_snake_case)]
fn Color_inverse() {
    assert_eq!(Color::White.inverse(), Color::Black);
}

#[test]
fn forward() {
    assert_eq!(Color::White.forward(), 1);
    assert_eq!(Color::Black.forward(), -1);
}

#[test]
fn color_equals() {
    assert_eq!(Color::White, Color::White);
}

#[test]
fn title_eq() {
    assert_eq!(Title::Bishop, Title::Bishop)
}

#[test]
fn inverse_is_an_involution() {
    assert_eq!(Color::White.inverse().inverse(), Color::White);
    assert_eq!(Color::Black.inverse().inverse(), Color::Black);
    assert_eq!(Color::Black.inverse(), Color::White);
}

#[test]
fn seventh_rank_of_white() {
    assert_eq!(Color::White.seventh_rank(), 6);
}

#[test]
fn color_names() {
    assert_eq!(Color::White.name(), "White");
    assert_eq!(Color::Black.name(), "Black");
}

#[test]
fn titles_differ() {
    assert_ne!(Title::Rook, Title::Pawn);
    assert_eq!(Title::King, Title::King);
}
