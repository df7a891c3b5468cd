use haitaka::board::zobrist::ZobristBoard;
use haitaka::color::Color;
use haitaka::piece::Piece;
use haitaka::square::Square;

#[test]
fn toggling_twice_restores() {
    let start = ZobristBoard::empty();
    let mut z = start;
    z.xor_square(Piece::Rook, Color::Black, Square::E5);
    assert!(z.pieces(Piece::Rook).has(Square::E5));
    assert!(z.colors(Color::Black).has(Square::E5));
    assert_ne!(z.hash(), start.hash());
    z.xor_square(Piece::Rook, Color::Black, Square::E5);
    assert_eq!(z, start);
}

#[test]
fn hand_in_and_out_restores() {
    let start = ZobristBoard::empty();
    let mut z = start;
    z.take_in_hand(Color::White, Piece::PSilver);
    assert_eq!(z.num_in_hand(Color::White, Piece::Silver), 1);
    z.take_from_hand(Color::White, Piece::Silver);
    assert_eq!(z, start);
}
