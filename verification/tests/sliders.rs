use haitaka::bitboard::BitBoard;
use haitaka::color::Color;
use haitaka::file::File;
use haitaka::rank::Rank;
use haitaka::sliders::{
    bishop_pseudo_attacks, get_bishop_moves, get_bishop_moves_slow, get_bishop_relevant_blockers,
    get_lance_relevant_blockers, get_rook_moves_slow, get_rook_relevant_blockers, rook_pseudo_attacks,
};
use haitaka::square::Square;

/// Reads a board drawn with ranks a..i from top to bottom and files 9..1 from left to
/// right; `X` marks a member square.
fn grid(text: &str) -> BitBoard {
    let cells: Vec<&str> = text.split_whitespace().collect();
    assert_eq!(cells.len(), 81);
    let mut bb = BitBoard::empty();
    for (i, c) in cells.iter().enumerate() {
        if *c == "X" {
            let row = i / 9;
            let col = i % 9;
            let sq = Square::new(File::ALL[8 - col], Rank::ALL[row]);
            bb = bb.bitor(sq.bitboard());
        }
    }
    bb
}

#[test]
fn test_rook() {
    let occ = BitBoard::empty();
    let expected = rook_pseudo_attacks(Square::E5);
    let actual = get_rook_moves_slow(Square::E5, occ);
    assert_eq!(actual, expected);
}

#[test]
fn test_relevant_blockers() {
    let bb = get_rook_relevant_blockers(Square::E5);
    assert!(!bb.has(Square::E5));
    let bb = get_bishop_relevant_blockers(Square::E5);
    assert!(!bb.has(Square::E5));
    let bb = get_lance_relevant_blockers(Square::E5, Color::Black);
    assert!(!bb.has(Square::E5));
    let bb = get_lance_relevant_blockers(Square::E5, Color::White);
    assert!(!bb.has(Square::E5));
}

#[test]
fn test_bishop_fast_and_slow_e5() {
    let occ = BitBoard::empty();
    let expected = bishop_pseudo_attacks(Square::E5);
    let actual1 = get_bishop_moves_slow(Square::E5, occ);
    assert_eq!(actual1, expected);
    let actual2 = get_bishop_moves(Color::White, Square::E5, occ);
    assert_eq!(actual2, expected);
}

#[test]
fn test_bishop_fast_and_slow_g3() {
    let occ = BitBoard::empty();
    let expected = bishop_pseudo_attacks(Square::G3);
    let actual1 = get_bishop_moves_slow(Square::G3, occ);
    assert_eq!(actual1, expected);
    let actual2 = get_bishop_moves(Color::White, Square::G3, occ);
    assert_eq!(actual2, expected);
}

#[test]
fn test_bishop_fast_and_slow_a1() {
    let occ = BitBoard::empty();
    let expected = bishop_pseudo_attacks(Square::A1);
    let actual1 = get_bishop_moves_slow(Square::A1, occ);
    assert_eq!(actual1, expected);
    let actual2 = get_bishop_moves(Color::White, Square::A1, occ);
    assert_eq!(actual2, expected);
}

#[test]
fn test_bishop_moves() {
    let occ = grid(
        ". . . . . . . . .
         . . . . X . . X .
         . . X . . . . . .
         . . . . . . . . .
         X X . . X . . X .
         . . . . . . . . .
         . . . . . . X . .
         . X . . X . . . .
         . . . . . . . . .",
    );
    let e5_attacks = grid(
        ". . . . . . . . .
         . . . . . . . X .
         . . X . . . X . .
         . . . X . X . . .
         . . . . * . . . .
         . . . X . X . . .
         . . X . . . X . .
         . X . . . . . . .
         . . . . . . . . .",
    );
    let h8_attacks = grid(
        ". . . . . . . . .
         . . . . . . . . .
         . . . . . . . . .
         . . . . . . . . .
         . . . . X . . . .
         . . . X . . . . .
         X . X . . . . . .
         . * . . . . . . .
         X . X . . . . . .",
    );
    let g3_attacks = grid(
        ". . . . . . . . .
         . . . . . . . . .
         . . . . . . . . .
         . . . . . . . . .
         . . . . X . . . X
         . . . . . X . X .
         . . . . . . * . .
         . . . . . X . X .
         . . . . X . . . X",
    );
    let actual = get_bishop_moves(Color::White, Square::E5, occ);
    assert_eq!(actual, e5_attacks);
    let actual = get_bishop_moves(Color::Black, Square::E5, occ);
    assert_eq!(actual, e5_attacks);
    let actual = get_bishop_moves(Color::White, Square::H8, occ);
    assert_eq!(actual, h8_attacks);
    assert!(occ.has(Square::G3));
    assert!(Square::G3.up_diagonal().has(Square::G3));
    assert!(Square::G3.down_diagonal().has(Square::G3));
    let actual1 = get_bishop_moves_slow(Square::G3, occ);
    assert_eq!(actual1, g3_attacks);
    let actual2 = get_bishop_moves(Color::White, Square::G3, occ);
    assert_eq!(actual2, g3_attacks);
}
