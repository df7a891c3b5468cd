use haitaka::attacks::{gold_attacks, king_attacks, knight_attacks, pawn_attacks, silver_attacks};
use haitaka::bitboard::BitBoard;
use haitaka::color::Color;
use haitaka::file::File;
use haitaka::rank::Rank;
use haitaka::square::Square;

/// Reads a board drawn with ranks a..i from top to bottom and files 9..1 from left to
/// right; `X` marks a member square.
fn grid(text: &str) -> BitBoard {
    let cells: Vec<&str> = text.split_whitespace().collect();
    assert_eq!(cells.len(), 81);
    let mut bb = BitBoard::empty();
    for (i, c) in cells.iter().enumerate() {
        if *c == "X" {
            let row = i / 9;
            let col = i % 9;
            let sq = Square::new(File::ALL[8 - col], Rank::ALL[row]);
            bb = bb.bitor(sq.bitboard());
        }
    }
    bb
}

#[test]
fn test_king_attacks() {
    let square = Square::E5;
    let black_attacks = king_attacks(Color::Black, square);
    let white_attacks = king_attacks(Color::White, square);
    assert_eq!(black_attacks, white_attacks);
    assert_eq!(
        black_attacks,
        grid(
            ". . . . . . . . .
             . . . . . . . . .
             . . . . . . . . .
             . . . X X X . . .
             . . . X * X . . .
             . . . X X X . . .
             . . . . . . . . .
             . . . . . . . . .
             . . . . . . . . ."
        )
    );
    let square = Square::A9;
    let black_attacks = king_attacks(Color::Black, square);
    let white_attacks = king_attacks(Color::White, square);
    assert_eq!(black_attacks, white_attacks);
    assert_eq!(
        black_attacks,
        grid(
            "* X . . . . . . .
             X X . . . . . . .
             . . . . . . . . .
             . . . . . . . . .
             . . . . . . . . .
             . . . . . . . . .
             . . . . . . . . .
             . . . . . . . . .
             . . . . . . . . ."
        )
    );
}

#[test]
fn test_gold_attacks() {
    let square = Square::E5;
    let black_attacks = gold_attacks(Color::Black, square);
    let white_attacks = gold_attacks(Color::White, square);
    assert_ne!(black_attacks, white_attacks);
    assert_eq!(
        black_attacks,
        grid(
            ". . . . . . . . .
             . . . . . . . . .
             . . . . . . . . .
             . . . X X X . . .
             . . . X * X . . .
             . . . . X . . . .
             . . . . . . . . .
             . . . . . . . . .
             . . . . . . . . ."
        )
    );
    assert_eq!(
        white_attacks,
        grid(
            ". . . . . . . . .
             . . . . . . . . .
             . . . . . . . . .
             . . . . X . . . .
             . . . X * X . . .
             . . . X X X . . .
             . . . . . . . . .
             . . . . . . . . .
             . . . . . . . . ."
        )
    );
    let square = Square::B1;
    let black_attacks = gold_attacks(Color::Black, square);
    let white_attacks = gold_attacks(Color::White, square);
    assert_ne!(black_attacks, white_attacks);
    assert_eq!(
        black_attacks,
        grid(
            ". . . . . . . X X
             . . . . . . . X *
             . . . . . . . . X
             . . . . . . . . .
             . . . . . . . . .
             . . . . . . . . .
             . . . . . . . . .
             . . . . . . . . .
             . . . . . . . . ."
        )
    );
    assert_eq!(
        white_attacks,
        grid(
            ". . . . . . . . X
             . . . . . . . X *
             . . . . . . . X X
             . . . . . . . . .
             . . . . . . . . .
             . . . . . . . . .
             . . . . . . . . .
             . . . . . . . . .
             . . . . . . . . ."
        )
    );
}

#[test]
fn test_silver_attacks() {
    let square = Square::E5;
    let black_attacks = silver_attacks(Color::Black, square);
    let white_attacks = silver_attacks(Color::White, square);
    assert_ne!(black_attacks, white_attacks);
    assert_eq!(
        black_attacks,
        grid(
            ". . . . . . . . .
             . . . . . . . . .
             . . . . . . . . .
             . . . X X X . . .
             . . . . * . . . .
             . . . X . X . . .
             . . . . . . . . .
             . . . . . . . . .
             . . . . . . . . ."
        )
    );
    assert_eq!(
        white_attacks,
        grid(
            ". . . . . . . . .
             . . . . . . . . .
             . . . . . . . . .
             . . . X . X . . .
             . . . . * . . . .
             . . . X X X . . .
             . . . . . . . . .
             . . . . . . . . .
             . . . . . . . . ."
        )
    );
    let square = Square::H9;
    let black_attacks = silver_attacks(Color::Black, square);
    let white_attacks = silver_attacks(Color::White, square);
    assert_ne!(black_attacks, white_attacks);
    assert_eq!(
        black_attacks,
        grid(
            ". . . . . . . . .
             . . . . . . . . .
             . . . . . . . . .
             . . . . . . . . .
             . . . . . . . . .
             . . . . . . . . .
             X X . . . . . . .
             * . . . . . . . .
             . X . . . . . . ."
        )
    );
    assert_eq!(
        white_attacks,
        grid(
            ". . . . . . . . .
             . . . . . . . . .
             . . . . . . . . .
             . . . . . . . . .
             . . . . . . . . .
             . . . . . . . . .
             . X . . . . . . .
             * . . . . . . . .
             X X . . . . . . ."
        )
    );
}

#[test]
fn test_knight_attacks() {
    let square = Square::E5;
    let black_attacks = knight_attacks(Color::Black, square);
    let white_attacks = knight_attacks(Color::White, square);
    assert_ne!(black_attacks, white_attacks);
    assert_eq!(
        black_attacks,
        grid(
            ". . . . . . . . .
             . . . . . . . . .
             . . . X . X . . .
             . . . . . . . . .
             . . . . * . . . .
             . . . . . . . . .
             . . . . . . . . .
             . . . . . . . . .
             . . . . . . . . ."
        )
    );
    assert_eq!(
        white_attacks,
        grid(
            ". . . . . . . . .
             . . . . . . . . .
             . . . . . . . . .
             . . . . . . . . .
             . . . . * . . . .
             . . . . . . . . .
             . . . X . X . . .
             . . . . . . . . .
             . . . . . . . . ."
        )
    );
    let square = Square::C1;
    let black_attacks = knight_attacks(Color::Black, square);
    let white_attacks = knight_attacks(Color::White, square);
    assert_eq!(
        black_attacks,
        grid(
            ". . . . . . . X .
             . . . . . . . . .
             . . . . . . . . *
             . . . . . . . . .
             . . . . . . . . .
             . . . . . . . . .
             . . . . . . . . .
             . . . . . . . . .
             . . . . . . . . ."
        )
    );
    assert_eq!(
        white_attacks,
        grid(
            ". . . . . . . . .
             . . . . . . . . .
             . . . . . . . . *
             . . . . . . . . .
             . . . . . . . X .
             . . . . . . . . .
             . . . . . . . . .
             . . . . . . . . .
             . . . . . . . . ."
        )
    );
}

#[test]
fn test_pawn_attacks() {
    let square = Square::E5;
    let black_attacks = pawn_attacks(Color::Black, square);
    let white_attacks = pawn_attacks(Color::White, square);
    assert_ne!(black_attacks, white_attacks);
    assert_eq!(
        black_attacks,
        grid(
            ". . . . . . . . .
             . . . . . . . . .
             . . . . . . . . .
             . . . . X . . . .
             . . . . * . . . .
             . . . . . . . . .
             . . . . . . . . .
             . . . . . . . . .
             . . . . . . . . ."
        )
    );
    assert_eq!(
        white_attacks,
        grid(
            ". . . . . . . . .
             . . . . . . . . .
             . . . . . . . . .
             . . . . . . . . .
             . . . . * . . . .
             . . . . X . . . .
             . . . . . . . . .
             . . . . . . . . .
             . . . . . . . . ."
        )
    );
    let square = Square::A1;
    let black_attacks = pawn_attacks(Color::Black, square);
    let white_attacks = pawn_attacks(Color::White, square);
    assert_ne!(black_attacks, white_attacks);
    assert_eq!(
        black_attacks,
        grid(
            ". . . . . . . . *
             . . . . . . . . .
             . . . . . . . . .
             . . . . . . . . .
             . . . . . . . . .
             . . . . . . . . .
             . . . . . . . . .
             . . . . . . . . .
             . . . . . . . . ."
        )
    );
    assert_eq!(
        white_attacks,
        grid(
            ". . . . . . . . *
             . . . . . . . . X
             . . . . . . . . .
             . . . . . . . . .
             . . . . . . . . .
             . . . . . . . . .
             . . . . . . . . .
             . . . . . . . . .
             . . . . . . . . ."
        )
    );
}
