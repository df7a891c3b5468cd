use haitaka::bitboard::BitBoard;
use haitaka::file::File;
use haitaka::rank::Rank;
use haitaka::square::Square;

#[test]
fn flips_mirror_files_and_ranks() {
    assert_eq!(File::One.bitboard().flip_files(), File::Nine.bitboard());
    assert_eq!(Rank::A.bitboard().flip_ranks(), Rank::I.bitboard());
    assert_eq!(Square::A1.bitboard().flip_files(), Square::A9.bitboard());
    assert_eq!(Square::A1.bitboard().flip_ranks(), Square::I1.bitboard());
    let bb = Square::C3.bitboard().bitor(Square::E5.bitboard());
    assert_eq!(bb.flip_files().flip_files(), bb);
    assert_eq!(BitBoard::full().flip_ranks(), BitBoard::full());
}

#[test]
fn iter_lists_squares_in_order() {
    let bb = Square::E5.bitboard().bitor(Square::A1.bitboard()).bitor(Square::I9.bitboard());
    let squares = bb.iter();
    assert_eq!(squares, vec![Square::A1, Square::E5, Square::I9]);
    assert_eq!(File::One.bitboard().iter().len(), 9);
    assert!(BitBoard::empty().iter().is_empty());
}
