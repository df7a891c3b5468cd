use haitaka::board::Board;
use haitaka::shogi_move::Move;

#[test]
fn zobrist_transpositions() {
    let board = Board::startpos();
    let moves: [[[&str; 4]; 2]; 3] = [
        [["2g2f", "8c8d", "7g7f", "3c3d"], ["7g7f", "8c8d", "2g2f", "3c3d"]],
        [["2g2f", "3c3d", "7g7f", "8c8d"], ["7g7f", "8c8d", "2g2f", "3c3d"]],
        [["5g5f", "8c8d", "2h5h", "3c3d"], ["5g5f", "3c3d", "2h5h", "8c8d"]],
    ];
    for (i, [moves_a, moves_b]) in moves.iter().enumerate() {
        let mut board_a = board.clone();
        let mut board_b = board.clone();
        for mv in moves_a {
            board_a.play_unchecked(mv.parse::<Move>().unwrap());
        }
        for mv in moves_b {
            board_b.play_unchecked(mv.parse::<Move>().unwrap());
        }
        assert_eq!(board_a.hash(), board_b.hash(), "Test {}", i + 1);
    }
}

#[test]
fn same_position_same_hash_after_different_orders() {
    let mut a = Board::startpos();
    let mut b = Board::startpos();
    for mv in ["7g7f", "3c3d", "2g2f"] {
        a.play_unchecked(mv.parse::<Move>().unwrap());
    }
    for mv in ["2g2f", "3c3d", "7g7f"] {
        b.play_unchecked(mv.parse::<Move>().unwrap());
    }
    assert_eq!(a.hash(), b.hash());
    assert_ne!(a.hash(), Board::startpos().hash());
}
