use haitaka::board::Board;
use haitaka::piece::Piece;
use haitaka::shogi_move::Move;
use haitaka::square::Square;
use std::collections::HashSet;

fn generated(board: &Board) -> HashSet<Move> {
    let mut set = HashSet::new();
    board.generate_moves(|m| {
        set.extend(m.to_vec());
        false
    });
    set
}

fn agree(board: &Board) {
    let set = generated(board);
    for from in Square::ALL {
        for to in Square::ALL {
            for promotion in [false, true] {
                let mv = Move::BoardMove { from, to, promotion };
                assert_eq!(set.contains(&mv), board.is_legal(mv), "{:?}", mv);
            }
        }
    }
    for piece in [Piece::Pawn, Piece::Lance, Piece::Knight, Piece::Silver, Piece::Gold, Piece::Bishop, Piece::Rook] {
        for to in Square::ALL {
            let mv = Move::Drop { piece, to };
            assert_eq!(set.contains(&mv), board.is_legal(mv), "{:?}", mv);
        }
    }
}

#[test]
fn generation_matches_legality_with_drops() {
    agree(&Board::startpos());
    agree(&"ln1g5/1r2S1k2/p2pppn2/2ps2p2/1p7/2P6/PPSPPPPLP/2G2K1pr/LN4G1b w BGSLPnp 62".parse().unwrap());
    agree(&Board::tsume("7lk/9/8S/9/9/9/9/7L1/8K b P 1").unwrap());
}

#[test]
fn pinned_piece_cannot_answer_check() {
    // The black gold on 5h is pinned by the rook on 5a; the bishop on 1e checks the king.
    let board = Board::from_sfen("k3r4/9/9/9/8b/9/9/4G4/4K4 b - 1").unwrap();
    assert_eq!(board.checkers().len(), 1);
    assert!(board.pinned().has(Square::H5));
    agree(&board);
    let mv = Move::BoardMove { from: Square::H5, to: Square::G5, promotion: false };
    assert!(!board.is_legal(mv));
}
