use haitaka::attacks::{gold_attacks, king_attacks, silver_attacks};
use haitaka::bitboard::BitBoard;
use haitaka::board::piece_moves::{PieceMoves, PromotionStatus};
use haitaka::color::Color;
use haitaka::file::File;
use haitaka::piece::Piece;
use haitaka::rank::prom_zone;
use haitaka::shogi_move::Move;
use haitaka::square::Square;

#[test]
fn len_works_with_non_promotions() {
    let mv = PieceMoves::BoardMoves {
        color: Color::Black,
        piece: Piece::Gold,
        from: Square::E5,
        to: gold_attacks(Color::Black, Square::E5),
        prom_status: PromotionStatus::CannotPromote,
    };
    assert_eq!(mv.len(), 6);
    let mut iter = mv.into_iter();
    assert_eq!(iter.len(), 6);

    for len in (0..6).rev() {
        iter.next();
        assert_eq!(iter.len(), len);
    }
}

// Multiple test cases for Lance, since Lance turned out to be the most
// problematic piece; it took me several hours to debug a subtle bug the ExactSizeIterator.

#[test]
fn len_handles_promotions_black_lance() {
    let mv = PieceMoves::BoardMoves {
        color: Color::Black,
        piece: Piece::Lance,
        from: Square::I1,
        to: File::One.bitboard().bitxor(Square::I1.bitboard()),
        prom_status: PromotionStatus::Undecided,
    };
    assert_eq!(mv.len(), 8);

    let mut iter = mv.into_iter();
    assert_eq!(iter.len(), 10); // 3 promotions, but 1 required

    for len in (0..10).rev() {
        iter.next();
        assert_eq!(iter.len(), len);
    }

    let mv = PieceMoves::BoardMoves {
        color: Color::Black,
        piece: Piece::Lance,
        from: Square::I1,
        to: File::One.bitboard().bitxor(Square::I1.bitboard()).bitxor(Square::A1.bitboard()),
        prom_status: PromotionStatus::Undecided,
    };
    assert_eq!(mv.len(), 7);

    let mut iter = mv.into_iter();
    assert_eq!(iter.len(), 9); // 2 promotion alternatives

    for len in (0..9).rev() {
        iter.next();
        assert_eq!(iter.len(), len);
    }
}

#[test]
fn len_handles_promotions_white_lance() {
    let mv = PieceMoves::BoardMoves {
        color: Color::White,
        piece: Piece::Lance,
        from: Square::A1,
        to: File::One.bitboard().bitxor(Square::A1.bitboard()),
        prom_status: PromotionStatus::Undecided,
    };
    assert_eq!(mv.len(), 8);

    let mut iter = mv.into_iter();
    assert_eq!(iter.len(), 10); // 3 promotions, but 1 required

    for len in (0..10).rev() {
        iter.next();
        assert_eq!(iter.len(), len);
    }

    let mv = PieceMoves::BoardMoves {
        color: Color::White,
        piece: Piece::Lance,
        from: Square::A1,
        to: File::One.bitboard().bitxor(Square::A1.bitboard()).bitxor(Square::I1.bitboard()),
        prom_status: PromotionStatus::Undecided,
    };
    assert_eq!(mv.len(), 7);

    let mut iter = mv.into_iter();
    assert_eq!(iter.len(), 9); // 2 promotion alternatives

    for len in (0..9).rev() {
        iter.next();
        assert_eq!(iter.len(), len);
    }
}

#[test]
fn len_for_lance_handles_edge_cases() {
    // Case 1: Lance completely blocked
    let mv = PieceMoves::BoardMoves {
        color: Color::Black,
        piece: Piece::Lance,
        from: Square::I1,
        to: BitBoard::empty(), // No valid moves
        prom_status: PromotionStatus::Undecided,
    };
    assert_eq!(mv.len(), 0);
    let iter = mv.into_iter();
    assert_eq!(iter.len(), 0);

    // Case 2: Lance with one valid move in the must-promote zone
    let mv = PieceMoves::BoardMoves {
        color: Color::Black,
        piece: Piece::Lance,
        from: Square::B1,
        to: Square::A1.bitboard(), // Must-promote square
        prom_status: PromotionStatus::Undecided,
    };
    assert_eq!(mv.len(), 1);
    let mut iter = mv.into_iter();
    assert_eq!(iter.len(), 1);
    iter.next();
    assert_eq!(iter.len(), 0);

    // Case 3: Lance already inside promotion zone
    let mv = PieceMoves::BoardMoves {
        color: Color::Black,
        piece: Piece::Lance,
        from: Square::C1,
        to: Square::B1.bitboard().bitor(Square::A1.bitboard()), // B1: may-promote, A1: must-promote
        prom_status: PromotionStatus::Undecided,
    };
    assert!(prom_zone(Color::Black).has(Square::C1));
    assert_eq!(mv.len(), 2);
    let mut iter = mv.into_iter();
    assert_eq!(iter.len(), 3);

    for len in (0..3).rev() {
        iter.next();
        assert_eq!(iter.len(), len);
    }
}

#[test]
fn len_handles_promotions_rook() {
    let mv = PieceMoves::BoardMoves {
        color: Color::Black,
        piece: Piece::Rook,
        from: Square::E1,
        to: File::One.bitboard().bitxor(Square::E1.bitboard()),
        prom_status: PromotionStatus::Undecided,
    };
    assert_eq!(mv.len(), 8);

    let mut iter = mv.into_iter();
    assert_eq!(iter.len(), 11); // 3 promotions

    for len in (0..11).rev() {
        iter.next();
        assert_eq!(iter.len(), len);
    }

    let mv = PieceMoves::BoardMoves {
        color: Color::Black,
        piece: Piece::Rook,
        from: Square::C1,
        to: File::One.bitboard().bitxor(Square::C1.bitboard()),
        prom_status: PromotionStatus::Undecided,
    };
    assert_eq!(mv.len(), 8);

    let mut iter = mv.into_iter();
    assert_eq!(iter.len(), 16);

    for len in (0..16).rev() {
        iter.next();
        assert_eq!(iter.len(), len);
    }
}

#[test]
fn len_handles_promotions_pawn() {
    let mv = PieceMoves::BoardMoves {
        color: Color::White,
        piece: Piece::Pawn,
        from: Square::F1,
        to: Square::G1.bitboard(),
        prom_status: PromotionStatus::Undecided,
    };
    assert_eq!(mv.len(), 1);

    let mut iter = mv.into_iter();
    assert_eq!(iter.len(), 2);

    for len in (0..2).rev() {
        iter.next();
        assert_eq!(iter.len(), len);
    }

    let mv = PieceMoves::BoardMoves {
        color: Color::Black,
        piece: Piece::Lance,
        from: Square::H1,
        to: Square::I1.bitboard(),
        prom_status: PromotionStatus::Undecided,
    };
    assert_eq!(mv.len(), 1);

    let mut iter = mv.into_iter();
    assert_eq!(iter.len(), 1); // promotion required

    iter.next();
    assert_eq!(iter.len(), 0);
}

#[test]
fn has_works() {
    let mv = PieceMoves::BoardMoves {
        color: Color::White,
        piece: Piece::King,
        from: Square::A5,
        to: king_attacks(Color::White, Square::A5),
        prom_status: PromotionStatus::CannotPromote,
    };
    assert_eq!(mv.len(), 5); // remember, this is on an empty board

    assert!(mv.has(Move::BoardMove {
        from: Square::A5,
        to: Square::B4,
        promotion: false
    }));

    assert!(mv.has(Move::BoardMove {
        from: Square::A5,
        to: Square::B5,
        promotion: false
    }));

    assert!(mv.has(Move::BoardMove {
        from: Square::A5,
        to: Square::B6,
        promotion: false
    }));
}

#[test]
fn has_handles_promotions() {
    let mv = PieceMoves::BoardMoves {
        color: Color::White,
        piece: Piece::Pawn,
        from: Square::F6,
        to: Square::G6.bitboard(),
        prom_status: PromotionStatus::Undecided,
    };
    assert_eq!(mv.len(), 1);

    assert!(mv.has(Move::BoardMove {
        from: Square::F6,
        to: Square::G6,
        promotion: false
    }));

    assert!(mv.has(Move::BoardMove {
        from: Square::F6,
        to: Square::G6,
        promotion: true
    }));
}

#[test]
fn has_works_with_drops() {
    let mv = PieceMoves::Drops {
        color: Color::Black,
        piece: Piece::Rook,
        to: BitBoard::full(),
    };

    assert_eq!(mv.len(), 81);

    for &square in Square::ALL.iter() {
        assert!(mv.has(Move::Drop {
            piece: Piece::Rook,
            to: square
        }));
    }
}

#[test]
fn iter_undecided() {
    // promotion possible for every to square
    let mvs = PieceMoves::BoardMoves {
        color: Color::Black,
        piece: Piece::Silver,
        from: Square::C5,
        to: silver_attacks(Color::Black, Square::C5),
        prom_status: PromotionStatus::Undecided,
    };
    assert_eq!(mvs.len(), 5);
    assert_eq!(mvs.into_iter().len(), 10);

    // double-check in actual iteration
    let mut num_proms = 0;
    let mut num_non_proms = 0;
    for mv in mvs.to_vec() {
        if let Move::BoardMove {
            promotion: true, ..
        } = mv
        {
            num_proms += 1;
        } else {
            num_non_proms += 1;
        }
    }
    assert_eq!(num_non_proms, 5);
    assert_eq!(num_proms, 5);

    // promotion possible only on 3 squares
    let mvs = PieceMoves::BoardMoves {
        color: Color::Black,
        piece: Piece::Silver,
        from: Square::D5,
        to: silver_attacks(Color::Black, Square::D5),
        prom_status: PromotionStatus::Undecided,
    };
    assert_eq!(mvs.len(), 5);
    assert_eq!(mvs.into_iter().len(), 8);

    num_proms = 0;
    num_non_proms = 0;
    for mv in mvs.to_vec() {
        if let Move::BoardMove {
            promotion: true, ..
        } = mv
        {
            num_proms += 1;
        } else {
            num_non_proms += 1;
        }
    }
    assert_eq!(num_non_proms, 5);
    assert_eq!(num_proms, 3);
}

#[test]
fn iter_cannot_promote() {
    // promotion  blocked by CannotPromote flag
    let mvs = PieceMoves::BoardMoves {
        color: Color::Black,
        piece: Piece::Silver,
        from: Square::C5,
        to: silver_attacks(Color::Black, Square::C5),
        prom_status: PromotionStatus::CannotPromote,
    };
    assert_eq!(mvs.len(), 5);
    assert_eq!(mvs.into_iter().len(), 5);

    let mut num_proms = 0;
    let mut num_non_proms = 0;
    for mv in mvs.to_vec() {
        if let Move::BoardMove {
            promotion: true, ..
        } = mv
        {
            num_proms += 1;
        } else {
            num_non_proms += 1;
        }
    }
    assert_eq!(num_non_proms, 5);
    assert_eq!(num_proms, 0);

    let mvs = PieceMoves::BoardMoves {
        color: Color::Black,
        piece: Piece::Silver,
        from: Square::D5,
        to: silver_attacks(Color::Black, Square::D5),
        prom_status: PromotionStatus::CannotPromote,
    };
    assert_eq!(mvs.len(), 5);
    assert_eq!(mvs.into_iter().len(), 5);

    let mut num_proms = 0;
    let mut num_non_proms = 0;
    for mv in mvs.to_vec() {
        if let Move::BoardMove {
            promotion: true, ..
        } = mv
        {
            num_proms += 1;
        } else {
            num_non_proms += 1;
        }
    }
    assert_eq!(num_non_proms, 5);
    assert_eq!(num_proms, 0);
}

#[test]
fn iter_must_promote() {
    // promotion enforced by MustPromote flag
    let mvs = PieceMoves::BoardMoves {
        color: Color::Black,
        piece: Piece::Silver,
        from: Square::C5,
        to: silver_attacks(Color::Black, Square::C5),
        prom_status: PromotionStatus::MustPromote,
    };
    assert_eq!(mvs.len(), 5);
    assert_eq!(mvs.into_iter().len(), 5);

    let mut num_proms = 0;
    let mut num_non_proms = 0;
    for mv in mvs.to_vec() {
        if let Move::BoardMove {
            promotion: true, ..
        } = mv
        {
            num_proms += 1;
        } else {
            num_non_proms += 1;
        }
    }
    assert_eq!(num_non_proms, 0);
    assert_eq!(num_proms, 5);

    // only 3 promotion moves, and enforced by MustPromote flag
    let zone = prom_zone(Color::Black);
    let mvs = PieceMoves::BoardMoves {
        color: Color::Black,
        piece: Piece::Silver,
        from: Square::D5,
        to: silver_attacks(Color::Black, Square::D5).bitand(zone),
        prom_status: PromotionStatus::MustPromote,
    };
    assert_eq!(mvs.len(), 3);
    assert_eq!(mvs.into_iter().len(), 3);

    num_proms = 0;
    num_non_proms = 0;
    for mv in mvs.to_vec() {
        if let Move::BoardMove {
            promotion: true, ..
        } = mv
        {
            num_proms += 1;
        } else {
            num_non_proms += 1;
        }
    }
    assert_eq!(num_non_proms, 0);
    assert_eq!(num_proms, 3);
}
