use haitaka::board::parse::{SFENParseError, SFEN_STARTPOS};
use haitaka::board::piece_moves::{PieceMoves, PromotionStatus};
use haitaka::board::Board;
use haitaka::board::zobrist::Dominance;
use haitaka::color::Color;
use haitaka::piece::Piece;
use haitaka::shogi_move::Move;
use haitaka::square::Square;

#[test]
fn startpos_matches_its_sfen() {
    let a = Board::startpos();
    let b = Board::from_sfen(SFEN_STARTPOS).unwrap();
    assert_eq!(a.hash(), b.hash());
    assert_eq!(a.occupied(), b.occupied());
    assert_eq!(a.side_to_move(), Color::Black);
    assert_eq!(a.move_number(), 1);
    assert_eq!(a.piece_on(Square::I5), Some(Piece::King));
    assert_eq!(a.color_on(Square::A5), Some(Color::White));
}

#[test]
fn sfen_errors() {
    assert_eq!(Board::from_sfen("").err(), Some(SFENParseError::InvalidBoard));
    assert_eq!(
        Board::from_sfen("lnsgkgsnl/1r5b1/ppppppppp/9/9/9/PPPPPPPPP/1B5R1/LNSGKGSNL").err(),
        Some(SFENParseError::MissingField)
    );
    assert_eq!(
        Board::from_sfen("lnsgkgsnl/1r5b1/ppppppppp/9/9/9/PPPPPPPPP/1B5R1/LNSGKGSN b - 1").err(),
        Some(SFENParseError::InvalidBoard)
    );
    assert_eq!(
        Board::from_sfen("lnsgkgsnl/1r5b1/ppppppppp/9/9/9/PPPPPPPPP/1B5R1/LNSGKGSNL x - 1").err(),
        Some(SFENParseError::InvalidSideToMove)
    );
    assert_eq!(
        Board::from_sfen("lnsgkgsnl/1r5b1/ppppppppp/9/9/9/PPPPPPPPP/1B5R1/LNSGKGSNL b - z").err(),
        Some(SFENParseError::InvalidMoveNumber)
    );
    assert_eq!(
        Board::from_sfen("lnsgkgsnl/1r5b1/ppppppppp/9/9/9/PPPPPPPPP/1B5R1/LNSGKGSNL b - 1 2").err(),
        Some(SFENParseError::TooManyFields)
    );
    assert_eq!(
        Board::from_sfen("lnsgkgsnl/1r5b1/ppppppppp/9/9/9/PPPPPPPPP/1B5R1/LNSGKGSNL b Q 1").err(),
        Some(SFENParseError::InvalidHands)
    );
}

#[test]
fn iteration_matches_has() {
    let mvs = PieceMoves::BoardMoves {
        color: Color::Black,
        piece: Piece::Silver,
        from: Square::D5,
        to: haitaka::attacks::silver_attacks(Color::Black, Square::D5),
        prom_status: PromotionStatus::Undecided,
    };
    let listed = mvs.to_vec();
    assert_eq!(listed.len(), 8);
    for mv in listed.iter() {
        assert!(mvs.has(*mv));
    }
    for from in Square::ALL {
        for to in Square::ALL {
            for promotion in [false, true] {
                let mv = Move::BoardMove { from, to, promotion };
                assert_eq!(mvs.has(mv), listed.contains(&mv));
            }
        }
    }
}

#[test]
fn null_move_passes_the_turn() {
    let board = Board::startpos();
    let passed = board.null_move().unwrap();
    assert_eq!(passed.side_to_move(), Color::White);
    assert_eq!(passed.occupied(), board.occupied());
    assert_ne!(passed.hash(), board.hash());
}

#[test]
fn illegal_move_is_refused() {
    let mut board = Board::startpos();
    let mv = Move::BoardMove { from: Square::G7, to: Square::E7, promotion: false };
    assert!(!board.is_legal(mv));
    assert!(board.try_play(mv).is_err());
    let mv = Move::BoardMove { from: Square::G7, to: Square::F7, promotion: false };
    assert!(board.try_play(mv).is_ok());
    assert_eq!(board.side_to_move(), Color::White);
    assert_eq!(board.move_number(), 2);
}

#[test]
fn sfen_output_of_startpos() {
    let board = Board::startpos();
    assert_eq!(board.to_sfen(), SFEN_STARTPOS.as_bytes().to_vec());
}

#[test]
fn sfen_output_reads_back() {
    let text = "lpg6/3s2R2/1kpppp3/p8/9/P8/2N6/9/9 b BG2Nr3p 7";
    let board = Board::from_sfen("lpg6/3s2R2/1kpppp3/p8/9/P8/2N6/9/9 b BG2Nr3p 7");
    // One king only: the tsume reader takes it, and adds the missing pieces to White's hand.
    assert!(board.is_err());
    let board = Board::tsume(text).unwrap();
    let out = board.to_sfen();
    let again = Board::from_sfen(std::str::from_utf8(&out).unwrap());
    assert!(again.is_err());
    let again = Board::tsume(std::str::from_utf8(&out).unwrap()).unwrap();
    assert_eq!(again.hash(), board.hash());
    assert_eq!(again.to_sfen(), out);
}

#[test]
fn sfen_output_counts_and_promotions() {
    let text = "4k4/9/9/9/9/9/9/9/+R3K3+p b 2P 12";
    let board = Board::from_sfen(text).unwrap();
    assert_eq!(String::from_utf8(board.to_sfen()).unwrap(), text);
}

#[test]
fn piece_codes() {
    assert_eq!(Piece::Pawn.to_str(Color::White), b"p".to_vec());
    assert_eq!(Piece::King.to_str(Color::Black), b"K".to_vec());
    assert_eq!(Piece::PRook.to_str(Color::White), b"+r".to_vec());
    assert_eq!(Piece::Tokin.to_str(Color::Black), b"+P".to_vec());
}

#[test]
fn listener_sees_generated_moves_and_stops() {
    let board = Board::startpos();
    let mut n = 0;
    let stopped = board.generate_moves(|m| {
        n += m.len();
        false
    });
    assert!(!stopped);
    assert_eq!(n, 30);
    let mut calls = 0;
    let stopped = board.generate_moves(|_| {
        calls += 1;
        true
    });
    assert!(stopped);
    assert_eq!(calls, 1);
}

#[test]
fn checks_from_pawn_in_hand_only_blocked() {
    let board = Board::tsume("8k/8p/9/9/9/9/9/9/9 b P 1").unwrap();
    let mut n = 0;
    let stopped = board.generate_checks(|m| {
        n += m.len();
        false
    });
    assert!(!stopped);
    assert_eq!(n, 0);
}

#[test]
fn same_position_of_parsed_startpos() {
    let board1 = Board::startpos();
    let board2: Board = SFEN_STARTPOS.parse().unwrap();
    assert!(board1.same_position(&board2));
    let board3 = board1.null_move().unwrap();
    assert!(!board1.same_position(&board3));
}

#[test]
fn dominance_of_hands() {
    let a = Board::from_sfen("4k4/9/9/9/9/9/9/9/4K4 b 2P 1").unwrap();
    let b = Board::from_sfen("4k4/9/9/9/9/9/9/9/4K4 b P 1").unwrap();
    assert_eq!(a.dominates(&b), Dominance::Dominates);
    assert_eq!(b.dominates(&a), Dominance::DominatedBy);
    assert_eq!(a.dominates(&a), Dominance::Equal);
    let c = Board::from_sfen("4k4/9/9/9/9/9/9/9/4K4 w 2P 1").unwrap();
    assert_eq!(a.dominates(&c), Dominance::Sente);
}

#[test]
fn checks_stopped_among_board_moves_answer_false() {
    // No pieces in hand: every check is a board move, so a stop comes among the board moves.
    let board = Board::tsume("9/7k1/9/5S3/9/3B5/9/9/9 b - 1").unwrap();
    let mut calls = 0;
    let r = board.generate_checks(|_| {
        calls += 1;
        true
    });
    assert!(!r);
    assert_eq!(calls, 1);
    // With a piece in hand that can check, the stop comes among the drops.
    let board = Board::tsume("lpg6/3s2R2/1kpppp3/p8/9/P8/2N6/9/9 b BGN 1").unwrap();
    let r = board.generate_checks(|_| true);
    assert!(r);
}

#[test]
fn legal_drop_at_last_move_number() {
    let mut board = Board::from_sfen("4k4/9/9/9/9/9/9/9/4K4 b P 1").unwrap();
    board.set_move_number(65535);
    assert!(board.is_legal(Move::Drop { piece: Piece::Pawn, to: Square::E5 }));
    let mut n = 0;
    board.generate_moves(|m| {
        n += m.len();
        false
    });
    assert!(n > 0);
}

#[test]
fn board_moves_split_by_mask() {
    let board = Board::startpos();
    let pawns = board.pieces(Piece::Pawn);
    let mut a = 0;
    let mut b = 0;
    let mut all = 0;
    board.generate_board_moves_for(pawns, |m| {
        a += m.len();
        false
    });
    board.generate_board_moves_for(pawns.not(), |m| {
        b += m.len();
        false
    });
    board.generate_board_moves(|m| {
        all += m.len();
        false
    });
    assert_eq!(a, 9);
    assert_eq!(a + b, all);
}

#[test]
fn piece_code_round_trip() {
    for p in Piece::ALL {
        for c in [Color::White, Color::Black] {
            let code = p.to_str(c);
            let text = std::str::from_utf8(&code).unwrap();
            assert_eq!(Piece::try_from_str(text), Some((p, c)));
        }
    }
    assert_eq!(Piece::try_from_str(""), None);
    assert_eq!(Piece::try_from_str("+g"), None);
    assert_eq!(Piece::try_from_str("+k"), None);
    assert_eq!(Piece::try_from_str("x"), None);
}
