//! Attack patterns of the non-sliding pieces on an empty board.
use vstd::prelude::*;
use crate::bitboard::{BitBoard, bit, BOARD_MASK, lemma_bit_or, lemma_or_wf};
use crate::color::Color;
use crate::square::{Square, sq_index, on_board, lemma_square_idx, lemma_square_from_idx};

verus! {

broadcast use crate::bits::group_bit_lemmas;

/// The file offset from square index `s` to square index `t`.
pub open spec fn file_delta(s: int, t: int) -> int {
    t / 9 - s / 9
}

/// The rank offset from square index `s` to square index `t`.
pub open spec fn rank_delta(s: int, t: int) -> int {
    t % 9 - s % 9
}

/// The rank offset of one step forward for `color`: Black moves towards rank a.
pub open spec fn forward(color: Color) -> int {
    if color == Color::Black {
        -1
    } else {
        1
    }
}

/// A king on `s` attacks `t`: `t` is one of the up to eight neighbours of `s`.
pub open spec fn king_step(s: int, t: int) -> bool {
    &&& 0 <= t < 81
    &&& -1 <= file_delta(s, t) <= 1
    &&& -1 <= rank_delta(s, t) <= 1
    &&& t != s
}

/// A gold general of `color` on `s` attacks `t`: a neighbour, but not diagonally backwards.
pub open spec fn gold_step(color: Color, s: int, t: int) -> bool {
    &&& king_step(s, t)
    &&& !(rank_delta(s, t) == -forward(color) && file_delta(s, t) != 0)
}

/// A silver general of `color` on `s` attacks `t`: a diagonal neighbour or straight forward.
pub open spec fn silver_step(color: Color, s: int, t: int) -> bool {
    &&& king_step(s, t)
    &&& (file_delta(s, t) != 0 && rank_delta(s, t) != 0) || (file_delta(s, t) == 0 && rank_delta(s, t)
        == forward(color))
}

/// A knight of `color` on `s` attacks `t`: two ranks forward and one file aside.
pub open spec fn knight_step(color: Color, s: int, t: int) -> bool {
    &&& 0 <= t < 81
    &&& rank_delta(s, t) == 2 * forward(color)
    &&& (file_delta(s, t) == 1 || file_delta(s, t) == -1)
}

/// A pawn of `color` on `s` attacks `t`: one rank straight forward.
pub open spec fn pawn_step(color: Color, s: int, t: int) -> bool {
    &&& 0 <= t < 81
    &&& rank_delta(s, t) == forward(color)
    &&& file_delta(s, t) == 0
}

/// Add the square at offset (`df`, `dr`) from `sq` to `bb`, when that square is on the board.
fn add_offset(bb: u128, sq: Square, df: i8, dr: i8) -> (r: u128)
    requires
        bb <= BOARD_MASK,
        -2 <= df <= 2,
        -2 <= dr <= 2,
    ensures
        r <= BOARD_MASK,
        forall|i: int| #[trigger] bit(r, i) == (bit(bb, i) || (on_board(sq.file_idx() + df, sq.rank_idx() + dr)
            && i == sq_index(sq.file_idx() + df, sq.rank_idx() + dr))),
{
    proof {
        lemma_square_idx(sq);
    }
    match sq.try_offset(df, dr) {
        Some(t) => {
            let tb = t.bitboard();
            proof {
                lemma_square_from_idx(sq_index(sq.file_idx() + df, sq.rank_idx() + dr));
                lemma_or_wf(bb, tb.0);
            }
            bb | tb.0
        },
        None => bb,
    }
}

/// Squares attacked by a king of either color on `square`.
#[verifier::rlimit(40)]
pub fn king_attacks(color: Color, square: Square) -> (r: BitBoard)
    ensures
        r.wf(),
        forall|i: int| #[trigger] bit(r.0, i) == king_step(square.idx(), i),
{
    proof {
        lemma_square_idx(square);
    }
    let mut b: u128 = 0;
    b = add_offset(b, square, -1, -1);
    b = add_offset(b, square, -1, 0);
    b = add_offset(b, square, -1, 1);
    b = add_offset(b, square, 0, -1);
    b = add_offset(b, square, 0, 1);
    b = add_offset(b, square, 1, -1);
    b = add_offset(b, square, 1, 0);
    b = add_offset(b, square, 1, 1);
    BitBoard(b)
}

/// Squares attacked by a gold general of `color` on `square`.
#[verifier::rlimit(40)]
pub fn gold_attacks(color: Color, square: Square) -> (r: BitBoard)
    ensures
        r.wf(),
        forall|i: int| #[trigger] bit(r.0, i) == gold_step(color, square.idx(), i),
{
    proof {
        lemma_square_idx(square);
    }
    let fwd: i8 = match color {
        Color::Black => -1,
        Color::White => 1,
    };
    let mut b: u128 = 0;
    b = add_offset(b, square, -1, fwd);
    b = add_offset(b, square, 0, fwd);
    b = add_offset(b, square, 1, fwd);
    b = add_offset(b, square, -1, 0);
    b = add_offset(b, square, 1, 0);
    b = add_offset(b, square, 0, -fwd);
    BitBoard(b)
}

/// Squares attacked by a silver general of `color` on `square`.
#[verifier::rlimit(40)]
pub fn silver_attacks(color: Color, square: Square) -> (r: BitBoard)
    ensures
        r.wf(),
        forall|i: int| #[trigger] bit(r.0, i) == silver_step(color, square.idx(), i),
{
    proof {
        lemma_square_idx(square);
    }
    let fwd: i8 = match color {
        Color::Black => -1,
        Color::White => 1,
    };
    let mut b: u128 = 0;
    b = add_offset(b, square, -1, fwd);
    b = add_offset(b, square, 0, fwd);
    b = add_offset(b, square, 1, fwd);
    b = add_offset(b, square, -1, -fwd);
    b = add_offset(b, square, 1, -fwd);
    BitBoard(b)
}

/// Squares attacked by a knight of `color` on `square`.
#[verifier::rlimit(40)]
pub fn knight_attacks(color: Color, square: Square) -> (r: BitBoard)
    ensures
        r.wf(),
        forall|i: int| #[trigger] bit(r.0, i) == knight_step(color, square.idx(), i),
{
    proof {
        lemma_square_idx(square);
    }
    let fwd: i8 = match color {
        Color::Black => -1,
        Color::White => 1,
    };
    let mut b: u128 = 0;
    b = add_offset(b, square, -1, 2 * fwd);
    b = add_offset(b, square, 1, 2 * fwd);
    BitBoard(b)
}

/// Squares attacked by a pawn of `color` on `square`.
#[verifier::rlimit(40)]
pub fn pawn_attacks(color: Color, square: Square) -> (r: BitBoard)
    ensures
        r.wf(),
        forall|i: int| #[trigger] bit(r.0, i) == pawn_step(color, square.idx(), i),
{
    proof {
        lemma_square_idx(square);
    }
    let fwd: i8 = match color {
        Color::Black => -1,
        Color::White => 1,
    };
    let b = add_offset(0, square, 0, fwd);
    BitBoard(b)
}


/// A pawn of `color` attacks one square at most: two squares from which it attacks the
/// same square are equal.
pub proof fn lemma_pawn_step_unique(color: Color, s1: int, s2: int, k: int)
    requires
        0 <= s1 < 81,
        0 <= s2 < 81,
        pawn_step(color, s1, k),
        pawn_step(color, s2, k),
    ensures
        s1 == s2,
{
}

} // verus!
