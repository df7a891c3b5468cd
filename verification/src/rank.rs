//! The ranks (rows) of a Shogi board.
use vstd::prelude::*;
use crate::bitboard::{BitBoard, bit, BOARD_MASK, lemma_bit_shl, lemma_bit_or, lemma_bit_single, lemma_bit_zero, lemma_wf_high_bits};
use crate::color::Color;
use crate::piece::{Piece, must_promote_at, in_promotion_zone};

verus! {

broadcast use crate::bits::group_bit_lemmas;

/// A rank (row) on a Shogi board; rank A is the top-most row in diagrams.
#[derive(Debug, Clone, Copy, PartialEq, Eq, Hash, PartialOrd, Ord, Structural)]
pub enum Rank {
    A,
    B,
    C,
    D,
    E,
    F,
    G,
    H,
    I,
}

impl Rank {
    /// The number of values.
    pub const NUM: usize = 9;

    /// All values, in index order.
    pub const ALL: [Rank; 9] = [
        Rank::A, Rank::B, Rank::C, Rank::D, Rank::E, Rank::F, Rank::G, Rank::H, Rank::I,
    ];

    /// The position of this value in [`Self::ALL`].
    pub open spec fn idx(self) -> int {
        match self {
            Rank::A => 0,
            Rank::B => 1,
            Rank::C => 2,
            Rank::D => 3,
            Rank::E => 4,
            Rank::F => 5,
            Rank::G => 6,
            Rank::H => 7,
            Rank::I => 8,
        }
    }

    /// The value at position `i` of [`Self::ALL`].
    pub open spec fn from_idx(i: int) -> Self {
        if i == 0 {
            Rank::A
        } else if i == 1 {
            Rank::B
        } else if i == 2 {
            Rank::C
        } else if i == 3 {
            Rank::D
        } else if i == 4 {
            Rank::E
        } else if i == 5 {
            Rank::F
        } else if i == 6 {
            Rank::G
        } else if i == 7 {
            Rank::H
        } else {
            Rank::I
        }
    }

    /// The position of this value in [`Self::ALL`].
    pub fn index(self) -> (r: usize)
        ensures
            r == self.idx(),
    {
        match self {
            Rank::A => 0,
            Rank::B => 1,
            Rank::C => 2,
            Rank::D => 3,
            Rank::E => 4,
            Rank::F => 5,
            Rank::G => 6,
            Rank::H => 7,
            Rank::I => 8,
        }
    }

    /// The value at position `i` of [`Self::ALL`].
    pub fn index_const(i: usize) -> (r: Self)
        requires
            i < 9,
        ensures
            r.idx() == i,
            r == Self::from_idx(i as int),
    {
        match i {
            0 => Rank::A,
            1 => Rank::B,
            2 => Rank::C,
            3 => Rank::D,
            4 => Rank::E,
            5 => Rank::F,
            6 => Rank::G,
            7 => Rank::H,
            _ => Rank::I,
        }
    }

    /// The value at position `i` of [`Self::ALL`], if there is one.
    pub fn try_index(i: usize) -> (r: Option<Self>)
        ensures
            i < 9 ==> r == Some(Self::from_idx(i as int)),
            i >= 9 ==> r is None,
    {
        if i < 9 {
            Some(Self::index_const(i))
        } else {
            None
        }
    }
}

/// Every value of [`Rank`] has a position below [`Rank::NUM`], and positions identify values.
pub broadcast proof fn lemma_rank_idx(x: Rank)
    ensures
        0 <= #[trigger] x.idx() < 9,
        Rank::from_idx(x.idx()) == x,
{
}

/// Positions below [`Rank::NUM`] name exactly one value.
pub broadcast proof fn lemma_rank_from_idx(i: int)
    requires
        0 <= i < 9,
    ensures
        #[trigger] Rank::from_idx(i).idx() == i,
{
}
/// The squares of rank a: bits 0, 9, ..., 72.
pub const RANK_ONE: u128 = 0x1008040201008040201;

/// The bits of [`RANK_ONE`] are the squares of rank a.
pub proof fn lemma_rank_one(i: int)
    ensures
        bit(RANK_ONE, i) == (0 <= i < 81 && i % 9 == 0),
{
    assert(0x1008040201008040201u128 == (1u128 << 0u128) | (1u128 << 9u128) | (1u128 << 18u128) | (
    1u128 << 27u128) | (1u128 << 36u128) | (1u128 << 45u128) | (1u128 << 54u128) | (1u128
        << 63u128) | (1u128 << 72u128)) by (bit_vector);
    lemma_bit_or((1u128 << 0u128) | (1u128 << 9u128) | (1u128 << 18u128) | (1u128 << 27u128) | (1u128 << 36u128) | (1u128 << 45u128) | (1u128 << 54u128) | (1u128 << 63u128), 1u128 << 72u128, i);
    lemma_bit_or((1u128 << 0u128) | (1u128 << 9u128) | (1u128 << 18u128) | (1u128 << 27u128) | (1u128 << 36u128) | (1u128 << 45u128) | (1u128 << 54u128), 1u128 << 63u128, i);
    lemma_bit_or((1u128 << 0u128) | (1u128 << 9u128) | (1u128 << 18u128) | (1u128 << 27u128) | (1u128 << 36u128) | (1u128 << 45u128), 1u128 << 54u128, i);
    lemma_bit_or((1u128 << 0u128) | (1u128 << 9u128) | (1u128 << 18u128) | (1u128 << 27u128) | (1u128 << 36u128), 1u128 << 45u128, i);
    lemma_bit_or((1u128 << 0u128) | (1u128 << 9u128) | (1u128 << 18u128) | (1u128 << 27u128), 1u128 << 36u128, i);
    lemma_bit_or((1u128 << 0u128) | (1u128 << 9u128) | (1u128 << 18u128), 1u128 << 27u128, i);
    lemma_bit_or((1u128 << 0u128) | (1u128 << 9u128), 1u128 << 18u128, i);
    lemma_bit_or(1u128 << 0u128, 1u128 << 9u128, i);
    lemma_bit_single(0, i);
    lemma_bit_single(9, i);
    lemma_bit_single(18, i);
    lemma_bit_single(27, i);
    lemma_bit_single(36, i);
    lemma_bit_single(45, i);
    lemma_bit_single(54, i);
    lemma_bit_single(63, i);
    lemma_bit_single(72, i);
}

/// The squares on the ranks before rank `n`.
fn ranks_below(n: usize) -> (r: BitBoard)
    requires
        n <= 9,
    ensures
        r.wf(),
        forall|i: int| #[trigger] bit(r.0, i) == (0 <= i < 81 && i % 9 < n),
{
    let mut acc: u128 = 0;
    let mut s: usize = 0;
    proof {
        assert forall|i: int| #[trigger] bit(acc, i) == (0 <= i < 81 && i % 9 < s) by {
            lemma_bit_zero(i);
        }
    }
    while s < n
        invariant
            s <= n <= 9,
            acc <= BOARD_MASK,
            forall|i: int| #[trigger] bit(acc, i) == (0 <= i < 81 && i % 9 < s),
        decreases n - s,
    {
        let row = Rank::index_const(s).bitboard();
        let next = acc | row.0;
        proof {
            assert forall|i: int| #[trigger] bit(next, i) == (0 <= i < 81 && i % 9 < s + 1) by {
                lemma_bit_or(acc, row.0, i);
            }
            crate::bitboard::lemma_or_wf(acc, row.0);
        }
        acc = next;
        s = s + 1;
    }
    BitBoard(acc)
}

impl Rank {
    /// Mirror the rank in the central rank e.
    pub fn flip(self) -> (r: Rank)
        ensures
            r.idx() == 8 - self.idx(),
    {
        Rank::index_const(8 - self.index())
    }

    /// A bitboard holding every square of this rank.
    pub fn bitboard(self) -> (r: BitBoard)
        ensures
            r.wf(),
            forall|i: int| #[trigger] bit(r.0, i) == (0 <= i < 81 && i % 9 == self.idx()),
    {
        let n = self.index() as u128;
        let v: u128 = RANK_ONE << n;
        proof {
            assert forall|i: int| #[trigger] bit(v, i) == (0 <= i < 81 && i % 9 == self.idx()) by {
                lemma_bit_shl(RANK_ONE, n, i);
                lemma_rank_one(i - n);
            }
            assert(n < 9 ==> 0x1008040201008040201u128 << n <= 0x1_FFFF_FFFF_FFFF_FFFF_FFFFu128)
                by (bit_vector);
        }
        BitBoard(v)
    }

    /// A bitboard holding every square north of this rank (the ranks before it).
    pub fn north(self) -> (r: BitBoard)
        ensures
            r.wf(),
            forall|i: int| #[trigger] bit(r.0, i) == (0 <= i < 81 && i % 9 < self.idx()),
    {
        ranks_below(self.index())
    }

    /// A bitboard holding every square south of this rank (the ranks after it).
    pub fn south(self) -> (r: BitBoard)
        ensures
            r.wf(),
            forall|i: int| #[trigger] bit(r.0, i) == (0 <= i < 81 && i % 9 > self.idx()),
    {
        let below = ranks_below(self.index() + 1);
        let v = !below.0 & BOARD_MASK;
        proof {
            assert forall|i: int| #[trigger] bit(v, i) == (0 <= i < 81 && i % 9 > self.idx()) by {
                crate::bitboard::lemma_bit_and(!below.0, BOARD_MASK, i);
                crate::bitboard::lemma_bit_not(below.0, i);
                crate::bitboard::lemma_bit_board_mask(i);
            }
            crate::bitboard::lemma_and_mask_wf(!below.0);
        }
        BitBoard(v)
    }

    /// This rank as seen from `color`: White sees it unchanged, Black mirrored.
    pub fn relative_to(self, color: Color) -> (r: Rank)
        ensures
            color == Color::White ==> r == self,
            color == Color::Black ==> r.idx() == 8 - self.idx(),
    {
        match color {
            Color::White => self,
            Color::Black => self.flip(),
        }
    }
}

/// The squares where a piece of `color` may not be dropped: those where it would have to promote.
pub fn no_fly_zone(color: Color, piece: Piece) -> (r: BitBoard)
    ensures
        r.wf(),
        forall|i: int| #[trigger] bit(r.0, i) == (0 <= i < 81 && must_promote_at(piece, color, i % 9)),
{
    match piece {
        Piece::Pawn | Piece::Lance => match color {
            Color::White => Rank::I.bitboard(),
            Color::Black => Rank::A.bitboard(),
        },
        Piece::Knight => match color {
            Color::White => Rank::I.bitboard().bitor(Rank::H.bitboard()),
            Color::Black => Rank::A.bitboard().bitor(Rank::B.bitboard()),
        },
        _ => BitBoard(0),
    }
}

/// The squares where a piece of `color` must promote; the same squares as [`no_fly_zone`].
pub fn must_prom_zone(color: Color, piece: Piece) -> (r: BitBoard)
    ensures
        r.wf(),
        forall|i: int| #[trigger] bit(r.0, i) == (0 <= i < 81 && must_promote_at(piece, color, i % 9)),
{
    no_fly_zone(color, piece)
}

/// The squares where a piece of `color` may be dropped, occupancy aside: the complement of
/// [`no_fly_zone`].
pub fn drop_zone(color: Color, piece: Piece) -> (r: BitBoard)
    ensures
        r.wf(),
        forall|i: int| #[trigger] bit(r.0, i) == (0 <= i < 81 && !must_promote_at(piece, color, i % 9)),
{
    match piece {
        Piece::Pawn | Piece::Lance => match color {
            Color::White => Rank::I.north(),
            Color::Black => Rank::A.south(),
        },
        Piece::Knight => match color {
            Color::White => Rank::H.north(),
            Color::Black => Rank::B.south(),
        },
        _ => BitBoard::full(),
    }
}

/// The promotion zone of `color`: the three ranks farthest from its side.
pub fn prom_zone(color: Color) -> (r: BitBoard)
    ensures
        r.wf(),
        forall|i: int| #[trigger] bit(r.0, i) == (0 <= i < 81 && in_promotion_zone(color, i % 9)),
{
    match color {
        Color::White => Rank::F.south(),
        Color::Black => Rank::D.north(),
    }
}

} // verus!
