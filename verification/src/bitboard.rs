//! Bitboards: sets of squares held in the low 81 bits of a `u128`.
//!
//! Bit `i` of the backing integer stands for the square with index `i`
//! (see [`Square`]); the bits from 81 upward are unused and kept clear by
//! every operation that produces a board.
use vstd::prelude::*;
use crate::square::{Square, lemma_square_idx, lemma_square_from_idx};
use crate::rank::Rank;
pub use crate::bits::{BOARD_MASK, bit, popcount, lemma_bit_and, lemma_bit_or, lemma_bit_xor, lemma_bit_not, lemma_bit_shl, lemma_bit_shr, lemma_bit_low_mask, lemma_bit_single, lemma_bit_zero, lemma_bit_board_mask, lemma_or_wf, lemma_and_mask_wf, lemma_and_wf, lemma_wf_high_bits, lemma_bits_ext, lemma_test_bit};

verus! {

broadcast use crate::bits::group_bit_lemmas;

/// A bitboard: a set of squares. The set holds a square if bit `1 << square index` is set.
#[derive(Clone, Copy, PartialEq, Eq, PartialOrd, Ord, Default, Hash, Debug, Structural)]
pub struct BitBoard(
    /// The backing integer.
    pub u128,
);

impl BitBoard {
    /// No bit outside the 81 square bits is set.
    pub open spec fn wf(self) -> bool {
        self.0 <= BOARD_MASK
    }

    /// The board holds square `s`.
    pub open spec fn has_sq(self, s: Square) -> bool {
        bit(self.0, s.idx())
    }

    /// The board holds the square with index `i`.
    pub open spec fn has_idx(self, i: int) -> bool {
        bit(self.0, i)
    }

    /// An empty bitboard.
    pub fn empty() -> (r: BitBoard)
        ensures
            r.0 == 0,
            r.wf(),
    {
        BitBoard(0)
    }

    /// A bitboard holding all 81 squares.
    pub fn full() -> (r: BitBoard)
        ensures
            r.0 == BOARD_MASK,
            r.wf(),
    {
        BitBoard(BOARD_MASK)
    }
}

/// `u128::trailing_zeros`: the number of zero bits below the lowest set bit,
/// or 128 when no bit is set.
#[verifier::external_body]
fn u128_trailing_zeros(x: u128) -> (r: u32)
    ensures
        r <= 128,
        x == 0 <==> r == 128,
        x != 0 ==> bit(x, r as int),
        forall|j: int| 0 <= j < r ==> !bit(x, j),
{
    x.trailing_zeros()
}

/// `u128::count_ones`: the number of set bits.
#[verifier::external_body]
fn u128_count_ones(x: u128) -> (r: u32)
    ensures
        r == popcount(x),
{
    x.count_ones()
}

/// `u128::reverse_bits`: bit `i` of the result is bit `127 - i` of the argument.
#[verifier::external_body]
pub(crate) fn u128_reverse_bits(x: u128) -> (r: u128)
    ensures
        forall|i: int| 0 <= i < 128 ==> #[trigger] bit(r, i) == bit(x, 127 - i),
{
    x.reverse_bits()
}

/// `popcount` is zero exactly for zero.
pub proof fn lemma_popcount_zero(x: u128)
    ensures
        popcount(x) == 0 <==> x == 0,
    decreases x,
{
    if x != 0 {
        if x % 2 == 0 {
            lemma_popcount_zero(x / 2);
        }
    }
}

impl BitBoard {
    /// A bitboard from a raw value, with the bits above the board cleared.
    pub fn new(value: u128) -> (r: BitBoard)
        ensures
            r.0 == value & BOARD_MASK,
            r.wf(),
            forall|i: int| #[trigger] bit(r.0, i) == (0 <= i < 81 && bit(value, i)),
    {
        proof {
            lemma_and_mask_wf(value);
        }
        BitBoard(value & BOARD_MASK)
    }

    /// The complement: every square not in this board.
    pub fn not(self) -> (r: BitBoard)
        ensures
            r.0 == !self.0 & BOARD_MASK,
            r.wf(),
            forall|i: int| #[trigger] bit(r.0, i) == (0 <= i < 81 && !bit(self.0, i)),
    {
        proof {
            lemma_and_mask_wf(!self.0);
        }
        BitBoard(!self.0 & BOARD_MASK)
    }

    /// The intersection of two boards.
    pub fn bitand(self, rhs: BitBoard) -> (r: BitBoard)
        ensures
            r.0 == self.0 & rhs.0,
            self.wf() || rhs.wf() ==> r.wf(),
            forall|i: int| #[trigger] bit(r.0, i) == (bit(self.0, i) && bit(rhs.0, i)),
    {
        proof {
            if self.wf() || rhs.wf() {
                lemma_and_wf(self.0, rhs.0);
            }
        }
        BitBoard(self.0 & rhs.0)
    }

    /// The union of two boards.
    pub fn bitor(self, rhs: BitBoard) -> (r: BitBoard)
        ensures
            r.0 == self.0 | rhs.0,
            self.wf() && rhs.wf() ==> r.wf(),
            forall|i: int| #[trigger] bit(r.0, i) == (bit(self.0, i) || bit(rhs.0, i)),
    {
        proof {
            if self.wf() && rhs.wf() {
                lemma_or_wf(self.0, rhs.0);
            }
        }
        BitBoard(self.0 | rhs.0)
    }

    /// The symmetric difference of two boards.
    pub fn bitxor(self, rhs: BitBoard) -> (r: BitBoard)
        ensures
            r.0 == self.0 ^ rhs.0,
            self.wf() && rhs.wf() ==> r.wf(),
            forall|i: int| #[trigger] bit(r.0, i) == (bit(self.0, i) != bit(rhs.0, i)),
    {
        proof {
            if self.wf() && rhs.wf() {
                lemma_xor_wf(self.0, rhs.0);
            }
        }
        BitBoard(self.0 ^ rhs.0)
    }

    /// The squares of this board that are not in `rhs`.
    pub fn difference(self, rhs: BitBoard) -> (r: BitBoard)
        ensures
            r.0 == self.0 & (!rhs.0 & BOARD_MASK),
            r.wf(),
            forall|i: int| #[trigger] bit(r.0, i) == (0 <= i < 81 && bit(self.0, i) && !bit(rhs.0, i)),
    {
        self.bitand(rhs.not())
    }

    /// Subtract one from the backing integer (wrapping), keeping the board bits.
    pub fn dec(self) -> (r: BitBoard)
        ensures
            r.0 == vstd::wrapping::u128_specs::wrapping_sub(self.0, 1) & BOARD_MASK,
            r.wf(),
    {
        BitBoard::new(self.0.wrapping_sub(1))
    }

    /// The number of squares on the board.
    pub fn len(self) -> (r: u32)
        ensures
            r == popcount(self.0),
    {
        u128_count_ones(self.0)
    }

    /// The number of set bits of the backing integer.
    pub fn count_ones(self) -> (r: u32)
        ensures
            r == popcount(self.0),
    {
        u128_count_ones(self.0)
    }

    /// The number of board squares not on the board, counting the 81 square bits.
    pub fn count_zeros(self) -> (r: u32)
        requires
            popcount(self.0) <= 81,
        ensures
            r == 81 - popcount(self.0),
    {
        let ones = u128_count_ones(self.0);
        (128 - ones) - 47
    }

    /// Does the board hold `square`?
    pub fn has(self, square: Square) -> (r: bool)
        ensures
            r == bit(self.0, square.idx()),
    {
        proof {
            lemma_square_idx(square);
            lemma_test_bit(self.0, square.idx() as u128);
        }
        self.0 & (1u128 << square.index()) != 0
    }

    /// This board without `square`.
    pub fn rm(self, square: Square) -> (r: BitBoard)
        ensures
            r.wf() || !self.wf() ==> r.0 == self.0 & (!(1u128 << (square.idx() as u128)) & BOARD_MASK),
            r.wf(),
            forall|i: int| #[trigger] bit(r.0, i) == (0 <= i < 81 && bit(self.0, i) && i != square.idx()),
    {
        self.bitand(square.bitboard().not())
    }

    /// The two boards have no square in common.
    pub fn is_disjoint(self, other: BitBoard) -> (r: bool)
        ensures
            r == (self.0 & other.0 == 0),
    {
        self.0 & other.0 == 0
    }

    /// Every square of this board is on `other`.
    pub fn is_subset(self, other: BitBoard) -> (r: bool)
        ensures
            r == (other.0 & self.0 == self.0),
    {
        other.0 & self.0 == self.0
    }

    /// Every square of `other` is on this board.
    pub fn is_superset(self, other: BitBoard) -> (r: bool)
        ensures
            r == (self.0 & other.0 == other.0),
    {
        self.0 & other.0 == other.0
    }

    /// The board holds no square.
    pub fn is_empty(self) -> (r: bool)
        ensures
            r == (self.0 == 0),
    {
        self.0 == 0
    }

    /// The first square of the board, scanning from A1 to I9.
    pub fn next_square(self) -> (r: Option<Square>)
        requires
            self.wf(),
        ensures
            r is None <==> self.0 == 0,
            r matches Some(s) ==> bit(self.0, s.idx()) && forall|j: int| 0 <= j < s.idx() ==> !bit(self.0, j),
    {
        if self.0 > 0 {
            let tz = u128_trailing_zeros(self.0);
            proof {
                if tz >= 81 {
                    lemma_wf_high_bits(self.0, tz as int);
                }
            }
            Some(Square::index_const(tz as usize))
        } else {
            None
        }
    }

    /// Shift every square `rhs` ranks south (towards rank i), dropping squares that leave the board.
    pub fn shl(self, rhs: usize) -> (r: BitBoard)
        ensures
            rhs == 0 ==> r == self,
            rhs >= 9 ==> r.0 == 0,
            0 < rhs ==> r.wf(),
            0 < rhs ==> forall|i: int| #[trigger] bit(r.0, i) == (0 <= i < 81 && i % 9 >= rhs && bit(self.0, i - rhs)),
    {
        if rhs == 0 {
            self
        } else if rhs >= 9 {
            BitBoard(0)
        } else {
            let south = Rank::index_const(rhs - 1).south();
            let v = (self.0 << rhs) & south.0;
            proof {
                assert forall|i: int| #[trigger] bit(v & BOARD_MASK, i) == (0 <= i < 81 && i % 9 >= rhs && bit(self.0, i - rhs)) by {
                    lemma_bit_shl(self.0, rhs as u128, i);
                }
            }
            BitBoard::new(v)
        }
    }

    /// Shift every square `rhs` ranks north (towards rank a), dropping squares that leave the board.
    pub fn shr(self, rhs: usize) -> (r: BitBoard)
        ensures
            rhs == 0 ==> r == self,
            rhs >= 9 ==> r.0 == 0,
            0 < rhs ==> r.wf(),
            0 < rhs ==> forall|i: int| #[trigger] bit(r.0, i) == (0 <= i < 81 && i % 9 + rhs < 9 && bit(self.0, i + rhs)),
    {
        if rhs == 0 {
            self
        } else if rhs >= 9 {
            BitBoard(0)
        } else {
            let north = Rank::index_const(9 - rhs).north();
            let v = (self.0 >> rhs) & north.0;
            proof {
                assert forall|i: int| #[trigger] bit(v & BOARD_MASK, i) == (0 <= i < 81 && i % 9 + rhs < 9 && bit(self.0, i + rhs)) by {
                    lemma_bit_shr(self.0, rhs as u128, i);
                }
            }
            BitBoard::new(v)
        }
    }

    /// Shift the pattern north by `dy` ranks.
    pub fn shift_north(self, dy: usize) -> (r: BitBoard)
        ensures
            dy == 0 ==> r == self,
            dy >= 9 ==> r.0 == 0,
            0 < dy ==> r.wf(),
            0 < dy ==> forall|i: int| #[trigger] bit(r.0, i) == (0 <= i < 81 && i % 9 + dy < 9 && bit(self.0, i + dy)),
    {
        self.shr(dy)
    }

    /// Shift the pattern south by `dy` ranks.
    pub fn shift_south(self, dy: usize) -> (r: BitBoard)
        ensures
            dy == 0 ==> r == self,
            dy >= 9 ==> r.0 == 0,
            0 < dy ==> r.wf(),
            0 < dy ==> forall|i: int| #[trigger] bit(r.0, i) == (0 <= i < 81 && i % 9 >= dy && bit(self.0, i - dy)),
    {
        self.shl(dy)
    }

    /// Shift the pattern vertically: north when `dy < 0`, south when `dy > 0`.
    pub fn shift_along_file(self, dy: i32) -> (r: BitBoard)
        requires
            -9 <= dy <= 9,
        ensures
            dy == 0 ==> r == self,
            self.wf() ==> r.wf(),
            self.wf() ==> forall|i: int| 0 <= i < 81 ==> #[trigger] bit(r.0, i) == (0 <= i % 9 - dy < 9
                && bit(self.0, i - dy)),
    {
        if dy <= 0 {
            self.shr((-dy) as usize)
        } else {
            self.shl(dy as usize)
        }
    }

    /// Shift the pattern east (towards file 1) by `dx` files.
    pub fn shift_east(self, dx: usize) -> (r: BitBoard)
        requires
            9 * dx < 128,
        ensures
            r.0 == self.0 >> (9 * dx) as u128,
            self.wf() ==> r.wf(),
            forall|i: int| #[trigger] bit(r.0, i) == (0 <= i && bit(self.0, i + 9 * dx)),
    {
        let v = self.0 >> (9 * dx);
        proof {
            assert forall|i: int| #[trigger] bit(v, i) == (0 <= i && bit(self.0, i + 9 * dx)) by {
                lemma_bit_shr(self.0, (9 * dx) as u128, i);
            }
            if self.wf() {
                lemma_shr_wf(self.0, (9 * dx) as u128);
            }
        }
        BitBoard(v)
    }

    /// Shift the pattern west (towards file 9) by `dx` files.
    pub fn shift_west(self, dx: usize) -> (r: BitBoard)
        requires
            9 * dx < 128,
        ensures
            r.0 == (self.0 << (9 * dx) as u128) & BOARD_MASK,
            r.wf(),
            forall|i: int| #[trigger] bit(r.0, i) == (0 <= i < 81 && i >= 9 * dx && bit(self.0, i - 9 * dx)),
    {
        let v = self.0 << (9 * dx);
        proof {
            assert forall|i: int| #[trigger] bit(v, i) == (9 * dx <= i < 128 && bit(self.0, i - 9 * dx)) by {
                lemma_bit_shl(self.0, (9 * dx) as u128, i);
            }
            lemma_and_mask_wf(v);
        }
        BitBoard(v & BOARD_MASK)
    }

    /// Shift the pattern horizontally: east when `dx < 0`, west when `dx > 0`.
    pub fn shift_along_rank(self, dx: i32) -> (r: BitBoard)
        requires
            -9 <= dx <= 9,
        ensures
            self.wf() ==> r.wf(),
            self.wf() ==> forall|i: int| 0 <= i < 81 ==> #[trigger] bit(r.0, i) == (0 <= i / 9 - dx < 9
                && bit(self.0, i - 9 * dx)),
    {
        if dx <= 0 {
            let r = self.shift_east((-dx) as usize);
            proof {
                if self.wf() {
                    assert forall|i: int| 0 <= i < 81 implies #[trigger] bit(r.0, i) == (0 <= i / 9 - dx < 9
                        && bit(self.0, i - 9 * dx)) by {
                        if i - 9 * dx >= 81 {
                            lemma_wf_high_bits(self.0, i - 9 * dx);
                        }
                    }
                }
            }
            r
        } else {
            self.shift_west(dx as usize)
        }
    }

    /// Shift the pattern so that square `from` lands on square `to`, and every other
    /// square moves by the same offset.
    pub fn shift(self, from: Square, to: Square) -> (r: BitBoard)
        ensures
            self.wf() ==> r.wf(),
            self.wf() ==> forall|i: int| 0 <= i < 81 ==> #[trigger] bit(r.0, i) == (
                0 <= i % 9 - (to.rank_idx() - from.rank_idx()) < 9
                && 0 <= i / 9 - (to.file_idx() - from.file_idx()) < 9
                && bit(self.0, i - 9 * (to.file_idx() - from.file_idx()) - (to.rank_idx() - from.rank_idx()))),
    {
        proof {
            lemma_square_idx(from);
            lemma_square_idx(to);
        }
        let dx = to.index() as i32 / 9 - from.index() as i32 / 9;
        let dy = to.index() as i32 % 9 - from.index() as i32 % 9;
        let a = self.shift_along_file(dy);
        let r = a.shift_along_rank(dx);
        proof {
            if self.wf() {
                assert forall|i: int| 0 <= i < 81 implies #[trigger] bit(r.0, i) == (
                    0 <= i % 9 - dy < 9 && 0 <= i / 9 - dx < 9 && bit(self.0, i - 9 * dx - dy)) by {
                    if 0 <= i / 9 - dx < 9 {
                        let j = i - 9 * dx;
                        assert(j % 9 == i % 9);
                        assert(bit(a.0, j) == (0 <= j % 9 - dy < 9 && bit(self.0, j - dy)));
                    }
                }
            }
        }
        r
    }

    /// Rotate the board 180 degrees: square `i` moves to square `80 - i`.
    pub fn rotate(self) -> (r: BitBoard)
        ensures
            r.wf(),
            forall|i: int| 0 <= i < 81 ==> #[trigger] bit(r.0, i) == bit(self.0, 80 - i),
    {
        let rv = u128_reverse_bits(self.0);
        let v = rv >> 47u128;
        proof {
            assert forall|i: int| 0 <= i < 81 implies #[trigger] bit(v, i) == bit(self.0, 80 - i) by {
                lemma_bit_shr(rv, 47, i);
            }
            assert(rv >> 47u128 <= 0x1_FFFF_FFFF_FFFF_FFFF_FFFFu128) by (bit_vector);
        }
        BitBoard(v)
    }

    /// Reverse all 128 bits of the backing integer.
    pub fn rev(self) -> (r: BitBoard)
        ensures
            forall|i: int| 0 <= i < 128 ==> #[trigger] bit(r.0, i) == bit(self.0, 127 - i),
    {
        BitBoard(u128_reverse_bits(self.0))
    }
}

/// Shifting a well-formed value right keeps it well-formed.
pub proof fn lemma_shr_wf(a: u128, n: u128)
    requires
        a <= BOARD_MASK,
    ensures
        a >> n <= BOARD_MASK,
{
    assert(a <= 0x1_FFFF_FFFF_FFFF_FFFF_FFFFu128 ==> a >> n <= 0x1_FFFF_FFFF_FFFF_FFFF_FFFFu128)
        by (bit_vector);
}

/// A value with bit `i` set is not zero.
pub proof fn lemma_nonzero_bit(x: u128, i: int)
    ensures
        bit(x, i) ==> x != 0,
{
    if bit(x, i) && x == 0 {
        lemma_bit_zero(i);
    }
}

/// The symmetric difference of well-formed values is well-formed.
pub proof fn lemma_xor_wf(a: u128, b: u128)
    requires
        a <= BOARD_MASK,
        b <= BOARD_MASK,
    ensures
        a ^ b <= BOARD_MASK,
{
    assert(a <= 0x1_FFFF_FFFF_FFFF_FFFF_FFFFu128 && b <= 0x1_FFFF_FFFF_FFFF_FFFF_FFFFu128 ==> a ^ b
        <= 0x1_FFFF_FFFF_FFFF_FFFF_FFFFu128) by (bit_vector);
}

/// Every well-formed board has no bit at or above 81.
pub broadcast proof fn lemma_wf_no_high(b: BitBoard, i: int)
    requires
        b.wf(),
        81 <= i,
    ensures
        !#[trigger] bit(b.0, i),
{
    lemma_wf_high_bits(b.0, i);
}

/// Two well-formed boards that hold the same squares are equal.
pub proof fn lemma_board_ext(a: BitBoard, b: BitBoard)
    requires
        a.wf(),
        b.wf(),
        forall|i: int| 0 <= i < 81 ==> bit(a.0, i) == bit(b.0, i),
    ensures
        a == b,
{
    assert forall|i: int| 0 <= i < 128 implies bit(a.0, i) == bit(b.0, i) by {
        if i >= 81 {
            lemma_wf_high_bits(a.0, i);
            lemma_wf_high_bits(b.0, i);
        }
    }
    lemma_bits_ext(a.0, b.0);
}


/// A nonzero value has a set bit.
pub proof fn lemma_nonzero_bit_index(x: u128) -> (i: int)
    requires
        x != 0,
    ensures
        0 <= i < 128,
        bit(x, i),
{
    lemma_popcount_zero(x);
    crate::bits::lemma_popcount_count(x);
    crate::bits::lemma_count_zero(x, 0, 128);
    choose|i: int| 0 <= i < 128 && bit(x, i)
}

/// The square index on the mirrored file (file 1 and file 9 swap places).
pub open spec fn file_mirror(i: int) -> int {
    9 * (8 - i / 9) + i % 9
}

/// The square index on the mirrored rank (rank a and rank i swap places).
pub open spec fn rank_mirror(i: int) -> int {
    9 * (i / 9) + (8 - i % 9)
}

impl BitBoard {
    /// Mirror the set along the middle file: a square on file `f` goes to file `10 - f`.
    pub fn flip_files(self) -> (r: BitBoard)
        ensures
            r.wf(),
            forall|t: int| #[trigger] bit(r.0, t) == (0 <= t < 81 && bit(self.0, file_mirror(t))),
    {
        let mut r = BitBoard::empty();
        let mut i: usize = 0;
        while i < 81
            invariant
                i <= 81,
                r.wf(),
                forall|t: int| #[trigger] bit(r.0, t) == (0 <= t < 81 && file_mirror(t) < i && bit(self.0, file_mirror(t))),
            decreases 81 - i,
        {
            let sq = Square::index_const(i);
            if self.has(sq) {
                let m = Square::index_const(9 * (8 - i / 9) + i % 9);
                r = r.bitor(m.bitboard());
                proof {
                    assert forall|t: int| #[trigger] bit(r.0, t) == (0 <= t < 81 && file_mirror(t) < i + 1 && bit(self.0, file_mirror(t))) by {
                        if 0 <= t < 81 {
                            assert(file_mirror(t) == i <==> t == file_mirror(i as int)) by (nonlinear_arith)
                                requires 0 <= t < 81, 0 <= i < 81;
                        }
                    }
                }
            } else {
                proof {
                    assert forall|t: int| #[trigger] bit(r.0, t) == (0 <= t < 81 && file_mirror(t) < i + 1 && bit(self.0, file_mirror(t))) by {
                        if 0 <= t < 81 && file_mirror(t) == i {
                            assert(!bit(self.0, file_mirror(t)));
                        }
                    }
                }
            }
            i += 1;
        }
        proof {
            assert forall|t: int| #[trigger] bit(r.0, t) == (0 <= t < 81 && bit(self.0, file_mirror(t))) by {
                if 0 <= t < 81 {
                    assert(file_mirror(t) < 81) by (nonlinear_arith)
                        requires 0 <= t < 81;
                }
            }
        }
        r
    }

    /// Mirror the set along the middle rank: a square on rank a goes to rank i, and so on.
    pub fn flip_ranks(self) -> (r: BitBoard)
        ensures
            r.wf(),
            forall|t: int| #[trigger] bit(r.0, t) == (0 <= t < 81 && bit(self.0, rank_mirror(t))),
    {
        let mut r = BitBoard::empty();
        let mut i: usize = 0;
        while i < 81
            invariant
                i <= 81,
                r.wf(),
                forall|t: int| #[trigger] bit(r.0, t) == (0 <= t < 81 && rank_mirror(t) < i && bit(self.0, rank_mirror(t))),
            decreases 81 - i,
        {
            let sq = Square::index_const(i);
            if self.has(sq) {
                let m = Square::index_const(9 * (i / 9) + (8 - i % 9));
                r = r.bitor(m.bitboard());
                proof {
                    assert forall|t: int| #[trigger] bit(r.0, t) == (0 <= t < 81 && rank_mirror(t) < i + 1 && bit(self.0, rank_mirror(t))) by {
                        if 0 <= t < 81 {
                            assert(rank_mirror(t) == i <==> t == rank_mirror(i as int)) by (nonlinear_arith)
                                requires 0 <= t < 81, 0 <= i < 81;
                        }
                    }
                }
            } else {
                proof {
                    assert forall|t: int| #[trigger] bit(r.0, t) == (0 <= t < 81 && rank_mirror(t) < i + 1 && bit(self.0, rank_mirror(t))) by {
                        if 0 <= t < 81 && rank_mirror(t) == i {
                            assert(!bit(self.0, rank_mirror(t)));
                        }
                    }
                }
            }
            i += 1;
        }
        proof {
            assert forall|t: int| #[trigger] bit(r.0, t) == (0 <= t < 81 && bit(self.0, rank_mirror(t))) by {
                if 0 <= t < 81 {
                    assert(rank_mirror(t) < 81) by (nonlinear_arith)
                        requires 0 <= t < 81;
                }
            }
        }
        r
    }

    /// The squares of the set, in increasing order of their index.
    pub fn iter(self) -> (r: Vec<Square>)
        ensures
            forall|j: int| 0 <= j < r@.len() ==> bit(self.0, #[trigger] r@[j].idx()),
            forall|j1: int, j2: int| 0 <= j1 < j2 < r@.len() ==> #[trigger] r@[j1].idx() < #[trigger] r@[j2].idx(),
            forall|t: int| 0 <= t < 81 && #[trigger] bit(self.0, t) ==> exists|j: int| 0 <= j < r@.len() && #[trigger] r@[j].idx() == t,
    {
        let mut r: Vec<Square> = Vec::new();
        let mut i: usize = 0;
        while i < 81
            invariant
                i <= 81,
                forall|j: int| 0 <= j < r@.len() ==> bit(self.0, #[trigger] r@[j].idx()) && r@[j].idx() < i,
                forall|j1: int, j2: int| 0 <= j1 < j2 < r@.len() ==> #[trigger] r@[j1].idx() < #[trigger] r@[j2].idx(),
                forall|t: int| 0 <= t < i && #[trigger] bit(self.0, t) ==> exists|j: int| 0 <= j < r@.len() && #[trigger] r@[j].idx() == t,
            decreases 81 - i,
        {
            let sq = Square::index_const(i);
            if self.has(sq) {
                let ghost old_r = r@;
                r.push(sq);
                proof {
                    assert forall|t: int| 0 <= t < i + 1 && #[trigger] bit(self.0, t) implies exists|j: int| 0 <= j < r@.len() && #[trigger] r@[j].idx() == t by {
                        if t < i {
                            let j = choose|j: int| 0 <= j < old_r.len() && #[trigger] old_r[j].idx() == t;
                            assert(r@[j] == old_r[j]);
                        } else {
                            assert(r@[old_r.len() as int].idx() == t);
                        }
                    }
                }
            }
            i += 1;
        }
        r
    }
}

} // verus!
