//! Bit-level facts about `u128` values, proved with the bit-vector solver.
use vstd::prelude::*;

verus! {

/// The low 81 bits: one for every square.
pub const BOARD_MASK: u128 = 0x1_FFFF_FFFF_FFFF_FFFF_FFFF;

/// Bit `i` of `x` is set.
pub open spec fn bit(x: u128, i: int) -> bool {
    0 <= i < 128 && (x >> (i as u128)) & 1u128 == 1u128
}

/// The number of set bits of `x`.
pub open spec fn popcount(x: u128) -> nat
    decreases x,
{
    if x == 0 {
        0
    } else {
        (x % 2) as nat + popcount(x / 2)
    }
}

proof fn bv_and(a: u128, b: u128, k: u128)
    by (bit_vector)
    requires
        k < 128,
    ensures
        ((a & b) >> k) & 1u128 == 1u128 <==> ((a >> k) & 1u128 == 1u128 && (b >> k) & 1u128
            == 1u128),
{
}

proof fn bv_or(a: u128, b: u128, k: u128)
    by (bit_vector)
    requires
        k < 128,
    ensures
        ((a | b) >> k) & 1u128 == 1u128 <==> ((a >> k) & 1u128 == 1u128 || (b >> k) & 1u128
            == 1u128),
{
}

proof fn bv_xor(a: u128, b: u128, k: u128)
    by (bit_vector)
    requires
        k < 128,
    ensures
        ((a ^ b) >> k) & 1u128 == 1u128 <==> ((a >> k) & 1u128 == 1u128 != ((b >> k) & 1u128
            == 1u128)),
{
}

proof fn bv_not(a: u128, k: u128)
    by (bit_vector)
    requires
        k < 128,
    ensures
        ((!a) >> k) & 1u128 == 1u128 <==> !((a >> k) & 1u128 == 1u128),
{
}

proof fn bv_shl(a: u128, n: u128, k: u128)
    by (bit_vector)
    requires
        k < 128,
        n < 128,
    ensures
        ((a << n) >> k) & 1u128 == 1u128 <==> (n <= k && (a >> ((k - n) as u128)) & 1u128 == 1u128),
{
}

proof fn bv_shr(a: u128, n: u128, k: u128)
    by (bit_vector)
    requires
        k < 128,
        n < 128,
    ensures
        ((a >> n) >> k) & 1u128 == 1u128 <==> (k + n < 128 && (a >> ((k + n) as u128)) & 1u128 == 1u128),
{
}

proof fn bv_low_mask(n: u128, k: u128)
    by (bit_vector)
    requires
        k < 128,
        n < 128,
    ensures
        ((((1u128 << n) - 1u128) as u128) >> k) & 1u128 == 1u128 <==> k < n,
{
}

proof fn bv_single(n: u128, k: u128)
    by (bit_vector)
    requires
        k < 128,
        n < 128,
    ensures
        ((1u128 << n) >> k) & 1u128 == 1u128 <==> k == n,
{
}

proof fn bv_test_bit(x: u128, k: u128)
    by (bit_vector)
    requires
        k < 128,
    ensures
        (x & (1u128 << k) != 0) <==> ((x >> k) & 1u128 == 1u128),
{
}

proof fn bv_zero(k: u128)
    by (bit_vector)
    requires
        k < 128,
    ensures
        !((0u128 >> k) & 1u128 == 1u128),
{
}

proof fn bv_wf_high(x: u128, k: u128)
    by (bit_vector)
    requires
        k < 128,
        81 <= k,
        x <= 0x1_FFFF_FFFF_FFFF_FFFF_FFFFu128,
    ensures
        !((x >> k) & 1u128 == 1u128),
{
}

proof fn bv_mask_low(k: u128)
    by (bit_vector)
    requires
        k < 81,
    ensures
        (0x1_FFFF_FFFF_FFFF_FFFF_FFFFu128 >> k) & 1u128 == 1u128,
{
}

proof fn bv_and_mask_wf(x: u128)
    by (bit_vector)
    ensures
        x & 0x1_FFFF_FFFF_FFFF_FFFF_FFFFu128 <= 0x1_FFFF_FFFF_FFFF_FFFF_FFFFu128,
{
}

proof fn bv_ext_step(a: u128, b: u128, k: u128)
    by (bit_vector)
    requires
        1 <= k < 128,
        a >> k == b >> k,
        ((a >> ((k - 1) as u128)) & 1u128 == 1u128) == ((b >> ((k - 1) as u128)) & 1u128 == 1u128),
    ensures
        a >> ((k - 1) as u128) == b >> ((k - 1) as u128),
{
}

proof fn bv_ext_top(a: u128, b: u128)
    by (bit_vector)
    requires
        ((a >> 127u128) & 1u128 == 1u128) == ((b >> 127u128) & 1u128 == 1u128),
    ensures
        a >> 127u128 == b >> 127u128,
{
}

proof fn bv_shr_zero(a: u128)
    by (bit_vector)
    ensures
        a >> 0u128 == a,
{
}

/// Bit `i` of `a & b` is set exactly when it is set in both.
pub broadcast proof fn lemma_bit_and(a: u128, b: u128, i: int)
    ensures
        #[trigger] bit(a & b, i) == (bit(a, i) && bit(b, i)),
{
    if 0 <= i < 128 {
        bv_and(a, b, i as u128);
    }
}

/// Bit `i` of `a | b` is set exactly when it is set in either.
pub broadcast proof fn lemma_bit_or(a: u128, b: u128, i: int)
    ensures
        #[trigger] bit(a | b, i) == (bit(a, i) || bit(b, i)),
{
    if 0 <= i < 128 {
        bv_or(a, b, i as u128);
    }
}

/// Bit `i` of `a ^ b` is set exactly when it is set in one of them.
pub broadcast proof fn lemma_bit_xor(a: u128, b: u128, i: int)
    ensures
        #[trigger] bit(a ^ b, i) == (bit(a, i) != bit(b, i)),
{
    if 0 <= i < 128 {
        bv_xor(a, b, i as u128);
    }
}

/// Bit `i` of `!a` is set exactly when it is clear in `a`.
pub broadcast proof fn lemma_bit_not(a: u128, i: int)
    ensures
        #[trigger] bit(!a, i) == (0 <= i < 128 && !bit(a, i)),
{
    if 0 <= i < 128 {
        bv_not(a, i as u128);
    }
}

/// Shifting left by `n` moves bit `i - n` to bit `i`.
pub broadcast proof fn lemma_bit_shl(a: u128, n: u128, i: int)
    requires
        n < 128,
    ensures
        #[trigger] bit(a << n, i) == (n <= i < 128 && bit(a, i - n)),
{
    if 0 <= i < 128 {
        bv_shl(a, n, i as u128);
    }
}

/// Shifting right by `n` moves bit `i + n` to bit `i`.
pub broadcast proof fn lemma_bit_shr(a: u128, n: u128, i: int)
    requires
        n < 128,
    ensures
        #[trigger] bit(a >> n, i) == (0 <= i && bit(a, i + n)),
{
    if 0 <= i < 128 {
        bv_shr(a, n, i as u128);
    }
}

/// `(1 << n) - 1` has exactly the bits below `n` set.
pub broadcast proof fn lemma_bit_low_mask(n: u128, i: int)
    requires
        n < 128,
    ensures
        #[trigger] bit(((1u128 << n) - 1u128) as u128, i) == (0 <= i < n),
{
    if 0 <= i < 128 {
        bv_low_mask(n, i as u128);
    }
}

/// `1 << n` has exactly bit `n` set.
pub broadcast proof fn lemma_bit_single(n: u128, i: int)
    requires
        n < 128,
    ensures
        #[trigger] bit(1u128 << n, i) == (i == n),
{
    if 0 <= i < 128 {
        bv_single(n, i as u128);
    }
}

/// Testing against a single bit reads that bit.
pub proof fn lemma_test_bit(x: u128, k: u128)
    requires
        k < 128,
    ensures
        (x & (1u128 << k) != 0) == bit(x, k as int),
{
    bv_test_bit(x, k);
}

/// No bit of zero is set.
pub broadcast proof fn lemma_bit_zero(i: int)
    ensures
        !#[trigger] bit(0u128, i),
{
    if 0 <= i < 128 {
        bv_zero(i as u128);
    }
}

/// The board mask has exactly the 81 square bits set.
pub broadcast proof fn lemma_bit_board_mask(i: int)
    ensures
        #[trigger] bit(BOARD_MASK, i) == (0 <= i < 81),
{
    if 0 <= i < 128 {
        if i < 81 {
            bv_mask_low(i as u128);
        } else {
            bv_wf_high(BOARD_MASK, i as u128);
        }
    }
}

/// The union of two well-formed values is well-formed.
pub proof fn lemma_or_wf(a: u128, b: u128)
    requires
        a <= BOARD_MASK,
        b <= BOARD_MASK,
    ensures
        a | b <= BOARD_MASK,
{
    assert(a <= 0x1_FFFF_FFFF_FFFF_FFFF_FFFFu128 && b <= 0x1_FFFF_FFFF_FFFF_FFFF_FFFFu128 ==> a | b
        <= 0x1_FFFF_FFFF_FFFF_FFFF_FFFFu128) by (bit_vector);
}

/// Masking with the board mask gives a well-formed value.
pub proof fn lemma_and_mask_wf(a: u128)
    ensures
        a & BOARD_MASK <= BOARD_MASK,
{
    bv_and_mask_wf(a);
}

/// The intersection with a well-formed value is well-formed.
pub proof fn lemma_and_wf(a: u128, b: u128)
    requires
        a <= BOARD_MASK || b <= BOARD_MASK,
    ensures
        a & b <= BOARD_MASK,
        a & b <= a,
        a & b <= b,
{
    assert(a & b <= a && a & b <= b) by (bit_vector);
}

/// A value at most the board mask has no bit at or above 81.
pub proof fn lemma_wf_high_bits(x: u128, i: int)
    requires
        x <= BOARD_MASK,
        81 <= i,
    ensures
        !bit(x, i),
{
    if i < 128 {
        bv_wf_high(x, i as u128);
    }
}

proof fn lemma_bits_ext_from(a: u128, b: u128, k: u128)
    requires
        k <= 127,
        a >> k == b >> k,
        forall|i: int| 0 <= i < 128 ==> bit(a, i) == bit(b, i),
    ensures
        a >> 0u128 == b >> 0u128,
    decreases k,
{
    if k > 0 {
        assert(bit(a, (k - 1) as int) == bit(b, (k - 1) as int));
        bv_ext_step(a, b, k);
        lemma_bits_ext_from(a, b, (k - 1) as u128);
    }
}

/// Two integers with the same bits are equal.
pub proof fn lemma_bits_ext(a: u128, b: u128)
    requires
        forall|i: int| 0 <= i < 128 ==> bit(a, i) == bit(b, i),
    ensures
        a == b,
{
    assert(bit(a, 127) == bit(b, 127));
    bv_ext_top(a, b);
    lemma_bits_ext_from(a, b, 127);
    bv_shr_zero(a);
    bv_shr_zero(b);
}

/// The bit lemmas, for use as ambient facts.
pub broadcast group group_bit_lemmas {
    lemma_bit_and,
    lemma_bit_or,
    lemma_bit_xor,
    lemma_bit_not,
    lemma_bit_zero,
    lemma_bit_board_mask,
}




/// The number of set bits of `x` at positions `lo` up to, not including, `hi`.
pub open spec fn count_bits(x: u128, lo: int, hi: int) -> nat
    decreases hi - lo,
{
    if lo >= hi {
        0
    } else {
        (if bit(x, lo) {
            1nat
        } else {
            0nat
        }) + count_bits(x, lo + 1, hi)
    }
}

proof fn bv_half(x: u128, k: u128)
    by (bit_vector)
    requires
        k < 127,
    ensures
        ((x / 2) >> k) & 1u128 == 1u128 <==> (x >> (k + 1)) & 1u128 == 1u128,
        ((x / 2) >> 127u128) & 1u128 != 1u128,
        (x % 2 == 1) <==> ((x >> 0u128) & 1u128 == 1u128),
        x % 2 == 0 || x % 2 == 1,
{
}

/// Halving shifts the bits down by one.
proof fn lemma_count_half(x: u128, lo: int, hi: int)
    requires
        0 <= lo,
        hi <= 127,
    ensures
        count_bits(x / 2, lo, hi) == count_bits(x, lo + 1, hi + 1),
    decreases hi - lo,
{
    if lo < hi {
        bv_half(x, lo as u128);
        lemma_count_half(x, lo + 1, hi);
    }
}

/// A range splits into two adjacent ranges.
pub proof fn lemma_count_split(x: u128, lo: int, mid: int, hi: int)
    requires
        lo <= mid <= hi,
    ensures
        count_bits(x, lo, hi) == count_bits(x, lo, mid) + count_bits(x, mid, hi),
    decreases mid - lo,
{
    if lo < mid {
        lemma_count_split(x, lo + 1, mid, hi);
    }
}

/// Counts over a range depend only on the bits in that range.
pub proof fn lemma_count_ext(x: u128, y: u128, lo: int, hi: int)
    requires
        forall|i: int| lo <= i < hi ==> #[trigger] bit(x, i) == bit(y, i),
    ensures
        count_bits(x, lo, hi) == count_bits(y, lo, hi),
    decreases hi - lo,
{
    if lo < hi {
        lemma_count_ext(x, y, lo + 1, hi);
    }
}

/// A range without set bits counts zero, and one with a set bit counts at least one.
pub proof fn lemma_count_zero(x: u128, lo: int, hi: int)
    ensures
        count_bits(x, lo, hi) == 0 <==> forall|i: int| lo <= i < hi ==> !#[trigger] bit(x, i),
    decreases hi - lo,
{
    if lo < hi {
        lemma_count_zero(x, lo + 1, hi);
    }
}

/// `popcount` counts the set bits of the whole integer.
pub proof fn lemma_popcount_count(x: u128)
    ensures
        popcount(x) == count_bits(x, 0, 128),
    decreases x,
{
    bv_half(x, 0);
    if x == 0 {
        assert forall|i: int| 0 <= i < 128 implies !#[trigger] bit(x, i) by {
            lemma_bit_zero(i);
        }
        lemma_count_zero(x, 0, 128);
    } else {
        lemma_popcount_count(x / 2);
        lemma_count_half(x, 0, 127);
        lemma_count_split(x / 2, 0, 127, 128);
        lemma_count_split(x, 1, 128, 129);
        assert(!bit(x, 128));
        assert(count_bits(x, 129, 129) == 0);
        assert(count_bits(x, 128, 129) == 0);
        assert(!bit(x / 2, 127));
        assert(count_bits(x / 2, 128, 128) == 0);
        assert(count_bits(x / 2, 127, 128) == 0);
        assert(count_bits(x, 0, 128) == (if bit(x, 0) { 1nat } else { 0nat }) + count_bits(x, 1, 128));
        assert((x % 2) as nat == (if bit(x, 0) { 1nat } else { 0nat }));
    }
}

/// A board value counts its set bits below 81.
pub proof fn lemma_popcount_board(x: u128)
    requires
        x <= BOARD_MASK,
    ensures
        popcount(x) == count_bits(x, 0, 81),
{
    lemma_popcount_count(x);
    lemma_count_split(x, 0, 81, 128);
    assert forall|i: int| 81 <= i < 128 implies !#[trigger] bit(x, i) by {
        lemma_wf_high_bits(x, i);
    }
    lemma_count_zero(x, 81, 128);
}

/// A value with exactly one set bit has no other set bit.
pub proof fn lemma_popcount_one(x: u128, s: int)
    requires
        popcount(x) == 1,
        bit(x, s),
    ensures
        forall|j: int| j != s ==> !#[trigger] bit(x, j),
{
    lemma_popcount_count(x);
    assert(0 <= s < 128);
    lemma_count_split(x, 0, s, 128);
    lemma_count_split(x, s, s + 1, 128);
    lemma_count_zero(x, 0, s);
    lemma_count_zero(x, s + 1, 128);
}

/// A value with a set bit has a nonzero count.
pub proof fn lemma_popcount_pos(x: u128, s: int)
    requires
        bit(x, s),
    ensures
        popcount(x) >= 1,
{
    lemma_popcount_count(x);
    lemma_count_zero(x, 0, 128);
}

/// Two distinct set bits give a count of at least two.
pub proof fn lemma_popcount_two(x: u128, s: int, t: int)
    requires
        bit(x, s),
        bit(x, t),
        s < t,
    ensures
        popcount(x) >= 2,
{
    lemma_popcount_count(x);
    lemma_count_split(x, 0, t, 128);
    lemma_count_zero(x, 0, t);
    lemma_count_zero(x, t, 128);
}


/// A range counts at most its length.
pub proof fn lemma_count_le(x: u128, lo: int, hi: int)
    requires
        lo <= hi,
    ensures
        count_bits(x, lo, hi) <= hi - lo,
    decreases hi - lo,
{
    if lo < hi {
        lemma_count_le(x, lo + 1, hi);
    }
}

/// A board value has at most 81 set bits.
pub proof fn lemma_popcount_le(x: u128)
    requires
        x <= BOARD_MASK,
    ensures
        popcount(x) <= 81,
{
    lemma_popcount_board(x);
    lemma_count_le(x, 0, 81);
}


/// A value with exactly one set bit has a count of one.
pub proof fn lemma_popcount_single(x: u128, s: int)
    requires
        bit(x, s),
        forall|j: int| j != s ==> !#[trigger] bit(x, j),
    ensures
        popcount(x) == 1,
{
    lemma_popcount_count(x);
    assert(0 <= s < 128);
    lemma_count_split(x, 0, s, 128);
    lemma_count_split(x, s, s + 1, 128);
    lemma_count_zero(x, 0, s);
    lemma_count_zero(x, s + 1, 128);
    assert(count_bits(x, s + 1, s + 1) == 0);
}

proof fn bv_clear_bit(x: u128, s: u128)
    by (bit_vector)
    requires
        s < 128,
        (x >> s) & 1u128 == 1u128,
    ensures
        x ^ (1u128 << s) < x,
{
}

/// Clearing a set bit makes a value smaller.
pub proof fn lemma_clear_bit_smaller(x: u128, s: int)
    requires
        bit(x, s),
    ensures
        x ^ (1u128 << (s as u128)) < x,
{
    bv_clear_bit(x, s as u128);
}

} // verus!
