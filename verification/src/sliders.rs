//! Moves of the sliding pieces: lance, rook and bishop.
//!
//! Directions are numbered 0 to 7: west (towards file 9), east, south
//! (towards rank i), north, south-west, north-west, south-east and north-east.
use vstd::prelude::*;
use crate::bitboard::{BitBoard, bit, BOARD_MASK, lemma_bit_or, lemma_or_wf, lemma_bit_single};
use crate::color::Color;
use crate::square::{Square, sq_index, on_board, lemma_square_idx, lemma_square_from_idx, same_file, same_rank, same_up_diagonal, same_down_diagonal};
use crate::file::File;
use crate::rank::Rank;

verus! {

broadcast use crate::bits::group_bit_lemmas;

/// The file reached after `k` steps from file `f` in direction `d`.
pub open spec fn ray_file(f: int, d: int, k: int) -> int {
    if d == 0 || d == 4 || d == 5 {
        f + k
    } else if d == 1 || d == 6 || d == 7 {
        f - k
    } else {
        f
    }
}

/// The rank reached after `k` steps from rank `r` in direction `d`.
pub open spec fn ray_rank(r: int, d: int, k: int) -> int {
    if d == 2 || d == 4 || d == 6 {
        r + k
    } else if d == 3 || d == 5 || d == 7 {
        r - k
    } else {
        r
    }
}

/// The square `k` steps from square `s` in direction `d` is on the board.
pub open spec fn ray_on(s: int, d: int, k: int) -> bool {
    on_board(ray_file(s / 9, d, k), ray_rank(s % 9, d, k))
}

/// The index of the square `k` steps from square `s` in direction `d`.
pub open spec fn ray_idx(s: int, d: int, k: int) -> int {
    sq_index(ray_file(s / 9, d, k), ray_rank(s % 9, d, k))
}

/// A piece on `s` sliding in direction `d` reaches `t`: `t` is on the ray and every
/// square before it is empty in `occ` (`t` itself may be occupied).
pub open spec fn slides_to(s: int, d: int, occ: u128, t: int) -> bool {
    exists|k: int|
        #![trigger ray_idx(s, d, k)]
        1 <= k && ray_on(s, d, k) && t == ray_idx(s, d, k) && (forall|j: int|
            1 <= j < k ==> !#[trigger] bit(occ, ray_idx(s, d, j)))
}

/// A rook on `s` reaches `t` along a file or rank.
pub open spec fn rook_reach(s: int, occ: u128, t: int) -> bool {
    slides_to(s, 0, occ, t) || slides_to(s, 1, occ, t) || slides_to(s, 2, occ, t) || slides_to(
        s,
        3,
        occ,
        t,
    )
}

/// A bishop on `s` reaches `t` along a diagonal.
pub open spec fn bishop_reach(s: int, occ: u128, t: int) -> bool {
    slides_to(s, 4, occ, t) || slides_to(s, 5, occ, t) || slides_to(s, 6, occ, t) || slides_to(
        s,
        7,
        occ,
        t,
    )
}

/// The direction a lance of `color` slides in: north for Black, south for White.
pub open spec fn lance_dir(color: Color) -> int {
    if color == Color::Black {
        3
    } else {
        2
    }
}

/// A lance of `color` on `s` reaches `t`.
pub open spec fn lance_reach(color: Color, s: int, occ: u128, t: int) -> bool {
    slides_to(s, lance_dir(color), occ, t)
}

/// The file and rank step of direction `d`.
fn dir_offsets(d: u8) -> (r: (i8, i8))
    requires
        d < 8,
    ensures
        r.0 == ray_file(0, d as int, 1),
        r.1 == ray_rank(0, d as int, 1),
{
    match d {
        0 => (1, 0),
        1 => (-1, 0),
        2 => (0, 1),
        3 => (0, -1),
        4 => (1, 1),
        5 => (1, -1),
        6 => (-1, 1),
        _ => (-1, -1),
    }
}

/// The squares a piece on `sq` reaches sliding in direction `d`, square by square.
#[verifier::spinoff_prover]
#[verifier::rlimit(40)]
fn slide(sq: Square, d: u8, occ: u128) -> (r: u128)
    requires
        d < 8,
    ensures
        r <= BOARD_MASK,
        forall|t: int| #[trigger] bit(r, t) == slides_to(sq.idx(), d as int, occ, t),
{
    proof {
        lemma_square_idx(sq);
    }
    let ghost s = sq.idx();
    let ghost dd = d as int;
    let (df, dr) = dir_offsets(d);
    let mut cur = sq;
    let mut moves: u128 = 0;
    let mut k: usize = 0;
    let mut blocked = false;
    proof {
        assert forall|t: int| #[trigger] bit(moves, t) == (exists|j: int| 1 <= j <= k && t == ray_idx(s, dd, j)) by {
            crate::bits::lemma_bit_zero(t);
        }
    }
    while !blocked
        invariant
            0 <= dd < 8,
            df == ray_file(0, dd, 1),
            dr == ray_rank(0, dd, 1),
            s == sq.idx(),
            0 <= s < 81,
            k <= 8,
            ray_on(s, dd, k as int),
            cur.idx() == ray_idx(s, dd, k as int),
            moves <= BOARD_MASK,
            forall|t: int| #[trigger] bit(moves, t) == (exists|j: int| 1 <= j <= k && t == ray_idx(s, dd, j)),
            forall|j: int| 1 <= j < k ==> !#[trigger] bit(occ, ray_idx(s, dd, j)),
            blocked ==> k >= 1 && bit(occ, ray_idx(s, dd, k as int)),
            !blocked && k >= 1 ==> !bit(occ, ray_idx(s, dd, k as int)),
        ensures
            blocked ==> k >= 1 && bit(occ, ray_idx(s, dd, k as int)),
            !blocked ==> !ray_on(s, dd, k + 1) && (k >= 1 ==> !bit(occ, ray_idx(s, dd, k as int))),
            forall|j: int| 1 <= j < k ==> !#[trigger] bit(occ, ray_idx(s, dd, j)),
            moves <= BOARD_MASK,
            forall|t: int| #[trigger] bit(moves, t) == (exists|j: int| 1 <= j <= k && t == ray_idx(s, dd, j)),
            ray_on(s, dd, k as int),
            k <= 8,
        decreases 9 - k,
    {
        proof {
            lemma_square_idx(cur);
        }
        match cur.try_offset(df, dr) {
            None => {
                break;
            },
            Some(n) => {
                let nb = n.bitboard();
                proof {
                    lemma_square_from_idx(ray_idx(s, dd, k + 1));
                    assert(n.idx() == ray_idx(s, dd, k + 1));
                    lemma_or_wf(moves, nb.0);
                    assert forall|t: int| #[trigger] bit(moves | nb.0, t) == (exists|j: int| 1 <= j <= k + 1 && t == ray_idx(s, dd, j)) by {
                        lemma_bit_or(moves, nb.0, t);
                        if t == n.idx() {
                            assert(t == ray_idx(s, dd, k + 1));
                        }
                        if exists|j: int| 1 <= j <= k + 1 && t == ray_idx(s, dd, j) {
                            let j = choose|j: int| 1 <= j <= k + 1 && t == ray_idx(s, dd, j);
                            if j <= k {
                                assert(exists|j: int| 1 <= j <= k && t == ray_idx(s, dd, j));
                            }
                        }
                    }
                }
                moves = moves | nb.0;
                k = k + 1;
                cur = n;
                if (occ & nb.0) != 0 {
                    proof {
                        crate::bits::lemma_test_bit(occ, n.idx() as u128);
                    }
                    blocked = true;
                } else {
                    proof {
                        crate::bits::lemma_test_bit(occ, n.idx() as u128);
                    }
                }
            },
        }
    }
    proof {
        assert forall|t: int| #[trigger] bit(moves, t) == slides_to(s, dd, occ, t) by {
            if bit(moves, t) {
                let j = choose|j: int| 1 <= j <= k && t == ray_idx(s, dd, j);
                assert(ray_on(s, dd, j));
                assert(forall|i: int| 1 <= i < j ==> !#[trigger] bit(occ, ray_idx(s, dd, i)));
                assert(slides_to(s, dd, occ, t));
            }
            if slides_to(s, dd, occ, t) {
                let kk = choose|kk: int|
                    #![trigger ray_idx(s, dd, kk)]
                    1 <= kk && ray_on(s, dd, kk) && t == ray_idx(s, dd, kk) && (forall|j: int|
                        1 <= j < kk ==> !#[trigger] bit(occ, ray_idx(s, dd, j)));
                if kk > k {
                    if blocked {
                        assert(!bit(occ, ray_idx(s, dd, k as int)));
                    } else {
                        assert(ray_on(s, dd, k + 1));
                    }
                }
                assert(exists|j: int| 1 <= j <= k && t == ray_idx(s, dd, j));
            }
        }
    }
    moves
}

/// `i` is an inner square: not on the edge files or ranks.
pub open spec fn inner(i: int) -> bool {
    1 <= i / 9 <= 7 && 1 <= i % 9 <= 7
}

/// A rook on `s` attacks `t` on an empty board.
pub open spec fn rook_line(s: int, t: int) -> bool {
    0 <= t < 81 && (same_file(s, t) != same_rank(s, t))
}

/// A bishop on `s` attacks `t` on an empty board.
pub open spec fn bishop_line(s: int, t: int) -> bool {
    0 <= t < 81 && (same_up_diagonal(s, t) != same_down_diagonal(s, t))
}

/// A lance of `color` on `s` attacks `t` on an empty board.
pub open spec fn lance_line(color: Color, s: int, t: int) -> bool {
    0 <= t < 81 && same_file(s, t) && (if color == Color::Black {
        t % 9 < s % 9
    } else {
        t % 9 > s % 9
    })
}

/// `u` lies on the line (file, rank or diagonal) through the distinct squares `s` and `t`.
pub open spec fn line_through(s: int, t: int, u: int) -> bool {
    &&& 0 <= u < 81
    &&& s != t
    &&& {
        ||| same_file(s, t) && same_file(s, u)
        ||| same_rank(s, t) && same_rank(s, u)
        ||| same_up_diagonal(s, t) && same_up_diagonal(s, u)
        ||| same_down_diagonal(s, t) && same_down_diagonal(s, u)
    }
}

/// `u` lies strictly between `s` and `t` on the line through them.
pub open spec fn between(s: int, t: int, u: int) -> bool {
    &&& line_through(s, t, u)
    &&& u != s
    &&& u != t
    &&& (s / 9 <= u / 9 <= t / 9 || t / 9 <= u / 9 <= s / 9)
    &&& (s % 9 <= u % 9 <= t % 9 || t % 9 <= u % 9 <= s % 9)
}

/// The squares a rook on `square` reaches, walking each ray square by square.
pub fn get_rook_moves_slow(square: Square, blockers: BitBoard) -> (r: BitBoard)
    ensures
        r.wf(),
        forall|t: int| #[trigger] bit(r.0, t) == rook_reach(square.idx(), blockers.0, t),
{
    let a = slide(square, 0, blockers.0);
    let b = slide(square, 1, blockers.0);
    let c = slide(square, 2, blockers.0);
    let d = slide(square, 3, blockers.0);
    proof {
        lemma_or_wf(a, b);
        lemma_or_wf(a | b, c);
        lemma_or_wf(a | b | c, d);
    }
    BitBoard(a | b | c | d)
}

/// The squares a bishop on `square` reaches, walking each ray square by square.
pub fn get_bishop_moves_slow(square: Square, blockers: BitBoard) -> (r: BitBoard)
    ensures
        r.wf(),
        forall|t: int| #[trigger] bit(r.0, t) == bishop_reach(square.idx(), blockers.0, t),
{
    let a = slide(square, 4, blockers.0);
    let b = slide(square, 5, blockers.0);
    let c = slide(square, 6, blockers.0);
    let d = slide(square, 7, blockers.0);
    proof {
        lemma_or_wf(a, b);
        lemma_or_wf(a | b, c);
        lemma_or_wf(a | b | c, d);
    }
    BitBoard(a | b | c | d)
}

/// The squares a lance of `color` on `square` reaches, walking square by square.
pub fn get_lance_moves_slow(square: Square, blockers: BitBoard, color: Color) -> (r: BitBoard)
    ensures
        r.wf(),
        forall|t: int| #[trigger] bit(r.0, t) == lance_reach(color, square.idx(), blockers.0, t),
{
    let d: u8 = match color {
        Color::White => 2,
        Color::Black => 3,
    };
    BitBoard(slide(square, d, blockers.0))
}

/// The squares a rook on `square` attacks on an empty board.
pub fn rook_pseudo_attacks(square: Square) -> (r: BitBoard)
    ensures
        r.wf(),
        forall|t: int| #[trigger] bit(r.0, t) == rook_line(square.idx(), t),
{
    let rank_moves = square.rank().bitboard();
    let file_moves = square.file().bitboard();
    rank_moves.bitxor(file_moves)
}

/// The squares a bishop on `square` attacks on an empty board.
pub fn bishop_pseudo_attacks(square: Square) -> (r: BitBoard)
    ensures
        r.wf(),
        forall|t: int| #[trigger] bit(r.0, t) == bishop_line(square.idx(), t),
{
    square.up_diagonal().bitxor(square.down_diagonal())
}

/// The squares a lance of `color` on `square` attacks on an empty board.
pub fn lance_pseudo_attacks(color: Color, square: Square) -> (r: BitBoard)
    ensures
        r.wf(),
        forall|t: int| #[trigger] bit(r.0, t) == lance_line(color, square.idx(), t),
{
    let file = square.file().bitboard();
    let ahead = match color {
        Color::Black => square.rank().north(),
        Color::White => square.rank().south(),
    };
    file.bitand(ahead)
}

/// The inner squares of the board: all but the edge files and ranks.
pub fn inner_squares() -> (r: BitBoard)
    ensures
        r.wf(),
        forall|t: int| #[trigger] bit(r.0, t) == (0 <= t < 81 && inner(t)),
{
    let files = File::One.west().bitand(File::Nine.east());
    let ranks = Rank::A.south().bitand(Rank::I.north());
    files.bitand(ranks)
}

/// The rook ray squares from `square` that can block it, edges excluded.
pub fn get_rook_relevant_blockers(square: Square) -> (r: BitBoard)
    ensures
        r.wf(),
        forall|t: int| #[trigger] bit(r.0, t) == (rook_line(square.idx(), t) && inner(t)),
{
    rook_pseudo_attacks(square).bitand(inner_squares())
}

/// The lance ray squares from `square` that can block it, edges excluded.
pub fn get_lance_relevant_blockers(square: Square, color: Color) -> (r: BitBoard)
    ensures
        r.wf(),
        forall|t: int| #[trigger] bit(r.0, t) == (lance_line(color, square.idx(), t) && inner(t)),
{
    lance_pseudo_attacks(color, square).bitand(inner_squares())
}

/// The bishop ray squares from `square` that can block it, edges excluded.
pub fn get_bishop_relevant_blockers(square: Square) -> (r: BitBoard)
    ensures
        r.wf(),
        forall|t: int| #[trigger] bit(r.0, t) == (bishop_line(square.idx(), t) && inner(t)),
{
    bishop_pseudo_attacks(square).bitand(inner_squares())
}

/// The line (file, rank or diagonal) through both squares, both included; empty when
/// the squares are equal or share no line.
pub fn line_ray(from: Square, to: Square) -> (r: BitBoard)
    ensures
        r.wf(),
        forall|u: int| #[trigger] bit(r.0, u) == line_through(from.idx(), to.idx(), u),
{
    proof {
        lemma_square_idx(from);
        lemma_square_idx(to);
    }
    let f = from.index();
    let t = to.index();
    if f == t {
        BitBoard(0)
    } else if f / 9 == t / 9 {
        from.file().bitboard()
    } else if f % 9 == t % 9 {
        from.rank().bitboard()
    } else if (f % 9) as i32 - (f / 9) as i32 == (t % 9) as i32 - (t / 9) as i32 {
        from.up_diagonal()
    } else if f % 9 + f / 9 == t % 9 + t / 9 {
        from.down_diagonal()
    } else {
        BitBoard(0)
    }
}

/// The squares strictly between two squares on a shared line; empty when there is none.
pub fn get_between_rays(from: Square, to: Square) -> (r: BitBoard)
    ensures
        r.wf(),
        forall|u: int| #[trigger] bit(r.0, u) == between(from.idx(), to.idx(), u),
{
    proof {
        lemma_square_idx(from);
        lemma_square_idx(to);
    }
    let f = from.index();
    let t = to.index();
    let (flo, fhi) = if f / 9 <= t / 9 { (f / 9, t / 9) } else { (t / 9, f / 9) };
    let (rlo, rhi) = if f % 9 <= t % 9 { (f % 9, t % 9) } else { (t % 9, f % 9) };
    let files = File::index_const(flo).east().not().bitand(File::index_const(fhi).west().not());
    let ranks = Rank::index_const(rlo).north().not().bitand(Rank::index_const(rhi).south().not());
    let ends = from.bitboard().bitor(to.bitboard()).not();
    line_ray(from, to).bitand(files).bitand(ranks).bitand(ends)
}

/// The number of squares on the ray from `s` in direction `d` before it leaves the board.
pub open spec fn ray_len(s: int, d: int) -> int {
    let f = s / 9;
    let r = s % 9;
    if d == 0 {
        8 - f
    } else if d == 1 {
        f
    } else if d == 2 {
        8 - r
    } else if d == 3 {
        r
    } else if d == 4 {
        if 8 - f < 8 - r { 8 - f } else { 8 - r }
    } else if d == 5 {
        if 8 - f < r { 8 - f } else { r }
    } else if d == 6 {
        if f < 8 - r { f } else { 8 - r }
    } else {
        if f < r { f } else { r }
    }
}

/// `i` is on the ray from `s` in direction `d`, described by lines and sides.
pub open spec fn ray_pred(s: int, d: int, i: int) -> bool {
    &&& 0 <= i < 81
    &&& if d == 0 {
        same_rank(s, i) && i / 9 > s / 9
    } else if d == 1 {
        same_rank(s, i) && i / 9 < s / 9
    } else if d == 2 {
        same_file(s, i) && i % 9 > s % 9
    } else if d == 3 {
        same_file(s, i) && i % 9 < s % 9
    } else if d == 4 {
        same_up_diagonal(s, i) && i / 9 > s / 9
    } else if d == 5 {
        same_down_diagonal(s, i) && i / 9 > s / 9
    } else if d == 6 {
        same_down_diagonal(s, i) && i / 9 < s / 9
    } else {
        same_up_diagonal(s, i) && i / 9 < s / 9
    }
}

/// Steps along a ray stay on the board exactly up to the ray's length.
pub proof fn lemma_ray_on(s: int, d: int, k: int)
    requires
        0 <= s < 81,
        0 <= d < 8,
        0 <= k,
    ensures
        ray_on(s, d, k) <==> k <= ray_len(s, d),
{
}

/// The ray squares are the squares at steps 1 to the ray's length.
pub proof fn lemma_ray_pred(s: int, d: int, i: int)
    requires
        0 <= s < 81,
        0 <= d < 8,
    ensures
        ray_pred(s, d, i) <==> exists|k: int| 1 <= k <= ray_len(s, d) && i == #[trigger] ray_idx(s, d, k),
{
    lemma_ray_pred_dir(s, d, i);
}

#[verifier::spinoff_prover]
proof fn lemma_ray_pred_dir(s: int, d: int, i: int)
    requires
        0 <= s < 81,
        0 <= d < 8,
    ensures
        ray_pred(s, d, i) <==> exists|k: int| 1 <= k <= ray_len(s, d) && i == #[trigger] ray_idx(s, d, k),
{
    let f = s / 9;
    let r = s % 9;
    if exists|k: int| 1 <= k <= ray_len(s, d) && i == #[trigger] ray_idx(s, d, k) {
        let k = choose|k: int| 1 <= k <= ray_len(s, d) && i == #[trigger] ray_idx(s, d, k);
        assert(ray_on(s, d, k));
        assert(i / 9 == ray_file(f, d, k) && i % 9 == ray_rank(r, d, k));
    }
    if ray_pred(s, d, i) {
        if d == 0 {
            assert(ray_idx(s, d, i / 9 - f) == i);
        } else if d == 1 {
            assert(ray_idx(s, d, f - i / 9) == i);
        } else if d == 2 {
            assert(ray_idx(s, d, i % 9 - r) == i);
        } else if d == 3 {
            assert(ray_idx(s, d, r - i % 9) == i);
        } else if d == 4 {
            assert(ray_idx(s, d, i / 9 - f) == i);
        } else if d == 5 {
            assert(ray_idx(s, d, i / 9 - f) == i);
        } else if d == 6 {
            assert(ray_idx(s, d, f - i / 9) == i);
        } else {
            assert(ray_idx(s, d, f - i / 9) == i);
        }
    }
}

/// The bits of `a` are the values `g(1) < g(2) < ... < g(n)`.
pub open spec fn chain_bits(a: u128, g: spec_fn(int) -> int, n: int) -> bool {
    &&& forall|i: int| #[trigger] bit(a, i) <==> exists|k: int| 1 <= k <= n && i == #[trigger] g(k)
    &&& forall|j: int, k: int| 1 <= j < k <= n ==> #[trigger] g(j) < #[trigger] g(k)
    &&& forall|k: int| 1 <= k <= n ==> 0 <= #[trigger] g(k) < 128
}

/// The squares of `a` up to and including its first square in `o`: the carry-rippler step.
pub open spec fn first_hit(a: u128, o: u128) -> u128 {
    if a & o == 0 {
        a
    } else {
        ((((a & o) - 1) as u128) ^ o) & a
    }
}

proof fn bv_qugiy(a: u128, o: u128)
    by (bit_vector)
    requires
        a & o != 0,
    ensures
        ((((a & o) - 1) as u128) ^ o) & a == a & ((a & o) ^ (((a & o) - 1) as u128)),
{
}

proof fn bv_lowest(x: u128, m: u128)
    by (bit_vector)
    requires
        m < 128,
        (x >> m) & 1u128 == 1u128,
        x & (((1u128 << m) - 1) as u128) == 0,
    ensures
        x ^ ((x - 1) as u128) == (((1u128 << m) - 1) as u128) | (1u128 << m),
{
}

proof fn lemma_lowest_from(x: u128, i: int)
    requires
        x != 0,
        0 <= i <= 128,
        forall|j: int| 0 <= j < i ==> !bit(x, j),
    ensures
        exists|m: int| 0 <= m < 128 && bit(x, m) && forall|j: int| 0 <= j < m ==> !bit(x, j),
    decreases 128 - i,
{
    if i == 128 {
        assert forall|j: int| 0 <= j < 128 implies bit(x, j) == bit(0u128, j) by {
            crate::bits::lemma_bit_zero(j);
        }
        crate::bits::lemma_bits_ext(x, 0);
    } else if bit(x, i) {
    } else {
        lemma_lowest_from(x, i + 1);
    }
}

/// The carry-rippler step keeps exactly the chain values before the first one in `o`, and that one.
pub proof fn lemma_first_hit(a: u128, o: u128, g: spec_fn(int) -> int, n: int)
    requires
        chain_bits(a, g, n),
    ensures
        forall|i: int| #[trigger] bit(first_hit(a, o), i) ==> bit(a, i),
        forall|k: int| 1 <= k <= n ==> (#[trigger] bit(first_hit(a, o), g(k)) <==> forall|j: int|
            1 <= j < k ==> !bit(o, #[trigger] g(j))),
{
    let x = a & o;
    if x == 0 {
        assert forall|k: int| 1 <= k <= n implies (#[trigger] bit(first_hit(a, o), g(k)) <==> forall|j: int|
            1 <= j < k ==> !bit(o, #[trigger] g(j))) by {
            assert forall|j: int| 1 <= j < k implies !bit(o, #[trigger] g(j)) by {
                assert(bit(a, g(j)));
                crate::bits::lemma_bit_zero(g(j));
            }
            assert(bit(a, g(k)));
        }
    } else {
        bv_qugiy(a, o);
        lemma_lowest_from(x, 0);
        let m = choose|m: int| 0 <= m < 128 && bit(x, m) && forall|j: int| 0 <= j < m ==> !bit(x, j);
        assert(m < 128);
        let low = ((1u128 << (m as u128)) - 1) as u128;
        assert forall|j: int| 0 <= j < 128 implies bit(x & low, j) == bit(0u128, j) by {
            crate::bits::lemma_bit_low_mask(m as u128, j);
            crate::bits::lemma_bit_zero(j);
        }
        crate::bits::lemma_bits_ext(x & low, 0);
        bv_lowest(x, m as u128);
        assert forall|i: int| #[trigger] bit(first_hit(a, o), i) == (bit(a, i) && 0 <= i <= m) by {
            crate::bits::lemma_bit_low_mask(m as u128, i);
            crate::bits::lemma_bit_single(m as u128, i);
        }
        assert(bit(a, m));
        let k0 = choose|k: int| 1 <= k <= n && m == #[trigger] g(k);
        assert forall|k: int| 1 <= k <= n implies (#[trigger] bit(first_hit(a, o), g(k)) <==> forall|j: int|
            1 <= j < k ==> !bit(o, #[trigger] g(j))) by {
            assert(bit(a, g(k)));
            if k <= k0 {
                assert forall|j: int| 1 <= j < k implies !bit(o, #[trigger] g(j)) by {
                    assert(g(j) < g(k0));
                    assert(bit(a, g(j)));
                    if bit(o, g(j)) {
                        assert(bit(x, g(j)));
                    }
                }
                if k < k0 {
                    assert(g(k) < g(k0));
                }
            } else {
                assert(g(k0) < g(k));
                assert(bit(o, g(k0)));
            }
        }
    }
}

/// The carry-rippler step on integers.
fn first_hit_of(a: u128, o: u128) -> (r: u128)
    ensures
        r == first_hit(a, o),
{
    let x = a & o;
    if x == 0 {
        a
    } else {
        ((x - 1) ^ o) & a
    }
}

/// The squares of the ray from `square` in direction `d` on an empty board.
fn ray_mask(square: Square, d: u8) -> (r: u128)
    requires
        d < 8,
    ensures
        r <= BOARD_MASK,
        forall|i: int| #[trigger] bit(r, i) == ray_pred(square.idx(), d as int, i),
{
    let rank = square.rank();
    let file = square.file();
    let m = match d {
        0 => rank.bitboard().bitand(file.west()),
        1 => rank.bitboard().bitand(file.east()),
        2 => file.bitboard().bitand(rank.south()),
        3 => file.bitboard().bitand(rank.north()),
        4 => square.up_diagonal().bitand(file.west()),
        5 => square.down_diagonal().bitand(file.west()),
        6 => square.down_diagonal().bitand(file.east()),
        _ => square.up_diagonal().bitand(file.east()),
    };
    m.0
}

/// Directions whose ray squares have increasing indices.
pub open spec fn ascending(d: int) -> bool {
    d == 0 || d == 2 || d == 4 || d == 5
}

/// The chain of a ray's square indices, nearest first.
pub open spec fn ray_chain(s: int, d: int) -> spec_fn(int) -> int {
    |k: int| ray_idx(s, d, k)
}

/// The chain of a ray's reversed square indices (`127 - index`), nearest first.
pub open spec fn ray_chain_rev(s: int, d: int) -> spec_fn(int) -> int {
    |k: int| 127 - ray_idx(s, d, k)
}

/// The reach of a ray with increasing indices, from the carry-rippler step.
#[verifier::spinoff_prover]
proof fn lemma_ascending_reach(s: int, d: int, a: u128, o: u128)
    requires
        0 <= s < 81,
        0 <= d < 8,
        ascending(d),
        forall|i: int| #[trigger] bit(a, i) == ray_pred(s, d, i),
    ensures
        forall|t: int| #[trigger] bit(first_hit(a, o), t) == slides_to(s, d, o, t),
{
    let g = ray_chain(s, d);
    let n = ray_len(s, d);
    assert forall|i: int| #[trigger] bit(a, i) <==> exists|k: int| 1 <= k <= n && i == #[trigger] g(k) by {
        lemma_ray_pred(s, d, i);
        if bit(a, i) {
            let k = choose|k: int| 1 <= k <= ray_len(s, d) && i == #[trigger] ray_idx(s, d, k);
            assert(i == g(k));
        }
        if exists|k: int| 1 <= k <= n && i == #[trigger] g(k) {
            let k = choose|k: int| 1 <= k <= n && i == #[trigger] g(k);
            assert(i == ray_idx(s, d, k));
        }
    }
    assert forall|j: int, k: int| 1 <= j < k <= n implies #[trigger] g(j) < #[trigger] g(k) by {
        lemma_ray_on(s, d, k);
    }
    assert forall|k: int| 1 <= k <= n implies 0 <= #[trigger] g(k) < 128 by {
        lemma_ray_on(s, d, k);
    }
    lemma_first_hit(a, o, g, n);
    assert forall|t: int| #[trigger] bit(first_hit(a, o), t) == slides_to(s, d, o, t) by {
        if bit(first_hit(a, o), t) {
            assert(bit(a, t));
            let k = choose|k: int| 1 <= k <= n && t == #[trigger] g(k);
            lemma_ray_on(s, d, k);
            assert(bit(first_hit(a, o), g(k)));
            assert forall|j: int| 1 <= j < k implies !#[trigger] bit(o, ray_idx(s, d, j)) by {
                assert(!bit(o, g(j)));
            }
            assert(t == ray_idx(s, d, k));
        }
        if slides_to(s, d, o, t) {
            let k = choose|k: int|
                #![trigger ray_idx(s, d, k)]
                1 <= k && ray_on(s, d, k) && t == ray_idx(s, d, k) && (forall|j: int|
                    1 <= j < k ==> !#[trigger] bit(o, ray_idx(s, d, j)));
            lemma_ray_on(s, d, k);
            assert forall|j: int| 1 <= j < k implies !bit(o, #[trigger] g(j)) by {
                assert(!bit(o, ray_idx(s, d, j)));
            }
            assert(t == g(k));
        }
    }
}

/// The reach of a ray with decreasing indices, from the carry-rippler step on reversed bits.
#[verifier::spinoff_prover]
proof fn lemma_descending_reach(s: int, d: int, a: u128, o: u128, ra: u128, ro: u128, rr: u128)
    requires
        0 <= s < 81,
        0 <= d < 8,
        !ascending(d),
        forall|i: int| #[trigger] bit(a, i) == ray_pred(s, d, i),
        forall|i: int| 0 <= i < 128 ==> #[trigger] bit(ra, i) == bit(a, 127 - i),
        forall|i: int| 0 <= i < 128 ==> #[trigger] bit(ro, i) == bit(o, 127 - i),
        forall|i: int| 0 <= i < 128 ==> #[trigger] bit(rr, i) == bit(first_hit(ra, ro), 127 - i),
    ensures
        forall|t: int| #[trigger] bit(rr, t) == slides_to(s, d, o, t),
{
    let g = ray_chain_rev(s, d);
    let n = ray_len(s, d);
    assert forall|i: int| #[trigger] bit(ra, i) <==> exists|k: int| 1 <= k <= n && i == #[trigger] g(k) by {
        lemma_ray_pred(s, d, 127 - i);
        if bit(ra, i) {
            assert(bit(a, 127 - i));
            let k = choose|k: int| 1 <= k <= ray_len(s, d) && 127 - i == #[trigger] ray_idx(s, d, k);
            assert(i == g(k));
        }
        if exists|k: int| 1 <= k <= n && i == #[trigger] g(k) {
            let k = choose|k: int| 1 <= k <= n && i == #[trigger] g(k);
            lemma_ray_on(s, d, k);
            assert(127 - i == ray_idx(s, d, k));
            assert(bit(a, 127 - i));
        }
    }
    assert forall|j: int, k: int| 1 <= j < k <= n implies #[trigger] g(j) < #[trigger] g(k) by {
        lemma_ray_on(s, d, k);
    }
    assert forall|k: int| 1 <= k <= n implies 0 <= #[trigger] g(k) < 128 by {
        lemma_ray_on(s, d, k);
    }
    lemma_first_hit(ra, ro, g, n);
    assert forall|t: int| #[trigger] bit(rr, t) == slides_to(s, d, o, t) by {
        if bit(rr, t) {
            assert(bit(first_hit(ra, ro), 127 - t));
            assert(bit(ra, 127 - t));
            let k = choose|k: int| 1 <= k <= n && 127 - t == #[trigger] g(k);
            lemma_ray_on(s, d, k);
            assert(bit(first_hit(ra, ro), g(k)));
            assert forall|j: int| 1 <= j < k implies !#[trigger] bit(o, ray_idx(s, d, j)) by {
                lemma_ray_on(s, d, j);
                assert(!bit(ro, g(j)));
            }
            assert(t == ray_idx(s, d, k));
        }
        if slides_to(s, d, o, t) {
            let k = choose|k: int|
                #![trigger ray_idx(s, d, k)]
                1 <= k && ray_on(s, d, k) && t == ray_idx(s, d, k) && (forall|j: int|
                    1 <= j < k ==> !#[trigger] bit(o, ray_idx(s, d, j)));
            lemma_ray_on(s, d, k);
            assert forall|j: int| 1 <= j < k implies !bit(ro, #[trigger] g(j)) by {
                lemma_ray_on(s, d, j);
                assert(!bit(o, ray_idx(s, d, j)));
            }
            assert(127 - t == g(k));
            assert(bit(first_hit(ra, ro), g(k)));
        }
    }
}

/// The squares a piece on `square` reaches in direction `d`, by the carry-rippler step
/// (on reversed bits for the directions with decreasing indices).
fn ray_moves(square: Square, d: u8, occ: u128) -> (r: u128)
    requires
        d < 8,
    ensures
        r <= BOARD_MASK,
        forall|t: int| #[trigger] bit(r, t) == slides_to(square.idx(), d as int, occ, t),
{
    proof {
        lemma_square_idx(square);
    }
    let a = ray_mask(square, d);
    if d == 0 || d == 2 || d == 4 || d == 5 {
        let r = first_hit_of(a, occ);
        proof {
            lemma_ascending_reach(square.idx(), d as int, a, occ);
            assert forall|i: int| 0 <= i < 128 implies bit(r, i) == bit(r & BOARD_MASK, i) by {
                if bit(r, i) {
                    assert(slides_to(square.idx(), d as int, occ, i));
                    let k = choose|k: int|
                        #![trigger ray_idx(square.idx(), d as int, k)]
                        1 <= k && ray_on(square.idx(), d as int, k) && i == ray_idx(square.idx(), d as int, k)
                            && (forall|j: int| 1 <= j < k ==> !#[trigger] bit(occ, ray_idx(square.idx(), d as int, j)));
                }
            }
            crate::bits::lemma_bits_ext(r, r & BOARD_MASK);
            crate::bits::lemma_and_mask_wf(r);
        }
        r
    } else {
        let ra = crate::bitboard::u128_reverse_bits(a);
        let ro = crate::bitboard::u128_reverse_bits(occ);
        let h = first_hit_of(ra, ro);
        let r = crate::bitboard::u128_reverse_bits(h);
        proof {
            lemma_descending_reach(square.idx(), d as int, a, occ, ra, ro, r);
            assert forall|i: int| 0 <= i < 128 implies bit(r, i) == bit(r & BOARD_MASK, i) by {
                if bit(r, i) {
                    assert(slides_to(square.idx(), d as int, occ, i));
                    let k = choose|k: int|
                        #![trigger ray_idx(square.idx(), d as int, k)]
                        1 <= k && ray_on(square.idx(), d as int, k) && i == ray_idx(square.idx(), d as int, k)
                            && (forall|j: int| 1 <= j < k ==> !#[trigger] bit(occ, ray_idx(square.idx(), d as int, j)));
                }
            }
            crate::bits::lemma_bits_ext(r, r & BOARD_MASK);
            crate::bits::lemma_and_mask_wf(r);
        }
        r
    }
}

/// The squares a lance of `color` on `square` reaches: its ray up to and including the first
/// occupied square.
pub fn get_lance_moves(color: Color, square: Square, occ: BitBoard) -> (r: BitBoard)
    ensures
        r.wf(),
        forall|t: int| #[trigger] bit(r.0, t) == lance_reach(color, square.idx(), occ.0, t),
{
    match color {
        Color::White => BitBoard(ray_moves(square, 2, occ.0)),
        Color::Black => BitBoard(ray_moves(square, 3, occ.0)),
    }
}

/// The squares a rook on `square` reaches along its file.
pub fn get_rook_file_moves(square: Square, occ: BitBoard) -> (r: BitBoard)
    ensures
        r.wf(),
        forall|t: int| #[trigger] bit(r.0, t) == (slides_to(square.idx(), 2, occ.0, t) || slides_to(
            square.idx(),
            3,
            occ.0,
            t,
        )),
{
    let north = get_lance_moves(Color::Black, square, occ);
    let south = get_lance_moves(Color::White, square, occ);
    north.bitor(south)
}

/// The squares a rook on `square` reaches along its rank.
pub fn get_rook_rank_moves(square: Square, occ: BitBoard) -> (r: BitBoard)
    ensures
        r.wf(),
        forall|t: int| #[trigger] bit(r.0, t) == (slides_to(square.idx(), 0, occ.0, t) || slides_to(
            square.idx(),
            1,
            occ.0,
            t,
        )),
{
    let west = BitBoard(ray_moves(square, 0, occ.0));
    let east = BitBoard(ray_moves(square, 1, occ.0));
    west.bitor(east)
}

/// The squares a rook on `square` reaches; the color plays no part.
pub fn get_rook_moves(color: Color, square: Square, occ: BitBoard) -> (r: BitBoard)
    ensures
        r.wf(),
        forall|t: int| #[trigger] bit(r.0, t) == rook_reach(square.idx(), occ.0, t),
{
    let rank_moves = get_rook_rank_moves(square, occ);
    let file_moves = get_rook_file_moves(square, occ);
    rank_moves.bitor(file_moves)
}

/// The squares a bishop on `square` reaches; the color plays no part.
pub fn get_bishop_moves(color: Color, square: Square, occ: BitBoard) -> (r: BitBoard)
    ensures
        r.wf(),
        forall|t: int| #[trigger] bit(r.0, t) == bishop_reach(square.idx(), occ.0, t),
{
    let nw = ray_moves(square, 5, occ.0);
    let sw = ray_moves(square, 4, occ.0);
    let ne = ray_moves(square, 7, occ.0);
    let se = ray_moves(square, 6, occ.0);
    BitBoard(nw).bitor(BitBoard(sw)).bitor(BitBoard(ne)).bitor(BitBoard(se))
}

} // verus!
