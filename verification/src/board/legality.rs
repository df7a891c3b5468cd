//! Generation and legality agree: what the sliders reach is stated by lines, and the
//! generated board moves are related to the legal ones.
use vstd::prelude::*;
use crate::attacks::{king_step, gold_step, silver_step, knight_step, pawn_step, file_delta, rank_delta};
use crate::bitboard::{bit, BOARD_MASK, lemma_nonzero_bit_index};
use crate::board::{Board, clear_between, single_blocker, slide_line, step_attack};
use crate::board::zobrist::lemma_wf_bits;
use crate::board::movegen::{piece_moves_to, move_pattern, gen_status, lemma_drop_generated_iff_legal};
use crate::board::piece_moves::{PieceMoves, PromotionStatus};
use crate::color::Color;
use crate::piece::{Piece, promoted};
use crate::shogi_move::Move;
use crate::sliders::{
    slides_to, ray_on, ray_idx, ray_file, ray_rank, rook_reach, bishop_reach, lance_reach, lance_dir, rook_line,
    bishop_line, lance_line, between, line_through,
};
use crate::square::{Square, lemma_square_idx, lemma_square_from_idx};

verus! {

broadcast use crate::bits::group_bit_lemmas;

/// Square index `t` lies in direction `d` (numbered as for the rays) from square index `s`.
pub open spec fn in_direction(s: int, d: int, t: int) -> bool {
    let df = t / 9 - s / 9;
    let dr = t % 9 - s % 9;
    &&& 0 <= t < 81
    &&& if d == 0 {
        dr == 0 && df > 0
    } else if d == 1 {
        dr == 0 && df < 0
    } else if d == 2 {
        df == 0 && dr > 0
    } else if d == 3 {
        df == 0 && dr < 0
    } else if d == 4 {
        df > 0 && dr == df
    } else if d == 5 {
        df > 0 && dr == -df
    } else if d == 6 {
        df < 0 && dr == -df
    } else {
        d == 7 && df < 0 && dr == df
    }
}

/// The number of steps from `s` to `t` in direction `d`.
pub open spec fn steps(s: int, d: int, t: int) -> int {
    if d == 2 || d == 3 {
        if t % 9 > s % 9 {
            t % 9 - s % 9
        } else {
            s % 9 - t % 9
        }
    } else if t / 9 > s / 9 {
        t / 9 - s / 9
    } else {
        s / 9 - t / 9
    }
}

/// A square index is its file times nine plus its rank.
proof fn lemma_coords(u: int)
    requires
        0 <= u,
    ensures
        u == 9 * (u / 9) + u % 9,
        0 <= u % 9 < 9,
{
}

/// The file and rank of a square index made of them.
proof fn lemma_from_coords(f: int, r: int)
    requires
        0 <= f,
        0 <= r < 9,
    ensures
        (9 * f + r) / 9 == f,
        (9 * f + r) % 9 == r,
{
    assert((9 * f + r) / 9 == f) by (nonlinear_arith)
        requires
            0 <= f,
            0 <= r < 9,
    ;
    assert((9 * f + r) % 9 == r) by (nonlinear_arith)
        requires
            0 <= f,
            0 <= r < 9,
    ;
}

/// A slider on `s` moving in direction `d` reaches `t` exactly when `t` lies in that
/// direction and no square between the two is occupied.
pub proof fn lemma_slides_to_line(s: int, d: int, occ: u128, t: int)
    requires
        0 <= s < 81,
        0 <= d < 8,
    ensures
        slides_to(s, d, occ, t) <==> (in_direction(s, d, t) && clear_between(occ, s, t)),
{
    let fs = s / 9;
    let rs = s % 9;
    lemma_coords(s);
    if slides_to(s, d, occ, t) {
        let k = choose|k: int|
            #![trigger ray_idx(s, d, k)]
            1 <= k && ray_on(s, d, k) && t == ray_idx(s, d, k) && (forall|j: int|
                1 <= j < k ==> !#[trigger] bit(occ, ray_idx(s, d, j)));
        let ft = ray_file(fs, d, k);
        let rt = ray_rank(rs, d, k);
        lemma_from_coords(ft, rt);
        assert(in_direction(s, d, t));
        assert forall|u: int| #[trigger] between(s, t, u) implies !bit(occ, u) by {
            lemma_coords(u);
            let j = steps(s, d, u);
            assert(1 <= j < k);
            lemma_from_coords(ray_file(fs, d, j), ray_rank(rs, d, j));
            assert(u == ray_idx(s, d, j));
        }
    }
    if in_direction(s, d, t) && clear_between(occ, s, t) {
        lemma_coords(t);
        let k = steps(s, d, t);
        assert(ray_on(s, d, k) && t == ray_idx(s, d, k));
        assert forall|j: int| 1 <= j < k implies !#[trigger] bit(occ, ray_idx(s, d, j)) by {
            let u = ray_idx(s, d, j);
            lemma_from_coords(ray_file(fs, d, j), ray_rank(rs, d, j));
            assert(between(s, t, u));
        }
        assert(slides_to(s, d, occ, t));
    }
}

/// A rook reaches exactly the squares on its lines with nothing in between.
pub proof fn lemma_rook_reach_line(s: int, occ: u128, t: int)
    requires
        0 <= s < 81,
    ensures
        rook_reach(s, occ, t) <==> (rook_line(s, t) && clear_between(occ, s, t)),
{
    lemma_slides_to_line(s, 0, occ, t);
    lemma_slides_to_line(s, 1, occ, t);
    lemma_slides_to_line(s, 2, occ, t);
    lemma_slides_to_line(s, 3, occ, t);
}

/// A bishop reaches exactly the squares on its diagonals with nothing in between.
pub proof fn lemma_bishop_reach_line(s: int, occ: u128, t: int)
    requires
        0 <= s < 81,
    ensures
        bishop_reach(s, occ, t) <==> (bishop_line(s, t) && clear_between(occ, s, t)),
{
    lemma_slides_to_line(s, 4, occ, t);
    lemma_slides_to_line(s, 5, occ, t);
    lemma_slides_to_line(s, 6, occ, t);
    lemma_slides_to_line(s, 7, occ, t);
}

/// A lance reaches exactly the squares ahead of it with nothing in between.
pub proof fn lemma_lance_reach_line(c: Color, s: int, occ: u128, t: int)
    requires
        0 <= s < 81,
    ensures
        lance_reach(c, s, occ, t) <==> (lance_line(c, s, t) && clear_between(occ, s, t)),
{
    lemma_slides_to_line(s, lance_dir(c), occ, t);
}

/// Nothing stands between neighbouring squares.
proof fn lemma_step_clear(occ: u128, s: int, t: int)
    requires
        0 <= s < 81,
        king_step(s, t),
    ensures
        clear_between(occ, s, t),
{
    lemma_coords(s);
    lemma_coords(t);
    assert forall|u: int| #[trigger] between(s, t, u) implies !bit(occ, u) by {
        lemma_coords(u);
    }
}

/// The moves of each piece but the king, stated by reach, are those stated by lines.
pub proof fn lemma_moves_to_pattern(p: Piece, c: Color, s: int, occ: u128, t: int)
    requires
        0 <= s < 81,
        p != Piece::King,
    ensures
        piece_moves_to(p, c, s, occ, t) <==> move_pattern(p, c, s, t, occ),
{
    lemma_coords(s);
    lemma_rook_reach_line(s, occ, t);
    lemma_bishop_reach_line(s, occ, t);
    lemma_lance_reach_line(c, s, occ, t);
    if king_step(s, t) {
        lemma_step_clear(occ, s, t);
        lemma_coords(t);
        if file_delta(s, t) == 0 || rank_delta(s, t) == 0 {
            assert(rook_line(s, t));
        } else {
            assert(bishop_line(s, t));
        }
    }
    if rook_line(s, t) && clear_between(occ, s, t) {
        lemma_coords(t);
    }
    if bishop_line(s, t) && clear_between(occ, s, t) {
        lemma_coords(t);
    }
}

/// A knight never stays on a line through two squares it is on one of.
proof fn lemma_knight_off_line(c: Color, k: int, f: int, t: int)
    requires
        0 <= k < 81,
        0 <= f < 81,
    ensures
        !(knight_step(c, f, t) && line_through(k, f, t)),
{
    lemma_coords(k);
    lemma_coords(f);
    if 0 <= t {
        lemma_coords(t);
    }
}

/// A piece pinned against its king cannot answer a check: moving along the pin line, it
/// can neither capture the checker nor step between it and the king.
#[verifier::rlimit(100)]
proof fn lemma_pinned_in_check(b: Board, k: int, f: int, t: int, p: Piece)
    requires
        b.wf(),
        b.is_king_sq(b.stm(), k),
        bit(b.pinned_bb(), f),
        b.checkers_bb() != 0,
        b.color_at(f) == Some(b.stm()),
        b.piece_at(f) == Some(p),
        b.target_sq(k, t),
        line_through(k, f, t),
    ensures
        !move_pattern(p, b.stm(), f, t, b.occ()),
{
    let c = b.stm();
    let occ = b.occ();
    lemma_wf_bits(b.pos());
    assert(b.pinned_at(c, k, f));
    let i = choose|i: int| #[trigger] b.slider_on_line(c, k, i) && single_blocker(occ, i, k, f);
    let ch = lemma_nonzero_bit_index(b.checkers_bb());
    assert(b.checker(c, k, ch));
    crate::bitboard::lemma_popcount_zero(b.checkers_bb());
    assert(b.blocks_check(k, t));
    assert(t == ch || between(ch, k, t));
    assert(bit(occ, k));
    assert(bit(occ, ch));
    assert(between(i, k, ch) && bit(occ, ch) ==> ch == f);
    lemma_coords(k);
    lemma_coords(f);
    lemma_coords(t);
    lemma_coords(ch);
    lemma_coords(i);
    let cp = b.piece_at(ch).unwrap();
    if slide_line(cp, c.other(), ch, k) && clear_between(occ, ch, k) {
        assert(between(ch, k, f) ==> !bit(occ, f));
    }
    lemma_knight_off_line(c, k, f, t);
    if clear_between(occ, f, t) {
        assert(between(f, t, k) ==> !bit(occ, k));
    }
}

/// Generation and legality of board moves agree. Every move of a generated entry is
/// legal, and every legal board move is a move of a generated entry, except a move of a
/// second king of the side to move (not the one on `k`, which generation moves).
#[verifier::rlimit(100)]
pub proof fn lemma_board_move_generation(b: Board, k: int, v: Seq<PieceMoves>, from: Square, to: Square, promotion: bool)
    requires
        b.wf(),
        b.king_ref(k),
        b.board_list(BOARD_MASK, k, v),
    ensures
        (exists|i: int| 0 <= i < v.len() && #[trigger] v[i].holds(Move::BoardMove { from, to, promotion }))
            ==> b.legal_board_move(k, from.idx(), to.idx(), promotion),
        b.legal_board_move(k, from.idx(), to.idx(), promotion) && (b.piece_at(from.idx()) == Some(Piece::King) ==> from.idx()
            == k) ==> exists|i: int| 0 <= i < v.len() && #[trigger] v[i].holds(
            Move::BoardMove { from, to, promotion },
        ),
{
    let mv = Move::BoardMove { from, to, promotion };
    let f = from.idx();
    let t = to.idx();
    lemma_square_idx(from);
    lemma_square_idx(to);
    if exists|i: int| 0 <= i < v.len() && #[trigger] v[i].holds(mv) {
        let i = choose|i: int| 0 <= i < v.len() && #[trigger] v[i].holds(mv);
        let e = v[i];
        assert(b.board_entry(BOARD_MASK, k, e));
        let p = e->BoardMoves_piece;
        assert(e->from == from);
        assert(bit(e->BoardMoves_to.0, t));
        if p == Piece::King {
            assert(b.king_target(k, t));
        } else {
            assert(b.common_target(k, f, t));
            lemma_moves_to_pattern(p, b.stm(), f, b.occ(), t);
        }
        assert(b.legal_board_move(k, f, t, promotion));
    }
    if b.legal_board_move(k, f, t, promotion) && (b.piece_at(f) == Some(Piece::King) ==> f == k) {
        let p = b.piece_at(f).unwrap();
        if p != Piece::King && bit(b.pinned_bb(), f) {
            assert(b.pinned_bb() != 0);
            assert(b.has_king(b.stm()));
            assert(b.is_king_sq(b.stm(), k));
            if b.checkers_bb() != 0 {
                lemma_pinned_in_check(b, k, f, t, p);
            }
            crate::bitboard::lemma_popcount_zero(b.checkers_bb());
            lemma_knight_off_line(b.stm(), k, f, t);
        }
        if p == Piece::King {
            assert(b.king_target(k, t));
        } else {
            lemma_moves_to_pattern(p, b.stm(), f, b.occ(), t);
            assert(b.common_target(k, f, t));
        }
        assert(b.movable(BOARD_MASK, k, f));
        let i = choose|i: int| 0 <= i < v.len() && #[trigger] v[i]->from.idx() == f;
        let e = v[i];
        assert(b.board_entry(BOARD_MASK, k, e));
        lemma_square_idx(e->from);
        assert(e->from == from) by {
            lemma_square_from_idx(f);
        }
        assert(e->BoardMoves_piece == p);
        assert(bit(e->BoardMoves_to.0, t));
        assert(Square::from_idx(t) == to);
        assert(e.holds(mv));
    }
}

/// Generation and legality agree: a move is a move of one of the generated drop entries
/// `d` or board move entries `m` exactly when [`Board::is_legal`] accepts it; a king move is
/// taken from the king square of the side to move (a second king is never moved by
/// generation).
#[verifier::rlimit(100)]
pub proof fn lemma_generation_matches_legality(b: Board, d: Seq<PieceMoves>, m: Seq<PieceMoves>, mv: Move)
    requires
        b.wf(),
        forall|k: int| #[trigger] b.king_ref(k) ==> b.drop_list(k, d) && b.board_list(BOARD_MASK, k, m),
        mv matches Move::BoardMove { from, .. } ==> (b.piece_at(from.idx()) == Some(Piece::King) ==> b.is_king_sq(
            b.stm(),
            from.idx(),
        )),
    ensures
        (exists|i: int| 0 <= i < (d + m).len() && #[trigger] (d + m)[i].holds(mv)) <==> ((mv matches Move::BoardMove {
            from,
            to,
            promotion,
        } && forall|k: int| #[trigger] b.king_ref(k) ==> b.legal_board_move(k, from.idx(), to.idx(), promotion)) || (
        mv matches Move::Drop { piece, to } && piece.idx() < 7 && b.pos().hand_count(b.stm(), piece) > 0 && forall|k: int|
            #[trigger] b.king_ref(k) ==> b.drop_ok(k, piece, to.idx()))),
{
    let c = b.stm();
    let kr: int = if b.has_king(c) {
        crate::board::validate::lemma_lowest_king(b, c)
    } else {
        0
    };
    assert(b.king_ref(kr));
    assert forall|k: int| #[trigger] b.king_ref(k) implies k == kr by {
        if b.has_king(c) {
            crate::board::validate::lemma_king_sq_unique(b, c, k, kr);
        }
    }
    assert(b.drop_list(kr, d) && b.board_list(BOARD_MASK, kr, m));
    let dm = d + m;
    match mv {
        Move::BoardMove { from, to, promotion } => {
            lemma_square_idx(from);
            if b.piece_at(from.idx()) == Some(Piece::King) {
                crate::board::validate::lemma_king_sq_unique(b, c, from.idx(), kr);
            }
            lemma_board_move_generation(b, kr, m, from, to, promotion);
            if exists|i: int| 0 <= i < dm.len() && #[trigger] dm[i].holds(mv) {
                let i = choose|i: int| 0 <= i < dm.len() && #[trigger] dm[i].holds(mv);
                if i < d.len() {
                    assert(dm[i] == d[i]);
                    assert(b.drop_entry(kr, d[i]));
                } else {
                    assert(dm[i] == m[i - d.len()]);
                }
            }
            if b.legal_board_move(kr, from.idx(), to.idx(), promotion) {
                let j = choose|j: int| 0 <= j < m.len() && #[trigger] m[j].holds(mv);
                assert(dm[d.len() + j] == m[j]);
            }
        },
        Move::Drop { piece, to } => {
            lemma_square_idx(to);
            lemma_drop_generated_iff_legal(b, kr, d, piece, to.idx());
            if exists|i: int| 0 <= i < dm.len() && #[trigger] dm[i].holds(mv) {
                let i = choose|i: int| 0 <= i < dm.len() && #[trigger] dm[i].holds(mv);
                if i < d.len() {
                    assert(dm[i] == d[i]);
                    assert(b.drop_entry(kr, d[i]));
                    assert(d[i]->Drops_piece == piece && bit(d[i]->Drops_to.0, to.idx()));
                } else {
                    assert(dm[i] == m[i - d.len()]);
                    assert(b.board_entry(BOARD_MASK, kr, m[i - d.len()]));
                }
            }
            if piece.idx() < 7 && b.pos().hand_count(c, piece) > 0 && b.drop_ok(kr, piece, to.idx()) {
                let j = choose|j: int| 0 <= j < d.len() && d[j]->Drops_piece == piece && #[trigger] bit(
                    d[j]->Drops_to.0,
                    to.idx(),
                );
                assert(b.drop_entry(kr, d[j]));
                assert(dm[j] == d[j]);
                assert(dm[j].holds(mv));
            }
        },
    }
}

/// A move of a checking entry cut from the generated entry `e` is a move of `e`.
proof fn lemma_cut_holds(b: Board, tk: int, kr: int, e: PieceMoves, xs: Seq<PieceMoves>, j: int, mv: Move)
    requires
        b.drop_entry(kr, e) || b.board_entry(BOARD_MASK, kr, e),
        b.cut_ok(tk, e, xs),
        0 <= j < xs.len(),
        xs[j].holds(mv),
    ensures
        e.holds(mv),
        b.move_checks(tk, mv),
{
    match mv {
        Move::BoardMove { from, to, promotion } => {
            lemma_square_idx(to);
            assert(Square::from_idx(to.idx()) == to);
            if e is BoardMoves {
                lemma_square_idx(from);
                assert(e->from == from);
            }
        },
        Move::Drop { piece, to } => {
            lemma_square_idx(to);
        },
    }
    match e {
        PieceMoves::Drops { .. } => {
            assert(exists|t: int| #[trigger] b.keep(tk, e, 0, t));
        },
        PieceMoves::BoardMoves { prom_status, .. } => {
            if prom_status == PromotionStatus::CannotPromote {
                assert(exists|t: int| #[trigger] b.keep(tk, e, 0, t));
            } else {
                let n: int = if exists|t: int| #[trigger] b.keep(tk, e, 1, t) {
                    1
                } else {
                    0
                };
                if j < n {
                    assert(xs.subrange(0, n)[j] == xs[j]);
                } else {
                    assert(xs.subrange(n, xs.len() as int)[j - n] == xs[j]);
                    assert(exists|t: int| #[trigger] b.keep(tk, e, 2, t));
                }
            }
        },
    }
}

/// A move of the checking moves listed for the generated entries `v` is a move of one of
/// them.
proof fn lemma_cuts_hold(b: Board, tk: int, kr: int, v: Seq<PieceMoves>, out: Seq<PieceMoves>, j: int, mv: Move)
    requires
        b.cuts_ok(tk, v, out),
        forall|i: int| 0 <= i < v.len() ==> #[trigger] b.drop_entry(kr, v[i]) || b.board_entry(BOARD_MASK, kr, v[i]),
        0 <= j < out.len(),
        out[j].holds(mv),
    ensures
        exists|i: int| 0 <= i < v.len() && #[trigger] v[i].holds(mv),
        b.move_checks(tk, mv),
    decreases v.len(),
{
    let n = choose|n: int|
        0 <= n <= out.len() && #[trigger] b.cut_ok(tk, v.last(), out.subrange(n, out.len() as int)) && b.cuts_ok(
            tk,
            v.drop_last(),
            out.subrange(0, n),
        );
    let last = v.len() - 1;
    assert(b.drop_entry(kr, v[last]) || b.board_entry(BOARD_MASK, kr, v[last]));
    if j >= n {
        assert(out.subrange(n, out.len() as int)[j - n] == out[j]);
        lemma_cut_holds(b, tk, kr, v.last(), out.subrange(n, out.len() as int), j - n, mv);
        assert(v[last].holds(mv));
    } else {
        assert(out.subrange(0, n)[j] == out[j]);
        assert forall|i: int| 0 <= i < v.drop_last().len() implies #[trigger] b.drop_entry(kr, v.drop_last()[i])
            || b.board_entry(BOARD_MASK, kr, v.drop_last()[i]) by {
            assert(v.drop_last()[i] == v[i]);
        }
        lemma_cuts_hold(b, tk, kr, v.drop_last(), out.subrange(0, n), j, mv);
        let i = choose|i: int| 0 <= i < v.drop_last().len() && #[trigger] v.drop_last()[i].holds(mv);
        assert(v.drop_last()[i] == v[i]);
    }
}

/// Every move that check generation lists is legal: a checking drop or board move is a
/// move that [`Board::is_legal`] accepts.
#[verifier::rlimit(100)]
pub proof fn lemma_checks_are_legal(
    b: Board,
    d: Seq<PieceMoves>,
    m: Seq<PieceMoves>,
    dout: Seq<PieceMoves>,
    mout: Seq<PieceMoves>,
    mv: Move,
)
    requires
        b.wf(),
        b.check_list(d, m, dout, mout),
        (exists|j: int| 0 <= j < dout.len() && #[trigger] dout[j].holds(mv)) || (exists|j: int|
            0 <= j < mout.len() && #[trigger] mout[j].holds(mv)),
    ensures
        (mv matches Move::BoardMove { from, to, promotion } && forall|k: int| #[trigger] b.king_ref(k)
            ==> b.legal_board_move(k, from.idx(), to.idx(), promotion)) || (mv matches Move::Drop { piece, to }
            && piece.idx() < 7 && b.pos().hand_count(b.stm(), piece) > 0 && forall|k: int| #[trigger] b.king_ref(k)
            ==> b.drop_ok(k, piece, to.idx())),
{
    let c = b.stm();
    let kr: int = if b.has_king(c) {
        crate::board::validate::lemma_lowest_king(b, c)
    } else {
        0
    };
    assert(b.king_ref(kr));
    assert forall|k: int| #[trigger] b.king_ref(k) implies k == kr by {
        if b.has_king(c) {
            crate::board::validate::lemma_king_sq_unique(b, c, k, kr);
        }
    }
    assert(b.drop_list(kr, d) && b.board_list(BOARD_MASK, kr, m));
    let them = c.other();
    assert(b.has_king(them));
    let tk = crate::board::validate::lemma_lowest_king(b, them);
    assert(b.cuts_ok(tk, d, dout) && b.cuts_ok(tk, m, mout));
    assert forall|i: int| 0 <= i < d.len() implies #[trigger] b.drop_entry(kr, d[i]) || b.board_entry(BOARD_MASK, kr, d[i]) by {}
    assert forall|i: int| 0 <= i < m.len() implies #[trigger] b.drop_entry(kr, m[i]) || b.board_entry(BOARD_MASK, kr, m[i]) by {}
    let held_in_d = exists|i: int| 0 <= i < d.len() && #[trigger] d[i].holds(mv);
    let held_in_m = exists|i: int| 0 <= i < m.len() && #[trigger] m[i].holds(mv);
    if exists|j: int| 0 <= j < dout.len() && #[trigger] dout[j].holds(mv) {
        let j = choose|j: int| 0 <= j < dout.len() && #[trigger] dout[j].holds(mv);
        lemma_cuts_hold(b, tk, kr, d, dout, j, mv);
    } else {
        let j = choose|j: int| 0 <= j < mout.len() && #[trigger] mout[j].holds(mv);
        lemma_cuts_hold(b, tk, kr, m, mout, j, mv);
    }
    match mv {
        Move::BoardMove { from, to, promotion } => {
            lemma_board_move_generation(b, kr, m, from, to, promotion);
            if held_in_d {
                let i = choose|i: int| 0 <= i < d.len() && #[trigger] d[i].holds(mv);
                assert(b.drop_entry(kr, d[i]));
            }
        },
        Move::Drop { piece, to } => {
            lemma_square_idx(to);
            lemma_drop_generated_iff_legal(b, kr, d, piece, to.idx());
            if held_in_d {
                let i = choose|i: int| 0 <= i < d.len() && #[trigger] d[i].holds(mv);
                assert(b.drop_entry(kr, d[i]));
                assert(d[i]->Drops_piece == piece && bit(d[i]->Drops_to.0, to.idx()));
            } else {
                let i = choose|i: int| 0 <= i < m.len() && #[trigger] m[i].holds(mv);
                assert(b.board_entry(BOARD_MASK, kr, m[i]));
            }
        },
    }
}

impl Board {
    /// The move `mv` of the side to move gives check to the opponent king on `tk` (see
    /// [`Board::gives_check`]): a dropped piece from its square, a moved piece, promoted when
    /// the move promotes, from its target or by uncovering.
    pub open spec fn move_checks(self, tk: int, mv: Move) -> bool {
        match mv {
            Move::Drop { piece, to } => self.gives_check(tk, piece, None, to.idx()),
            Move::BoardMove { from, to, promotion } => match self.piece_at(from.idx()) {
                Some(p) => self.gives_check(
                    tk,
                    if promotion {
                        promoted(p)
                    } else {
                        p
                    },
                    Some(from.idx()),
                    to.idx(),
                ),
                None => false,
            },
        }
    }
}

/// A move of a generated entry that gives check is a move of the checking entries cut
/// from it.
proof fn lemma_cut_has(b: Board, tk: int, kr: int, e: PieceMoves, xs: Seq<PieceMoves>, mv: Move)
    requires
        b.drop_entry(kr, e) || b.board_entry(BOARD_MASK, kr, e),
        b.cut_ok(tk, e, xs),
        e.holds(mv),
        b.move_checks(tk, mv),
    ensures
        exists|j: int| 0 <= j < xs.len() && #[trigger] xs[j].holds(mv),
{
    match mv {
        Move::BoardMove { from, to, promotion } => {
            lemma_square_idx(to);
            lemma_square_idx(from);
            assert(Square::from_idx(to.idx()) == to);
            let t = to.idx();
            match e {
                PieceMoves::BoardMoves { prom_status, .. } => {
                    assert(e->from == from);
                    if prom_status == PromotionStatus::CannotPromote {
                        assert(b.keep(tk, e, 0, t));
                        assert(xs[0].holds(mv));
                    } else {
                        let n: int = if exists|u: int| #[trigger] b.keep(tk, e, 1, u) {
                            1
                        } else {
                            0
                        };
                        if promotion {
                            assert(b.keep(tk, e, 2, t));
                            assert(xs.subrange(n, xs.len() as int)[0] == xs[n]);
                            assert(xs[n].holds(mv));
                        } else {
                            assert(b.keep(tk, e, 1, t));
                            assert(xs.subrange(0, n)[0] == xs[0]);
                            assert(xs[0].holds(mv));
                        }
                    }
                },
                PieceMoves::Drops { .. } => {},
            }
        },
        Move::Drop { piece, to } => {
            lemma_square_idx(to);
            assert(b.keep(tk, e, 0, to.idx()));
            assert(xs[0].holds(mv));
        },
    }
}

/// A checking move of one of the generated entries `v` is a move of the checking moves
/// listed for them.
proof fn lemma_cuts_have(b: Board, tk: int, kr: int, v: Seq<PieceMoves>, out: Seq<PieceMoves>, i: int, mv: Move)
    requires
        b.cuts_ok(tk, v, out),
        forall|x: int| 0 <= x < v.len() ==> #[trigger] b.drop_entry(kr, v[x]) || b.board_entry(BOARD_MASK, kr, v[x]),
        0 <= i < v.len(),
        v[i].holds(mv),
        b.move_checks(tk, mv),
    ensures
        exists|j: int| 0 <= j < out.len() && #[trigger] out[j].holds(mv),
    decreases v.len(),
{
    let n = choose|n: int|
        0 <= n <= out.len() && #[trigger] b.cut_ok(tk, v.last(), out.subrange(n, out.len() as int)) && b.cuts_ok(
            tk,
            v.drop_last(),
            out.subrange(0, n),
        );
    let last = v.len() - 1;
    if i == last {
        assert(b.drop_entry(kr, v[last]) || b.board_entry(BOARD_MASK, kr, v[last]));
        lemma_cut_has(b, tk, kr, v.last(), out.subrange(n, out.len() as int), mv);
        let j = choose|j: int| 0 <= j < out.subrange(n, out.len() as int).len() && #[trigger] out.subrange(
            n,
            out.len() as int,
        )[j].holds(mv);
        assert(out[n + j] == out.subrange(n, out.len() as int)[j]);
    } else {
        assert forall|x: int| 0 <= x < v.drop_last().len() implies #[trigger] b.drop_entry(kr, v.drop_last()[x])
            || b.board_entry(BOARD_MASK, kr, v.drop_last()[x]) by {
            assert(v.drop_last()[x] == v[x]);
        }
        assert(v.drop_last()[i] == v[i]);
        lemma_cuts_have(b, tk, kr, v.drop_last(), out.subrange(0, n), i, mv);
        let j = choose|j: int| 0 <= j < out.subrange(0, n).len() && #[trigger] out.subrange(0, n)[j].holds(mv);
        assert(out[j] == out.subrange(0, n)[j]);
    }
}

/// Check generation lists exactly the legal moves that give check (see
/// [`Board::move_checks`]): with the opponent king on `tk`, a move is a move of one of the
/// checking entries `dout` or `mout` exactly when [`Board::is_legal`] accepts it and it gives
/// check; a king move is taken from the king square of the side to move (a second king is
/// never moved by generation).
#[verifier::rlimit(100)]
pub proof fn lemma_checks_match_legal_checks(
    b: Board,
    d: Seq<PieceMoves>,
    m: Seq<PieceMoves>,
    dout: Seq<PieceMoves>,
    mout: Seq<PieceMoves>,
    tk: int,
    mv: Move,
)
    requires
        b.wf(),
        b.check_list(d, m, dout, mout),
        b.is_king_sq(b.stm().other(), tk),
        mv matches Move::BoardMove { from, .. } ==> (b.piece_at(from.idx()) == Some(Piece::King) ==> b.is_king_sq(
            b.stm(),
            from.idx(),
        )),
    ensures
        ((exists|j: int| 0 <= j < dout.len() && #[trigger] dout[j].holds(mv)) || (exists|j: int|
            0 <= j < mout.len() && #[trigger] mout[j].holds(mv))) <==> (((mv matches Move::BoardMove {
            from,
            to,
            promotion,
        } && forall|k: int| #[trigger] b.king_ref(k) ==> b.legal_board_move(k, from.idx(), to.idx(), promotion)) || (
        mv matches Move::Drop { piece, to } && piece.idx() < 7 && b.pos().hand_count(b.stm(), piece) > 0 && forall|k: int|
            #[trigger] b.king_ref(k) ==> b.drop_ok(k, piece, to.idx()))) && b.move_checks(tk, mv)),
{
    let c = b.stm();
    let kr: int = if b.has_king(c) {
        crate::board::validate::lemma_lowest_king(b, c)
    } else {
        0
    };
    assert(b.king_ref(kr));
    assert(b.drop_list(kr, d) && b.board_list(BOARD_MASK, kr, m));
    assert(b.has_king(c.other()));
    assert(b.cuts_ok(tk, d, dout) && b.cuts_ok(tk, m, mout));
    assert forall|i: int| 0 <= i < d.len() implies #[trigger] b.drop_entry(kr, d[i]) || b.board_entry(BOARD_MASK, kr, d[i]) by {}
    assert forall|i: int| 0 <= i < m.len() implies #[trigger] b.drop_entry(kr, m[i]) || b.board_entry(BOARD_MASK, kr, m[i]) by {}
    if (exists|j: int| 0 <= j < dout.len() && #[trigger] dout[j].holds(mv)) || (exists|j: int|
        0 <= j < mout.len() && #[trigger] mout[j].holds(mv)) {
        lemma_checks_are_legal(b, d, m, dout, mout, mv);
        if exists|j: int| 0 <= j < dout.len() && #[trigger] dout[j].holds(mv) {
            let j = choose|j: int| 0 <= j < dout.len() && #[trigger] dout[j].holds(mv);
            lemma_cuts_hold(b, tk, kr, d, dout, j, mv);
        } else {
            let j = choose|j: int| 0 <= j < mout.len() && #[trigger] mout[j].holds(mv);
            lemma_cuts_hold(b, tk, kr, m, mout, j, mv);
        }
    }
    let legal = (mv matches Move::BoardMove { from, to, promotion } && forall|k: int| #[trigger] b.king_ref(k)
        ==> b.legal_board_move(k, from.idx(), to.idx(), promotion)) || (mv matches Move::Drop { piece, to }
        && piece.idx() < 7 && b.pos().hand_count(b.stm(), piece) > 0 && forall|k: int| #[trigger] b.king_ref(k)
        ==> b.drop_ok(k, piece, to.idx()));
    if legal && b.move_checks(tk, mv) {
        lemma_generation_matches_legality(b, d, m, mv);
        let i = choose|i: int| 0 <= i < (d + m).len() && #[trigger] (d + m)[i].holds(mv);
        if i < d.len() {
            assert((d + m)[i] == d[i]);
            lemma_cuts_have(b, tk, kr, d, dout, i, mv);
        } else {
            assert((d + m)[i] == m[i - d.len()]);
            lemma_cuts_have(b, tk, kr, m, mout, i - d.len(), mv);
        }
    }
}

} // verus!
