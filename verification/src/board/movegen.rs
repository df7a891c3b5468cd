//! Legality of moves and move generation.
use vstd::prelude::*;
use crate::attacks::{
    king_attacks, gold_attacks, silver_attacks, knight_attacks, pawn_attacks, king_step, gold_step,
    silver_step, knight_step, pawn_step,
};
use crate::bitboard::{BitBoard, bit, popcount, BOARD_MASK, lemma_wf_no_high, lemma_nonzero_bit_index};
use crate::bits::{lemma_popcount_one, lemma_popcount_two, lemma_popcount_pos, lemma_popcount_single};
use crate::board::{Board, GameStatus, IllegalMoveError, clear_between, lemma_board_determined};
use crate::board::zobrist::{lemma_wf_bits, gold_like};
use crate::board::piece_moves::{PieceMoves, PromotionStatus};
use crate::color::Color;
use crate::piece::{Piece, must_promote_at, in_promotion_zone, promoted, unpromoted};
use crate::rank::{no_fly_zone, drop_zone, prom_zone};
use crate::shogi_move::Move;
use crate::sliders::{
    bishop_pseudo_attacks, rook_pseudo_attacks, lance_pseudo_attacks, get_between_rays, line_ray,
    get_bishop_moves, get_rook_moves, get_lance_moves, between, line_through, bishop_reach,
    rook_reach, lance_reach, bishop_line, rook_line, lance_line,
};
use crate::square::{Square, lemma_square_idx, lemma_square_from_idx};
use core::ops::Not;

verus! {

broadcast use crate::bits::group_bit_lemmas;

/// `p` of color `c` on square index `s` moves to `t` over the occupied squares `occ`,
/// whatever stands on `t`.
pub open spec fn piece_moves_to(p: Piece, c: Color, s: int, occ: u128, t: int) -> bool {
    match p {
        Piece::Pawn => pawn_step(c, s, t),
        Piece::Lance => lance_reach(c, s, occ, t),
        Piece::Knight => knight_step(c, s, t),
        Piece::Silver => silver_step(c, s, t),
        Piece::Gold | Piece::Tokin | Piece::PLance | Piece::PKnight | Piece::PSilver => gold_step(c, s, t),
        Piece::Bishop => bishop_reach(s, occ, t),
        Piece::Rook => rook_reach(s, occ, t),
        Piece::PBishop => bishop_reach(s, occ, t) || gold_step(c, s, t),
        Piece::PRook => rook_reach(s, occ, t) || silver_step(c, s, t),
        Piece::King => king_step(s, t),
    }
}

/// The squares `piece` of `color` on `square` moves to over `blockers`.
pub fn pseudo_legals(piece: Piece, color: Color, square: Square, blockers: BitBoard) -> (r: BitBoard)
    ensures
        r.wf(),
        forall|t: int| #[trigger] bit(r.0, t) == piece_moves_to(piece, color, square.idx(), blockers.0, t),
{
    match piece {
        Piece::Pawn => pawn_attacks(color, square),
        Piece::Lance => get_lance_moves(color, square, blockers),
        Piece::Knight => knight_attacks(color, square),
        Piece::Silver => silver_attacks(color, square),
        Piece::Gold | Piece::Tokin | Piece::PLance | Piece::PKnight | Piece::PSilver => gold_attacks(color, square),
        Piece::Bishop => get_bishop_moves(color, square, blockers),
        Piece::Rook => get_rook_moves(color, square, blockers),
        Piece::PBishop => get_bishop_moves(color, square, blockers).bitor(gold_attacks(color, square)),
        Piece::PRook => get_rook_moves(color, square, blockers).bitor(silver_attacks(color, square)),
        Piece::King => king_attacks(color, square),
    }
}

impl Board {
    /// The number of checkers.
    pub open spec fn num_checkers(self) -> nat {
        popcount(self.checkers_bb())
    }

    /// Square index `t` blocks or captures every checker of the king on `k`.
    pub open spec fn blocks_check(self, k: int, t: int) -> bool {
        forall|ch: int| #[trigger] bit(self.checkers_bb(), ch) ==> (t == ch || between(ch, k, t))
    }

    /// A piece other than the king of the side to move (its king on `k`) may go to square
    /// index `t`: not onto its own pieces and, in check, onto the checker or between it and
    /// the king.
    pub open spec fn target_sq(self, k: int, t: int) -> bool {
        &&& 0 <= t < 81
        &&& self.color_at(t) != Some(self.stm())
        &&& self.num_checkers() == 0 || self.blocks_check(k, t)
    }

    /// A piece dropped by the side to move (its king on `k`) may land on square index `t`:
    /// an empty square and, in check by a slider, between it and the king; in check by
    /// another piece, nowhere.
    pub open spec fn drop_target(self, k: int, t: int) -> bool {
        &&& 0 <= t < 81
        &&& self.piece_at(t) is None
        &&& self.num_checkers() == 0 || (forall|ch: int| #[trigger] bit(self.checkers_bb(), ch) ==> (
        self.slider_at(self.stm().other(), ch) && between(ch, k, t)))
    }

    /// Square index `i` holds a slider of `c`.
    pub open spec fn slider_at(self, c: Color, i: int) -> bool {
        self.color_at(i) == Some(c) && (self.piece_at(i) matches Some(p) && (p == Piece::Lance || p == Piece::Rook
            || p == Piece::Bishop || p == Piece::PRook || p == Piece::PBishop))
    }

    /// Square index `t` is attacked by a piece of the opponent of `c`, with `occ` the occupied
    /// squares; seen from `t`: a step pattern of `c` from `t` meets a piece that moves that
    /// way, or a line from `t` reaches a slider moving along it.
    pub open spec fn attacked(self, c: Color, t: int, occ: u128) -> bool {
        exists|i: int| #[trigger] self.attacker(c, t, occ, i)
    }

    /// The piece on square index `i` is an opponent of `c` attacking `t` (see
    /// [`Self::attacked`]).
    pub open spec fn attacker(self, c: Color, t: int, occ: u128, i: int) -> bool {
        &&& self.color_at(i) == Some(c.other())
        &&& match self.piece_at(i) {
            Some(p) => {
                ||| gold_step(c, t, i) && (gold_like(p) || p == Piece::King)
                ||| silver_step(c, t, i) && (p == Piece::Silver || p == Piece::PRook || p == Piece::PBishop
                    || p == Piece::King)
                ||| knight_step(c, t, i) && p == Piece::Knight
                ||| pawn_step(c, t, i) && p == Piece::Pawn
                ||| bishop_line(t, i) && bishop_reach(t, occ, i) && (p == Piece::Bishop || p == Piece::PBishop)
                ||| rook_line(t, i) && rook_reach(t, occ, i) && (p == Piece::Rook || p == Piece::PRook)
                ||| lance_line(c, t, i) && lance_reach(c, t, occ, i) && p == Piece::Lance
            },
            None => false,
        }
    }

    /// The occupied squares once the kings of the side to move leave for square index `t`.
    pub open spec fn occ_with_king_on(self, t: int) -> u128 {
        (self.occ() ^ (self.pos().color_bb(self.stm()) & self.pos().piece_bb(Piece::King))) | (1u128 << (t as u128))
    }

    /// The king of the side to move would be safe on square index `t`.
    pub open spec fn king_safe(self, t: int) -> bool {
        !self.attacked(self.stm(), t, self.occ_with_king_on(t))
    }
}

impl Board {
    /// The squares other than the king may move to (see [`Self::target_sq`]); called with at
    /// most one checker.
    fn target_squares(&self, in_check: bool) -> (r: BitBoard)
        requires
            self.wf(),
            in_check == (self.num_checkers() == 1),
            self.num_checkers() < 2,
        ensures
            r.wf(),
            forall|k: int| #[trigger] self.is_king_sq(self.stm(), k) ==> forall|t: int| #[trigger] bit(r.0, t)
                == self.target_sq(k, t),
            !self.has_king(self.stm()) ==> forall|t: int| #[trigger] bit(r.0, t) == self.target_sq(0, t),
    {
        let color = self.side_to_move();
        proof {
            crate::bitboard::lemma_popcount_zero(self.checkers_bb());
        }
        let targets = if in_check {
            let ch = self.checkers;
            proof {
                let c0 = crate::bitboard::lemma_nonzero_bit_index(ch.0);
                lemma_popcount_one(ch.0, c0);
                assert(self.has_king(color));
            }
            let checker = match ch.next_square() {
                Some(s) => s,
                None => Square::A1,
            };
            let our_king = self.king(color);
            proof {
                lemma_popcount_one(ch.0, checker.idx());
            }
            get_between_rays(checker, our_king).bitor(checker.bitboard())
        } else {
            BitBoard::full()
        };
        let r = targets.bitand(self.colors(color).not());
        proof {
            lemma_wf_bits(self.pos());
            if in_check {
                let k0 = crate::board::validate::lemma_lowest_king(*self, color);
                assert forall|k: int| #[trigger] self.is_king_sq(self.stm(), k) implies forall|t: int| #[trigger] bit(r.0, t)
                    == self.target_sq(k, t) by {
                    crate::board::validate::lemma_king_sq_unique(*self, color, k, k0);
                    assert forall|t: int| #[trigger] bit(r.0, t) == self.target_sq(k, t) by {
                        if 0 <= t < 81 && self.color_at(t) != Some(self.stm()) {
                            if bit(targets.0, t) {
                                assert forall|ch: int| #[trigger] bit(self.checkers_bb(), ch) implies (t == ch || between(ch, k, t)) by {
                                }
                            }
                        }
                    }
                }
            }
        }
        r
    }
}


impl Board {
    /// The squares a piece may be dropped on (see [`Self::drop_target`]); called with at
    /// most one checker.
    fn target_drops(&self, in_check: bool) -> (r: BitBoard)
        requires
            self.wf(),
            in_check == (self.num_checkers() == 1),
            self.num_checkers() < 2,
        ensures
            r.wf(),
            forall|k: int| #[trigger] self.is_king_sq(self.stm(), k) ==> forall|t: int| #[trigger] bit(r.0, t)
                == self.drop_target(k, t),
            !self.has_king(self.stm()) ==> forall|t: int| #[trigger] bit(r.0, t) == self.drop_target(0, t),
    {
        let color = self.side_to_move();
        let open_squares = self.occupied().not();
        proof {
            crate::bitboard::lemma_popcount_zero(self.checkers_bb());
            lemma_wf_bits(self.pos());
        }
        if in_check {
            let checkers = self.checkers.bitand(self.sliders(color.not()));
            proof {
                let c0 = crate::bitboard::lemma_nonzero_bit_index(self.checkers_bb());
                lemma_popcount_one(self.checkers_bb(), c0);
                assert(self.has_king(color));
            }
            let k0 = Ghost(crate::board::validate::lemma_lowest_king(*self, color));
            if !checkers.is_empty() {
                let checker = match self.checkers.next_square() {
                    Some(s) => s,
                    None => Square::A1,
                };
                let our_king = self.king(color);
                let r = get_between_rays(checker, our_king).bitand(open_squares);
                proof {
                    lemma_popcount_one(self.checkers_bb(), checker.idx());
                    let c1 = crate::bitboard::lemma_nonzero_bit_index(checkers.0);
                    assert(c1 == checker.idx());
                    assert forall|k: int| #[trigger] self.is_king_sq(self.stm(), k) implies forall|t: int| #[trigger] bit(
                        r.0,
                        t,
                    ) == self.drop_target(k, t) by {
                        crate::board::validate::lemma_king_sq_unique(*self, color, k, our_king.idx());
                        assert forall|t: int| #[trigger] bit(r.0, t) == self.drop_target(k, t) by {
                            if bit(r.0, t) {
                                assert forall|ch: int| #[trigger] bit(self.checkers_bb(), ch) implies (self.slider_at(
                                    self.stm().other(),
                                    ch,
                                ) && between(ch, k, t)) by {}
                            }
                            if self.drop_target(k, t) {
                                assert(bit(self.checkers_bb(), checker.idx()));
                            }
                        }
                    }
                }
                r
            } else {
                proof {
                    let c0 = crate::bitboard::lemma_nonzero_bit_index(self.checkers_bb());
                    assert(!bit(checkers.0, c0));
                    assert forall|k: int| #[trigger] self.is_king_sq(self.stm(), k) implies forall|t: int| #[trigger] bit(
                        0u128,
                        t,
                    ) == self.drop_target(k, t) by {
                        assert forall|t: int| #[trigger] bit(0u128, t) == self.drop_target(k, t) by {
                            if self.drop_target(k, t) {
                                assert(bit(self.checkers_bb(), c0));
                            }
                        }
                    }
                }
                BitBoard::empty()
            }
        } else {
            open_squares
        }
    }

    /// Would the king of the side to move be safe on `square` (see [`Self::king_safe`])?
    pub fn king_safe_on(&self, square: Square) -> (r: bool)
        requires
            self.wf_basic(),
        ensures
            r == self.king_safe(square.idx()),
    {
        let color = self.side_to_move();
        let their_pieces = self.colors(color.not());
        let kings = self.pieces(Piece::King);
        let blockers = self.occupied().bitxor(self.colored_pieces(color, Piece::King)).bitor(square.bitboard());
        let golds = gold_attacks(color, square).bitand(their_pieces).bitand(self.pseudo_golds().bitor(kings));
        let silvers = silver_attacks(color, square).bitand(their_pieces).bitand(self.pseudo_silvers().bitor(kings));
        let knights = knight_attacks(color, square).bitand(their_pieces).bitand(self.pieces(Piece::Knight));
        let pawns = pawn_attacks(color, square).bitand(their_pieces).bitand(self.pieces(Piece::Pawn));
        let bishop_lines = bishop_pseudo_attacks(square).bitand(self.pieces(Piece::Bishop).bitor(self.pieces(Piece::PBishop))).bitand(
            their_pieces,
        );
        let bishops = if bishop_lines.0 == 0 {
            BitBoard::empty()
        } else {
            bishop_lines.bitand(get_bishop_moves(color, square, blockers))
        };
        let rook_lines = rook_pseudo_attacks(square).bitand(self.pieces(Piece::Rook).bitor(self.pieces(Piece::PRook))).bitand(
            their_pieces,
        );
        let rooks = if rook_lines.0 == 0 {
            BitBoard::empty()
        } else {
            rook_lines.bitand(get_rook_moves(color, square, blockers))
        };
        let lance_lines = lance_pseudo_attacks(color, square).bitand(self.pieces(Piece::Lance)).bitand(their_pieces);
        let lances = if lance_lines.0 == 0 {
            BitBoard::empty()
        } else {
            lance_lines.bitand(get_lance_moves(color, square, blockers))
        };
        let all = golds.bitor(silvers).bitor(knights).bitor(pawns).bitor(bishops).bitor(rooks).bitor(lances);
        proof {
            lemma_wf_bits(self.pos());
            lemma_square_idx(square);
            let t = square.idx();
            let occ2 = self.occ_with_king_on(t);
            assert(blockers.0 == occ2);
            assert forall|i: int| #[trigger] bit(all.0, i) == self.attacker(color, t, occ2, i) by {}
            crate::bitboard::lemma_popcount_zero(all.0);
            if all.0 != 0 {
                let i = crate::bitboard::lemma_nonzero_bit_index(all.0);
                assert(self.attacker(color, t, occ2, i));
            } else {
                assert forall|i: int| !#[trigger] self.attacker(color, t, occ2, i) by {
                    assert(!bit(all.0, i));
                }
            }
        }
        all.is_empty()
    }

    /// May the king of `color` on `from` move to `to`: a king step not onto its own pieces,
    /// to a safe square?
    fn king_is_legal(&self, color: Color, from: Square, to: Square) -> (r: bool)
        requires
            self.wf_basic(),
            color == self.stm(),
        ensures
            r == (king_step(from.idx(), to.idx()) && self.color_at(to.idx()) != Some(color) && self.king_safe(to.idx())),
    {
        proof {
            lemma_square_idx(to);
        }
        if !king_attacks(color, from).bitand(self.colors(color).not()).has(to) {
            false
        } else {
            self.king_safe_on(to)
        }
    }
}


/// The promotion status given to the generated moves of `p`: decided per square for the
/// pieces that can promote, never promoting for the others.
pub open spec fn gen_status(p: Piece) -> PromotionStatus {
    if p.idx() < 6 {
        PromotionStatus::Undecided
    } else {
        PromotionStatus::CannotPromote
    }
}

impl Board {
    /// Square index `k` is the king square used for generation: the lowest king of the side
    /// to move, or 0 when it has none.
    pub open spec fn king_ref(self, k: int) -> bool {
        self.is_king_sq(self.stm(), k) || (!self.has_king(self.stm()) && k == 0)
    }

    /// The piece (not a king) of the side to move on square index `s` may move to `t`: it
    /// moves there, the target is allowed (see [`Self::target_sq`]), there are at most one
    /// checker, and a pinned piece stays on the line through its king (never in check, and
    /// never a knight).
    pub open spec fn common_target(self, k: int, s: int, t: int) -> bool {
        match self.piece_at(s) {
            Some(p) => {
                &&& piece_moves_to(p, self.stm(), s, self.occ(), t)
                &&& self.target_sq(k, t)
                &&& self.num_checkers() < 2
                &&& (!bit(self.pinned_bb(), s) || (self.num_checkers() == 0 && p != Piece::Knight && self.has_king(
                    self.stm(),
                ) && line_through(k, s, t)))
            },
            None => false,
        }
    }

    /// The king of the side to move on square index `k` may move to `t`.
    pub open spec fn king_target(self, k: int, t: int) -> bool {
        &&& 0 <= t < 81
        &&& king_step(k, t)
        &&& self.color_at(t) != Some(self.stm())
        &&& self.king_safe(t)
    }

    /// `e` is a generated set of board moves for the pieces on `mask`, with king square `k`:
    /// all the moves of one piece of the side to move, at least one.
    pub open spec fn board_entry(self, mask: u128, k: int, e: PieceMoves) -> bool {
        match e {
            PieceMoves::BoardMoves { color, piece, from, to, prom_status } => {
                &&& color == self.stm()
                &&& self.holds(from.idx(), color, piece)
                &&& bit(mask, from.idx())
                &&& to.0 != 0
                &&& to.wf()
                &&& prom_status == gen_status(piece)
                &&& if piece == Piece::King {
                    from.idx() == k && forall|t: int| #[trigger] bit(to.0, t) == self.king_target(k, t)
                } else {
                    forall|t: int| #[trigger] bit(to.0, t) == self.common_target(k, from.idx(), t)
                }
            },
            PieceMoves::Drops { .. } => false,
        }
    }

    /// The piece of the side to move on square index `s` is in `mask` and has a generated
    /// board move.
    pub open spec fn movable(self, mask: u128, k: int, s: int) -> bool {
        &&& bit(mask, s)
        &&& self.color_at(s) == Some(self.stm())
        &&& if self.piece_at(s) == Some(Piece::King) {
            s == k && exists|t: int| #[trigger] self.king_target(k, t)
        } else {
            exists|t: int| #[trigger] self.common_target(k, s, t)
        }
    }

    /// `v` lists the board moves for `mask`: one entry per movable piece, and only those.
    pub open spec fn board_list(self, mask: u128, k: int, v: Seq<PieceMoves>) -> bool {
        &&& forall|i: int| 0 <= i < v.len() ==> #[trigger] self.board_entry(mask, k, v[i])
        &&& forall|i: int, j: int| 0 <= i < j < v.len() ==> #[trigger] v[i]->from != #[trigger] v[j]->from
        &&& forall|s: int| #[trigger] self.movable(mask, k, s) ==> exists|i: int| 0 <= i < v.len() && #[trigger] v[i]->from.idx() == s
    }
}


impl Board {
    /// Square index `s` holds a piece other than a king that list building has handled:
    /// the piece types below `pi`, and the squares of type `pi` below `fs`.
    pub open spec fn done(self, pi: int, fs: int, s: int) -> bool {
        self.piece_at(s) matches Some(p) && p != Piece::King && (p.idx() < pi || (p.idx() == pi && s < fs))
    }

    /// The list `v` holds an entry for every movable handled piece, and only such entries.
    pub open spec fn list_inv(self, mask: u128, k: int, v: Seq<PieceMoves>, pi: int, fs: int) -> bool {
        &&& forall|i: int| 0 <= i < v.len() ==> #[trigger] self.entry_done(mask, k, pi, fs, v[i])
        &&& forall|i: int, j: int| 0 <= i < j < v.len() ==> #[trigger] v[i]->from != #[trigger] v[j]->from
        &&& forall|s: int| #[trigger] self.movable(mask, k, s) && self.done(pi, fs, s) ==> exists|i: int|
            0 <= i < v.len() && #[trigger] v[i]->from.idx() == s
    }

    /// `e` is a generated entry for a handled square.
    pub open spec fn entry_done(self, mask: u128, k: int, pi: int, fs: int, e: PieceMoves) -> bool {
        self.board_entry(mask, k, e) && self.done(pi, fs, e->from.idx())
    }

    /// Append the moves of every `piece` of the side to move on `mask`.
    #[verifier::rlimit(100)]
    fn add_common_legals(
        &self,
        piece: Piece,
        mask: BitBoard,
        targets: BitBoard,
        in_check: bool,
        our_king: Option<Square>,
        v: &mut Vec<PieceMoves>,
        Ghost(k): Ghost<int>,
    )
        requires
            self.wf(),
            piece != Piece::King,
            in_check == (self.num_checkers() == 1),
            self.num_checkers() < 2,
            self.king_ref(k),
            our_king matches Some(sq) ==> sq.idx() == k && self.has_king(self.stm()),
            our_king is None ==> !self.has_king(self.stm()),
            forall|t: int| #[trigger] bit(targets.0, t) == self.target_sq(k, t),
            targets.wf(),
            self.list_inv(mask.0, k, old(v)@, piece.idx(), 0),
        ensures
            self.list_inv(mask.0, k, final(v)@, piece.idx() + 1, 0),
    {
        let color = self.side_to_move();
        let occ = self.occupied();
        let cand = self.colored_pieces(color, piece).bitand(mask);
        let status = if piece.is_promotable() {
            PromotionStatus::Undecided
        } else {
            PromotionStatus::CannotPromote
        };
        let mut rem = cand;
        let ghost mut fs: int = 0;
        proof {
            lemma_wf_bits(self.pos());
        }
        loop
            invariant
                self.wf(),
                piece != Piece::King,
                in_check == (self.num_checkers() == 1),
                self.num_checkers() < 2,
                self.king_ref(k),
                our_king matches Some(sq) ==> sq.idx() == k && self.has_king(self.stm()),
                our_king is None ==> !self.has_king(self.stm()),
                forall|t: int| #[trigger] bit(targets.0, t) == self.target_sq(k, t),
                targets.wf(),
                color == self.stm(),
                occ.0 == self.occ(),
                occ.wf(),
                status == gen_status(piece),
                cand.wf(),
                forall|i: int| #[trigger] bit(cand.0, i) == (self.holds(i, color, piece) && bit(mask.0, i)),
                rem.wf(),
                0 <= fs,
                forall|i: int| #[trigger] bit(rem.0, i) == (bit(cand.0, i) && i >= fs),
                self.list_inv(mask.0, k, v@, piece.idx(), fs),
            decreases rem.0,
        {
            match rem.next_square() {
                None => {
                    proof {
                        assert forall|i: int| !(#[trigger] bit(cand.0, i) && i >= fs) by {
                            if bit(cand.0, i) && i >= fs {
                                assert(bit(rem.0, i));
                                crate::bitboard::lemma_nonzero_bit(rem.0, i);
                            }
                        }
                        lemma_wf_bits(self.pos());
                        self.lemma_list_inv_next(mask.0, k, v@, piece, fs, cand.0);
                    }
                    return;
                },
                Some(from) => {
                    let ghost s = from.idx();
                    let base = pseudo_legals(piece, color, from, occ).bitand(targets);
                    let pinned = self.pinned.has(from);
                    let to = if pinned {
                        match our_king {
                            Some(ksq) => if !in_check && piece != Piece::Knight {
                                base.bitand(line_ray(ksq, from))
                            } else {
                                BitBoard::empty()
                            },
                            None => BitBoard::empty(),
                        }
                    } else {
                        base
                    };
                    let new_rem = rem.bitxor(from.bitboard());
                    proof {
                        lemma_square_idx(from);
                        crate::bits::lemma_clear_bit_smaller(rem.0, s);
                        assert(bit(cand.0, s));
                        assert forall|t: int| #[trigger] bit(to.0, t) == self.common_target(k, s, t) by {}
                        assert forall|i: int| #[trigger] bit(new_rem.0, i) == (bit(cand.0, i) && i >= s + 1) by {
                            if fs <= i < s {
                                assert(!bit(rem.0, i));
                            }
                        }
                    }
                    let ghost old_v = v@;
                    if !to.is_empty() {
                        v.push(PieceMoves::BoardMoves { color, piece, from, to, prom_status: status });
                    }
                    proof {
                        crate::bitboard::lemma_popcount_zero(to.0);
                        if to.0 != 0 {
                            assert(v@ == old_v.push(PieceMoves::BoardMoves { color, piece, from, to, prom_status: status }));
                            assert(self.board_entry(mask.0, k, PieceMoves::BoardMoves { color, piece, from, to, prom_status: status }));
                        } else {
                            assert(v@ == old_v);
                        }
                        assert forall|s2: int| fs <= s2 < s && #[trigger] self.holds(s2, color, piece) implies !bit(mask.0, s2) by {
                            if bit(mask.0, s2) {
                                assert(bit(cand.0, s2));
                                assert(!bit(rem.0, s2));
                            }
                        }
                        self.lemma_list_inv_step(mask.0, k, old_v, v@, piece, fs, from, to, status);
                        fs = s + 1;
                    }
                    rem = new_rem;
                },
            }
        }
    }
}


impl Board {
    /// Once no square of `piece` at or beyond `fs` is left, every square of `piece` is handled.
    proof fn lemma_list_inv_next(self, mask: u128, k: int, v: Seq<PieceMoves>, piece: Piece, fs: int, cand: u128)
        requires
            self.pos().wf(),
            piece != Piece::King,
            self.list_inv(mask, k, v, piece.idx(), fs),
            forall|i: int| #[trigger] bit(cand, i) == (self.holds(i, self.stm(), piece) && bit(mask, i)),
            forall|i: int| !(#[trigger] bit(cand, i) && i >= fs),
        ensures
            self.list_inv(mask, k, v, piece.idx() + 1, 0),
    {
        let pi = piece.idx();
        assert forall|i: int| 0 <= i < v.len() implies #[trigger] self.entry_done(mask, k, pi + 1, 0, v[i]) by {
            assert(self.entry_done(mask, k, pi, fs, v[i]));
        }
        assert forall|s: int| #[trigger] self.movable(mask, k, s) && self.done(pi + 1, 0, s) implies exists|i: int|
            0 <= i < v.len() && #[trigger] v[i]->from.idx() == s by {
            if !self.done(pi, fs, s) {
                assert(self.piece_at(s) == Some(piece));
                assert(bit(cand, s));
            }
        }
    }

    /// Handling square `from` of `piece`, and listing its moves `to` when there are any,
    /// keeps the list invariant.
    proof fn lemma_list_inv_step(
        self,
        mask: u128,
        k: int,
        old_v: Seq<PieceMoves>,
        v: Seq<PieceMoves>,
        piece: Piece,
        fs: int,
        from: Square,
        to: BitBoard,
        status: PromotionStatus,
    )
        requires
            self.pos().wf(),
            piece != Piece::King,
            self.list_inv(mask, k, old_v, piece.idx(), fs),
            fs <= from.idx(),
            self.holds(from.idx(), self.stm(), piece),
            bit(mask, from.idx()),
            forall|t: int| #[trigger] bit(to.0, t) == self.common_target(k, from.idx(), t),
            to.0 != 0 ==> v == old_v.push(PieceMoves::BoardMoves { color: self.stm(), piece, from, to, prom_status: status }),
            to.0 != 0 ==> self.board_entry(mask, k, PieceMoves::BoardMoves { color: self.stm(), piece, from, to, prom_status: status }),
            to.0 == 0 ==> v == old_v,
            forall|s2: int| fs <= s2 < from.idx() && #[trigger] self.holds(s2, self.stm(), piece) ==> !bit(mask, s2),
        ensures
            self.list_inv(mask, k, v, piece.idx(), from.idx() + 1),
    {
        let pi = piece.idx();
        let s = from.idx();
        let e = PieceMoves::BoardMoves { color: self.stm(), piece, from, to, prom_status: status };
        assert forall|i: int| 0 <= i < v.len() implies #[trigger] self.entry_done(mask, k, pi, s + 1, v[i]) by {
            if i < old_v.len() {
                assert(v[i] == old_v[i]);
                assert(self.entry_done(mask, k, pi, fs, old_v[i]));
            } else {
                assert(v[i] == e);
            }
        }
        assert forall|i: int, j: int| 0 <= i < j < v.len() implies #[trigger] v[i]->from != #[trigger] v[j]->from by {
            if j < old_v.len() {
                assert(v[i] == old_v[i] && v[j] == old_v[j]);
            } else {
                assert(v[i] == old_v[i]);
                assert(self.entry_done(mask, k, pi, fs, old_v[i]));
                assert(v[j] == e);
            }
        }
        assert forall|s2: int| #[trigger] self.movable(mask, k, s2) && self.done(pi, s + 1, s2) implies exists|i: int|
            0 <= i < v.len() && #[trigger] v[i]->from.idx() == s2 by {
            if self.done(pi, fs, s2) {
                let i = choose|i: int| 0 <= i < old_v.len() && #[trigger] old_v[i]->from.idx() == s2;
                assert(v[i] == old_v[i]);
            } else if s2 == s {
                let t = choose|t: int| #[trigger] self.common_target(k, s, t);
                assert(bit(to.0, t));
                crate::bitboard::lemma_nonzero_bit(to.0, t);
                assert(v[old_v.len() as int] == e);
            } else {
                assert(self.holds(s2, self.stm(), piece));
            }
        }
    }
}


impl Board {
    /// The squares of `moves` where the king of the side to move would be safe.
    fn safe_squares(&self, moves: BitBoard) -> (r: BitBoard)
        requires
            self.wf_basic(),
            moves.wf(),
        ensures
            r.wf(),
            forall|t: int| #[trigger] bit(r.0, t) == (bit(moves.0, t) && self.king_safe(t)),
    {
        let mut rem = moves;
        let mut safe = BitBoard::empty();
        let ghost mut fs: int = 0;
        loop
            invariant
                self.wf_basic(),
                moves.wf(),
                rem.wf(),
                safe.wf(),
                0 <= fs,
                forall|i: int| #[trigger] bit(rem.0, i) == (bit(moves.0, i) && i >= fs),
                forall|i: int| #[trigger] bit(safe.0, i) == (bit(moves.0, i) && i < fs && self.king_safe(i)),
            decreases rem.0,
        {
            match rem.next_square() {
                None => {
                    proof {
                        assert forall|t: int| #[trigger] bit(safe.0, t) == (bit(moves.0, t) && self.king_safe(t)) by {
                            if bit(moves.0, t) && t >= fs {
                                assert(bit(rem.0, t));
                                crate::bitboard::lemma_nonzero_bit(rem.0, t);
                            }
                        }
                    }
                    return safe;
                },
                Some(to) => {
                    let ghost s = to.idx();
                    let ghost old_rem = rem;
                    proof {
                        lemma_square_idx(to);
                        crate::bits::lemma_clear_bit_smaller(rem.0, s);
                    }
                    if self.king_safe_on(to) {
                        safe = safe.bitor(to.bitboard());
                    }
                    rem = rem.bitxor(to.bitboard());
                    proof {
                        assert forall|i: int| #[trigger] bit(rem.0, i) == (bit(moves.0, i) && i >= s + 1) by {
                            if fs <= i < s {
                                assert(!bit(old_rem.0, i));
                            }
                        }
                        assert forall|i: int| #[trigger] bit(safe.0, i) == (bit(moves.0, i) && i < s + 1 && self.king_safe(i)) by {
                            if fs <= i < s {
                                assert(!bit(old_rem.0, i));
                            }
                        }
                        fs = s + 1;
                    }
                },
            }
        }
    }
}


impl Board {
    /// Append the moves of the king of the side to move, when `mask` holds it.
    fn add_king_legals(&self, mask: BitBoard, v: &mut Vec<PieceMoves>, Ghost(k): Ghost<int>)
        requires
            self.wf(),
            self.king_ref(k),
            self.list_inv(mask.0, k, old(v)@, 14, 0),
        ensures
            self.board_list(mask.0, k, final(v)@),
    {
        let color = self.side_to_move();
        let ghost old_v = v@;
        proof {
            lemma_wf_bits(self.pos());
            assert forall|s: int| #[trigger] self.movable(mask.0, k, s) && self.piece_at(s) != Some(Piece::King)
                implies self.done(14, 0, s) by {
                assert(self.pos().piece_at(s) is Some);
            }
        }
        if self.has(color, Piece::King) {
            let our_king = self.king(color);
            if mask.has(our_king) {
                let moves = king_attacks(color, our_king).bitand(self.colors(color).not());
                let safe = self.safe_squares(moves);
                if !safe.is_empty() {
                    v.push(PieceMoves::BoardMoves {
                        color,
                        piece: Piece::King,
                        from: our_king,
                        to: safe,
                        prom_status: PromotionStatus::CannotPromote,
                    });
                }
                proof {
                    lemma_square_idx(our_king);
                    crate::board::validate::lemma_king_sq_unique(*self, color, k, our_king.idx());
                    let e = PieceMoves::BoardMoves {
                        color,
                        piece: Piece::King,
                        from: our_king,
                        to: safe,
                        prom_status: PromotionStatus::CannotPromote,
                    };
                    crate::bitboard::lemma_popcount_zero(safe.0);
                    assert forall|t: int| #[trigger] bit(safe.0, t) == self.king_target(k, t) by {}
                    assert forall|i: int| 0 <= i < v@.len() implies #[trigger] self.board_entry(mask.0, k, v@[i]) by {
                        if i < old_v.len() {
                            assert(self.entry_done(mask.0, k, 14, 0, old_v[i]));
                        }
                    }
                    assert forall|i: int, j: int| 0 <= i < j < v@.len() implies #[trigger] v@[i]->from != #[trigger] v@[j]->from by {
                        if j >= old_v.len() {
                            assert(self.entry_done(mask.0, k, 14, 0, old_v[i]));
                        }
                    }
                    assert forall|s: int| #[trigger] self.movable(mask.0, k, s) implies exists|i: int|
                        0 <= i < v@.len() && #[trigger] v@[i]->from.idx() == s by {
                        if self.piece_at(s) == Some(Piece::King) {
                            let t = choose|t: int| #[trigger] self.king_target(k, t);
                            assert(bit(safe.0, t));
                            crate::bitboard::lemma_nonzero_bit(safe.0, t);
                            assert(v@[old_v.len() as int] == e);
                        } else {
                            let i = choose|i: int| 0 <= i < old_v.len() && #[trigger] old_v[i]->from.idx() == s;
                            assert(v@[i] == old_v[i]);
                        }
                    }
                }
                return;
            }
        }
        proof {
            assert forall|i: int| 0 <= i < v@.len() implies #[trigger] self.board_entry(mask.0, k, v@[i]) by {
                assert(self.entry_done(mask.0, k, 14, 0, v@[i]));
            }
            assert forall|s: int| #[trigger] self.movable(mask.0, k, s) implies exists|i: int|
                0 <= i < v@.len() && #[trigger] v@[i]->from.idx() == s by {
                if self.piece_at(s) == Some(Piece::King) {
                    assert(self.is_king_sq(self.stm(), k));
                }
            }
        }
    }

    /// The generated board moves of the pieces of the side to move on `mask` (see
    /// [`Self::board_list`]): with two checkers only the king moves.
    pub fn board_moves_for(&self, mask: BitBoard) -> (r: Vec<PieceMoves>)
        requires
            self.wf(),
        ensures
            forall|k: int| #[trigger] self.king_ref(k) ==> self.board_list(mask.0, k, r@),
    {
        let color = self.side_to_move();
        let our_king = if self.has(color, Piece::King) {
            Some(self.king(color))
        } else {
            None
        };
        let ghost k: int = match our_king {
            Some(sq) => sq.idx(),
            None => 0,
        };
        proof {
            if self.has_king(color) {
                lemma_square_idx(our_king.unwrap());
            }
        }
        let mut v: Vec<PieceMoves> = Vec::new();
        let n = self.checkers.len();
        proof {
            assert forall|s: int| #[trigger] self.movable(mask.0, k, s) && self.done(0, 0, s) implies false by {}
        }
        if n < 2 {
            let in_check = n == 1;
            let targets = self.target_squares(in_check);
            let mut pi: usize = 0;
            while pi < 14
                invariant
                    self.wf(),
                    pi <= 14,
                    in_check == (self.num_checkers() == 1),
                    self.num_checkers() < 2,
                    self.king_ref(k),
                    our_king matches Some(sq) ==> sq.idx() == k && self.has_king(self.stm()),
                    our_king is None ==> !self.has_king(self.stm()),
                    forall|t: int| #[trigger] bit(targets.0, t) == self.target_sq(k, t),
                    targets.wf(),
                    self.list_inv(mask.0, k, v@, pi as int, 0),
                decreases 14 - pi,
            {
                if pi != 7 {
                    self.add_common_legals(Piece::index_const(pi), mask, targets, in_check, our_king, &mut v, Ghost(k));
                } else {
                    proof {
                        assert forall|i: int| 0 <= i < v@.len() implies #[trigger] self.entry_done(mask.0, k, 8, 0, v@[i]) by {
                            assert(self.entry_done(mask.0, k, 7, 0, v@[i]));
                        }
                        assert forall|s: int| #[trigger] self.movable(mask.0, k, s) && self.done(8, 0, s) implies exists|i: int|
                            0 <= i < v@.len() && #[trigger] v@[i]->from.idx() == s by {
                            assert(self.done(7, 0, s));
                        }
                    }
                }
                pi += 1;
            }
        } else {
            proof {
                assert forall|s: int| #[trigger] self.movable(mask.0, k, s) && self.done(14, 0, s) implies false by {
                    assert(!self.common_target(k, s, choose|t: int| #[trigger] self.common_target(k, s, t)));
                }
            }
        }
        self.add_king_legals(mask, &mut v, Ghost(k));
        proof {
            assert forall|k2: int| #[trigger] self.king_ref(k2) implies self.board_list(mask.0, k2, v@) by {
                if self.has_king(self.stm()) {
                    crate::board::validate::lemma_king_sq_unique(*self, self.stm(), k, k2);
                }
            }
        }
        v
    }
}


impl Board {
    /// `b2` is this board after the side to move drops `piece` on square index `t`, with its
    /// move count started afresh (the move number plays no part in what follows).
    pub open spec fn drop_result(self, b2: Board, piece: Piece, t: int) -> bool {
        let mv = Move::Drop { piece, to: Square::from_idx(t) };
        &&& b2.wf()
        &&& forall|i: int| #[trigger] b2.content(i) == self.content_after(mv, i)
        &&& forall|c: Color, p: Piece| #[trigger] b2.pos().hand_count(c, p) == self.hand_after(mv, c, p)
        &&& b2.stm() == self.stm().other()
        &&& b2.move_num() == 2
    }

    /// The side to move has no board move.
    pub open spec fn no_board_moves(self) -> bool {
        forall|k: int, s: int| #[trigger] self.king_ref(k) ==> !#[trigger] self.movable(BOARD_MASK, k, s)
    }

    /// Dropping a pawn on square index `t` would give check to the opponent's king and
    /// leave the opponent without a board move: a mate by pawn drop, which is forbidden.
    pub open spec fn pawn_drop_mates(self, t: int) -> bool {
        &&& exists|k: int| #[trigger] self.is_king_sq(self.stm().other(), k) && pawn_step(self.stm(), t, k)
        &&& forall|b2: Board| #[trigger] self.drop_result(b2, Piece::Pawn, t) ==> b2.no_board_moves()
    }

    /// Would dropping a pawn on `to` mate by pawn drop (see [`Self::pawn_drop_mates`])?
    pub fn is_illegal_mate_by_pawn_drop(&self, to: Square) -> (r: bool)
        requires
            self.wf(),
            self.pos().hand_count(self.stm(), Piece::Pawn) > 0,
            self.piece_at(to.idx()) is None,
        ensures
            r == self.pawn_drop_mates(to.idx()),
    {
        let color = self.side_to_move();
        let them = color.not();
        proof {
            lemma_square_idx(to);
        }
        if !self.has(them, Piece::King) {
            return false;
        }
        let their_king = self.king(them);
        if !pawn_attacks(color, to).has(their_king) {
            proof {
                assert forall|k: int| #[trigger] self.is_king_sq(self.stm().other(), k) implies !pawn_step(self.stm(), to.idx(), k) by {
                    crate::board::validate::lemma_king_sq_unique(*self, them, k, their_king.idx());
                }
            }
            return false;
        }
        let mut board = *self;
        board.set_move_number(1);
        proof {
            assert(unpromoted(Piece::Pawn) == Piece::Pawn);
            assert(board.can_play(Move::Drop { piece: Piece::Pawn, to }));
        }
        let ghost fresh = board;
        board.play_unchecked(Move::Drop { piece: Piece::Pawn, to });
        proof {
            assert forall|i: int| #[trigger] fresh.content_after(Move::Drop { piece: Piece::Pawn, to }, i) == self.content_after(
                Move::Drop { piece: Piece::Pawn, to },
                i,
            ) by {}
            assert forall|c: Color, p: Piece| #[trigger] fresh.hand_after(Move::Drop { piece: Piece::Pawn, to }, c, p)
                == self.hand_after(Move::Drop { piece: Piece::Pawn, to }, c, p) by {}
        }
        let v = board.board_moves_for(BitBoard::full());
        proof {
            assert(Square::from_idx(to.idx()) == to);
            assert(self.drop_result(board, Piece::Pawn, to.idx()));
            assert(self.is_king_sq(them, their_king.idx()) && pawn_step(color, to.idx(), their_king.idx()));
            assert forall|b2: Board| #[trigger] self.drop_result(b2, Piece::Pawn, to.idx()) implies b2 == board by {
                lemma_board_determined(b2, board);
            }
            if v.len() == 0 {
                assert forall|k: int, s: int| #[trigger] board.king_ref(k) implies !#[trigger] board.movable(BOARD_MASK, k, s) by {
                    assert(board.board_list(BOARD_MASK, k, v@));
                }
            } else {
                let k = if board.has_king(board.stm()) {
                    crate::board::validate::lemma_lowest_king(board, board.stm())
                } else {
                    0
                };
                assert(board.king_ref(k));
                assert(board.board_list(BOARD_MASK, k, v@));
                assert(board.board_entry(BOARD_MASK, k, v@[0]));
                let s = v@[0]->from.idx();
                let t = crate::bitboard::lemma_nonzero_bit_index(v@[0].targets().0);
                if v@[0]->BoardMoves_piece == Piece::King {
                    assert(board.king_target(k, t));
                } else {
                    assert(board.common_target(k, s, t));
                }
                assert(board.movable(BOARD_MASK, k, s));
            }
        }
        v.len() == 0
    }
}


impl Board {
    /// The side to move may drop `p` on square index `t` (king square `k`): at most one
    /// checker, an allowed drop square (see [`Self::drop_target`]), a square where the piece
    /// can still move, and for a pawn no second pawn on the file and no mate by pawn drop.
    pub open spec fn drop_ok(self, k: int, p: Piece, t: int) -> bool {
        &&& self.num_checkers() < 2
        &&& self.drop_target(k, t)
        &&& !must_promote_at(p, self.stm(), t % 9)
        &&& p == Piece::Pawn ==> !self.pawn_on_file(self.stm(), t / 9) && !(self.num_checkers() == 0
            && self.pawn_drop_mates(t))
    }

    /// `e` is a generated set of drops: all the drops of one piece type in hand, at least one.
    pub open spec fn drop_entry(self, k: int, e: PieceMoves) -> bool {
        match e {
            PieceMoves::Drops { color, piece, to } => {
                &&& color == self.stm()
                &&& piece.idx() < 7
                &&& self.pos().hand_count(color, piece) > 0
                &&& to.0 != 0
                &&& to.wf()
                &&& forall|t: int| #[trigger] bit(to.0, t) == self.drop_ok(k, piece, t)
            },
            PieceMoves::BoardMoves { .. } => false,
        }
    }

    /// `e` is a generated set of drops of a piece type below `pi`.
    pub open spec fn drop_done(self, k: int, pi: int, e: PieceMoves) -> bool {
        self.drop_entry(k, e) && e->Drops_piece.idx() < pi
    }

    /// `v` lists the drops: one entry per piece type in hand with a drop, and only those.
    pub open spec fn drop_list(self, k: int, v: Seq<PieceMoves>) -> bool {
        &&& forall|i: int| 0 <= i < v.len() ==> #[trigger] self.drop_entry(k, v[i])
        &&& forall|i: int, j: int| 0 <= i < j < v.len() ==> #[trigger] v[i]->Drops_piece != #[trigger] v[j]->Drops_piece
        &&& forall|p: Piece| p.idx() < 7 && self.pos().hand_count(self.stm(), p) > 0 && (exists|t: int| #[trigger] self.drop_ok(k, p, t))
            ==> exists|i: int| 0 <= i < v.len() && #[trigger] v[i]->Drops_piece == p
    }

    /// The squares where the side to move may drop `piece`, given the drop squares `targets`.
    #[verifier::rlimit(100)]
    fn drop_squares(&self, piece: Piece, targets: BitBoard, in_check: bool, Ghost(k): Ghost<int>) -> (r: BitBoard)
        requires
            self.wf(),
            piece.idx() < 7,
            self.pos().hand_count(self.stm(), piece) > 0,
            in_check == (self.num_checkers() == 1),
            self.num_checkers() < 2,
            self.king_ref(k),
            forall|t: int| #[trigger] bit(targets.0, t) == self.drop_target(k, t),
            targets.wf(),
        ensures
            r.wf(),
            forall|t: int| #[trigger] bit(r.0, t) == self.drop_ok(k, piece, t),
    {
        let color = self.side_to_move();
        let mut to = targets.bitand(drop_zone(color, piece));
        proof {
            lemma_wf_bits(self.pos());
        }
        if piece == Piece::Pawn {
            to = to.bitand(self.no_pawn_on_file[color.index()]);
            proof {
                crate::color::lemma_color_idx(color);
                assert(self.no_pawn_on_file[color.idx()].0 == self.no_pawn_bb(color));
            }
            let them = color.not();
            if !in_check && self.has(them, Piece::King) {
                let their_king = self.king(them);
                let front = pawn_attacks(them, their_king).bitand(to);
                proof {
                    lemma_square_idx(their_king);
                }
                match front.next_square() {
                    Some(sq) => {
                        proof {
                            lemma_square_idx(sq);
                            assert(self.piece_at(sq.idx()) is None);
                            assert(Square::from_idx(sq.idx()) == sq);
                        }
                        if self.is_illegal_mate_by_pawn_drop(sq) {
                            to = to.rm(sq);
                        }
                        proof {
                            assert forall|t: int| #[trigger] bit(to.0, t) == self.drop_ok(k, piece, t) by {
                                if 0 <= t < 81 && t != sq.idx() {
                                    if self.pawn_drop_mates(t) {
                                        let k2 = choose|k2: int| #[trigger] self.is_king_sq(self.stm().other(), k2) && pawn_step(self.stm(), t, k2);
                                        crate::board::validate::lemma_king_sq_unique(*self, them, k2, their_king.idx());
                                        crate::attacks::lemma_pawn_step_unique(color, t, sq.idx(), k2);
                                    }
                                }
                            }
                        }
                    },
                    None => {
                        proof {
                            assert forall|t: int| #[trigger] bit(to.0, t) == self.drop_ok(k, piece, t) by {
                                if 0 <= t < 81 && bit(to.0, t) && self.pawn_drop_mates(t) {
                                    let k2 = choose|k2: int| #[trigger] self.is_king_sq(self.stm().other(), k2) && pawn_step(self.stm(), t, k2);
                                    crate::board::validate::lemma_king_sq_unique(*self, them, k2, their_king.idx());
                                    assert(bit(front.0, t));
                                    crate::bitboard::lemma_nonzero_bit(front.0, t);
                                }
                            }
                        }
                    },
                }
            } else {
                proof {
                    assert forall|t: int| #[trigger] bit(to.0, t) == self.drop_ok(k, piece, t) by {
                        if !in_check && self.pawn_drop_mates(t) {
                            let k2 = choose|k2: int| #[trigger] self.is_king_sq(self.stm().other(), k2) && pawn_step(self.stm(), t, k2);
                        }
                    }
                }
            }
        }
        to
    }
}


impl Board {
    /// The generated drops of the side to move (see [`Self::drop_list`]); none with two
    /// checkers.
    #[verifier::rlimit(100)]
    pub fn drop_moves(&self) -> (r: Vec<PieceMoves>)
        requires
            self.wf(),
        ensures
            forall|k: int| #[trigger] self.king_ref(k) ==> self.drop_list(k, r@),
    {
        let color = self.side_to_move();
        let ghost k: int = if self.has_king(color) {
            crate::board::validate::lemma_lowest_king(*self, color)
        } else {
            0
        };
        let mut v: Vec<PieceMoves> = Vec::new();
        let n = self.checkers.len();
        if n < 2 {
            let in_check = n == 1;
            let targets = self.target_drops(in_check);
            let mut pi: usize = 0;
            while pi < 7
                invariant
                    self.wf(),
                    pi <= 7,
                    color == self.stm(),
                    in_check == (self.num_checkers() == 1),
                    self.num_checkers() < 2,
                    self.king_ref(k),
                    forall|t: int| #[trigger] bit(targets.0, t) == self.drop_target(k, t),
                    targets.wf(),
                    forall|i: int| 0 <= i < v@.len() ==> #[trigger] self.drop_done(k, pi as int, v@[i]),
                    forall|i: int, j: int| 0 <= i < j < v@.len() ==> #[trigger] v@[i]->Drops_piece != #[trigger] v@[j]->Drops_piece,
                    forall|p: Piece| p.idx() < pi && self.pos().hand_count(self.stm(), p) > 0 && (exists|t: int| #[trigger] self.drop_ok(k, p, t))
                        ==> exists|i: int| 0 <= i < v@.len() && #[trigger] v@[i]->Drops_piece == p,
                decreases 7 - pi,
            {
                let piece = Piece::index_const(pi);
                let ghost old_v = v@;
                if self.has_in_hand(color, piece) {
                    let to = self.drop_squares(piece, targets, in_check, Ghost(k));
                    if !to.is_empty() {
                        v.push(PieceMoves::Drops { color, piece, to });
                    }
                    proof {
                        crate::bitboard::lemma_popcount_zero(to.0);
                        assert forall|p: Piece| p.idx() < pi + 1 && self.pos().hand_count(self.stm(), p) > 0 && (exists|t: int| #[trigger] self.drop_ok(k, p, t))
                            implies exists|i: int| 0 <= i < v@.len() && #[trigger] v@[i]->Drops_piece == p by {
                            if p.idx() < pi {
                                let i = choose|i: int| 0 <= i < old_v.len() && #[trigger] old_v[i]->Drops_piece == p;
                                assert(v@[i] == old_v[i]);
                            } else {
                                let t = choose|t: int| #[trigger] self.drop_ok(k, p, t);
                                assert(p == piece);
                                assert(bit(to.0, t));
                                crate::bitboard::lemma_nonzero_bit(to.0, t);
                                assert(v@[old_v.len() as int]->Drops_piece == p);
                            }
                        }
                        assert forall|i: int, j: int| 0 <= i < j < v@.len() implies #[trigger] v@[i]->Drops_piece != #[trigger] v@[j]->Drops_piece by {
                            if j >= old_v.len() {
                                assert(self.drop_done(k, pi as int, old_v[i]));
                            } else {
                                assert(v@[i] == old_v[i] && v@[j] == old_v[j]);
                            }
                        }
                        assert forall|i: int| 0 <= i < v@.len() implies #[trigger] self.drop_done(k, pi + 1, v@[i]) by {
                            if i < old_v.len() {
                                assert(self.drop_done(k, pi as int, old_v[i]));
                            }
                        }
                    }
                } else {
                    proof {
                        assert forall|i: int| 0 <= i < v@.len() implies #[trigger] self.drop_done(k, pi + 1, v@[i]) by {
                            assert(self.drop_done(k, pi as int, v@[i]));
                        }
                        assert forall|p: Piece| p.idx() < pi + 1 && self.pos().hand_count(self.stm(), p) > 0 && (exists|t: int| #[trigger] self.drop_ok(k, p, t))
                            implies exists|i: int| 0 <= i < v@.len() && #[trigger] v@[i]->Drops_piece == p by {
                            if p.idx() == pi {
                                assert(p == piece);
                            }
                        }
                    }
                }
                pi += 1;
            }
            proof {
                assert forall|i: int| 0 <= i < v@.len() implies #[trigger] self.drop_entry(k, v@[i]) by {
                    assert(self.drop_done(k, 7, v@[i]));
                }
            }
        } else {
            proof {
                assert forall|p: Piece, t: int| !#[trigger] self.drop_ok(k, p, t) by {}
            }
        }
        proof {
            assert forall|k2: int| #[trigger] self.king_ref(k2) implies self.drop_list(k2, v@) by {
                if self.has_king(self.stm()) {
                    crate::board::validate::lemma_king_sq_unique(*self, self.stm(), k, k2);
                }
            }
        }
        v
    }
}


/// The piece `p` (not a king) of color `c` on square index `f` moves to `t` over the
/// occupancy `occ`: by its step pattern, or along one of its lines with nothing in between.
pub open spec fn move_pattern(p: Piece, c: Color, f: int, t: int, occ: u128) -> bool {
    match p {
        Piece::Pawn => pawn_step(c, f, t),
        Piece::Knight => knight_step(c, f, t),
        Piece::Silver => silver_step(c, f, t),
        Piece::Lance => lance_line(c, f, t) && clear_between(occ, f, t),
        Piece::Rook => rook_line(f, t) && clear_between(occ, f, t),
        Piece::PRook => (rook_line(f, t) || king_step(f, t)) && clear_between(occ, f, t),
        Piece::Bishop => bishop_line(f, t) && clear_between(occ, f, t),
        Piece::PBishop => (bishop_line(f, t) || king_step(f, t)) && clear_between(occ, f, t),
        _ => gold_step(c, f, t),
    }
}

impl Board {
    /// The board move from square index `f` to `t`, promoting or not, is legal for the side
    /// to move (king square `k`): a piece of the side to move moves as it does, not onto its
    /// own pieces; a king only to a safe square and never promoting; another piece
    /// promoting only when it can and the move touches the promotion zone, never staying
    /// where it could not move again, a pinned piece only along the line of its king, and
    /// with at most one checker only onto the checker or between it and the king.
    pub open spec fn legal_board_move(self, k: int, f: int, t: int, promotion: bool) -> bool {
        let c = self.stm();
        let occ = self.occ();
        &&& 0 <= t < 81
        &&& self.color_at(f) == Some(c)
        &&& self.color_at(t) != Some(c)
        &&& match self.piece_at(f) {
            Some(p) => if p == Piece::King {
                !promotion && king_step(f, t) && self.king_safe(t)
            } else {
                &&& promotion ==> p.idx() < 6 && (in_promotion_zone(c, t % 9) || in_promotion_zone(c, f % 9))
                &&& !promotion ==> !must_promote_at(p, c, t % 9)
                &&& bit(self.pinned_bb(), f) ==> line_through(k, f, t)
                &&& self.num_checkers() < 2
                &&& self.target_sq(k, t)
                &&& move_pattern(p, c, f, t, occ)
            },
            None => false,
        }
    }

    /// Is `mv` a legal board move (see [`Self::legal_board_move`])?
    #[verifier::rlimit(100)]
    pub fn is_legal_board_move(&self, mv: Move) -> (r: bool)
        requires
            self.wf(),
        ensures
            r == (mv matches Move::BoardMove { from, to, promotion } && forall|k: int| #[trigger] self.king_ref(k)
                ==> self.legal_board_move(k, from.idx(), to.idx(), promotion)),
    {
        proof {
            lemma_wf_bits(self.pos());
        }
        match mv {
            Move::BoardMove { from, to, promotion } => {
                let color = self.side_to_move();
                let our_pieces = self.colors(color);
                let ghost kr: int = if self.has_king(color) {
                    crate::board::validate::lemma_lowest_king(*self, color)
                } else {
                    0
                };
                proof {
                    lemma_square_idx(from);
                    lemma_square_idx(to);
                    assert(self.king_ref(kr));
                    assert((self.pos().piece_at(from.idx()) is Some) == (self.pos().color_at(from.idx()) is Some));
                }
                if our_pieces.has(to) || !our_pieces.has(from) {
                    return false;
                }
                let piece = match self.piece_on(from) {
                    Some(piece) => piece,
                    None => {
                        return false;
                    },
                };
                if piece == Piece::King {
                    if promotion {
                        return false;
                    }
                    return self.king_is_legal(color, from, to);
                }
                if promotion {
                    let zone = prom_zone(color);
                    if !piece.is_promotable() || !(zone.has(to) || zone.has(from)) {
                        return false;
                    }
                } else if piece.must_promote(color, to) {
                    return false;
                }
                if self.pinned.has(from) {
                    proof {
                        assert(self.has_king(color));
                    }
                    let our_king = self.king(color);
                    let on_line = line_ray(our_king, from).has(to);
                    proof {
                        assert forall|k: int| #[trigger] self.king_ref(k) implies k == our_king.idx() by {
                            crate::board::validate::lemma_king_sq_unique(*self, color, k, our_king.idx());
                        }
                    }
                    if !on_line {
                        return false;
                    }
                }
                let n = self.checkers.len();
                if n >= 2 {
                    return false;
                }
                let target_squares = self.target_squares(n == 1);
                let occupied = self.occupied();
                let btw = get_between_rays(from, to).bitand(occupied);
                let between_clear = btw.is_empty();
                let r = match piece {
                    Piece::Pawn => target_squares.bitand(pawn_attacks(color, from)).has(to),
                    Piece::Knight => target_squares.bitand(knight_attacks(color, from)).has(to),
                    Piece::Silver => target_squares.bitand(silver_attacks(color, from)).has(to),
                    Piece::Lance => target_squares.bitand(lance_pseudo_attacks(color, from)).has(to) && between_clear,
                    Piece::Rook => target_squares.bitand(rook_pseudo_attacks(from)).has(to) && between_clear,
                    Piece::PRook => target_squares.bitand(rook_pseudo_attacks(from).bitor(king_attacks(color, from))).has(to)
                        && between_clear,
                    Piece::Bishop => target_squares.bitand(bishop_pseudo_attacks(from)).has(to) && between_clear,
                    Piece::PBishop => target_squares.bitand(bishop_pseudo_attacks(from).bitor(king_attacks(color, from))).has(
                        to,
                    ) && between_clear,
                    Piece::King => false,
                    _ => target_squares.bitand(gold_attacks(color, from)).has(to),
                };
                proof {
                    assert(between_clear == clear_between(self.occ(), from.idx(), to.idx())) by {
                        if !between_clear {
                            let u = crate::bitboard::lemma_nonzero_bit_index(btw.0);
                            assert(between(from.idx(), to.idx(), u) && bit(self.occ(), u));
                        } else {
                            assert forall|u: int| #[trigger] between(from.idx(), to.idx(), u) implies !bit(self.occ(), u) by {
                                assert(!bit(btw.0, u));
                            }
                        }
                    }
                }
                r
            },
            Move::Drop { .. } => false,
        }
    }
}


impl Board {
    /// Is `mv` a legal drop: a piece type held in hand, on a square where it may be dropped
    /// (see [`Self::drop_ok`])?
    #[verifier::rlimit(100)]
    pub fn is_legal_drop(&self, mv: Move) -> (r: bool)
        requires
            self.wf(),
        ensures
            r == (mv matches Move::Drop { piece, to } && piece.idx() < 7 && self.pos().hand_count(self.stm(), piece) > 0
                && forall|k: int| #[trigger] self.king_ref(k) ==> self.drop_ok(k, piece, to.idx())),
    {
        proof {
            lemma_wf_bits(self.pos());
        }
        match mv {
            Move::Drop { piece, to } => {
                let color = self.side_to_move();
                let ghost kr: int = if self.has_king(color) {
                    crate::board::validate::lemma_lowest_king(*self, color)
                } else {
                    0
                };
                proof {
                    lemma_square_idx(to);
                    assert(self.king_ref(kr));
                    assert forall|k: int| #[trigger] self.king_ref(k) implies k == kr by {
                        if self.has_king(color) {
                            crate::board::validate::lemma_king_sq_unique(*self, color, k, kr);
                        }
                    }
                    assert(Square::from_idx(to.idx()) == to);
                }
                if piece.index() >= 7 || !self.has_in_hand(color, piece) {
                    return false;
                }
                if self.occupied().has(to) || no_fly_zone(color, piece).has(to) || (piece == Piece::Pawn
                    && !self.pawn_drop_ok(color, to)) {
                    return false;
                }
                let n = self.checkers.len();
                if n == 0 {
                    if piece == Piece::Pawn {
                        !self.is_illegal_mate_by_pawn_drop(to)
                    } else {
                        true
                    }
                } else if n == 1 {
                    self.target_drops(true).has(to)
                } else {
                    false
                }
            },
            Move::BoardMove { .. } => false,
        }
    }

    /// Is `mv` legal: a legal board move or a legal drop?
    pub fn is_legal(&self, mv: Move) -> (r: bool)
        requires
            self.wf(),
        ensures
            r == ((mv matches Move::BoardMove { from, to, promotion } && forall|k: int| #[trigger] self.king_ref(k)
                ==> self.legal_board_move(k, from.idx(), to.idx(), promotion)) || (mv matches Move::Drop { piece, to }
                && piece.idx() < 7 && self.pos().hand_count(self.stm(), piece) > 0 && forall|k: int| #[trigger] self.king_ref(
                k,
            ) ==> self.drop_ok(k, piece, to.idx()))),
    {
        self.is_legal_board_move(mv) || self.is_legal_drop(mv)
    }

    /// Hand the entries of `v` to `listener` in order, until it answers true; the answer is
    /// whether it did.
    fn feed<F: FnMut(PieceMoves) -> bool>(v: &Vec<PieceMoves>, listener: &mut F) -> (r: bool)
        requires
            forall|pm: PieceMoves| call_requires(*old(listener), (pm,)),
        ensures
            fed(*old(listener), v@, r),
            *final(listener) == *old(listener),
    {
        let mut i: usize = 0;
        while i < v.len()
            invariant
                i <= v.len(),
                *listener == *old(listener),
                forall|pm: PieceMoves| call_requires(*listener, (pm,)),
                forall|j: int| 0 <= j < i ==> call_ensures(*listener, (#[trigger] v@[j],), false),
            decreases v.len() - i,
        {
            let pm = v[i];
            if listener(pm) {
                return true;
            }
            i += 1;
        }
        false
    }

    /// Generate the legal board moves of the pieces of the side to move on `mask`, handing
    /// each piece's moves (an entry of [`Self::board_moves_for`]) to `listener` until it
    /// answers true; the answer is whether it did.
    pub fn generate_board_moves_for(&self, mask: BitBoard, mut listener: impl FnMut(PieceMoves) -> bool) -> (r: bool)
        requires
            self.wf(),
            forall|pm: PieceMoves| call_requires(listener, (pm,)),
        ensures
            exists|v: Seq<PieceMoves>| (forall|k: int| #[trigger] self.king_ref(k) ==> self.board_list(mask.0, k, v))
                && #[trigger] fed(listener, v, r),
    {
        let v = self.board_moves_for(mask);
        let ghost l = listener;
        let r = Self::feed(&v, &mut listener);
        proof {
            assert(fed(l, v@, r));
        }
        r
    }

    /// Generate all legal board moves (see [`Self::generate_board_moves_for`]).
    pub fn generate_board_moves(&self, listener: impl FnMut(PieceMoves) -> bool) -> (r: bool)
        requires
            self.wf(),
            forall|pm: PieceMoves| call_requires(listener, (pm,)),
        ensures
            exists|v: Seq<PieceMoves>| (forall|k: int| #[trigger] self.king_ref(k) ==> self.board_list(BOARD_MASK, k, v))
                && #[trigger] fed(listener, v, r),
    {
        let full = BitBoard::full();
        assert(full.0 == BOARD_MASK);
        self.generate_board_moves_for(full, listener)
    }

    /// Generate all legal drops, handing each piece type's drops (an entry of
    /// [`Self::drop_moves`]) to `listener` until it answers true; the answer is whether it
    /// did.
    pub fn generate_drops(&self, mut listener: impl FnMut(PieceMoves) -> bool) -> (r: bool)
        requires
            self.wf(),
            forall|pm: PieceMoves| call_requires(listener, (pm,)),
        ensures
            exists|v: Seq<PieceMoves>| (forall|k: int| #[trigger] self.king_ref(k) ==> self.drop_list(k, v))
                && #[trigger] fed(listener, v, r),
    {
        let v = self.drop_moves();
        let ghost l = listener;
        let r = Self::feed(&v, &mut listener);
        proof {
            assert(fed(l, v@, r));
        }
        r
    }

    /// Generate the legal drops of `piece` (see [`Self::generate_drops`]): the one entry of
    /// [`Self::drop_moves`] for `piece`, if there is one; pieces that are never held in hand
    /// have none.
    #[verifier::rlimit(100)]
    pub fn generate_drops_for(&self, piece: Piece, mut listener: impl FnMut(PieceMoves) -> bool) -> (r: bool)
        requires
            self.wf(),
            forall|pm: PieceMoves| call_requires(listener, (pm,)),
        ensures
            exists|w: Seq<PieceMoves>| #[trigger] fed(listener, w, r) && w.len() <= 1 && (forall|k: int| #[trigger] self.king_ref(k)
                ==> (forall|j: int| 0 <= j < w.len() ==> self.drop_entry(k, #[trigger] w[j]) && w[j]->Drops_piece == piece)
                && ((piece.idx() < 7 && self.pos().hand_count(self.stm(), piece) > 0 && exists|t: int| #[trigger] self.drop_ok(k, piece, t))
                ==> w.len() == 1)),
    {
        let v = self.drop_moves();
        let ghost kr: int = if self.has_king(self.stm()) {
            crate::board::validate::lemma_lowest_king(*self, self.stm())
        } else {
            0
        };
        proof {
            assert(self.king_ref(kr));
            assert forall|k: int| #[trigger] self.king_ref(k) implies k == kr by {
                if self.has_king(self.stm()) {
                    crate::board::validate::lemma_king_sq_unique(*self, self.stm(), k, kr);
                }
            }
            assert(self.drop_list(kr, v@));
        }
        let mut mine: Vec<PieceMoves> = Vec::new();
        let mut i: usize = 0;
        while i < v.len()
            invariant
                i <= v.len(),
                self.drop_list(kr, v@),
                mine@.len() <= 1,
                forall|j: int| 0 <= j < mine@.len() ==> self.drop_entry(kr, #[trigger] mine@[j]) && mine@[j]->Drops_piece == piece,
                mine@.len() == 1 ==> exists|j: int| 0 <= j < i && #[trigger] v@[j]->Drops_piece == piece,
                (exists|j: int| 0 <= j < i && #[trigger] v@[j]->Drops_piece == piece) ==> mine@.len() == 1,
            decreases v.len() - i,
        {
            let pm = v[i];
            proof {
                assert(self.drop_entry(kr, v@[i as int]));
            }
            match pm {
                PieceMoves::Drops { piece: p, .. } => {
                    if p == piece {
                        proof {
                            if mine@.len() == 1 {
                                let j = choose|j: int| 0 <= j < i && #[trigger] v@[j]->Drops_piece == piece;
                                assert(v@[j]->Drops_piece != v@[i as int]->Drops_piece);
                            }
                        }
                        mine.push(pm);
                    }
                },
                PieceMoves::BoardMoves { .. } => {},
            }
            proof {
                if exists|j: int| 0 <= j < i + 1 && #[trigger] v@[j]->Drops_piece == piece {
                    let j = choose|j: int| 0 <= j < i + 1 && #[trigger] v@[j]->Drops_piece == piece;
                    if j < i {
                        assert(exists|j2: int| 0 <= j2 < i && #[trigger] v@[j2]->Drops_piece == piece);
                    }
                }
            }
            i += 1;
        }
        let ghost l = listener;
        let r = Self::feed(&mine, &mut listener);
        proof {
            assert(fed(l, mine@, r));
            assert forall|k: int| #[trigger] self.king_ref(k) implies (forall|j: int| 0 <= j < mine@.len() ==> self.drop_entry(k, #[trigger] mine@[j]) && mine@[j]->Drops_piece == piece)
                && ((piece.idx() < 7 && self.pos().hand_count(self.stm(), piece) > 0 && exists|t: int| #[trigger] self.drop_ok(k, piece, t))
                ==> mine@.len() == 1) by {
                assert(k == kr);
                if piece.idx() < 7 && self.pos().hand_count(self.stm(), piece) > 0 && exists|t: int| #[trigger] self.drop_ok(k, piece, t) {
                    let i2 = choose|i2: int| 0 <= i2 < v@.len() && #[trigger] v@[i2]->Drops_piece == piece;
                    assert(exists|j: int| 0 <= j < v@.len() && #[trigger] v@[j]->Drops_piece == piece);
                }
            }
        }
        r
    }

    /// Generate all legal moves: drops first, then board moves, handing them to `listener`
    /// until it answers true; the answer is whether it did.
    #[verifier::rlimit(100)]
    pub fn generate_moves(&self, mut listener: impl FnMut(PieceMoves) -> bool) -> (r: bool)
        requires
            self.wf(),
            forall|pm: PieceMoves| call_requires(listener, (pm,)),
        ensures
            exists|d: Seq<PieceMoves>, m: Seq<PieceMoves>| (forall|k: int| #[trigger] self.king_ref(k) ==> self.drop_list(k, d)
                && self.board_list(BOARD_MASK, k, m)) && #[trigger] fed(listener, d + m, r),
    {
        let ghost l = listener;
        let drops = self.drop_moves();
        if Self::feed(&drops, &mut listener) {
            let moves = self.board_moves_for(BitBoard::full());
            proof {
                lemma_fed_append(l, drops@, moves@, true, true);
            }
            return true;
        }
        let moves = self.board_moves_for(BitBoard::full());
        let r = Self::feed(&moves, &mut listener);
        proof {
            lemma_fed_append(l, drops@, moves@, false, r);
        }
        r
    }

    /// The state of the game: won by the side that just moved when the side to move has no
    /// legal move, ongoing otherwise.
    #[verifier::rlimit(100)]
    pub fn status(&self) -> (r: GameStatus)
        requires
            self.wf(),
        ensures
            r == GameStatus::Won <==> (forall|k: int| #[trigger] self.king_ref(k) ==> self.no_board_moves()
                && forall|p: Piece, t: int| p.idx() < 7 && self.pos().hand_count(self.stm(), p) > 0 ==> !#[trigger] self.drop_ok(k, p, t)),
            r != GameStatus::Drawn,
    {
        let drops = self.drop_moves();
        let moves = self.board_moves_for(BitBoard::full());
        let ghost kr: int = if self.has_king(self.stm()) {
            crate::board::validate::lemma_lowest_king(*self, self.stm())
        } else {
            0
        };
        proof {
            assert(self.king_ref(kr));
            assert forall|k: int| #[trigger] self.king_ref(k) implies k == kr by {
                if self.has_king(self.stm()) {
                    crate::board::validate::lemma_king_sq_unique(*self, self.stm(), k, kr);
                }
            }
            assert(self.drop_list(kr, drops@));
            assert(self.board_list(BOARD_MASK, kr, moves@));
            if drops.len() > 0 {
                assert(self.drop_entry(kr, drops@[0]));
                let t = crate::bitboard::lemma_nonzero_bit_index(drops@[0].targets().0);
                assert(self.drop_ok(kr, drops@[0]->Drops_piece, t));
            }
            if moves.len() > 0 {
                assert(self.board_entry(BOARD_MASK, kr, moves@[0]));
                let s = moves@[0]->from.idx();
                let t = crate::bitboard::lemma_nonzero_bit_index(moves@[0].targets().0);
                if moves@[0]->BoardMoves_piece == Piece::King {
                    assert(self.king_target(kr, t));
                } else {
                    assert(self.common_target(kr, s, t));
                }
                assert(self.movable(BOARD_MASK, kr, s));
            }
            if drops.len() == 0 && moves.len() == 0 {
                assert forall|k: int, s: int| #[trigger] self.king_ref(k) implies !#[trigger] self.movable(BOARD_MASK, k, s) by {}
            }
        }
        if drops.len() > 0 || moves.len() > 0 {
            GameStatus::Ongoing
        } else {
            GameStatus::Won
        }
    }

    /// Play `mv` when it is legal; otherwise refuse it and leave the board as it is.
    #[verifier::rlimit(100)]
    pub fn try_play(&mut self, mv: Move) -> (r: Result<(), IllegalMoveError>)
        requires
            old(self).wf(),
            old(self).move_num() < 0xffff,
            mv matches Move::BoardMove { to, .. } ==> (old(self).piece_at(to.idx()) matches Some(q) ==> old(
                self,
            ).pos().hand_count(old(self).stm(), unpromoted(q)) < 19),
        ensures
            r is Ok <==> ((mv matches Move::BoardMove { from, to, promotion } && forall|k: int| #[trigger] old(self).king_ref(k)
                ==> old(self).legal_board_move(k, from.idx(), to.idx(), promotion)) || (mv matches Move::Drop { piece, to }
                && piece.idx() < 7 && old(self).pos().hand_count(old(self).stm(), piece) > 0 && forall|k: int| #[trigger] old(
                self,
            ).king_ref(k) ==> old(self).drop_ok(k, piece, to.idx()))),
            r is Err ==> *final(self) == *old(self),
            r is Ok ==> old(self).played(*final(self), mv),
    {
        if !self.is_legal(mv) {
            return Err(IllegalMoveError);
        }
        proof {
            lemma_wf_bits(self.pos());
            let kr: int = if self.has_king(self.stm()) {
                crate::board::validate::lemma_lowest_king(*self, self.stm())
            } else {
                0
            };
            assert(self.king_ref(kr));
            match mv {
                Move::BoardMove { from, to, promotion } => {
                    assert(self.legal_board_move(kr, from.idx(), to.idx(), promotion));
                    lemma_square_idx(to);
                    if let Some(q) = self.piece_at(to.idx()) {
                        assert(self.pos().hand_count(self.stm(), unpromoted(q)) < 19);
                    }
                    assert((self.pos().piece_at(to.idx()) is Some) == (self.pos().color_at(to.idx()) is Some));
                },
                Move::Drop { piece, to } => {
                    assert(self.drop_ok(kr, piece, to.idx()));
                    assert(unpromoted(piece) == piece);
                },
            }
        }
        self.play_unchecked(mv);
        Ok(())
    }
}


/// Piece `p` of color `c` standing on square index `t` gives check to the king on `tk`,
/// computed from `tk` with the pattern of the other color over the occupancy `occ` (that of
/// the position before the move).
pub open spec fn check_from(p: Piece, c: Color, tk: int, occ: u128, t: int) -> bool {
    let o = c.other();
    match p {
        Piece::Pawn => pawn_step(o, tk, t),
        Piece::Knight => knight_step(o, tk, t),
        Piece::Silver => silver_step(o, tk, t),
        Piece::Gold | Piece::Tokin | Piece::PLance | Piece::PKnight | Piece::PSilver => gold_step(o, tk, t),
        Piece::Lance => lance_reach(o, tk, occ, t),
        Piece::Rook => rook_reach(tk, occ, t),
        Piece::Bishop => bishop_reach(tk, occ, t),
        Piece::PRook => rook_reach(tk, occ, t) || king_step(tk, t),
        Piece::PBishop => bishop_reach(tk, occ, t) || king_step(tk, t),
        Piece::King => false,
    }
}

impl Board {
    /// Moving the piece on square index `s` to `t` uncovers a check on the opponent king on
    /// `tk`: the piece is of the side to move, it is pinned against that king, and `t` leaves
    /// the line through both.
    pub open spec fn discovers(self, tk: int, s: int, t: int) -> bool {
        &&& self.color_at(s) == Some(self.stm())
        &&& self.pinned_at(self.stm().other(), tk, s)
        &&& !line_through(tk, s, t)
    }

    /// Moving the piece on `s` (a drop when `s` is `None`), as `p` once there, to `t` gives
    /// check to the opponent king on `tk`, directly or by uncovering.
    pub open spec fn gives_check(self, tk: int, p: Piece, s: Option<int>, t: int) -> bool {
        check_from(p, self.stm(), tk, self.occ(), t) || (s matches Some(f) && self.discovers(tk, f, t))
    }

    /// The checking targets of the generated entry `e` (opponent king on `tk`) of one
    /// `kind`: 0 all of them (a drop entry, or board moves that cannot promote), 1 those
    /// reached without promoting where the piece may stay unpromoted, 2 those reached by
    /// promoting.
    pub open spec fn keep(self, tk: int, e: PieceMoves, kind: int, t: int) -> bool {
        let c = self.stm();
        match e {
            PieceMoves::Drops { piece, to, .. } => kind == 0 && bit(to.0, t) && self.gives_check(tk, piece, None, t),
            PieceMoves::BoardMoves { color, piece, from, to, .. } => {
                let s = from.idx();
                &&& bit(to.0, t)
                &&& if kind == 0 {
                    self.gives_check(tk, piece, Some(s), t)
                } else if kind == 1 {
                    !must_promote_at(piece, color, t % 9) && self.gives_check(tk, piece, Some(s), t)
                } else {
                    &&& kind == 2
                    &&& piece.idx() < 6
                    &&& in_promotion_zone(c, s % 9) || in_promotion_zone(c, t % 9)
                    &&& self.gives_check(tk, promoted(piece), Some(s), t)
                }
            },
        }
    }

    /// `xs` is the entry `x` with its targets cut down to the squares of `kind` (see
    /// [`Self::keep`]) of `e`: one entry when a square is left, none otherwise.
    pub open spec fn cut_to(self, tk: int, xs: Seq<PieceMoves>, x: PieceMoves, e: PieceMoves, kind: int) -> bool {
        if exists|t: int| #[trigger] self.keep(tk, e, kind, t) {
            &&& xs.len() == 1
            &&& xs[0] == x.with_targets(xs[0].targets())
            &&& xs[0].targets().wf()
            &&& forall|t: int| #[trigger] bit(xs[0].targets().0, t) == self.keep(tk, e, kind, t)
        } else {
            xs.len() == 0
        }
    }

    /// `xs` holds the checking moves of the generated entry `e`, the opponent king being on
    /// `tk`: a drop entry or a board entry that cannot promote cut down to its checking
    /// targets; an entry decided per square split into its checking moves without promotion
    /// and then its checking promotions.
    pub open spec fn cut_ok(self, tk: int, e: PieceMoves, xs: Seq<PieceMoves>) -> bool {
        match e {
            PieceMoves::Drops { .. } => self.cut_to(tk, xs, e, e, 0),
            PieceMoves::BoardMoves { color, piece, from, to, prom_status } => {
                if prom_status == PromotionStatus::CannotPromote {
                    self.cut_to(tk, xs, e, e, 0)
                } else {
                    let n: int = if exists|t: int| #[trigger] self.keep(tk, e, 1, t) {
                        1
                    } else {
                        0
                    };
                    &&& n <= xs.len()
                    &&& self.cut_to(
                        tk,
                        xs.subrange(0, n),
                        PieceMoves::BoardMoves { color, piece, from, to, prom_status: PromotionStatus::CannotPromote },
                        e,
                        1,
                    )
                    &&& self.cut_to(
                        tk,
                        xs.subrange(n, xs.len() as int),
                        PieceMoves::BoardMoves { color, piece, from, to, prom_status: PromotionStatus::MustPromote },
                        e,
                        2,
                    )
                }
            },
        }
    }

    /// `out` lists, in order, the checking moves (see [`Self::cut_ok`]) of each entry of `v`.
    pub open spec fn cuts_ok(self, tk: int, v: Seq<PieceMoves>, out: Seq<PieceMoves>) -> bool
        decreases v.len(),
    {
        if v.len() == 0 {
            out.len() == 0
        } else {
            exists|n: int|
                0 <= n <= out.len() && #[trigger] self.cut_ok(tk, v.last(), out.subrange(n, out.len() as int))
                    && self.cuts_ok(tk, v.drop_last(), out.subrange(0, n))
        }
    }

    /// `dout` and `mout` list the moves that give check: with no opponent king none;
    /// otherwise the checking moves of the generated drops `d`, and those of the generated
    /// board moves `m`.
    pub open spec fn check_list(
        self,
        d: Seq<PieceMoves>,
        m: Seq<PieceMoves>,
        dout: Seq<PieceMoves>,
        mout: Seq<PieceMoves>,
    ) -> bool {
        &&& forall|k: int| #[trigger] self.king_ref(k) ==> self.drop_list(k, d) && self.board_list(BOARD_MASK, k, m)
        &&& if self.has_king(self.stm().other()) {
            forall|tk: int| #[trigger] self.is_king_sq(self.stm().other(), tk) ==> self.cuts_ok(tk, d, dout) && self.cuts_ok(
                tk,
                m,
                mout,
            )
        } else {
            dout.len() == 0 && mout.len() == 0
        }
    }
}

/// Appending the checking moves of one more entry keeps the list of checking moves.
proof fn lemma_cuts_push(b: Board, tk: int, v: Seq<PieceMoves>, e: PieceMoves, out: Seq<PieceMoves>, xs: Seq<PieceMoves>)
    requires
        b.cuts_ok(tk, v, out),
        b.cut_ok(tk, e, xs),
    ensures
        b.cuts_ok(tk, v.push(e), out + xs),
{
    let w = v.push(e);
    let o = out + xs;
    assert(w.last() == e);
    assert(w.drop_last() =~= v);
    assert(o.subrange(out.len() as int, o.len() as int) =~= xs);
    assert(o.subrange(0, out.len() as int) =~= out);
    assert(b.cut_ok(tk, w.last(), o.subrange(out.len() as int, o.len() as int)));
}

impl Board {
    /// The squares from which `piece` of the side to move would attack the square `tk`
    /// (the opponent's king), seen from `tk`.
    fn attack_set(&self, piece: Piece, tk: Square, occ: BitBoard) -> (r: BitBoard)
        requires
            self.wf_basic(),
            occ.wf(),
        ensures
            r.wf(),
            forall|t: int| #[trigger] bit(r.0, t) == (0 <= t < 81 && check_from(piece, self.stm(), tk.idx(), occ.0, t)),
    {
        let them = self.side_to_move().not();
        let r = match piece {
            Piece::Pawn => pawn_attacks(them, tk),
            Piece::Knight => knight_attacks(them, tk),
            Piece::Silver => silver_attacks(them, tk),
            Piece::Gold | Piece::Tokin | Piece::PLance | Piece::PKnight | Piece::PSilver => gold_attacks(them, tk),
            Piece::Lance => get_lance_moves(them, tk, occ),
            Piece::Rook => get_rook_moves(them, tk, occ),
            Piece::Bishop => get_bishop_moves(them, tk, occ),
            Piece::PRook => get_rook_moves(them, tk, occ).bitor(king_attacks(them, tk)),
            Piece::PBishop => get_bishop_moves(them, tk, occ).bitor(king_attacks(them, tk)),
            Piece::King => BitBoard::empty(),
        };
        proof {
            assert forall|t: int| #[trigger] bit(r.0, t) == (0 <= t < 81 && check_from(piece, self.stm(), tk.idx(), occ.0, t)) by {
            }
        }
        r
    }

    #[verifier::rlimit(100)]
    /// The checking targets of `to` for a piece moved from `from` (a drop when `None`) that
    /// stands as `piece` once there.
    fn check_targets(
        &self,
        piece: Piece,
        from: Option<Square>,
        to: BitBoard,
        their_king: Square,
        occ: BitBoard,
        discoverers: BitBoard,
    ) -> (r: BitBoard)
        requires
            self.wf_basic(),
            occ.wf(),
            occ.0 == self.occ(),
            to.wf(),
            discoverers.wf(),
            forall|s: int| #[trigger] bit(discoverers.0, s) == (self.color_at(s) == Some(self.stm()) && self.pinned_at(
                self.stm().other(),
                their_king.idx(),
                s,
            )),
        ensures
            r.wf(),
            forall|t: int| #[trigger] bit(r.0, t) == (bit(to.0, t) && self.gives_check(their_king.idx(), piece, match from {
                Some(f) => Some(f.idx()),
                None => None,
            }, t)),
    {
        let direct = self.attack_set(piece, their_king, occ);
        let ghost tk = their_king.idx();
        match from {
            Some(f) => {
                let ghost fi = f.idx();
                let d = discoverers.has(f);
                let ray = line_ray(their_king, f);
                let disc = if d {
                    to.bitand(ray.not())
                } else {
                    BitBoard::empty()
                };
                let r = to.bitand(direct.bitor(disc));
                proof {
                    lemma_square_idx(f);
                    assert forall|t: int| #[trigger] bit(r.0, t) == (bit(to.0, t) && self.gives_check(tk, piece, Some(fi), t)) by {
                        assert(bit(direct.0, t) == (0 <= t < 81 && check_from(piece, self.stm(), tk, occ.0, t)));
                        assert(d == (self.color_at(fi) == Some(self.stm()) && self.pinned_at(self.stm().other(), tk, fi)));
                        assert(bit(ray.0, t) == line_through(tk, fi, t));
                        if bit(to.0, t) {
                            if t >= 81 {
                                lemma_wf_no_high(to, t);
                            }
                            assert(bit(disc.0, t) == (d && !line_through(tk, fi, t)));
                            assert(bit(r.0, t) == (bit(direct.0, t) || bit(disc.0, t)));
                            assert(self.discovers(tk, fi, t) == (d && !line_through(tk, fi, t)));
                        } else {
                            assert(!bit(r.0, t));
                        }
                    }
                }
                r
            },
            None => {
                let r = to.bitand(direct);
                proof {
                    assert forall|t: int| #[trigger] bit(r.0, t) == (bit(to.0, t) && self.gives_check(tk, piece, None, t)) by {
                        assert(bit(direct.0, t) == (0 <= t < 81 && check_from(piece, self.stm(), tk, occ.0, t)));
                    }
                }
                r
            },
        }
    }

    /// The moves of the side to move that give check, directly or by uncovering a slider:
    /// the generated entries (see [`Self::check_list`], whose drop and board move lists the
    /// ghost part names) cut down to their checking moves.
    #[verifier::rlimit(100)]
    pub(crate) fn check_moves(&self) -> (r: (Vec<PieceMoves>, Vec<PieceMoves>, Ghost<(Seq<PieceMoves>, Seq<PieceMoves>)>))
        requires
            self.wf(),
        ensures
            self.check_list(r.2@.0, r.2@.1, r.0@, r.1@),
    {
        let color = self.side_to_move();
        let them = color.not();
        let mut dout: Vec<PieceMoves> = Vec::new();
        let mut out: Vec<PieceMoves> = Vec::new();
        let drops = self.drop_moves();
        let moves = self.board_moves_for(BitBoard::full());
        if !self.has(them, Piece::King) {
            return (dout, out, Ghost((drops@, moves@)));
        }
        let ghost kr: int = if self.has_king(color) {
            crate::board::validate::lemma_lowest_king(*self, color)
        } else {
            0
        };
        proof {
            assert(self.king_ref(kr));
            assert(self.drop_list(kr, drops@));
            assert(self.board_list(BOARD_MASK, kr, moves@));
        }
        let their_king = self.king(them);
        let ghost tk = their_king.idx();
        let occ = self.occupied();
        let (_, their_pins) = self.calculate_checkers_and_pins(them);
        let discoverers = their_pins.bitand(self.colors(color));
        proof {
            assert forall|s: int| #[trigger] bit(discoverers.0, s) == (self.color_at(s) == Some(self.stm())
                && self.pinned_at(self.stm().other(), tk, s)) by {
                if 0 <= s < 81 {
                    lemma_square_from_idx(s);
                }
            }
            assert(drops@.subrange(0, 0) =~= Seq::<PieceMoves>::empty());
        }
        let zone = prom_zone(color);
        let mut i: usize = 0;
        while i < drops.len()
            invariant
                self.wf(),
                i <= drops.len(),
                occ.wf(),
                occ.0 == self.occ(),
                discoverers.wf(),
                tk == their_king.idx(),
                forall|s: int| #[trigger] bit(discoverers.0, s) == (self.color_at(s) == Some(self.stm()) && self.pinned_at(
                    self.stm().other(),
                    tk,
                    s,
                )),
                self.cuts_ok(tk, drops@.subrange(0, i as int), dout@),
                self.drop_list(kr, drops@),
            decreases drops.len() - i,
        {
            let e = drops[i];
            let ghost old_out = dout@;
            match e {
                PieceMoves::Drops { color: c, piece, to } => {
                    proof {
                        assert(self.drop_entry(kr, drops@[i as int]));
                    }
                    let x_to = self.check_targets(piece, None, to, their_king, occ, discoverers);
                    if !x_to.is_empty() {
                        dout.push(PieceMoves::Drops { color: c, piece, to: x_to });
                    }
                    proof {
                        let xs = dout@.subrange(old_out.len() as int, dout@.len() as int);
                        if x_to.0 != 0 {
                            let w = lemma_nonzero_bit_index(x_to.0);
                            assert(self.keep(tk, e, 0, w));
                            assert(xs =~= seq![PieceMoves::Drops { color: c, piece, to: x_to }]);
                        } else {
                            assert forall|t: int| !#[trigger] self.keep(tk, e, 0, t) by {
                                assert(bit(x_to.0, t) == (bit(to.0, t) && self.gives_check(tk, piece, None, t)));
                            }
                            assert(xs.len() == 0);
                        }
                        assert(self.cut_ok(tk, e, xs));
                        assert(dout@ =~= old_out + xs);
                        assert(drops@.subrange(0, i + 1) =~= drops@.subrange(0, i as int).push(e));
                        lemma_cuts_push(*self, tk, drops@.subrange(0, i as int), e, old_out, xs);
                    }
                },
                PieceMoves::BoardMoves { .. } => {
                    proof {
                        assert(self.drop_entry(kr, drops@[i as int]));
                    }
                },
            }
            i += 1;
        }
        proof {
            assert(drops@.subrange(0, drops@.len() as int) =~= drops@);
            assert(moves@.subrange(0, 0) =~= Seq::<PieceMoves>::empty());
        }
        let mut i: usize = 0;
        while i < moves.len()
            invariant
                self.wf(),
                i <= moves.len(),
                color == self.stm(),
                occ.wf(),
                occ.0 == self.occ(),
                discoverers.wf(),
                tk == their_king.idx(),
                forall|s: int| #[trigger] bit(discoverers.0, s) == (self.color_at(s) == Some(self.stm()) && self.pinned_at(
                    self.stm().other(),
                    tk,
                    s,
                )),
                forall|t: int| #[trigger] bit(zone.0, t) == (0 <= t < 81 && in_promotion_zone(color, t % 9)),
                zone.wf(),
                self.cuts_ok(tk, moves@.subrange(0, i as int), out@),
                self.board_list(BOARD_MASK, kr, moves@),
            decreases moves.len() - i,
        {
            let e = moves[i];
            let ghost old_out = out@;
            match e {
                PieceMoves::BoardMoves { color: c, piece, from, to, prom_status } => {
                    proof {
                        assert(self.board_entry(BOARD_MASK, kr, moves@[i as int]));
                        lemma_square_idx(from);
                    }
                    if prom_status == PromotionStatus::CannotPromote {
                        let checks = self.check_targets(piece, Some(from), to, their_king, occ, discoverers);
                        if !checks.is_empty() {
                            out.push(PieceMoves::BoardMoves { color: c, piece, from, to: checks, prom_status });
                        }
                        proof {
                            let s = from.idx();
                            let xs = out@.subrange(old_out.len() as int, out@.len() as int);
                            if checks.0 != 0 {
                                let w = lemma_nonzero_bit_index(checks.0);
                                assert(self.keep(tk, e, 0, w));
                                assert(xs =~= seq![PieceMoves::BoardMoves { color: c, piece, from, to: checks, prom_status }]);
                            } else {
                                assert forall|t: int| !#[trigger] self.keep(tk, e, 0, t) by {
                                    assert(bit(checks.0, t) == (bit(to.0, t) && self.gives_check(tk, piece, Some(s), t)));
                                }
                                assert(xs.len() == 0);
                            }
                            assert(self.cut_ok(tk, e, xs));
                        }
                    } else {
                        let checks = self.check_targets(piece, Some(from), to, their_king, occ, discoverers);
                        let plain = checks.bitand(crate::rank::must_prom_zone(c, piece).not());
                        if !plain.is_empty() {
                            out.push(
                                PieceMoves::BoardMoves {
                                    color: c,
                                    piece,
                                    from,
                                    to: plain,
                                    prom_status: PromotionStatus::CannotPromote,
                                },
                            );
                        }
                        let ghost mid = out@;
                        let eligible = if zone.has(from) {
                            to
                        } else {
                            to.bitand(zone)
                        };
                        let promos = self.check_targets(piece.promote(), Some(from), eligible, their_king, occ, discoverers);
                        if !promos.is_empty() && piece.is_promotable() {
                            out.push(
                                PieceMoves::BoardMoves {
                                    color: c,
                                    piece,
                                    from,
                                    to: promos,
                                    prom_status: PromotionStatus::MustPromote,
                                },
                            );
                        }
                        proof {
                            let s = from.idx();
                            let xs1 = mid.subrange(old_out.len() as int, mid.len() as int);
                            let xs2 = out@.subrange(mid.len() as int, out@.len() as int);
                            let xs = out@.subrange(old_out.len() as int, out@.len() as int);
                            let plain_e = PieceMoves::BoardMoves { color: c, piece, from, to, prom_status: PromotionStatus::CannotPromote };
                            let promo_e = PieceMoves::BoardMoves { color: c, piece, from, to, prom_status: PromotionStatus::MustPromote };
                            assert forall|t: int| #[trigger] bit(plain.0, t) == (bit(to.0, t) && !must_promote_at(piece, c, t % 9)
                                && self.gives_check(tk, piece, Some(s), t)) by {
                            }
                            assert forall|t: int| #[trigger] bit(eligible.0, t) == (bit(to.0, t) && (in_promotion_zone(c, s % 9)
                                || in_promotion_zone(c, t % 9))) by {
                            }
                            if plain.0 != 0 {
                                let w = lemma_nonzero_bit_index(plain.0);
                                assert(bit(plain.0, w));
                                assert(self.keep(tk, e, 1, w));
                                assert(xs1 =~= seq![PieceMoves::BoardMoves { color: c, piece, from, to: plain, prom_status: PromotionStatus::CannotPromote }]);
                            } else {
                                assert forall|t: int| !#[trigger] self.keep(tk, e, 1, t) by {
                                    assert(bit(plain.0, t) == (bit(to.0, t) && !must_promote_at(piece, c, t % 9) && self.gives_check(tk, piece, Some(s), t)));
                                }
                                assert(xs1.len() == 0);
                            }
                            if promos.0 != 0 && piece.idx() < 6 {
                                let w = lemma_nonzero_bit_index(promos.0);
                                assert(bit(promos.0, w));
                                assert(bit(eligible.0, w));
                                assert(xs2 =~= seq![PieceMoves::BoardMoves { color: c, piece, from, to: promos, prom_status: PromotionStatus::MustPromote }]);
                                assert(self.keep(tk, e, 2, w));
                            } else {
                                assert forall|t: int| !#[trigger] self.keep(tk, e, 2, t) by {
                                    assert(bit(promos.0, t) == (bit(eligible.0, t) && self.gives_check(tk, promoted(piece), Some(s), t)));
                                }
                                assert(xs2.len() == 0);
                            }
                            assert(xs =~= xs1 + xs2);
                            assert(xs.subrange(0, xs1.len() as int) =~= xs1);
                            assert(xs.subrange(xs1.len() as int, xs.len() as int) =~= xs2);
                            assert(self.cut_ok(tk, e, xs));
                        }
                    }
                },
                PieceMoves::Drops { .. } => {
                    proof {
                        assert(self.board_entry(BOARD_MASK, kr, moves@[i as int]));
                    }
                },
            }
            proof {
                let xs = out@.subrange(old_out.len() as int, out@.len() as int);
                assert(out@ =~= old_out + xs);
                assert(moves@.subrange(0, i + 1) =~= moves@.subrange(0, i as int).push(e));
                lemma_cuts_push(*self, tk, moves@.subrange(0, i as int), e, old_out, xs);
            }
            i += 1;
        }
        proof {
            assert(moves@.subrange(0, moves@.len() as int) =~= moves@);
            assert forall|k: int| #[trigger] self.is_king_sq(self.stm().other(), k) implies self.cuts_ok(k, drops@, dout@) && self.cuts_ok(k, moves@, out@) by {
                crate::board::validate::lemma_king_sq_unique(*self, self.stm().other(), k, tk);
            }
        }
        (dout, out, Ghost((drops@, moves@)))
    }

    /// Generate the moves that give check (see [`Self::check_moves`]): the checking drops
    /// and then the checking board moves, handed to `listener` until it answers true. The
    /// answer is true when the listener stopped the drops; a stop among the board moves
    /// ends the generation with false.
    #[verifier::rlimit(100)]
    pub fn generate_checks(&self, mut listener: impl FnMut(PieceMoves) -> bool) -> (r: bool)
        requires
            self.wf(),
            forall|pm: PieceMoves| call_requires(listener, (pm,)),
        ensures
            exists|d: Seq<PieceMoves>, m: Seq<PieceMoves>, vd: Seq<PieceMoves>, vm: Seq<PieceMoves>|
                #[trigger] self.check_list(d, m, vd, vm) && #[trigger] fed(listener, vd, r) && (!r ==> exists|rm: bool|
                    #[trigger] fed(listener, vm, rm)),
    {
        let (vd, vm, Ghost(dm)) = self.check_moves();
        let ghost l = listener;
        if Self::feed(&vd, &mut listener) {
            proof {
                assert(self.check_list(dm.0, dm.1, vd@, vm@) && fed(l, vd@, true));
            }
            return true;
        }
        let stopped = Self::feed(&vm, &mut listener);
        proof {
            assert(self.check_list(dm.0, dm.1, vd@, vm@) && fed(l, vd@, false) && fed(l, vm@, stopped));
        }
        false
    }

    /// Play `mv`, which must be legal (see [`Self::try_play`]).
    #[verifier::rlimit(100)]
    pub fn play(&mut self, mv: Move)
        requires
            old(self).wf(),
            old(self).move_num() < 0xffff,
            mv matches Move::BoardMove { to, .. } ==> (old(self).piece_at(to.idx()) matches Some(q) ==> old(
                self,
            ).pos().hand_count(old(self).stm(), unpromoted(q)) < 19),
            (mv matches Move::BoardMove { from, to, promotion } && forall|k: int| #[trigger] old(self).king_ref(k)
                ==> old(self).legal_board_move(k, from.idx(), to.idx(), promotion)) || (mv matches Move::Drop { piece, to }
                && piece.idx() < 7 && old(self).pos().hand_count(old(self).stm(), piece) > 0 && forall|k: int| #[trigger] old(
                self,
            ).king_ref(k) ==> old(self).drop_ok(k, piece, to.idx())),
        ensures
            old(self).played(*final(self), mv),
    {
        let r = self.try_play(mv);
        match r {
            Ok(()) => {},
            Err(_) => {},
        }
    }
}

/// What a listener that was handed the entries of `v` in order, until it answered true,
/// gave back: with `r` true, it answered false to each entry before one to which it
/// answered true; with `r` false, it answered false to every entry.
pub open spec fn fed<F: FnMut(PieceMoves) -> bool>(f: F, v: Seq<PieceMoves>, r: bool) -> bool {
    if r {
        exists|i: int| 0 <= i < v.len() && call_ensures(f, (#[trigger] v[i],), true) && forall|j: int|
            0 <= j < i ==> call_ensures(f, (#[trigger] v[j],), false)
    } else {
        forall|j: int| 0 <= j < v.len() ==> call_ensures(f, (#[trigger] v[j],), false)
    }
}

/// Feeding `a` and then, when no entry of `a` got true, `b`, is feeding `a + b`.
pub proof fn lemma_fed_append<F: FnMut(PieceMoves) -> bool>(f: F, a: Seq<PieceMoves>, b: Seq<PieceMoves>, ra: bool, rb: bool)
    requires
        fed(f, a, ra),
        !ra ==> fed(f, b, rb),
        ra ==> rb,
    ensures
        fed(f, a + b, rb),
{
    if ra {
        let i = choose|i: int| 0 <= i < a.len() && call_ensures(f, (#[trigger] a[i],), true) && forall|j: int|
            0 <= j < i ==> call_ensures(f, (#[trigger] a[j],), false);
        assert((a + b)[i] == a[i]);
        assert forall|j: int| 0 <= j < i implies call_ensures(f, (#[trigger] (a + b)[j],), false) by {
            assert((a + b)[j] == a[j]);
        }
    } else if rb {
        let i = choose|i: int| 0 <= i < b.len() && call_ensures(f, (#[trigger] b[i],), true) && forall|j: int|
            0 <= j < i ==> call_ensures(f, (#[trigger] b[j],), false);
        assert((a + b)[a.len() + i] == b[i]);
        assert forall|j: int| 0 <= j < a.len() + i implies call_ensures(f, (#[trigger] (a + b)[j],), false) by {
            if j < a.len() {
                assert((a + b)[j] == a[j]);
            } else {
                assert((a + b)[j] == b[j - a.len()]);
            }
        }
    } else {
        assert forall|j: int| 0 <= j < (a + b).len() implies call_ensures(f, (#[trigger] (a + b)[j],), false) by {
            if j < a.len() {
                assert((a + b)[j] == a[j]);
            } else {
                assert((a + b)[j] == b[j - a.len()]);
            }
        }
    }
}

/// A drop is generated exactly when it is legal: in a list of generated drops, some entry
/// of `p` targets `t` if and only if `p` is in the hand of the side to move and the drop on
/// `t` is legal (see [`Board::drop_ok`]).
pub proof fn lemma_drop_generated_iff_legal(b: Board, k: int, d: Seq<PieceMoves>, p: Piece, t: int)
    requires
        b.wf(),
        b.king_ref(k),
        b.drop_list(k, d),
    ensures
        (exists|i: int| 0 <= i < d.len() && d[i]->Drops_piece == p && #[trigger] bit(d[i]->Drops_to.0, t)) <==> (p.idx() < 7
            && b.pos().hand_count(b.stm(), p) > 0 && b.drop_ok(k, p, t)),
{
    if exists|i: int| 0 <= i < d.len() && d[i]->Drops_piece == p && #[trigger] bit(d[i]->Drops_to.0, t) {
        let i = choose|i: int| 0 <= i < d.len() && d[i]->Drops_piece == p && #[trigger] bit(d[i]->Drops_to.0, t);
        assert(b.drop_entry(k, d[i]));
    }
    if p.idx() < 7 && b.pos().hand_count(b.stm(), p) > 0 && b.drop_ok(k, p, t) {
        assert(exists|u: int| #[trigger] b.drop_ok(k, p, u));
        let i = choose|i: int| 0 <= i < d.len() && #[trigger] d[i]->Drops_piece == p;
        assert(b.drop_entry(k, d[i]));
        assert(bit(d[i]->Drops_to.0, t));
    }
}

/// What a move leaves is determined: the board that `try_play` gives on success is the
/// board that `play_unchecked` (or `play`) gives for the same move.
pub proof fn lemma_played_determined(pre: Board, a: Board, b: Board, mv: Move)
    requires
        pre.played(a, mv),
        pre.played(b, mv),
    ensures
        a == b,
{
    lemma_board_determined(a, b);
}

/// Two generated board-move entries for the same king square and the same origin are the
/// same entry, whatever masks they were generated for.
proof fn lemma_board_entry_unique(b: Board, k: int, m1: u128, m2: u128, e1: PieceMoves, e2: PieceMoves)
    requires
        b.board_entry(m1, k, e1),
        b.board_entry(m2, k, e2),
        e1->from == e2->from,
    ensures
        e1 == e2,
{
    let t1 = e1->BoardMoves_to;
    let t2 = e2->BoardMoves_to;
    assert forall|t: int| #[trigger] bit(t1.0, t) == bit(t2.0, t) by {}
    crate::bitboard::lemma_board_ext(t1, t2);
}

/// The square index `s` is movable for `mask` when a generated entry for `mask` starts there.
proof fn lemma_entry_movable(b: Board, k: int, m: u128, e: PieceMoves)
    requires
        b.board_entry(m, k, e),
    ensures
        b.movable(m, k, e->from.idx()),
{
    let t = lemma_nonzero_bit_index(e->BoardMoves_to.0);
    if e->BoardMoves_piece == Piece::King {
        assert(b.king_target(k, t));
    } else {
        assert(b.common_target(k, e->from.idx(), t));
    }
}

/// Generating the board moves for a mask and for its complement gives, together, the
/// entries generated for the whole board: an entry is generated for the whole board exactly
/// when it is generated for one of the two masks.
pub proof fn lemma_board_moves_split(b: Board, k: int, m1: u128, m2: u128, v1: Seq<PieceMoves>, v2: Seq<PieceMoves>, v: Seq<PieceMoves>)
    requires
        b.wf(),
        b.king_ref(k),
        forall|s: int| 0 <= s < 81 ==> (bit(m1, s) || bit(m2, s)) && !(bit(m1, s) && bit(m2, s)),
        b.board_list(m1, k, v1),
        b.board_list(m2, k, v2),
        b.board_list(BOARD_MASK, k, v),
    ensures
        forall|e: PieceMoves| #[trigger] v.contains(e) <==> (v1.contains(e) || v2.contains(e)),
{
    assert forall|e: PieceMoves| #[trigger] v.contains(e) implies v1.contains(e) || v2.contains(e) by {
        let i = choose|i: int| 0 <= i < v.len() && v[i] == e;
        assert(b.board_entry(BOARD_MASK, k, v[i]));
        lemma_entry_movable(b, k, BOARD_MASK, e);
        let s = e->from.idx();
        lemma_square_idx(e->from);
        if bit(m1, s) {
            assert(b.movable(m1, k, s));
            let j = choose|j: int| 0 <= j < v1.len() && #[trigger] v1[j]->from.idx() == s;
            assert(b.board_entry(m1, k, v1[j]));
            lemma_square_idx(v1[j]->from);
            assert(v1[j]->from == e->from) by {
                lemma_square_from_idx(s);
            }
            lemma_board_entry_unique(b, k, m1, BOARD_MASK, v1[j], e);
        } else {
            assert(b.movable(m2, k, s));
            let j = choose|j: int| 0 <= j < v2.len() && #[trigger] v2[j]->from.idx() == s;
            assert(b.board_entry(m2, k, v2[j]));
            lemma_square_idx(v2[j]->from);
            assert(v2[j]->from == e->from) by {
                lemma_square_from_idx(s);
            }
            lemma_board_entry_unique(b, k, m2, BOARD_MASK, v2[j], e);
        }
    }
    assert forall|e: PieceMoves| v1.contains(e) || v2.contains(e) implies #[trigger] v.contains(e) by {
        let mi = if v1.contains(e) { m1 } else { m2 };
        if v1.contains(e) {
            let i = choose|i: int| 0 <= i < v1.len() && v1[i] == e;
            assert(b.board_entry(m1, k, v1[i]));
        } else {
            let i = choose|i: int| 0 <= i < v2.len() && v2[i] == e;
            assert(b.board_entry(m2, k, v2[i]));
        }
        assert(b.board_entry(mi, k, e));
        lemma_square_idx(e->from);
        lemma_entry_movable(b, k, mi, e);
        let s = e->from.idx();
        assert(b.movable(BOARD_MASK, k, s));
        let j = choose|j: int| 0 <= j < v.len() && #[trigger] v[j]->from.idx() == s;
        assert(b.board_entry(BOARD_MASK, k, v[j]));
        lemma_square_idx(v[j]->from);
        assert(v[j]->from == e->from) by {
            lemma_square_from_idx(s);
        }
        lemma_board_entry_unique(b, k, BOARD_MASK, mi, v[j], e);
    }
}

} // verus!
