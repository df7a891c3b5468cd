//! Validity of positions: piece placement, kings, piece counts, checkers and pins.
use vstd::prelude::*;
use crate::attacks::{king_attacks, king_step};
use crate::bitboard::{BitBoard, bit, popcount, BOARD_MASK, lemma_board_ext};
use crate::bits::lemma_popcount_le;
use crate::board::Board;
use crate::board::zobrist::lemma_wf_bits;
use crate::color::{Color, lemma_color_idx};
use crate::piece::{Piece, MAX_HAND, promoted, must_promote_at};
use crate::rank::no_fly_zone;
use crate::square::{Square, lemma_square_idx};
use core::ops::Not;

verus! {

broadcast use crate::bits::group_bit_lemmas;

impl Board {
    /// The number of kings of `c`.
    pub open spec fn king_count(self, c: Color) -> nat {
        popcount(self.pos().color_bb(c) & self.pos().piece_bb(Piece::King))
    }

    /// No piece stands where it could never move again.
    pub open spec fn no_stuck_pieces(self) -> bool {
        forall|i: int| #[trigger] self.piece_at(i) is Some && self.color_at(i) is Some ==> !must_promote_at(
            self.piece_at(i).unwrap(),
            self.color_at(i).unwrap(),
            i % 9,
        )
    }

    /// The side that is not to move is not in check.
    pub open spec fn opponent_safe(self) -> bool {
        forall|k: int, i: int| #[trigger] self.is_king_sq(self.stm().other(), k) ==> !#[trigger] self.checker(
            self.stm().other(),
            k,
            i,
        )
    }

    /// The position is valid: at most 39 pieces per side; one king per side (in a tsume
    /// position a side may have none); no piece where it could never move; two kings
    /// unless tsume; kings not next to each other; and the side that just moved not in
    /// check.
    pub open spec fn valid(self, for_tsume: bool) -> bool {
        &&& forall|c: Color| #[trigger] popcount(self.pos().color_bb(c)) <= 39
        &&& forall|c: Color| (!for_tsume || self.has_king(c)) ==> #[trigger] self.king_count(c) == 1
        &&& self.no_stuck_pieces()
        &&& !for_tsume ==> popcount(self.pos().piece_bb(Piece::King)) == 2
        &&& forall|w: int, b: int| #[trigger] self.is_king_sq(Color::White, w) && #[trigger] self.is_king_sq(
            Color::Black,
            b,
        ) ==> !king_step(w, b)
        &&& self.opponent_safe()
    }

    /// The number of pieces of type `p` in play: in both hands, and on the board in either
    /// form.
    pub open spec fn piece_total(self, p: Piece) -> int {
        self.pos().hand_count(Color::White, p) + self.pos().hand_count(Color::Black, p) + popcount(
            self.pos().piece_bb(p) | self.pos().piece_bb(promoted(p)),
        )
    }

    /// No piece type is in play more often than the game has it.
    pub open spec fn counts_ok(self) -> bool {
        forall|p: Piece| p.idx() < 7 ==> #[trigger] self.piece_total(p) <= MAX_HAND[p.idx()]
    }

    /// The checks of one color: at most 39 pieces, one king unless absent in tsume, and no
    /// stuck pawn, lance or knight.
    fn color_is_valid(&self, c: Color, for_tsume: bool) -> (r: bool)
        requires
            self.pos().wf(),
        ensures
            r == (popcount(self.pos().color_bb(c)) <= 39 && ((!for_tsume || self.has_king(c)) ==> self.king_count(c) == 1)
                && forall|i: int| #[trigger] self.color_at(i) == Some(c) && self.piece_at(i) is Some ==> !must_promote_at(
                self.piece_at(i).unwrap(),
                c,
                i % 9,
            )),
    {
        proof {
            lemma_wf_bits(self.pos());
        }
        let pieces = self.colors(c);
        if pieces.len() > 39 {
            return false;
        }
        if !for_tsume || self.has(c, Piece::King) {
            let kings = self.colors(c).bitand(self.pieces(Piece::King));
            if kings.len() != 1 {
                return false;
            }
        }
        let pawns = self.colored_pieces(c, Piece::Pawn);
        let lances = self.colored_pieces(c, Piece::Lance);
        let knights = self.colored_pieces(c, Piece::Knight);
        let pawn_zone = no_fly_zone(c, Piece::Pawn);
        let knight_zone = no_fly_zone(c, Piece::Knight);
        let stuck = pawns.bitand(pawn_zone).bitor(lances.bitand(pawn_zone)).bitor(knights.bitand(knight_zone));
        proof {
            crate::bitboard::lemma_popcount_zero(stuck.0);
            if stuck.0 != 0 {
                let i = crate::bitboard::lemma_nonzero_bit_index(stuck.0);
                assert(self.color_at(i) == Some(c));
            } else {
                assert forall|i: int| #[trigger] self.color_at(i) == Some(c) && self.piece_at(i) is Some implies !must_promote_at(
                    self.piece_at(i).unwrap(),
                    c,
                    i % 9,
                ) by {
                    assert(!bit(stuck.0, i));
                    if self.piece_at(i) is Some {
                        assert(0 <= i < 81);
                    }
                }
            }
        }
        stuck.is_empty()
    }

    /// Is the position valid (see [`Self::valid`])? Checkers and pins are not looked at.
    pub fn is_valid(&self, for_tsume: bool) -> (r: bool)
        requires
            self.pos().wf(),
        ensures
            r == self.valid(for_tsume),
    {
        proof {
            lemma_wf_bits(self.pos());
        }
        let white_ok = self.color_is_valid(Color::White, for_tsume);
        let black_ok = self.color_is_valid(Color::Black, for_tsume);
        proof {
            assert(white_ok && black_ok <==> (forall|c: Color| #[trigger] popcount(self.pos().color_bb(c)) <= 39)
                && (forall|c: Color| (!for_tsume || self.has_king(c)) ==> #[trigger] self.king_count(c) == 1)
                && self.no_stuck_pieces()) by {
                if white_ok && black_ok {
                    assert forall|i: int| #[trigger] self.piece_at(i) is Some && self.color_at(i) is Some implies !must_promote_at(
                        self.piece_at(i).unwrap(),
                        self.color_at(i).unwrap(),
                        i % 9,
                    ) by {
                        if self.color_at(i) == Some(Color::White) {
                        } else if self.color_at(i) == Some(Color::Black) {
                        }
                    }
                }
                if self.no_stuck_pieces() {
                    assert forall|i: int| #[trigger] self.color_at(i) == Some(Color::White) && self.piece_at(i) is Some implies !must_promote_at(
                        self.piece_at(i).unwrap(),
                        Color::White,
                        i % 9,
                    ) by {
                        assert(self.piece_at(i) is Some && self.color_at(i) is Some);
                    }
                    assert forall|i: int| #[trigger] self.color_at(i) == Some(Color::Black) && self.piece_at(i) is Some implies !must_promote_at(
                        self.piece_at(i).unwrap(),
                        Color::Black,
                        i % 9,
                    ) by {
                        assert(self.piece_at(i) is Some && self.color_at(i) is Some);
                    }
                }
            }
        }
        if !white_ok || !black_ok {
            return false;
        }
        if !for_tsume && self.pieces(Piece::King).len() != 2 {
            return false;
        }
        if self.has(Color::White, Piece::King) && self.has(Color::Black, Piece::King) {
            let white_king = self.king(Color::White);
            let black_king = self.king(Color::Black);
            if king_attacks(Color::White, white_king).has(black_king) {
                return false;
            }
            proof {
                assert forall|w: int, b: int| #[trigger] self.is_king_sq(Color::White, w) && #[trigger] self.is_king_sq(
                    Color::Black,
                    b,
                ) implies !king_step(w, b) by {
                    lemma_king_sq_unique(*self, Color::White, w, white_king.idx());
                    lemma_king_sq_unique(*self, Color::Black, b, black_king.idx());
                }
            }
        } else {
            proof {
                assert forall|w: int, b: int| #[trigger] self.is_king_sq(Color::White, w) && #[trigger] self.is_king_sq(
                    Color::Black,
                    b,
                ) implies !king_step(w, b) by {
                    assert(self.holds(w, Color::White, Piece::King));
                    assert(self.holds(b, Color::Black, Piece::King));
                }
            }
        }
        let (their_checkers, _) = self.calculate_checkers_and_pins(self.side_to_move().not());
        proof {
            crate::bitboard::lemma_popcount_zero(their_checkers.0);
            let o = self.stm().other();
            if their_checkers.0 != 0 {
                let i = crate::bitboard::lemma_nonzero_bit_index(their_checkers.0);
                if self.has_king(o) {
                    let k = lemma_lowest_king(*self, o);
                    assert(self.checker(o, k, i));
                }
            } else {
                assert forall|k: int, i: int| #[trigger] self.is_king_sq(o, k) implies !#[trigger] self.checker(o, k, i) by {
                    assert(!bit(their_checkers.0, i));
                }
            }
        }
        their_checkers.is_empty()
    }

    /// Does no piece type exceed its number in the game (see [`Self::counts_ok`])?
    #[verifier::rlimit(100)]
    pub fn piece_counts_are_valid(&self) -> (r: bool)
        requires
            self.pos().wf(),
        ensures
            r == self.counts_ok(),
    {
        let hands = self.hands();
        let mut index: usize = 0;
        while index < 7
            invariant
                self.pos().wf(),
                index <= 7,
                forall|c: Color, p: Piece| #[trigger] hands[c.idx()][p.idx()] == self.pos().hand_count(c, p),
                forall|p: Piece| p.idx() < index ==> #[trigger] self.piece_total(p) <= MAX_HAND[p.idx()],
            decreases 7 - index,
        {
            let piece = Piece::index_const(index);
            let on_board = self.pieces(piece).bitor(self.pieces(piece.promote()));
            proof {
                lemma_popcount_le(on_board.0);
                lemma_color_idx(Color::White);
                lemma_color_idx(Color::Black);
                assert(hands[0][index as int] == self.pos().hand_count(Color::White, piece));
                assert(hands[1][index as int] == self.pos().hand_count(Color::Black, piece));
                assert(on_board.0 == self.pos().piece_bb(piece) | self.pos().piece_bb(promoted(piece)));
            }
            let sum = hands[0][index] as u32 + hands[1][index] as u32 + on_board.len();
            if sum > MAX_HAND[index] as u32 {
                proof {
                    assert(self.piece_total(piece) > MAX_HAND[piece.idx()]);
                }
                return false;
            }
            index += 1;
        }
        true
    }

    /// Give White's hand every piece not yet in play, as tsume problems do.
    #[verifier::rlimit(100)]
    pub fn piece_counts_make_valid(&mut self)
        requires
            old(self).wf_basic(),
            old(self).counts_ok(),
        ensures
            final(self).wf_basic(),
            final(self).stm() == old(self).stm(),
            final(self).move_num() == old(self).move_num(),
            forall|i: int| #[trigger] final(self).content(i) == old(self).content(i),
            forall|c: Color, p: Piece| #[trigger] final(self).pos().hand_count(c, p) == (if c == Color::White && p.idx()
                < 7 {
                MAX_HAND[p.idx()] - old(self).pos().hand_count(Color::Black, p) - popcount(
                    old(self).pos().piece_bb(p) | old(self).pos().piece_bb(promoted(p)),
                )
            } else {
                old(self).pos().hand_count(c, p) as int
            }),
    {
        let ghost pre = *self;
        let mut index: usize = 0;
        while index < 7
            invariant
                self.wf_basic(),
                pre.wf_basic(),
                index <= 7,
                pre.counts_ok(),
                self.stm() == pre.stm(),
                self.move_num() == pre.move_num(),
                forall|i: int| #[trigger] self.content(i) == pre.content(i),
                forall|p: Piece| #[trigger] self.pos().piece_bb(p) == pre.pos().piece_bb(p),
                forall|c: Color, p: Piece| #[trigger] self.pos().hand_count(c, p) == (if c == Color::White && p.idx()
                    < index {
                    MAX_HAND[p.idx()] - pre.pos().hand_count(Color::Black, p) - popcount(
                        pre.pos().piece_bb(p) | pre.pos().piece_bb(promoted(p)),
                    )
                } else {
                    pre.pos().hand_count(c, p) as int
                }),
            decreases 7 - index,
        {
            let piece = Piece::index_const(index);
            let on_board = self.pieces(piece).bitor(self.pieces(piece.promote()));
            let black = self.num_in_hand(Color::Black, piece);
            proof {
                assert(pre.piece_total(piece) <= MAX_HAND[piece.idx()]);
                lemma_popcount_le(on_board.0);
                assert(on_board.0 == pre.pos().piece_bb(piece) | pre.pos().piece_bb(promoted(piece)));
            }
            proof {
                assert(MAX_HAND[index as int] <= 18);
            }
            let missing = MAX_HAND[index] - black - on_board.len() as u8;
            self.unchecked_set_hand(Color::White, piece, missing);
            proof {
                assert forall|p: Piece| #[trigger] self.pos().piece_bb(p) == pre.pos().piece_bb(p) by {
                    lemma_wf_bits(self.pos());
                    lemma_wf_bits(pre.pos());
                    assert forall|i: int| 0 <= i < 81 implies bit(self.pos().piece_bb(p), i) == bit(pre.pos().piece_bb(p), i) by {
                        assert(self.content(i) == pre.content(i));
                    }
                    lemma_board_ext(BitBoard(self.pos().piece_bb(p)), BitBoard(pre.pos().piece_bb(p)));
                }
            }
            index += 1;
        }
    }

    /// Are the stored checkers and pins those of the side to move, with at most two
    /// checkers?
    #[verifier::rlimit(100)]
    pub fn checkers_and_pins_are_valid(&self) -> (r: bool)
        requires
            self.wf_basic(),
        ensures
            r == (self.checks_and_pins(self.stm(), self.checkers_bb(), self.pinned_bb()) && popcount(self.checkers_bb())
                < 3),
    {
        let (checkers, pinned) = self.calculate_checkers_and_pins(self.side_to_move());
        proof {
            if self.checks_and_pins(self.stm(), self.checkers_bb(), self.pinned_bb()) {
                lemma_checks_unique(*self, self.stm(), checkers.0, pinned.0, self.checkers_bb(), self.pinned_bb());
            }
        }
        self.checkers == checkers && self.pinned == pinned && self.checkers.len() < 3
    }

    /// Is the move number valid (at least one)?
    pub fn move_number_is_valid(&self) -> (r: bool)
        ensures
            r == (self.move_num() > 0),
    {
        self.move_number > 0
    }
}

/// Two squares that both hold the lowest king of `c` are the same.
pub proof fn lemma_king_sq_unique(b: Board, c: Color, k1: int, k2: int)
    requires
        b.is_king_sq(c, k1),
        b.is_king_sq(c, k2),
    ensures
        k1 == k2,
{
    if k1 < k2 {
        assert(!b.holds(k1, c, Piece::King));
    } else if k2 < k1 {
        assert(!b.holds(k2, c, Piece::King));
    }
}

/// A side with a king has a lowest one.
pub proof fn lemma_lowest_king(b: Board, c: Color) -> (k: int)
    requires
        b.has_king(c),
    ensures
        b.is_king_sq(c, k),
{
    let i = choose|i: int| 0 <= i < 81 && #[trigger] b.holds(i, c, Piece::King);
    lemma_lowest_from(b, c, i, 0)
}

proof fn lemma_lowest_from(b: Board, c: Color, i: int, j: int) -> (k: int)
    requires
        0 <= j <= i < 81,
        b.holds(i, c, Piece::King),
        forall|m: int| 0 <= m < j ==> !#[trigger] b.holds(m, c, Piece::King),
    ensures
        b.is_king_sq(c, k),
    decreases i - j,
{
    if b.holds(j, c, Piece::King) {
        j
    } else {
        lemma_lowest_from(b, c, i, j + 1)
    }
}

/// The checkers and pins of a color are determined by the position.
#[verifier::rlimit(100)]
pub proof fn lemma_checks_unique(b: Board, c: Color, ch1: u128, pi1: u128, ch2: u128, pi2: u128)
    requires
        b.pos().wf(),
        ch1 <= BOARD_MASK,
        pi1 <= BOARD_MASK,
        ch2 <= BOARD_MASK,
        pi2 <= BOARD_MASK,
        b.checks_and_pins(c, ch1, pi1),
        b.checks_and_pins(c, ch2, pi2),
    ensures
        ch1 == ch2,
        pi1 == pi2,
{
    if b.has_king(c) {
        let k = lemma_lowest_king(b, c);
        assert forall|i: int| 0 <= i < 81 implies bit(ch1, i) == bit(ch2, i) by {
            assert(bit(ch1, i) == b.checker(c, k, i));
        }
        assert forall|u: int| 0 <= u < 81 implies bit(pi1, u) == bit(pi2, u) by {
            assert(bit(pi1, u) == b.pinned_at(c, k, u));
        }
        lemma_board_ext(BitBoard(ch1), BitBoard(ch2));
        lemma_board_ext(BitBoard(pi1), BitBoard(pi2));
    }
}

} // verus!
