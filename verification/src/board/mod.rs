//! The Shogi board: position, validity, move execution and move generation.
use vstd::prelude::*;
use crate::attacks::{
    king_attacks, gold_attacks, silver_attacks, knight_attacks, pawn_attacks, king_step, gold_step,
    silver_step, knight_step, pawn_step, file_delta, rank_delta, forward,
};
use crate::bitboard::{BitBoard, bit, popcount, BOARD_MASK, lemma_board_ext};
use crate::bits::{lemma_popcount_one, lemma_popcount_two, lemma_popcount_pos, lemma_popcount_le};
use crate::color::{Color, lemma_color_idx};
use core::ops::Not;
use crate::file::File;
use crate::piece::{Piece, ColoredPiece, lemma_piece_idx, promoted, unpromoted};
use crate::sliders::{
    bishop_pseudo_attacks, rook_pseudo_attacks, lance_pseudo_attacks, get_between_rays, between,
    bishop_line, rook_line, lance_line,
};
use crate::square::{Square, lemma_square_idx, lemma_square_from_idx};
use crate::shogi_move::Move;
use crate::board::zobrist::{ZobristBoard, Dominance, lemma_same_position_same_hash, lemma_wf_bits, gold_like};

pub mod zobrist;
pub mod piece_moves;
pub mod validate;
pub mod parse;
pub mod movegen;
pub mod legality;

verus! {

broadcast use crate::bits::group_bit_lemmas;

/// The state of a game.
#[derive(Debug, Clone, Copy, PartialEq, Eq, Hash, Structural)]
pub enum GameStatus {
    /// The game is won by the side that just moved: the side to move has no legal move.
    Won,
    /// The game is drawn.
    Drawn,
    /// The game goes on.
    Ongoing,
}

/// The move played was illegal.
#[derive(Debug, Clone, Copy, PartialEq, Eq, Hash, Structural)]
pub struct IllegalMoveError;

/// The piece `p` of color `c` on square index `i` attacks square index `k` by a single step
/// (the short-range moves, those of promoted rooks and bishops included).
pub open spec fn step_attack(p: Piece, c: Color, i: int, k: int) -> bool {
    match p {
        Piece::Pawn => pawn_step(c, i, k),
        Piece::Knight => knight_step(c, i, k),
        Piece::Silver => silver_step(c, i, k),
        Piece::Gold | Piece::Tokin | Piece::PLance | Piece::PKnight | Piece::PSilver => gold_step(c, i, k),
        Piece::King | Piece::PBishop | Piece::PRook => king_step(i, k),
        _ => false,
    }
}

/// The piece `p` of color `c` on square index `i` has square index `k` on one of its
/// sliding lines (on an empty board).
pub open spec fn slide_line(p: Piece, c: Color, i: int, k: int) -> bool {
    match p {
        Piece::Lance => lance_line(c, i, k),
        Piece::Bishop | Piece::PBishop => bishop_line(i, k),
        Piece::Rook | Piece::PRook => rook_line(i, k),
        _ => false,
    }
}

/// No square strictly between square indices `i` and `k` is occupied.
pub open spec fn clear_between(occ: u128, i: int, k: int) -> bool {
    forall|u: int| #[trigger] between(i, k, u) ==> !bit(occ, u)
}

/// Square index `u` is the one occupied square strictly between `i` and `k`.
pub open spec fn single_blocker(occ: u128, i: int, k: int, u: int) -> bool {
    &&& between(i, k, u)
    &&& bit(occ, u)
    &&& forall|v: int| #[trigger] between(i, k, v) && bit(occ, v) ==> v == u
}

/// A Shogi position with its move number, and the checkers and pins of the side to move.
///
/// The checkers are the opponent's pieces that attack the king of the side to move; a pinned
/// piece (of either color) is the only piece between that king and an opponent slider that
/// would otherwise attack it.
#[derive(Debug, Clone, Copy, PartialEq, Eq)]
pub struct Board {
    inner: ZobristBoard,
    pinned: BitBoard,
    checkers: BitBoard,
    no_pawn_on_file: [BitBoard; 2],
    move_number: u16,
}

impl Board {
    /// The position.
    pub closed spec fn pos(self) -> ZobristBoard {
        self.inner
    }

    /// The stored checkers.
    pub closed spec fn checkers_bb(self) -> u128 {
        self.checkers.0
    }

    /// The stored pinned pieces.
    pub closed spec fn pinned_bb(self) -> u128 {
        self.pinned.0
    }

    /// The stored squares on files without a pawn of `c`.
    pub closed spec fn no_pawn_bb(self, c: Color) -> u128 {
        self.no_pawn_on_file[c.idx()].0
    }

    /// The move number.
    pub closed spec fn move_num(self) -> u16 {
        self.move_number
    }

    /// The piece on square index `i`.
    pub open spec fn piece_at(self, i: int) -> Option<Piece> {
        self.pos().piece_at(i)
    }

    /// The color of the piece on square index `i`.
    pub open spec fn color_at(self, i: int) -> Option<Color> {
        self.pos().color_at(i)
    }

    /// Square index `i` holds `p` of color `c`.
    pub open spec fn holds(self, i: int, c: Color, p: Piece) -> bool {
        self.piece_at(i) == Some(p) && self.color_at(i) == Some(c)
    }

    /// The occupied squares.
    pub open spec fn occ(self) -> u128 {
        self.pos().color_bb(Color::White) | self.pos().color_bb(Color::Black)
    }

    /// The side to move.
    pub open spec fn stm(self) -> Color {
        self.pos().stm()
    }

    /// `c` has a pawn on file index `f`.
    pub open spec fn pawn_on_file(self, c: Color, f: int) -> bool {
        exists|i: int| 0 <= i < 81 && i / 9 == f && #[trigger] self.holds(i, c, Piece::Pawn)
    }

    /// `c` has a king on the board.
    pub open spec fn has_king(self, c: Color) -> bool {
        exists|i: int| 0 <= i < 81 && #[trigger] self.holds(i, c, Piece::King)
    }

    /// Square index `k` holds the king of `c` with the lowest index.
    pub open spec fn is_king_sq(self, c: Color, k: int) -> bool {
        &&& 0 <= k < 81
        &&& self.holds(k, c, Piece::King)
        &&& forall|j: int| 0 <= j < k ==> !#[trigger] self.holds(j, c, Piece::King)
    }

    /// The piece on square index `i` is an opponent of `c` that gives check to square index
    /// `k`: by a step, or by sliding with nothing in between. Kings are not counted.
    pub open spec fn checker(self, c: Color, k: int, i: int) -> bool {
        self.color_at(i) == Some(c.other()) && match self.piece_at(i) {
            Some(p) => p != Piece::King && (step_attack(p, c.other(), i, k) || (slide_line(p, c.other(), i, k)
                && clear_between(self.occ(), i, k))),
            None => false,
        }
    }

    /// The piece on square index `i` is an opponent slider of `c` with square index `k` on
    /// one of its lines.
    pub open spec fn slider_on_line(self, c: Color, k: int, i: int) -> bool {
        self.color_at(i) == Some(c.other()) && match self.piece_at(i) {
            Some(p) => slide_line(p, c.other(), i, k),
            None => false,
        }
    }

    /// Square index `u` is pinned against square index `k` of `c`: it is the one occupied
    /// square between `k` and an opponent slider on a line through `k`.
    pub open spec fn pinned_at(self, c: Color, k: int, u: int) -> bool {
        exists|i: int| #[trigger] self.slider_on_line(c, k, i) && single_blocker(self.occ(), i, k, u)
    }

    /// The piece and color on square index `i`, if any.
    pub open spec fn content(self, i: int) -> Option<(Piece, Color)> {
        match (self.piece_at(i), self.color_at(i)) {
            (Some(p), Some(c)) => Some((p, c)),
            _ => None,
        }
    }

    /// The content of square index `i` after the side to move plays `mv`: a drop puts the
    /// piece on its square; a board move empties its origin and puts the moving piece,
    /// promoted when the move promotes, on its target.
    pub open spec fn content_after(self, mv: Move, i: int) -> Option<(Piece, Color)> {
        match mv {
            Move::Drop { piece, to } => if i == to.idx() {
                Some((piece, self.stm()))
            } else {
                self.content(i)
            },
            Move::BoardMove { from, to, promotion } => if i == from.idx() {
                None
            } else if i == to.idx() {
                match self.piece_at(from.idx()) {
                    Some(p) => Some((if promotion {
                        promoted(p)
                    } else {
                        p
                    }, self.stm())),
                    None => None,
                }
            } else {
                self.content(i)
            },
        }
    }

    /// The count of `p` in the hand of `c` after the side to move plays `mv`: a drop takes
    /// the unpromoted piece from hand, a capture adds the unpromoted captured piece.
    pub open spec fn hand_after(self, mv: Move, c: Color, p: Piece) -> int {
        let n = self.pos().hand_count(c, p) as int;
        match mv {
            Move::Drop { piece, .. } => if c == self.stm() && p == unpromoted(piece) {
                n - 1
            } else {
                n
            },
            Move::BoardMove { to, .. } => match self.piece_at(to.idx()) {
                Some(q) => if c == self.stm() && p == unpromoted(q) {
                    n + 1
                } else {
                    n
                },
                None => n,
            },
        }
    }

    /// The side to move can play `mv` without corrupting the board: a drop needs the piece
    /// in hand and an empty target; a board move needs a piece of the side to move on its
    /// origin and no piece of that side on its target. The move number and a hand count
    /// after a capture must stay in range.
    pub open spec fn can_play(self, mv: Move) -> bool {
        &&& self.move_num() < 0xffff
        &&& match mv {
            Move::Drop { piece, to } => self.pos().hand_count(self.stm(), unpromoted(piece)) > 0
                && self.piece_at(to.idx()) is None,
            Move::BoardMove { from, to, .. } => {
                &&& self.piece_at(from.idx()) is Some
                &&& self.color_at(from.idx()) == Some(self.stm())
                &&& self.color_at(to.idx()) != Some(self.stm())
                &&& (self.piece_at(to.idx()) matches Some(q) ==> self.pos().hand_count(self.stm(), unpromoted(q)) + 1 < 20)
            },
        }
    }

    /// The bitboards of the position are boards, and the pawn-file cache is exact.
    pub open spec fn wf_basic(self) -> bool {
        &&& self.pos().wf()
        &&& self.checkers_bb() <= BOARD_MASK
        &&& self.pinned_bb() <= BOARD_MASK
        &&& forall|c: Color| #[trigger] self.no_pawn_bb(c) <= BOARD_MASK
        &&& self.pawn_cache_ok()
    }

    /// The checkers and pins of `c` are `ch` and `pi`: those of its lowest king, or none
    /// when it has no king.
    pub open spec fn checks_and_pins(self, c: Color, ch: u128, pi: u128) -> bool {
        &&& !self.has_king(c) ==> ch == 0 && pi == 0
        &&& forall|k: int| #[trigger] self.is_king_sq(c, k) ==> (forall|i: int| #[trigger] bit(ch, i)
            == self.checker(c, k, i)) && (forall|u: int| #[trigger] bit(pi, u) == self.pinned_at(c, k, u))
    }

    /// The pawn-file cache is exact.
    pub open spec fn pawn_cache_ok(self) -> bool {
        forall|c: Color, i: int| 0 <= i < 81 ==> (#[trigger] bit(self.no_pawn_bb(c), i) == !self.pawn_on_file(c, i / 9))
    }

    /// A well-formed board: [`Self::wf_basic`], and the stored checkers and pins are those of
    /// the side to move.
    pub open spec fn wf(self) -> bool {
        &&& self.wf_basic()
        &&& self.checks_and_pins(self.stm(), self.checkers_bb(), self.pinned_bb())
    }
}


impl Board {
    /// The hand of `color`: the count of each piece type.
    pub fn hand(&self, color: Color) -> (r: &[u8; 14])
        ensures
            forall|p: Piece| #[trigger] r[p.idx()] == self.pos().hand_count(color, p),
    {
        self.inner.hand(color)
    }

    /// Both hands, White's first.
    pub fn hands(&self) -> (r: &[[u8; 14]; 2])
        ensures
            forall|c: Color, p: Piece| #[trigger] r[c.idx()][p.idx()] == self.pos().hand_count(c, p),
    {
        self.inner.hands()
    }

    /// Does `color` hold no piece in hand?
    pub fn is_hand_empty(&self, color: Color) -> (r: bool)
        ensures
            r == forall|p: Piece| #[trigger] self.pos().hand_count(color, p) == 0,
    {
        let r = self.inner.is_hand_empty(color);
        proof {
            assert(self.pos() == self.inner);
        }
        r
    }

    /// Does `color` hold `piece` in hand?
    pub fn has_in_hand(&self, color: Color, piece: Piece) -> (r: bool)
        ensures
            r == (self.pos().hand_count(color, piece) > 0),
    {
        self.inner.num_in_hand(color, piece) > 0
    }

    /// How many `piece` `color` holds in hand.
    pub fn num_in_hand(&self, color: Color, piece: Piece) -> (r: u8)
        ensures
            r == self.pos().hand_count(color, piece),
    {
        self.inner.num_in_hand(color, piece)
    }

    /// The squares holding `piece`, of either color.
    pub fn pieces(&self, piece: Piece) -> (r: BitBoard)
        requires
            self.pos().wf(),
        ensures
            r.wf(),
            r.0 == self.pos().piece_bb(piece),
            forall|i: int| #[trigger] bit(r.0, i) == (self.piece_at(i) == Some(piece)),
    {
        proof {
            lemma_wf_bits(self.inner);
        }
        self.inner.pieces(piece)
    }

    /// The squares holding a piece of `color`.
    pub fn colors(&self, color: Color) -> (r: BitBoard)
        requires
            self.pos().wf(),
        ensures
            r.wf(),
            r.0 == self.pos().color_bb(color),
            forall|i: int| #[trigger] bit(r.0, i) == (self.color_at(i) == Some(color)),
    {
        proof {
            lemma_wf_bits(self.inner);
        }
        self.inner.colors(color)
    }

    /// The squares holding `piece` of `color`.
    pub fn colored_pieces(&self, color: Color, piece: Piece) -> (r: BitBoard)
        requires
            self.pos().wf(),
        ensures
            r.wf(),
            r.0 == self.pos().color_bb(color) & self.pos().piece_bb(piece),
            forall|i: int| #[trigger] bit(r.0, i) == self.holds(i, color, piece),
    {
        self.colors(color).bitand(self.pieces(piece))
    }

    /// Does `color` have `piece` on the board?
    pub fn has(&self, color: Color, piece: Piece) -> (r: bool)
        requires
            self.pos().wf(),
        ensures
            r == exists|i: int| 0 <= i < 81 && #[trigger] self.holds(i, color, piece),
    {
        let b = self.colored_pieces(color, piece);
        proof {
            lemma_wf_bits(self.inner);
            if b.0 != 0 {
                let i = crate::bitboard::lemma_nonzero_bit_index(b.0);
                assert(self.holds(i, color, piece));
                assert(self.piece_at(i) is Some);
            }
            if exists|i: int| 0 <= i < 81 && #[trigger] self.holds(i, color, piece) {
                let i = choose|i: int| 0 <= i < 81 && #[trigger] self.holds(i, color, piece);
                assert(bit(b.0, i));
                crate::bitboard::lemma_nonzero_bit(b.0, i);
            }
        }
        !b.is_empty()
    }

    /// The squares holding a gold general or a promoted piece (promoted rooks and bishops
    /// included), which all step like a gold.
    pub fn pseudo_golds(&self) -> (r: BitBoard)
        requires
            self.pos().wf(),
        ensures
            r.wf(),
            forall|i: int| #[trigger] bit(r.0, i) == (self.piece_at(i) matches Some(p) && gold_like(p)),
    {
        proof {
            lemma_wf_bits(self.inner);
        }
        self.inner.golds_and_promoted_pieces()
    }

    /// The squares holding a gold general or a promoted small piece.
    pub fn pseudo_tokins(&self) -> (r: BitBoard)
        requires
            self.pos().wf(),
        ensures
            r.wf(),
            forall|i: int| #[trigger] bit(r.0, i) == (self.piece_at(i) matches Some(p) && (p == Piece::Gold || p
                == Piece::Tokin || p == Piece::PSilver || p == Piece::PKnight || p == Piece::PLance)),
    {
        self.pieces(Piece::Gold).bitor(self.pieces(Piece::Tokin)).bitor(self.pieces(Piece::PSilver)).bitor(
            self.pieces(Piece::PKnight),
        ).bitor(self.pieces(Piece::PLance))
    }

    /// The squares holding a piece that steps like a silver: silvers, promoted rooks and
    /// promoted bishops.
    pub fn pseudo_silvers(&self) -> (r: BitBoard)
        requires
            self.pos().wf(),
        ensures
            r.wf(),
            forall|i: int| #[trigger] bit(r.0, i) == (self.piece_at(i) matches Some(p) && (p == Piece::Silver || p
                == Piece::PRook || p == Piece::PBishop)),
    {
        self.pieces(Piece::Silver).bitor(self.pieces(Piece::PRook)).bitor(self.pieces(Piece::PBishop))
    }

    /// The sliders of `color`: lances, bishops, rooks and their promoted forms.
    pub fn sliders(&self, color: Color) -> (r: BitBoard)
        requires
            self.pos().wf(),
        ensures
            r.wf(),
            forall|i: int| #[trigger] bit(r.0, i) == (self.color_at(i) == Some(color) && (self.piece_at(i) matches Some(
                p,
            ) && (p == Piece::Lance || p == Piece::Rook || p == Piece::Bishop || p == Piece::PRook || p
                == Piece::PBishop))),
    {
        self.pieces(Piece::Lance).bitor(self.pieces(Piece::Rook)).bitor(self.pieces(Piece::Bishop)).bitor(
            self.pieces(Piece::PRook),
        ).bitor(self.pieces(Piece::PBishop)).bitand(self.colors(color))
    }

    /// The occupied squares.
    pub fn occupied(&self) -> (r: BitBoard)
        requires
            self.pos().wf(),
        ensures
            r.wf(),
            r.0 == self.occ(),
            forall|i: int| #[trigger] bit(r.0, i) == (self.color_at(i) is Some),
            forall|i: int| #[trigger] bit(r.0, i) == (self.piece_at(i) is Some),
    {
        proof {
            lemma_wf_bits(self.inner);
        }
        self.inner.colors(Color::White).bitor(self.inner.colors(Color::Black))
    }

    /// The side to move.
    pub fn side_to_move(&self) -> (r: Color)
        ensures
            r == self.stm(),
    {
        self.inner.side_to_move()
    }

    /// The Zobrist hash of the position; the move number plays no part.
    pub fn hash(&self) -> (r: u64)
        ensures
            r == self.pos().hash_value(),
    {
        self.inner.hash()
    }

    /// `post` is this board after the side to move plays `mv`: well formed, the other side
    /// to move, the next move number, and the contents and hands that the move leaves.
    pub open spec fn played(self, post: Board, mv: Move) -> bool {
        &&& post.wf()
        &&& post.stm() == self.stm().other()
        &&& post.move_num() == self.move_num() + 1
        &&& forall|i: int| #[trigger] post.content(i) == self.content_after(mv, i)
        &&& forall|c: Color, p: Piece| #[trigger] post.pos().hand_count(c, p) == self.hand_after(mv, c, p)
    }

    /// Do the two boards hold the same position: the same pieces on the same squares, the
    /// same hands and the same side to move (the move number plays no part)?
    pub fn same_position(&self, other: &Self) -> (r: bool)
        requires
            self.pos().wf(),
            other.pos().wf(),
        ensures
            r == self.pos().same_position(other.pos()),
    {
        proof {
            if self.pos().same_position(other.pos()) {
                lemma_same_position_same_hash(self.pos(), other.pos());
            }
        }
        self.hash() == other.hash() && self.inner.board_is_equal(&other.inner)
    }

    /// How this position compares with `other` (see [`ZobristBoard::dominates`]).
    pub fn dominates(&self, other: &Self) -> (r: Dominance)
        requires
            self.pos().wf(),
            other.pos().wf(),
        ensures
            r == self.pos().dominance(other.pos()),
    {
        self.inner.dominates(&other.inner)
    }

    /// The pinned pieces of the side to move: every piece, of either color, that is the
    /// only piece between the king of the side to move and an opponent slider.
    pub fn pinned(&self) -> (r: BitBoard)
        ensures
            r.0 == self.pinned_bb(),
    {
        self.pinned
    }

    /// The opponent pieces that give check to the king of the side to move.
    pub fn checkers(&self) -> (r: BitBoard)
        ensures
            r.0 == self.checkers_bb(),
    {
        self.checkers
    }

    /// The move number: moves are counted in plies.
    pub fn move_number(&self) -> (r: u16)
        ensures
            r == self.move_num(),
    {
        self.move_number
    }

    /// Set the move number, which must be at least one.
    pub fn set_move_number(&mut self, n: u16)
        requires
            n > 0,
        ensures
            final(self).move_num() == n,
            final(self).pos() == old(self).pos(),
            final(self).checkers_bb() == old(self).checkers_bb(),
            final(self).pinned_bb() == old(self).pinned_bb(),
            forall|c: Color| #[trigger] final(self).no_pawn_bb(c) == old(self).no_pawn_bb(c),
            old(self).wf_basic() ==> final(self).wf_basic(),
            old(self).wf() ==> final(self).wf(),
    {
        let ghost pre = *self;
        self.move_number = n;
        proof {
            lemma_board_same_pos(pre, *self);
            assert forall|c: Color| #[trigger] self.no_pawn_bb(c) == pre.no_pawn_bb(c) by {}
        }
    }

    /// The piece on `square`, if any.
    pub fn piece_on(&self, square: Square) -> (r: Option<Piece>)
        requires
            self.pos().wf(),
        ensures
            r == self.piece_at(square.idx()),
    {
        let mut k: usize = 0;
        while k < 14
            invariant
                self.pos().wf(),
                k <= 14,
                forall|p: Piece| p.idx() < k ==> self.piece_at(square.idx()) != Some(p),
            decreases 14 - k,
        {
            let p = Piece::index_const(k);
            if self.pieces(p).has(square) {
                return Some(p);
            }
            k += 1;
        }
        proof {
            if let Some(p) = self.piece_at(square.idx()) {
                assert(p.idx() < 14);
            }
        }
        None
    }

    /// The color of the piece on `square`, if any.
    pub fn color_on(&self, square: Square) -> (r: Option<Color>)
        requires
            self.pos().wf(),
        ensures
            r == self.color_at(square.idx()),
    {
        if self.colors(Color::White).has(square) {
            Some(Color::White)
        } else if self.colors(Color::Black).has(square) {
            Some(Color::Black)
        } else {
            None
        }
    }

    /// The piece on `square` with its color, if any.
    pub fn colored_piece_on(&self, square: Square) -> (r: Option<ColoredPiece>)
        requires
            self.pos().wf(),
        ensures
            r == (match (self.piece_at(square.idx()), self.color_at(square.idx())) {
                (Some(p), Some(c)) => Some(ColoredPiece { piece: p, color: c }),
                _ => None,
            }),
    {
        match self.piece_on(square) {
            Some(piece) => match self.color_on(square) {
                Some(color) => Some(ColoredPiece { piece, color }),
                None => {
                    proof {
                        lemma_square_idx(square);
                    }
                    None
                },
            },
            None => None,
        }
    }

    /// May `color` drop a pawn on `square` without putting two of its pawns on one file?
    pub fn pawn_drop_ok(&self, color: Color, square: Square) -> (r: bool)
        requires
            self.pos().wf(),
        ensures
            r == !self.pawn_on_file(color, square.file_idx()),
    {
        let b = self.colored_pieces(color, Piece::Pawn).bitand(square.file().bitboard());
        proof {
            lemma_square_idx(square);
            if b.0 != 0 {
                let i = crate::bitboard::lemma_nonzero_bit_index(b.0);
                assert(0 <= i < 81 && i / 9 == square.file_idx() && self.holds(i, color, Piece::Pawn));
            }
            if self.pawn_on_file(color, square.file_idx()) {
                let i = choose|i: int| 0 <= i < 81 && i / 9 == square.file_idx() && #[trigger] self.holds(i, color, Piece::Pawn);
                assert(bit(b.0, i));
                crate::bitboard::lemma_nonzero_bit(b.0, i);
            }
        }
        b.is_empty()
    }

    /// The square of the king of `color`: the lowest, should there be more than one.
    pub fn king(&self, color: Color) -> (r: Square)
        requires
            self.pos().wf(),
            self.has_king(color),
        ensures
            self.is_king_sq(color, r.idx()),
    {
        let b = self.colored_pieces(color, Piece::King);
        match b.next_square() {
            Some(s) => {
                proof {
                    lemma_square_idx(s);
                    assert forall|j: int| 0 <= j < s.idx() implies !#[trigger] self.holds(j, color, Piece::King) by {
                        assert(!bit(b.0, j));
                    }
                }
                s
            },
            None => {
                proof {
                    let i = choose|i: int| 0 <= i < 81 && #[trigger] self.holds(i, color, Piece::King);
                    assert(bit(b.0, i));
                    crate::bitboard::lemma_nonzero_bit(b.0, i);
                }
                Square::A1
            },
        }
    }
}


/// Attack patterns seen from the attacked square: a piece of `c` on `i` attacks `k` exactly
/// when the same piece of the other color on `k` would attack `i`.
proof fn lemma_attack_symmetry(c: Color, i: int, k: int)
    requires
        0 <= i < 81,
        0 <= k < 81,
    ensures
        pawn_step(c, i, k) == pawn_step(c.other(), k, i),
        knight_step(c, i, k) == knight_step(c.other(), k, i),
        silver_step(c, i, k) == silver_step(c.other(), k, i),
        gold_step(c, i, k) == gold_step(c.other(), k, i),
        king_step(i, k) == king_step(k, i),
        king_step(i, k) == (silver_step(c.other(), k, i) || gold_step(c.other(), k, i)),
        bishop_line(i, k) == bishop_line(k, i),
        rook_line(i, k) == rook_line(k, i),
        lance_line(c, i, k) == lance_line(c.other(), k, i),
{
}

/// The checks and pins that opponent sliders on `att` give to square index `k`: a slider
/// with nothing in between checks, and the one occupied square between it and `k` is pinned.
pub open spec fn slider_checks_spec(att: u128, occ: u128, k: int, ch: u128, pi: u128, rem: u128) -> bool {
    &&& forall|i: int| #[trigger] bit(ch, i) == (bit(att, i) && !bit(rem, i) && clear_between(occ, i, k))
    &&& forall|u: int| #[trigger] bit(pi, u) == exists|i: int| #[trigger] bit(att, i) && !bit(rem, i)
        && single_blocker(occ, i, k, u)
}

/// For each slider on `att`: it checks `king` when nothing stands between, and the one piece
/// between is pinned when there is exactly one.
fn slider_checks(att: BitBoard, king: Square, occ: BitBoard) -> (r: (BitBoard, BitBoard))
    requires
        att.wf(),
        occ.wf(),
    ensures
        r.0.wf(),
        r.1.wf(),
        slider_checks_spec(att.0, occ.0, king.idx(), r.0.0, r.1.0, 0),
{
    let mut rem = att;
    let mut checkers = BitBoard::empty();
    let mut pinned = BitBoard::empty();
    let ghost k = king.idx();
    loop
        invariant
            att.wf(),
            occ.wf(),
            rem.wf(),
            checkers.wf(),
            pinned.wf(),
            k == king.idx(),
            forall|i: int| #[trigger] bit(rem.0, i) ==> bit(att.0, i),
            slider_checks_spec(att.0, occ.0, k, checkers.0, pinned.0, rem.0),
        decreases rem.0,
    {
        match rem.next_square() {
            None => {
                proof {
                    assert forall|i: int| !#[trigger] bit(rem.0, i) by {
                        crate::bitboard::lemma_nonzero_bit(rem.0, i);
                    }
                    assert forall|i: int| #[trigger] bit(checkers.0, i) == (bit(att.0, i) && !bit(0, i) && clear_between(
                        occ.0,
                        i,
                        k,
                    )) by {}
                    assert forall|u: int| #[trigger] bit(pinned.0, u) == exists|i: int| #[trigger] bit(att.0, i) && !bit(
                        0,
                        i,
                    ) && single_blocker(occ.0, i, k, u) by {
                        if bit(pinned.0, u) {
                            let i = choose|i: int| #[trigger] bit(att.0, i) && !bit(rem.0, i) && single_blocker(occ.0, i, k, u);
                            assert(bit(att.0, i) && !bit(0, i) && single_blocker(occ.0, i, k, u));
                        }
                    }
                }
                return (checkers, pinned);
            },
            Some(a) => {
                let ghost s = a.idx();
                let a_bb = a.bitboard();
                let btw = get_between_rays(a, king).bitand(occ);
                let n = btw.len();
                let new_rem = rem.bitxor(a_bb);
                proof {
                    lemma_square_idx(a);
                    crate::bits::lemma_clear_bit_smaller(rem.0, s);
                    crate::bitboard::lemma_popcount_zero(btw.0);
                    assert forall|i: int| #[trigger] bit(new_rem.0, i) == (bit(rem.0, i) && i != s) by {}
                    if n == 1 {
                        crate::bitboard::lemma_popcount_zero(btw.0);
                        let u0 = crate::bitboard::lemma_nonzero_bit_index(btw.0);
                        lemma_popcount_one(btw.0, u0);
                    }
                    // clear_between for s
                    if btw.0 == 0 {
                        assert forall|u: int| #[trigger] between(s, k, u) implies !bit(occ.0, u) by {
                            assert(!bit(btw.0, u));
                        }
                    } else {
                        let u = crate::bitboard::lemma_nonzero_bit_index(btw.0);
                        assert(between(s, k, u) && bit(occ.0, u));
                    }
                }
                if n == 0 {
                    checkers = checkers.bitor(a_bb);
                } else if n == 1 {
                    pinned = pinned.bitor(btw);
                }
                proof {
                    assert forall|i: int| #[trigger] bit(checkers.0, i) == (bit(att.0, i) && !bit(new_rem.0, i)
                        && clear_between(occ.0, i, k)) by {
                        if i == s {
                            if btw.0 != 0 {
                                let u = crate::bitboard::lemma_nonzero_bit_index(btw.0);
                                assert(between(s, k, u) && bit(occ.0, u));
                            }
                        }
                    }
                    assert forall|u: int| #[trigger] bit(pinned.0, u) == exists|i: int| #[trigger] bit(att.0, i) && !bit(
                        new_rem.0,
                        i,
                    ) && single_blocker(occ.0, i, k, u) by {
                        let e_old = exists|i: int| #[trigger] bit(att.0, i) && !bit(rem.0, i) && single_blocker(occ.0, i, k, u);
                        if exists|i: int| #[trigger] bit(att.0, i) && !bit(new_rem.0, i) && single_blocker(occ.0, i, k, u) {
                            let i = choose|i: int| #[trigger] bit(att.0, i) && !bit(new_rem.0, i) && single_blocker(
                                occ.0,
                                i,
                                k,
                                u,
                            );
                            if i != s {
                                assert(e_old);
                            } else {
                                assert(bit(btw.0, u));
                                assert forall|j: int| j != u implies !#[trigger] bit(btw.0, j) by {}
                                crate::bits::lemma_popcount_single(btw.0, u);
                            }
                        }
                        if bit(pinned.0, u) {
                            if e_old {
                                let i = choose|i: int| #[trigger] bit(att.0, i) && !bit(rem.0, i) && single_blocker(occ.0, i, k, u);
                                assert(bit(att.0, i) && !bit(new_rem.0, i) && single_blocker(occ.0, i, k, u));
                            } else {
                                assert(n == 1 && bit(btw.0, u));
                                assert forall|v: int| #[trigger] between(s, k, v) && bit(occ.0, v) implies v == u by {
                                    assert(bit(btw.0, v));
                                }
                                assert(bit(att.0, s) && !bit(new_rem.0, s) && single_blocker(occ.0, s, k, u));
                            }
                        }
                    }
                }
                rem = new_rem;
            },
        }
    }
}


impl Board {
    /// The opponent sliders of `color` with the king square `k` on one of their lines.
    fn slider_attackers(&self, color: Color, k: Square) -> (r: BitBoard)
        requires
            self.pos().wf(),
        ensures
            r.wf(),
            forall|i: int| #[trigger] bit(r.0, i) == self.slider_on_line(color, k.idx(), i),
    {
        let their_pieces = self.colors(color.not());
        let bishops = self.pieces(Piece::Bishop).bitor(self.pieces(Piece::PBishop));
        let rooks = self.pieces(Piece::Rook).bitor(self.pieces(Piece::PRook));
        let lances = self.pieces(Piece::Lance);
        let bishop_attacks = bishop_pseudo_attacks(k).bitand(bishops);
        let rook_attacks = rook_pseudo_attacks(k).bitand(rooks);
        let lance_attacks = lance_pseudo_attacks(color, k).bitand(lances);
        let r = their_pieces.bitand(bishop_attacks.bitor(rook_attacks).bitor(lance_attacks));
        proof {
            lemma_square_idx(k);
            lemma_wf_bits(self.inner);
            assert forall|i: int| #[trigger] bit(r.0, i) == self.slider_on_line(color, k.idx(), i) by {
                if self.piece_at(i) is Some {
                    lemma_attack_symmetry(color.other(), i, k.idx());
                }
            }
        }
        r
    }

    /// The opponent pieces of `color` that attack square `k` by a step.
    fn step_checkers(&self, color: Color, k: Square) -> (r: BitBoard)
        requires
            self.pos().wf(),
        ensures
            r.wf(),
            forall|i: int| #[trigger] bit(r.0, i) == (self.color_at(i) == Some(color.other()) && match self.piece_at(i) {
                Some(p) => p != Piece::King && step_attack(p, color.other(), i, k.idx()),
                None => false,
            }),
    {
        let their_pieces = self.colors(color.not());
        let pawns = pawn_attacks(color, k).bitand(their_pieces).bitand(self.pieces(Piece::Pawn));
        let knights = knight_attacks(color, k).bitand(their_pieces).bitand(self.pieces(Piece::Knight));
        let silvers = silver_attacks(color, k).bitand(their_pieces).bitand(self.pseudo_silvers());
        let golds = gold_attacks(color, k).bitand(their_pieces).bitand(self.pseudo_golds());
        let r = pawns.bitor(knights).bitor(silvers).bitor(golds);
        proof {
            lemma_square_idx(k);
            lemma_wf_bits(self.inner);
            assert forall|i: int| #[trigger] bit(r.0, i) == (self.color_at(i) == Some(color.other()) && match self.piece_at(
                i,
            ) {
                Some(p) => p != Piece::King && step_attack(p, color.other(), i, k.idx()),
                None => false,
            }) by {
                if self.piece_at(i) is Some {
                    lemma_attack_symmetry(color.other(), i, k.idx());
                }
            }
        }
        r
    }

    /// The checkers and the pinned pieces of `color`: the opponent pieces that attack its
    /// king, and the pieces that alone stand between its king and an opponent slider.
    /// Without a king there are none.
    pub fn calculate_checkers_and_pins(&self, color: Color) -> (r: (BitBoard, BitBoard))
        requires
            self.pos().wf(),
        ensures
            r.0.wf(),
            r.1.wf(),
            self.checks_and_pins(color, r.0.0, r.1.0),
    {
        if !self.has(color, Piece::King) {
            return (BitBoard::empty(), BitBoard::empty());
        }
        let our_king = self.king(color);
        let att = self.slider_attackers(color, our_king);
        let occupied = self.occupied();
        let (slider_checkers, pinned) = slider_checks(att, our_king, occupied);
        let steps = self.step_checkers(color, our_king);
        let checkers = slider_checkers.bitor(steps);
        proof {
            let k = our_king.idx();
            assert forall|k2: int| #[trigger] self.is_king_sq(color, k2) implies k2 == k by {
                if k2 < k {
                    assert(!self.holds(k2, color, Piece::King));
                } else if k < k2 {
                    assert(!self.holds(k, color, Piece::King));
                }
            }
            assert forall|i: int| #[trigger] bit(checkers.0, i) == self.checker(color, k, i) by {}
            assert forall|u: int| #[trigger] bit(pinned.0, u) == self.pinned_at(color, k, u) by {
                if bit(pinned.0, u) {
                    let i = choose|i: int| #[trigger] bit(att.0, i) && !bit(0, i) && single_blocker(occupied.0, i, k, u);
                    assert(self.slider_on_line(color, k, i));
                }
                if self.pinned_at(color, k, u) {
                    let i = choose|i: int| #[trigger] self.slider_on_line(color, k, i) && single_blocker(self.occ(), i, k, u);
                    assert(bit(att.0, i) && !bit(0, i) && single_blocker(occupied.0, i, k, u));
                }
            }
        }
        (checkers, pinned)
    }
}


/// Two boards with the same position agree on everything the position decides: pawn files,
/// kings, checkers and pins.
proof fn lemma_board_same_pos(a: Board, b: Board)
    requires
        a.pos() == b.pos(),
    ensures
        forall|c: Color, f: int| #[trigger] a.pawn_on_file(c, f) == b.pawn_on_file(c, f),
        forall|c: Color, ch: u128, pi: u128| #[trigger] a.checks_and_pins(c, ch, pi) == b.checks_and_pins(c, ch, pi),
{
    assert forall|i: int, c: Color, p: Piece| #[trigger] a.holds(i, c, p) == b.holds(i, c, p) by {}
    assert forall|c: Color, f: int| #[trigger] a.pawn_on_file(c, f) == b.pawn_on_file(c, f) by {
        if a.pawn_on_file(c, f) {
            let i = choose|i: int| 0 <= i < 81 && i / 9 == f && #[trigger] a.holds(i, c, Piece::Pawn);
            assert(b.holds(i, c, Piece::Pawn));
        }
        if b.pawn_on_file(c, f) {
            let i = choose|i: int| 0 <= i < 81 && i / 9 == f && #[trigger] b.holds(i, c, Piece::Pawn);
            assert(a.holds(i, c, Piece::Pawn));
        }
    }
    assert forall|c: Color| #[trigger] a.has_king(c) == b.has_king(c) by {
        if a.has_king(c) {
            let i = choose|i: int| 0 <= i < 81 && #[trigger] a.holds(i, c, Piece::King);
            assert(b.holds(i, c, Piece::King));
        }
        if b.has_king(c) {
            let i = choose|i: int| 0 <= i < 81 && #[trigger] b.holds(i, c, Piece::King);
            assert(a.holds(i, c, Piece::King));
        }
    }
    assert forall|c: Color, k: int| #[trigger] a.is_king_sq(c, k) == b.is_king_sq(c, k) by {
        if a.is_king_sq(c, k) {
            assert forall|j: int| 0 <= j < k implies !#[trigger] b.holds(j, c, Piece::King) by {
                assert(!a.holds(j, c, Piece::King));
            }
        }
        if b.is_king_sq(c, k) {
            assert forall|j: int| 0 <= j < k implies !#[trigger] a.holds(j, c, Piece::King) by {
                assert(!b.holds(j, c, Piece::King));
            }
        }
    }
    assert forall|c: Color, k: int, i: int| #[trigger] a.checker(c, k, i) == b.checker(c, k, i) by {}
    assert forall|c: Color, k: int, i: int| #[trigger] a.slider_on_line(c, k, i) == b.slider_on_line(c, k, i) by {}
    assert forall|c: Color, k: int, u: int| #[trigger] a.pinned_at(c, k, u) == b.pinned_at(c, k, u) by {
        if a.pinned_at(c, k, u) {
            let i = choose|i: int| #[trigger] a.slider_on_line(c, k, i) && single_blocker(a.occ(), i, k, u);
            assert(b.slider_on_line(c, k, i));
        }
        if b.pinned_at(c, k, u) {
            let i = choose|i: int| #[trigger] b.slider_on_line(c, k, i) && single_blocker(b.occ(), i, k, u);
            assert(a.slider_on_line(c, k, i));
        }
    }
    assert forall|c: Color, ch: u128, pi: u128| #[trigger] a.checks_and_pins(c, ch, pi) == b.checks_and_pins(c, ch, pi) by {
        if a.checks_and_pins(c, ch, pi) {
            assert forall|k: int| #[trigger] b.is_king_sq(c, k) implies (forall|i: int| #[trigger] bit(ch, i)
                == b.checker(c, k, i)) && (forall|u: int| #[trigger] bit(pi, u) == b.pinned_at(c, k, u)) by {
                assert(a.is_king_sq(c, k));
                assert forall|i: int| #[trigger] bit(ch, i) == b.checker(c, k, i) by {
                    assert(a.checker(c, k, i) == b.checker(c, k, i));
                }
                assert forall|u: int| #[trigger] bit(pi, u) == b.pinned_at(c, k, u) by {
                    assert(a.pinned_at(c, k, u) == b.pinned_at(c, k, u));
                }
            }
        }
        if b.checks_and_pins(c, ch, pi) {
            assert forall|k: int| #[trigger] a.is_king_sq(c, k) implies (forall|i: int| #[trigger] bit(ch, i)
                == a.checker(c, k, i)) && (forall|u: int| #[trigger] bit(pi, u) == a.pinned_at(c, k, u)) by {
                assert(b.is_king_sq(c, k));
                assert forall|i: int| #[trigger] bit(ch, i) == a.checker(c, k, i) by {
                    assert(a.checker(c, k, i) == b.checker(c, k, i));
                }
                assert forall|u: int| #[trigger] bit(pi, u) == a.pinned_at(c, k, u) by {
                    assert(a.pinned_at(c, k, u) == b.pinned_at(c, k, u));
                }
            }
        }
    }
}

/// When no square of file index `f` changes whether it holds a pawn of `c`, neither does
/// the file.
pub(crate) proof fn lemma_pawn_file_same(a: Board, b: Board, c: Color, f: int)
    requires
        forall|i: int| 0 <= i < 81 && i / 9 == f ==> #[trigger] a.holds(i, c, Piece::Pawn) == b.holds(i, c, Piece::Pawn),
    ensures
        a.pawn_on_file(c, f) == b.pawn_on_file(c, f),
{
    if a.pawn_on_file(c, f) {
        let i = choose|i: int| 0 <= i < 81 && i / 9 == f && #[trigger] a.holds(i, c, Piece::Pawn);
        assert(b.holds(i, c, Piece::Pawn));
    }
    if b.pawn_on_file(c, f) {
        let i = choose|i: int| 0 <= i < 81 && i / 9 == f && #[trigger] b.holds(i, c, Piece::Pawn);
        assert(a.holds(i, c, Piece::Pawn));
    }
}

impl Default for Board {
    /// An empty board: no pieces, empty hands, Black to move and move number zero.
    fn default() -> (r: Board)
        ensures
            r.wf(),
            forall|i: int| #[trigger] r.content(i) is None,
            forall|c: Color, p: Piece| #[trigger] r.pos().hand_count(c, p) == 0,
            r.stm() == Color::Black,
            r.move_num() == 0,
    {
        let r = Board {
            inner: ZobristBoard::empty(),
            pinned: BitBoard::empty(),
            checkers: BitBoard::empty(),
            no_pawn_on_file: [BitBoard::full(), BitBoard::full()],
            move_number: 0,
        };
        proof {
            assert forall|c: Color| #[trigger] r.no_pawn_bb(c) <= BOARD_MASK by {
                lemma_color_idx(c);
            }
            assert forall|c: Color, i: int| 0 <= i < 81 implies (#[trigger] bit(r.no_pawn_bb(c), i) == !r.pawn_on_file(
                c,
                i / 9,
            )) by {
                lemma_color_idx(c);
                crate::bits::lemma_bit_board_mask(i);
            }
            assert(!r.has_king(r.stm()));
        }
        r
    }
}

impl Board {
    /// Recompute the pawn-file cache of `color` on `file`.
    fn refresh_pawn_file(&mut self, color: Color, file: File)
        requires
            old(self).pos().wf(),
            forall|c: Color| #[trigger] old(self).no_pawn_bb(c) <= BOARD_MASK,
        ensures
            final(self).pos() == old(self).pos(),
            final(self).checkers_bb() == old(self).checkers_bb(),
            final(self).pinned_bb() == old(self).pinned_bb(),
            final(self).move_num() == old(self).move_num(),
            forall|c: Color| #[trigger] final(self).no_pawn_bb(c) <= BOARD_MASK,
            forall|c: Color, i: int| 0 <= i < 81 ==> #[trigger] bit(final(self).no_pawn_bb(c), i) == (if c == color
                && i / 9 == file.idx() {
                !old(self).pawn_on_file(c, i / 9)
            } else {
                bit(old(self).no_pawn_bb(c), i)
            }),
    {
        let ghost pre = *self;
        let file_bb = file.bitboard();
        let pawns = self.colored_pieces(color, Piece::Pawn).bitand(file_bb);
        let ci = color.index();
        proof {
            lemma_color_idx(color);
            if pawns.0 != 0 {
                let i = crate::bitboard::lemma_nonzero_bit_index(pawns.0);
                assert(0 <= i < 81 && i / 9 == file.idx() && self.holds(i, color, Piece::Pawn));
            }
            if pre.pawn_on_file(color, file.idx()) {
                let i = choose|i: int| 0 <= i < 81 && i / 9 == file.idx() && #[trigger] pre.holds(i, color, Piece::Pawn);
                assert(bit(pawns.0, i));
                crate::bitboard::lemma_nonzero_bit(pawns.0, i);
            }
        }
        let cur = self.no_pawn_on_file[ci];
        proof {
            assert(cur.0 == pre.no_pawn_bb(color));
            assert(cur.wf());
        }
        if pawns.is_empty() {
            self.no_pawn_on_file[ci] = cur.bitor(file_bb);
        } else {
            self.no_pawn_on_file[ci] = cur.difference(file_bb);
        }
        proof {
            assert forall|c: Color| #[trigger] self.no_pawn_bb(c) <= BOARD_MASK by {
                lemma_color_idx(c);
                if c != color {
                    assert(self.no_pawn_bb(c) == pre.no_pawn_bb(c));
                }
            }
        }
    }

    /// Put `piece` of `color` on the empty `square`. The checkers and pins are not updated.
    #[verifier::rlimit(60)]
    pub fn unchecked_put(&mut self, color: Color, piece: Piece, square: Square)
        requires
            old(self).wf_basic(),
            old(self).piece_at(square.idx()) is None,
        ensures
            final(self).wf_basic(),
            final(self).stm() == old(self).stm(),
            final(self).move_num() == old(self).move_num(),
            forall|c: Color, p: Piece| #[trigger] final(self).pos().hand_count(c, p) == old(self).pos().hand_count(c, p),
            forall|i: int| #[trigger] final(self).content(i) == (if i == square.idx() {
                Some((piece, color))
            } else {
                old(self).content(i)
            }),
    {
        let ghost pre = *self;
        self.inner.xor_square(piece, color, square);
        let ghost mid = *self;
        proof {
            assert forall|c: Color| #[trigger] mid.no_pawn_bb(c) == pre.no_pawn_bb(c) by {}
            lemma_square_idx(square);
            assert forall|c: Color, f: int| !(c == color && f == square.file_idx() && piece == Piece::Pawn) implies pre.pawn_on_file(
                c,
                f,
            ) == mid.pawn_on_file(c, f) by {
                lemma_pawn_file_same(pre, mid, c, f);
            }
        }
        if piece == Piece::Pawn {
            self.refresh_pawn_file(color, square.file());
        }
        proof {
            let post = *self;
            lemma_board_same_pos(mid, post);
            assert forall|c: Color, i: int| 0 <= i < 81 implies (#[trigger] bit(post.no_pawn_bb(c), i) == !post.pawn_on_file(
                c,
                i / 9,
            )) by {
                assert(post.pawn_on_file(c, i / 9) == mid.pawn_on_file(c, i / 9));
                if !(c == color && i / 9 == square.file_idx() && piece == Piece::Pawn) {
                    assert(pre.pawn_on_file(c, i / 9) == mid.pawn_on_file(c, i / 9));
                }
            }
        }
    }

    /// Set the count of `piece` in the hand of `color`. The count is not checked against
    /// the pieces in play.
    #[verifier::rlimit(60)]
    pub fn unchecked_set_hand(&mut self, color: Color, piece: Piece, count: u8)
        requires
            old(self).wf_basic(),
            count < 20,
        ensures
            final(self).wf_basic(),
            final(self).stm() == old(self).stm(),
            final(self).move_num() == old(self).move_num(),
            forall|i: int| #[trigger] final(self).content(i) == old(self).content(i),
            forall|c: Color, p: Piece| #[trigger] final(self).pos().hand_count(c, p) == (if c == color && p == piece {
                count
            } else {
                old(self).pos().hand_count(c, p)
            }),
    {
        let ghost pre = *self;
        self.inner.unchecked_set_hand(color, piece, count);
        proof {
            assert forall|c: Color| #[trigger] self.no_pawn_bb(c) == pre.no_pawn_bb(c) by {}
            assert forall|c: Color, f: int| #[trigger] pre.pawn_on_file(c, f) == self.pawn_on_file(c, f) by {
                lemma_pawn_file_same(pre, *self, c, f);
            }
        }
    }

    /// Put one more of the unpromoted form of `piece` in the hand of `color`.
    #[verifier::rlimit(60)]
    pub fn take_in_hand(&mut self, color: Color, piece: Piece)
        requires
            old(self).wf_basic(),
            old(self).pos().hand_count(color, unpromoted(piece)) + 1 < 20,
        ensures
            final(self).wf_basic(),
            final(self).stm() == old(self).stm(),
            final(self).move_num() == old(self).move_num(),
            forall|i: int| #[trigger] final(self).content(i) == old(self).content(i),
            forall|c: Color, p: Piece| #[trigger] final(self).pos().hand_count(c, p) == (if c == color && p
                == unpromoted(piece) {
                old(self).pos().hand_count(c, p) + 1
            } else {
                old(self).pos().hand_count(c, p) as int
            }),
    {
        let ghost pre = *self;
        self.inner.take_in_hand(color, piece);
        proof {
            assert forall|c: Color| #[trigger] self.no_pawn_bb(c) == pre.no_pawn_bb(c) by {}
            assert forall|c: Color, f: int| #[trigger] pre.pawn_on_file(c, f) == self.pawn_on_file(c, f) by {
                lemma_pawn_file_same(pre, *self, c, f);
            }
        }
    }

    /// Compute the checkers and pins of the side to move and store them.
    #[verifier::rlimit(60)]
    pub fn update_checkers_and_pins(&mut self)
        requires
            old(self).wf_basic(),
        ensures
            final(self).wf(),
            final(self).pos() == old(self).pos(),
            final(self).move_num() == old(self).move_num(),
            forall|c: Color| #[trigger] final(self).no_pawn_bb(c) == old(self).no_pawn_bb(c),
    {
        let ghost pre = *self;
        let (checkers, pinned) = self.calculate_checkers_and_pins(self.side_to_move());
        self.checkers = checkers;
        self.pinned = pinned;
        proof {
            lemma_board_same_pos(pre, *self);
            assert forall|c: Color| #[trigger] self.no_pawn_bb(c) == pre.no_pawn_bb(c) by {}
        }
    }
}


impl Board {
    /// Drop `piece` of the side to move on the empty `to`.
    fn play_drop(&mut self, piece: Piece, to: Square)
        requires
            old(self).wf_basic(),
            old(self).pos().hand_count(old(self).stm(), unpromoted(piece)) > 0,
            old(self).piece_at(to.idx()) is None,
        ensures
            final(self).wf_basic(),
            final(self).stm() == old(self).stm(),
            final(self).move_num() == old(self).move_num(),
            forall|i: int| #[trigger] final(self).content(i) == old(self).content_after(Move::Drop { piece, to }, i),
            forall|c: Color, p: Piece| #[trigger] final(self).pos().hand_count(c, p) == old(self).hand_after(
                Move::Drop { piece, to },
                c,
                p,
            ),
    {
        let ghost pre = *self;
        let color = self.inner.side_to_move();
        self.inner.take_from_hand(color, piece);
        self.inner.xor_square(piece, color, to);
        let ghost mid = *self;
        proof {
            assert forall|c: Color| #[trigger] mid.no_pawn_bb(c) == pre.no_pawn_bb(c) by {}
            lemma_square_idx(to);
            assert forall|c: Color, f: int| !(c == color && f == to.file_idx() && piece == Piece::Pawn) implies pre.pawn_on_file(
                c,
                f,
            ) == mid.pawn_on_file(c, f) by {
                lemma_pawn_file_same(pre, mid, c, f);
            }
        }
        if piece == Piece::Pawn {
            self.refresh_pawn_file(color, to.file());
        }
        proof {
            let post = *self;
            lemma_board_same_pos(mid, post);
            assert forall|c: Color, i: int| 0 <= i < 81 implies (#[trigger] bit(post.no_pawn_bb(c), i) == !post.pawn_on_file(
                c,
                i / 9,
            )) by {
                if !(c == color && i / 9 == to.file_idx() && piece == Piece::Pawn) {
                    assert(pre.pawn_on_file(c, i / 9) == mid.pawn_on_file(c, i / 9));
                }
            }
        }
    }

    /// Move the piece of the side to move on `from` to `to`, capturing what stands there and
    /// promoting when asked.
    #[verifier::rlimit(60)]
    fn play_board_move(&mut self, from: Square, to: Square, promotion: bool)
        requires
            old(self).wf_basic(),
            old(self).can_play(Move::BoardMove { from, to, promotion }),
        ensures
            final(self).wf_basic(),
            final(self).stm() == old(self).stm(),
            final(self).move_num() == old(self).move_num(),
            forall|i: int| #[trigger] final(self).content(i) == old(self).content_after(
                Move::BoardMove { from, to, promotion },
                i,
            ),
            forall|c: Color, p: Piece| #[trigger] final(self).pos().hand_count(c, p) == old(self).hand_after(
                Move::BoardMove { from, to, promotion },
                c,
                p,
            ),
    {
        let ghost pre = *self;
        let color = self.inner.side_to_move();
        proof {
            lemma_square_idx(from);
            lemma_square_idx(to);
            lemma_wf_bits(self.inner);
        }
        let piece = match self.piece_on(from) {
            Some(p) => p,
            None => Piece::Pawn,
        };
        let capture = self.piece_on(to);
        match capture {
            Some(q) => {
                self.inner.xor_square(q, color.not(), to);
                self.inner.take_in_hand(color, q);
            },
            None => {},
        }
        self.inner.xor_square(piece, color, from);
        let final_piece = if promotion {
            piece.promote()
        } else {
            piece
        };
        self.inner.xor_square(final_piece, color, to);
        let ghost mid = *self;
        proof {
            assert forall|c: Color| #[trigger] mid.no_pawn_bb(c) == pre.no_pawn_bb(c) by {}
            assert forall|i: int| #[trigger] mid.content(i) == pre.content_after(Move::BoardMove { from, to, promotion }, i) by {}
            assert forall|c: Color, f: int| !(c == color.other() && f == to.file_idx() && capture == Some(Piece::Pawn))
                && !(c == color && (f == to.file_idx() || f == from.file_idx()) && piece == Piece::Pawn) implies pre.pawn_on_file(
                c,
                f,
            ) == mid.pawn_on_file(c, f) by {
                assert forall|i: int| 0 <= i < 81 && i / 9 == f implies #[trigger] pre.holds(i, c, Piece::Pawn) == mid.holds(
                    i,
                    c,
                    Piece::Pawn,
                ) by {
                    assert(mid.content(i) == pre.content_after(Move::BoardMove { from, to, promotion }, i));
                }
                lemma_pawn_file_same(pre, mid, c, f);
            }
        }
        if capture == Some(Piece::Pawn) {
            self.refresh_pawn_file(color.not(), to.file());
        }
        let ghost mid2 = *self;
        proof {
            lemma_board_same_pos(mid, mid2);
        }
        if piece == Piece::Pawn {
            self.refresh_pawn_file(color, to.file());
            let ghost mid3 = *self;
            proof {
                lemma_board_same_pos(mid, mid3);
            }
            self.refresh_pawn_file(color, from.file());
            proof {
                let post = *self;
                lemma_board_same_pos(mid, post);
                assert forall|c: Color, i: int| 0 <= i < 81 implies (#[trigger] bit(post.no_pawn_bb(c), i)
                    == !post.pawn_on_file(c, i / 9)) by {
                    let f = i / 9;
                    assert(mid.pawn_on_file(c, f) == post.pawn_on_file(c, f));
                    assert(mid.pawn_on_file(c, f) == mid2.pawn_on_file(c, f));
                    assert(mid.pawn_on_file(c, f) == mid3.pawn_on_file(c, f));
                    if c == color && f == from.file_idx() {
                        assert(bit(post.no_pawn_bb(c), i) == !mid3.pawn_on_file(c, f));
                    } else {
                        assert(bit(post.no_pawn_bb(c), i) == bit(mid3.no_pawn_bb(c), i));
                        if c == color && f == to.file_idx() {
                            assert(bit(mid3.no_pawn_bb(c), i) == !mid2.pawn_on_file(c, f));
                        } else {
                            assert(bit(mid3.no_pawn_bb(c), i) == bit(mid2.no_pawn_bb(c), i));
                            if c == color.other() && f == to.file_idx() && capture == Some(Piece::Pawn) {
                                assert(bit(mid2.no_pawn_bb(c), i) == !mid.pawn_on_file(c, f));
                            } else {
                                assert(bit(mid2.no_pawn_bb(c), i) == bit(mid.no_pawn_bb(c), i));
                                assert(bit(mid.no_pawn_bb(c), i) == bit(pre.no_pawn_bb(c), i));
                                assert(pre.pawn_on_file(c, f) == mid.pawn_on_file(c, f));
                            }
                        }
                    }
                }
            }
        } else {
            proof {
                let post = *self;
                assert forall|c: Color, i: int| 0 <= i < 81 implies (#[trigger] bit(post.no_pawn_bb(c), i)
                    == !post.pawn_on_file(c, i / 9)) by {
                    let f = i / 9;
                    assert(post == mid2);
                    if c == color.other() && f == to.file_idx() && capture == Some(Piece::Pawn) {
                        assert(bit(mid2.no_pawn_bb(c), i) == !mid.pawn_on_file(c, f));
                    } else {
                        assert(bit(mid2.no_pawn_bb(c), i) == bit(mid.no_pawn_bb(c), i));
                        assert(bit(mid.no_pawn_bb(c), i) == bit(pre.no_pawn_bb(c), i));
                        assert(!(c == color && (f == to.file_idx() || f == from.file_idx()) && piece == Piece::Pawn));
                        assert(pre.pawn_on_file(c, f) == mid.pawn_on_file(c, f));
                    }
                }
            }
        }
    }

    /// Play `mv` for the side to move without checking that it is legal, then pass the
    /// move and compute the checkers and pins of the new side to move.
    #[verifier::rlimit(100)]
    pub fn play_unchecked(&mut self, mv: Move)
        requires
            old(self).wf_basic(),
            old(self).can_play(mv),
        ensures
            old(self).played(*final(self), mv),
    {
        let ghost pre = *self;
        match mv {
            Move::Drop { piece, to } => self.play_drop(piece, to),
            Move::BoardMove { from, to, promotion } => self.play_board_move(from, to, promotion),
        }
        let ghost mid = *self;
        self.move_number = self.move_number + 1;
        self.inner.toggle_side_to_move();
        let ghost mid2 = *self;
        proof {
            assert forall|c: Color| #[trigger] mid2.no_pawn_bb(c) == mid.no_pawn_bb(c) by {}
            assert forall|c: Color, f: int| #[trigger] mid.pawn_on_file(c, f) == mid2.pawn_on_file(c, f) by {
                lemma_pawn_file_same(mid, mid2, c, f);
            }
            assert forall|i: int| #[trigger] mid2.content(i) == mid.content(i) by {}
        }
        self.update_checkers_and_pins();
        proof {
            assert forall|i: int| #[trigger] self.content(i) == mid2.content(i) by {}
            assert forall|c: Color, p: Piece| #[trigger] self.pos().hand_count(c, p) == mid.pos().hand_count(c, p) by {}
        }
    }

    /// Pass: the same position with the other side to move, unless the side to move is in
    /// check, when there is no such board.
    #[verifier::rlimit(100)]
    pub fn null_move(&self) -> (r: Option<Board>)
        requires
            self.wf(),
            self.has_king(self.stm()),
            self.move_num() < 0xffff,
        ensures
            self.checkers_bb() != 0 ==> r is None,
            self.checkers_bb() == 0 ==> (r matches Some(b) && b.wf() && b.stm() == self.stm().other()
                && b.move_num() == self.move_num() + 1 && (forall|i: int| #[trigger] b.content(i) == self.content(i))
                && (forall|c: Color, p: Piece| #[trigger] b.pos().hand_count(c, p) == self.pos().hand_count(c, p))),
    {
        if self.checkers.is_empty() {
            let mut board = *self;
            board.move_number = board.move_number + 1;
            board.inner.toggle_side_to_move();
            let ghost mid = board;
            proof {
                assert forall|c: Color| #[trigger] mid.no_pawn_bb(c) == self.no_pawn_bb(c) by {}
                assert forall|c: Color, f: int| #[trigger] self.pawn_on_file(c, f) == mid.pawn_on_file(c, f) by {
                    lemma_pawn_file_same(*self, mid, c, f);
                }
                assert forall|i: int| #[trigger] mid.content(i) == self.content(i) by {}
            }
            board.update_checkers_and_pins();
            Some(board)
        } else {
            None
        }
    }
}

/// A well-formed board is determined by its position and move number: the pieces on the
/// board, the hands, the side to move and the move number fix the checkers, the pins and
/// everything else it stores.
pub proof fn lemma_board_determined(a: Board, b: Board)
    requires
        a.wf(),
        b.wf(),
        forall|i: int| #[trigger] a.content(i) == b.content(i),
        forall|c: Color, p: Piece| #[trigger] a.pos().hand_count(c, p) == b.pos().hand_count(c, p),
        a.stm() == b.stm(),
        a.move_num() == b.move_num(),
    ensures
        a == b,
{
    assert forall|i: int| #[trigger] a.pos().piece_at(i) == b.pos().piece_at(i) by {
        assert(a.content(i) == b.content(i));
        assert((a.pos().piece_at(i) is Some) == (a.pos().color_at(i) is Some));
        assert((b.pos().piece_at(i) is Some) == (b.pos().color_at(i) is Some));
    }
    assert forall|i: int| #[trigger] a.pos().color_at(i) == b.pos().color_at(i) by {
        assert(a.content(i) == b.content(i));
        assert((a.pos().piece_at(i) is Some) == (a.pos().color_at(i) is Some));
        assert((b.pos().piece_at(i) is Some) == (b.pos().color_at(i) is Some));
    }
    crate::board::zobrist::lemma_zobrist_determined(a.pos(), b.pos());
    lemma_board_same_pos(a, b);
    crate::board::validate::lemma_checks_unique(a, a.stm(), a.checkers_bb(), a.pinned_bb(), b.checkers_bb(), b.pinned_bb());
    assert(a.checkers == b.checkers);
    assert(a.pinned == b.pinned);
    assert forall|k: int| 0 <= k < 2 implies #[trigger] a.no_pawn_on_file[k] == b.no_pawn_on_file[k] by {
        let c = Color::from_idx(k);
        assert forall|i: int| 0 <= i < 81 implies bit(a.no_pawn_on_file[k].0, i) == bit(b.no_pawn_on_file[k].0, i) by {
            assert(bit(a.no_pawn_bb(c), i) == !a.pawn_on_file(c, i / 9));
            assert(bit(b.no_pawn_bb(c), i) == !b.pawn_on_file(c, i / 9));
        }
        assert(a.no_pawn_bb(c) <= BOARD_MASK && b.no_pawn_bb(c) <= BOARD_MASK);
        lemma_board_ext(a.no_pawn_on_file[k], b.no_pawn_on_file[k]);
    }
    assert(a.no_pawn_on_file =~= b.no_pawn_on_file);
}

} // verus!
