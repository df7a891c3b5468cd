//! The moves of one piece, packed as a set of target squares, and iteration over them.
use vstd::prelude::*;
use crate::bitboard::{BitBoard, bit, popcount, BOARD_MASK};
use crate::bits::{count_bits, lemma_popcount_board, lemma_count_ext};
use crate::color::Color;
use crate::piece::{Piece, must_promote_at, in_promotion_zone};
use crate::rank::{prom_zone, must_prom_zone};
use crate::shogi_move::Move;
use crate::square::{Square, lemma_square_idx, lemma_square_from_idx};

verus! {

broadcast use crate::bits::group_bit_lemmas;

/// Whether a board move may, must or cannot promote.
#[derive(Debug, Clone, Copy, PartialEq, Eq, Hash, Structural)]
pub enum PromotionStatus {
    /// Not decided yet: decided square by square when the moves are unpacked.
    Undecided,
    /// The move may promote or not.
    MayPromote,
    /// The move cannot promote.
    CannotPromote,
    /// The move must promote.
    MustPromote,
}

/// The promotion status of `piece` of `color` moving from `from` to `to`: it must promote
/// where it could not move again, it may promote when it can promote at all and either
/// square lies in the promotion zone, and otherwise it cannot.
pub open spec fn promotion_status(color: Color, piece: Piece, from: Square, to: Square) -> PromotionStatus {
    if must_promote_at(piece, color, to.rank_idx()) {
        PromotionStatus::MustPromote
    } else if piece.idx() < 6 && (in_promotion_zone(color, to.rank_idx()) || in_promotion_zone(
        color,
        from.rank_idx(),
    )) {
        PromotionStatus::MayPromote
    } else {
        PromotionStatus::CannotPromote
    }
}

/// Combine two statuses, the first taking priority: an undecided status yields to the
/// other, a definite one stays, and "may" yields to anything but "undecided".
pub open spec fn combine(a: PromotionStatus, b: PromotionStatus) -> PromotionStatus {
    match a {
        PromotionStatus::Undecided => b,
        PromotionStatus::CannotPromote => a,
        PromotionStatus::MustPromote => a,
        PromotionStatus::MayPromote => match b {
            PromotionStatus::Undecided => a,
            _ => b,
        },
    }
}

impl PromotionStatus {
    /// The promotion status of `piece` of `color` moving from `from` to `to`.
    pub fn new(color: Color, piece: Piece, from: Square, to: Square) -> (r: PromotionStatus)
        ensures
            r == promotion_status(color, piece, from, to),
    {
        if piece.must_promote(color, to) {
            PromotionStatus::MustPromote
        } else if piece.can_promote(color, to) || piece.can_promote(color, from) {
            PromotionStatus::MayPromote
        } else {
            PromotionStatus::CannotPromote
        }
    }

    /// Combine two statuses, this one taking priority (see [`combine`]).
    pub fn bitand(self, rhs: PromotionStatus) -> (r: PromotionStatus)
        ensures
            r == combine(self, rhs),
    {
        match (self, rhs) {
            (PromotionStatus::Undecided, _) => rhs,
            (PromotionStatus::CannotPromote, _) => self,
            (PromotionStatus::MustPromote, _) => self,
            (PromotionStatus::MayPromote, PromotionStatus::Undecided) => self,
            (PromotionStatus::MayPromote, _) => rhs,
        }
    }
}

/// All the moves of one piece: drops of a piece from hand, or board moves of the piece on
/// `from`, onto each square of `to`.
#[derive(Debug, Clone, Copy, PartialEq, Eq, Hash, Structural)]
pub enum PieceMoves {
    /// Drops of `piece` onto the squares of `to`.
    Drops {
        /// The side that drops.
        color: Color,
        /// The piece dropped.
        piece: Piece,
        /// The target squares.
        to: BitBoard,
    },
    /// Moves of `piece` from `from` onto the squares of `to`.
    BoardMoves {
        /// The side that moves.
        color: Color,
        /// The piece moved.
        piece: Piece,
        /// The square moved from.
        from: Square,
        /// The target squares.
        to: BitBoard,
        /// Whether the moves promote; `Undecided` decides per target square.
        prom_status: PromotionStatus,
    },
}

/// The moves onto one target square of the board moves from `from` whose combined status
/// is `st`: a promotion and a non-promotion when it may promote, otherwise one move.
pub open spec fn moves_onto(from: Square, to: Square, st: PromotionStatus) -> Seq<Move> {
    match st {
        PromotionStatus::MayPromote => seq![
            Move::BoardMove { from, to, promotion: true },
            Move::BoardMove { from, to, promotion: false },
        ],
        PromotionStatus::MustPromote => seq![Move::BoardMove { from, to, promotion: true }],
        _ => seq![Move::BoardMove { from, to, promotion: false }],
    }
}

impl PieceMoves {
    /// The target squares.
    pub open spec fn targets(self) -> BitBoard {
        match self {
            PieceMoves::Drops { to, .. } => to,
            PieceMoves::BoardMoves { to, .. } => to,
        }
    }

    /// The same moves with other target squares.
    pub open spec fn with_targets(self, t: BitBoard) -> PieceMoves {
        match self {
            PieceMoves::Drops { color, piece, .. } => PieceMoves::Drops { color, piece, to: t },
            PieceMoves::BoardMoves { color, piece, from, prom_status, .. } => PieceMoves::BoardMoves {
                color,
                piece,
                from,
                to: t,
                prom_status,
            },
        }
    }

    /// The combined promotion status of the board move onto square index `t`.
    pub open spec fn status_at(self, t: int) -> PromotionStatus {
        match self {
            PieceMoves::Drops { .. } => PromotionStatus::CannotPromote,
            PieceMoves::BoardMoves { color, piece, from, prom_status, .. } => combine(
                prom_status,
                promotion_status(color, piece, from, Square::from_idx(t)),
            ),
        }
    }

    /// The moves onto square index `t`, when it is a target.
    pub open spec fn moves_at(self, t: int) -> Seq<Move> {
        if !bit(self.targets().0, t) {
            Seq::empty()
        } else {
            match self {
                PieceMoves::Drops { piece, .. } => seq![Move::Drop { piece, to: Square::from_idx(t) }],
                PieceMoves::BoardMoves { from, .. } => moves_onto(from, Square::from_idx(t), self.status_at(t)),
            }
        }
    }

    /// The moves onto the targets from square index `k` on, in square order.
    pub open spec fn moves_from(self, k: int) -> Seq<Move>
        decreases 81 - k,
    {
        if k >= 81 {
            Seq::empty()
        } else {
            self.moves_at(k) + self.moves_from(k + 1)
        }
    }

    /// All the moves, in the order iteration yields them: by target square, and for each a
    /// promotion before the non-promotion.
    pub open spec fn spec_moves(self) -> Seq<Move> {
        self.moves_from(0)
    }

    /// The move is one of these moves.
    pub open spec fn holds(self, mv: Move) -> bool {
        match (self, mv) {
            (
                PieceMoves::BoardMoves { from, to, .. },
                Move::BoardMove { from: f, to: t, promotion },
            ) => from == f && bit(to.0, t.idx()) && match self.status_at(t.idx()) {
                PromotionStatus::CannotPromote => !promotion,
                PromotionStatus::MustPromote => promotion,
                PromotionStatus::MayPromote => true,
                PromotionStatus::Undecided => false,
            },
            (PieceMoves::Drops { piece, to, .. }, Move::Drop { piece: p, to: t }) => piece == p && bit(
                to.0,
                t.idx(),
            ),
            _ => false,
        }
    }

    /// The squares where a board move can go both ways, promoting or not.
    pub open spec fn extra_at(self, t: int) -> bool {
        self.status_at(t) == PromotionStatus::MayPromote
    }

    /// The number of target squares; iteration yields at least that many moves, and up to
    /// twice as many when moves may promote.
    pub fn len(&self) -> (r: usize)
        ensures
            r == popcount(self.targets().0),
    {
        match self {
            PieceMoves::Drops { to, .. } => to.len() as usize,
            PieceMoves::BoardMoves { to, .. } => to.len() as usize,
        }
    }

    /// Are there no target squares?
    pub fn is_empty(&self) -> (r: bool)
        ensures
            r == (self.targets().0 == 0),
    {
        match self {
            PieceMoves::Drops { to, .. } => to.is_empty(),
            PieceMoves::BoardMoves { to, .. } => to.is_empty(),
        }
    }

    /// Is `mv` one of these moves?
    pub fn has(&self, mv: Move) -> (r: bool)
        ensures
            r == self.holds(mv),
    {
        match (self, mv) {
            (
                PieceMoves::BoardMoves { color, piece, from, to, prom_status },
                Move::BoardMove { from: mv_from, to: mv_to, promotion },
            ) => {
                if *from != mv_from || !to.has(mv_to) {
                    return false;
                }
                proof {
                    lemma_square_idx(mv_to);
                }
                match prom_status.bitand(PromotionStatus::new(*color, *piece, *from, mv_to)) {
                    PromotionStatus::CannotPromote => !promotion,
                    PromotionStatus::MustPromote => promotion,
                    PromotionStatus::MayPromote => true,
                    PromotionStatus::Undecided => false,
                }
            },
            (PieceMoves::Drops { piece, to, .. }, Move::Drop { piece: mv_piece, to: mv_to }) => *piece
                == mv_piece && to.has(mv_to),
            _ => false,
        }
    }

    /// An iterator over the moves.
    pub fn into_iter(self) -> (r: PieceMovesIter)
        requires
            self.targets().wf(),
        ensures
            r.wf(),
            r.remaining() == self.spec_moves(),
    {
        PieceMovesIter::new(self)
    }

    /// All the moves, in iteration order.
    pub fn to_vec(self) -> (r: Vec<Move>)
        requires
            self.targets().wf(),
        ensures
            r@ == self.spec_moves(),
    {
        let mut iter = PieceMovesIter::new(self);
        let mut v: Vec<Move> = Vec::new();
        loop
            invariant
                iter.wf(),
                v@ + iter.remaining() == self.spec_moves(),
            decreases iter.remaining().len(),
        {
            let ghost before = iter.remaining();
            match iter.next() {
                Some(mv) => {
                    v.push(mv);
                    proof {
                        assert(v@ + iter.remaining() =~= self.spec_moves());
                    }
                },
                None => {
                    proof {
                        assert(v@ =~= self.spec_moves());
                    }
                    return v;
                },
            }
        }
    }
}

/// The moves onto targets from `k` on depend only on the targets from `k` on.
proof fn lemma_moves_from_ext(a: PieceMoves, b: PieceMoves, k: int)
    requires
        b == a.with_targets(b.targets()),
        forall|i: int| k <= i < 81 ==> #[trigger] bit(a.targets().0, i) == bit(b.targets().0, i),
    ensures
        a.moves_from(k) == b.moves_from(k),
    decreases 81 - k,
{
    if k < 81 {
        lemma_moves_from_ext(a, b, k + 1);
        assert(a.moves_at(k) == b.moves_at(k));
    }
}

/// Without targets from `k` up to `s`, the moves from `k` on are those from `s` on.
proof fn lemma_moves_from_skip(a: PieceMoves, k: int, s: int)
    requires
        k <= s <= 81,
        forall|i: int| k <= i < s ==> !#[trigger] bit(a.targets().0, i),
    ensures
        a.moves_from(k) == a.moves_from(s),
    decreases s - k,
{
    if k < s {
        lemma_moves_from_skip(a, k + 1, s);
        assert(a.moves_at(k) =~= Seq::<Move>::empty());
        assert(a.moves_from(k) =~= a.moves_from(k + 1));
    }
}

/// The number of moves from `k` on: one per target square, and one more per target square
/// where the move may promote or not.
proof fn lemma_moves_from_len(a: PieceMoves, extra: u128, k: int)
    requires
        0 <= k <= 81,
        forall|i: int| 0 <= i < 81 ==> #[trigger] bit(extra, i) == (bit(a.targets().0, i) && a.extra_at(i)),
    ensures
        a.moves_from(k).len() == count_bits(a.targets().0, k, 81) + count_bits(extra, k, 81),
    decreases 81 - k,
{
    if k < 81 {
        lemma_moves_from_len(a, extra, k + 1);
    }
}

/// A concatenation holds what either part holds.
proof fn lemma_concat_contains(head: Seq<Move>, tail: Seq<Move>, mv: Move)
    ensures
        (head + tail).contains(mv) <==> (head.contains(mv) || tail.contains(mv)),
{
    if (head + tail).contains(mv) {
        let j = choose|j: int| 0 <= j < (head + tail).len() && (head + tail)[j] == mv;
        if j >= head.len() {
            assert(tail[j - head.len()] == mv);
        } else {
            assert(head[j] == mv);
        }
    }
    if head.contains(mv) {
        let j = choose|j: int| 0 <= j < head.len() && head[j] == mv;
        assert((head + tail)[j] == mv);
    }
    if tail.contains(mv) {
        let j = choose|j: int| 0 <= j < tail.len() && tail[j] == mv;
        assert((head + tail)[j + head.len()] == mv);
    }
}

/// The moves onto square index `k` are those held moves that land on `k`.
proof fn lemma_moves_at_holds(a: PieceMoves, k: int, mv: Move)
    requires
        0 <= k < 81,
    ensures
        a.moves_at(k).contains(mv) <==> (a.holds(mv) && mv.to_idx() == k),
{
    lemma_square_from_idx(k);
    lemma_square_idx(mv.to_square());
    let head = a.moves_at(k);
    if head.contains(mv) {
        let j = choose|j: int| 0 <= j < head.len() && head[j] == mv;
        match a {
            PieceMoves::Drops { .. } => {},
            PieceMoves::BoardMoves { color, piece, from, prom_status, .. } => {
                let st = a.status_at(k);
                assert(st != PromotionStatus::Undecided);
                if st == PromotionStatus::MayPromote {
                    assert(j == 0 || j == 1);
                }
            },
        }
    }
    if a.holds(mv) && mv.to_idx() == k {
        assert(Square::from_idx(k) == mv.to_square());
        match a {
            PieceMoves::Drops { .. } => {
                assert(head[0] == mv);
            },
            PieceMoves::BoardMoves { .. } => {
                match mv {
                    Move::BoardMove { promotion, .. } => {
                        if a.status_at(k) == PromotionStatus::MayPromote {
                            if promotion {
                                assert(head[0] == mv);
                            } else {
                                assert(head[1] == mv);
                            }
                        } else {
                            assert(head[0] == mv);
                        }
                    },
                    _ => {},
                }
            },
        }
    }
}

/// A move is among the moves from `k` on exactly when it is one of the moves and its target
/// square is `k` or beyond.
proof fn lemma_moves_from_holds(a: PieceMoves, k: int, mv: Move)
    requires
        0 <= k <= 81,
    ensures
        a.moves_from(k).contains(mv) <==> (a.holds(mv) && mv.to_idx() >= k),
    decreases 81 - k,
{
    lemma_square_idx(mv.to_square());
    if k < 81 {
        lemma_moves_from_holds(a, k + 1, mv);
        lemma_concat_contains(a.moves_at(k), a.moves_from(k + 1), mv);
        lemma_moves_at_holds(a, k, mv);
    }
}

/// The moves of a [`PieceMoves`] are exactly those it holds: iterating yields a move just
/// when [`PieceMoves::has`] answers yes.
pub proof fn lemma_iteration_matches_has(a: PieceMoves, mv: Move)
    ensures
        a.spec_moves().contains(mv) <==> a.holds(mv),
{
    lemma_moves_from_holds(a, 0, mv);
    lemma_square_idx(mv.to_square());
}

/// An iterator over the moves of a [`PieceMoves`].
pub struct PieceMovesIter {
    moves: PieceMoves,
    // set after a promotion was returned, when the non-promotion onto the same square is due
    to: Option<Square>,
    // 2 for a board move of a piece that can promote, 1 otherwise
    promotion_factor: usize,
}

impl PieceMovesIter {
    /// The targets are a board, a pending non-promotion only follows a board move that
    /// could promote, and the promotion factor matches the piece.
    pub closed spec fn wf(self) -> bool {
        &&& self.moves.targets().wf()
        &&& (self.to is Some ==> self.moves is BoardMoves)
        &&& self.promotion_factor == (match self.moves {
            PieceMoves::BoardMoves { piece, .. } => if piece.idx() < 6 {
                2usize
            } else {
                1usize
            },
            _ => 1usize,
        })
    }

    /// The moves still to come.
    pub closed spec fn remaining(self) -> Seq<Move> {
        match (self.to, self.moves) {
            (Some(s), PieceMoves::BoardMoves { from, .. }) => seq![
                Move::BoardMove { from, to: s, promotion: false },
            ] + self.moves.spec_moves(),
            _ => self.moves.spec_moves(),
        }
    }

    fn new(moves: PieceMoves) -> (r: PieceMovesIter)
        requires
            moves.targets().wf(),
        ensures
            r.wf(),
            r.remaining() == moves.spec_moves(),
    {
        let promotion_factor = match moves {
            PieceMoves::BoardMoves { piece, .. } => if piece.is_promotable() {
                2
            } else {
                1
            },
            _ => 1,
        };
        PieceMovesIter { moves, to: None, promotion_factor }
    }

    /// The next move, if any.
    pub fn next(&mut self) -> (r: Option<Move>)
        requires
            old(self).wf(),
        ensures
            final(self).wf(),
            old(self).remaining().len() == 0 ==> r is None && final(self).remaining() == old(self).remaining(),
            old(self).remaining().len() > 0 ==> r == Some(old(self).remaining()[0])
                && final(self).remaining() == old(self).remaining().drop_first(),
    {
        let ghost pre = *self;
        match self.moves {
            PieceMoves::Drops { color, piece, to } => {
                match to.next_square() {
                    None => {
                        proof {
                            lemma_moves_from_skip(self.moves, 0, 81);
                        }
                        None
                    },
                    Some(s) => {
                        let rest = to.bitxor(s.bitboard());
                        self.moves = PieceMoves::Drops { color, piece, to: rest };
                        proof {
                            lemma_square_idx(s);
                            let si = s.idx();
                            lemma_moves_from_skip(pre.moves, 0, si);
                            lemma_moves_from_ext(pre.moves, self.moves, si + 1);
                            lemma_moves_from_skip(self.moves, 0, si + 1);
                            assert(pre.moves.moves_at(si) =~= seq![Move::Drop { piece, to: s }]);
                            assert(pre.remaining().drop_first() =~= self.remaining());
                        }
                        Some(Move::Drop { piece, to: s })
                    },
                }
            },
            PieceMoves::BoardMoves { color, piece, from, to, prom_status } => {
                match self.to {
                    Some(s) => {
                        self.to = None;
                        proof {
                            assert(pre.remaining().drop_first() =~= self.remaining());
                        }
                        Some(Move::BoardMove { from, to: s, promotion: false })
                    },
                    None => {
                        match to.next_square() {
                            None => {
                                proof {
                                    lemma_moves_from_skip(self.moves, 0, 81);
                                }
                                None
                            },
                            Some(s) => {
                                let rest = to.bitxor(s.bitboard());
                                self.moves = PieceMoves::BoardMoves { color, piece, from, to: rest, prom_status };
                                let st = prom_status.bitand(PromotionStatus::new(color, piece, from, s));
                                proof {
                                    lemma_square_idx(s);
                                    let si = s.idx();
                                    lemma_moves_from_skip(pre.moves, 0, si);
                                    lemma_moves_from_ext(pre.moves, self.moves, si + 1);
                                    lemma_moves_from_skip(self.moves, 0, si + 1);
                                    assert(pre.moves.moves_at(si) == moves_onto(from, s, st));
                                }
                                match st {
                                    PromotionStatus::MayPromote => {
                                        self.to = Some(s);
                                        proof {
                                            assert(pre.remaining().drop_first() =~= self.remaining());
                                        }
                                        Some(Move::BoardMove { from, to: s, promotion: true })
                                    },
                                    PromotionStatus::MustPromote => {
                                        proof {
                                            assert(pre.remaining().drop_first() =~= self.remaining());
                                        }
                                        Some(Move::BoardMove { from, to: s, promotion: true })
                                    },
                                    _ => {
                                        proof {
                                            assert(pre.remaining().drop_first() =~= self.remaining());
                                        }
                                        Some(Move::BoardMove { from, to: s, promotion: false })
                                    },
                                }
                            },
                        }
                    },
                }
            },
        }
    }

    /// The squares where a board move can still go both ways.
    fn extra_squares(&self) -> (r: BitBoard)
        requires
            self.wf(),
        ensures
            r.wf(),
            forall|i: int| 0 <= i < 81 ==> #[trigger] bit(r.0, i) == self.moves.extra_at(i),
    {
        match self.moves {
            PieceMoves::Drops { .. } => BitBoard::empty(),
            PieceMoves::BoardMoves { color, piece, from, prom_status, .. } => {
                if !piece.is_promotable() || prom_status == PromotionStatus::CannotPromote || prom_status
                    == PromotionStatus::MustPromote {
                    BitBoard::empty()
                } else {
                    let zone = prom_zone(color);
                    let free = must_prom_zone(color, piece).not();
                    proof {
                        lemma_square_idx(from);
                        assert forall|i: int| 0 <= i < 81 implies Square::from_idx(i).rank_idx() == i % 9 by {
                            lemma_square_from_idx(i);
                        }
                    }
                    if zone.has(from) {
                        free
                    } else {
                        zone.bitand(free)
                    }
                }
            },
        }
    }

    /// The exact number of moves still to come.
    pub fn len(&self) -> (r: usize)
        requires
            self.wf(),
        ensures
            r == self.remaining().len(),
    {
        let to = self.moves_targets();
        let ex = self.extra_squares();
        let extra = ex.bitand(to);
        let pending: usize = if self.to.is_some() {
            1
        } else {
            0
        };
        proof {
            lemma_moves_from_len(self.moves, extra.0, 0);
            lemma_popcount_board(to.0);
            lemma_popcount_board(extra.0);
            crate::bits::lemma_popcount_le(to.0);
            crate::bits::lemma_popcount_le(extra.0);
        }
        pending + to.len() as usize + extra.len() as usize
    }

    /// Bounds on the number of moves still to come: each target square gives at least one
    /// move, and at most `promotion_factor` moves.
    pub fn size_hint(&self) -> (r: (usize, Option<usize>))
        requires
            self.wf(),
        ensures
            r.0 <= self.remaining().len(),
            r.1 matches Some(hi) && self.remaining().len() <= hi,
    {
        let to = self.moves_targets();
        let ex = self.extra_squares();
        let extra = ex.bitand(to);
        let n = to.len() as usize;
        let pending: usize = if self.to.is_some() {
            1
        } else {
            0
        };
        proof {
            lemma_moves_from_len(self.moves, extra.0, 0);
            lemma_popcount_board(to.0);
            lemma_popcount_board(extra.0);
            lemma_extra_bound(self.moves, extra.0, to.0, 0);
            crate::bits::lemma_popcount_le(to.0);
            if self.promotion_factor == 1 {
                lemma_no_extra(self.moves, extra.0, 0);
            }
        }
        (n + pending, Some(self.promotion_factor * n + pending))
    }

    fn moves_targets(&self) -> (r: BitBoard)
        requires
            self.wf(),
        ensures
            r == self.moves.targets(),
            r.wf(),
    {
        match self.moves {
            PieceMoves::Drops { to, .. } => to,
            PieceMoves::BoardMoves { to, .. } => to,
        }
    }
}

/// The extra squares are among the targets, so they count at most as many.
proof fn lemma_extra_bound(a: PieceMoves, extra: u128, to: u128, k: int)
    requires
        0 <= k <= 81,
        to == a.targets().0,
        forall|i: int| 0 <= i < 81 ==> #[trigger] bit(extra, i) == (bit(to, i) && a.extra_at(i)),
    ensures
        count_bits(extra, k, 81) <= count_bits(to, k, 81),
    decreases 81 - k,
{
    if k < 81 {
        lemma_extra_bound(a, extra, to, k + 1);
    }
}

/// Moves that cannot promote have no extra squares.
proof fn lemma_no_extra(a: PieceMoves, extra: u128, k: int)
    requires
        0 <= k <= 81,
        match a {
            PieceMoves::BoardMoves { piece, .. } => piece.idx() >= 6,
            _ => true,
        },
        forall|i: int| 0 <= i < 81 ==> #[trigger] bit(extra, i) == (bit(a.targets().0, i) && a.extra_at(i)),
    ensures
        count_bits(extra, k, 81) == 0,
    decreases 81 - k,
{
    if k < 81 {
        lemma_no_extra(a, extra, k + 1);
    }
}

} // verus!
