//! Reading positions from SFEN strings.
use vstd::prelude::*;
use crate::bitboard::popcount;
use crate::board::Board;
use crate::color::Color;
use crate::piece::{Piece, piece_letter, promoted, piece_text, letter_byte, lemma_piece_code_round_trip};
use crate::shogi_move::slice_range;
use crate::square::{Square, lemma_square_idx, lemma_square_from_idx};
use vstd::string::StringSliceAdditionalSpecFns;

verus! {

/// Why a SFEN string was refused.
#[derive(Debug, Clone, Copy, PartialEq, Eq, Hash, Structural)]
pub enum SFENParseError {
    /// The board field is malformed, or the position it describes is not valid.
    InvalidBoard,
    /// The hands field is malformed.
    InvalidHands,
    /// The side-to-move field is neither `b` nor `w`.
    InvalidSideToMove,
    /// The move number is not a number from 1 to 65535.
    InvalidMoveNumber,
    /// The board, hands or side-to-move field is missing.
    MissingField,
    /// There are fields after the move number.
    TooManyFields,
}

/// The contents of one square while reading a board field.
pub type Cell = Option<(Piece, Color)>;

/// The state after reading some bytes of a board field: the row (rank), the column within
/// the row (from file 9 towards file 1), a pending `+`, and the squares read so far in
/// reading order.
pub type BoardScan = (int, int, bool, Seq<Cell>);

/// Read one byte of a board field: `/` ends a full row, a digit skips that many empty
/// squares, `+` promotes the next piece, and a piece letter fills one square.
pub open spec fn board_step(st: BoardScan, c: u8) -> Option<BoardScan> {
    let (row, col, prom, cells) = st;
    if c == 47 {
        if !prom && col == 9 && row < 8 {
            Some((row + 1, 0, false, cells))
        } else {
            None
        }
    } else if 49 <= c <= 57 {
        let d = c - 48;
        if !prom && col + d <= 9 {
            Some((row, col + d, false, cells + Seq::new(d as nat, |k: int| None)))
        } else {
            None
        }
    } else if c == 43 {
        if !prom {
            Some((row, col, true, cells))
        } else {
            None
        }
    } else {
        match piece_letter(c as char) {
            Some((p, color)) => if col < 9 && (!prom || p.idx() < 6) {
                Some((row, col + 1, false, cells.push(Some((if prom {
                    promoted(p)
                } else {
                    p
                }, color)))))
            } else {
                None
            },
            None => None,
        }
    }
}

/// The state after reading the first `n` bytes of a board field.
pub open spec fn board_scan(b: Seq<u8>, n: int) -> Option<BoardScan>
    decreases n,
{
    if n <= 0 {
        Some((0, 0, false, Seq::empty()))
    } else {
        match board_scan(b, n - 1) {
            Some(st) => board_step(st, b[n - 1]),
            None => None,
        }
    }
}

/// The 81 squares of a board field in reading order (rank a first, each rank from file 9
/// to file 1), when the field is well formed: nine full rows.
pub open spec fn board_layout(b: Seq<u8>) -> Option<Seq<Cell>> {
    match board_scan(b, b.len() as int) {
        Some((row, col, prom, cells)) => if row == 8 && col == 9 && !prom {
            Some(cells)
        } else {
            None
        },
        None => None,
    }
}

/// The square index of position `j` in reading order.
pub open spec fn reading_square(j: int) -> int {
    9 * (8 - j % 9) + j / 9
}

/// The state after reading some bytes of a hands field: a pending count, and the counts set
/// so far (color, piece, count).
pub type HandScan = (int, Seq<(Color, Piece, int)>);

/// Read one byte of a hands field: digits build a count (below 20), and a letter of a
/// piece that can be held sets its count (one when no count was given).
pub open spec fn hand_step(st: HandScan, c: u8) -> Option<HandScan> {
    let (count, set) = st;
    if 48 <= c <= 57 {
        let n = count * 10 + (c - 48);
        if n < 20 {
            Some((n, set))
        } else {
            None
        }
    } else {
        match piece_letter(c as char) {
            Some((p, color)) => if p.idx() < 7 {
                Some((0, set.push((color, p, if count == 0 {
                    1
                } else {
                    count
                }))))
            } else {
                None
            },
            None => None,
        }
    }
}

/// The state after reading the first `n` bytes of a hands field.
pub open spec fn hand_scan(b: Seq<u8>, n: int) -> Option<HandScan>
    decreases n,
{
    if n <= 0 {
        Some((0, Seq::empty()))
    } else {
        match hand_scan(b, n - 1) {
            Some(st) => hand_step(st, b[n - 1]),
            None => None,
        }
    }
}

/// The counts set by a hands field: `-` for empty hands, or counted piece letters with no
/// count left over.
pub open spec fn hands_layout(b: Seq<u8>) -> Option<Seq<(Color, Piece, int)>> {
    if b == seq![45u8] {
        Some(Seq::empty())
    } else if b.len() == 0 {
        None
    } else {
        match hand_scan(b, b.len() as int) {
            Some((count, set)) => if count == 0 {
                Some(set)
            } else {
                None
            },
            None => None,
        }
    }
}

/// The count of `p` in the hand of `c` after the counts `set`: the last one set, else zero.
pub open spec fn hand_value(set: Seq<(Color, Piece, int)>, c: Color, p: Piece) -> int
    decreases set.len(),
{
    if set.len() == 0 {
        0
    } else if set.last().0 == c && set.last().1 == p {
        set.last().2
    } else {
        hand_value(set.drop_last(), c, p)
    }
}

/// The side to move named by its field: `b` for Black, `w` for White.
pub open spec fn stm_layout(b: Seq<u8>) -> Option<Color> {
    if b == seq![98u8] {
        Some(Color::Black)
    } else if b == seq![119u8] {
        Some(Color::White)
    } else {
        None
    }
}

/// The value of the first `n` bytes of `b` read as decimal digits.
pub open spec fn decimal(b: Seq<u8>, n: int) -> int
    decreases n,
{
    if n <= 0 {
        0
    } else {
        decimal(b, n - 1) * 10 + (b[n - 1] - 48)
    }
}

/// The move number named by its field: decimal digits for a number from 1 to 65535.
pub open spec fn move_number_layout(b: Seq<u8>) -> Option<int> {
    if b.len() > 0 && (forall|i: int| 0 <= i < b.len() ==> 48 <= #[trigger] b[i] <= 57) && 1 <= decimal(
        b,
        b.len() as int,
    ) <= 65535 {
        Some(decimal(b, b.len() as int))
    } else {
        None
    }
}

/// The index of the first space in `b` at or after `i`, or the length of `b`.
pub open spec fn space_at(b: Seq<u8>, i: int) -> int
    decreases b.len() - i,
{
    if i >= b.len() {
        b.len() as int
    } else if b[i] == 32 {
        i
    } else {
        space_at(b, i + 1)
    }
}

/// What a SFEN string describes, field by field: the board cells in reading order, the
/// hand counts set, the side to move and the move number (1 when the field is absent).
pub type SfenLayout = (Seq<Cell>, Seq<(Color, Piece, int)>, Color, int);

/// The fields of a SFEN string separated by single spaces: board, side to move, hands and
/// an optional move number. The first field that fails decides the error.
pub open spec fn sfen_syntax(b: Seq<u8>) -> Result<SfenLayout, SFENParseError> {
    let e0 = space_at(b, 0);
    match board_layout(b.subrange(0, e0)) {
        None => Err(SFENParseError::InvalidBoard),
        Some(cells) => if e0 >= b.len() {
            Err(SFENParseError::MissingField)
        } else {
            let e1 = space_at(b, e0 + 1);
            match stm_layout(b.subrange(e0 + 1, e1)) {
                None => Err(SFENParseError::InvalidSideToMove),
                Some(stm) => if e1 >= b.len() {
                    Err(SFENParseError::MissingField)
                } else {
                    let e2 = space_at(b, e1 + 1);
                    match hands_layout(b.subrange(e1 + 1, e2)) {
                        None => Err(SFENParseError::InvalidHands),
                        Some(set) => if e2 >= b.len() {
                            Ok((cells, set, stm, 1))
                        } else {
                            let e3 = space_at(b, e2 + 1);
                            match move_number_layout(b.subrange(e2 + 1, e3)) {
                                None => Err(SFENParseError::InvalidMoveNumber),
                                Some(n) => if e3 < b.len() {
                                    Err(SFENParseError::TooManyFields)
                                } else {
                                    Ok((cells, set, stm, n))
                                },
                            }
                        },
                    }
                },
            }
        },
    }
}

impl Board {
    /// The board holds what `l` describes: the cells, the hands, the side to move and the
    /// move number.
    pub open spec fn matches(self, l: SfenLayout) -> bool {
        &&& forall|j: int| 0 <= j < 81 ==> #[trigger] self.content(reading_square(j)) == l.0[j]
        &&& forall|c: Color, p: Piece| #[trigger] self.pos().hand_count(c, p) == hand_value(l.1, c, p)
        &&& self.stm() == l.2
        &&& self.move_num() == l.3
    }
}


/// Reading order visits each square once.
proof fn lemma_reading_square(j: int)
    requires
        0 <= j < 81,
    ensures
        0 <= reading_square(j) < 81,
        reading_square(j) / 9 == 8 - j % 9,
        reading_square(j) % 9 == j / 9,
{
}

/// Distinct reading positions are distinct squares.
proof fn lemma_reading_square_inj(j1: int, j2: int)
    requires
        0 <= j1 < 81,
        0 <= j2 < 81,
        j1 != j2,
    ensures
        reading_square(j1) != reading_square(j2),
{
    lemma_reading_square(j1);
    lemma_reading_square(j2);
}

impl Board {
    /// Fill the empty board from a board field; false when the field is malformed.
    #[verifier::rlimit(100)]
    fn parse_board(&mut self, b: &[u8]) -> (ok: bool)
        requires
            old(self).wf_basic(),
            forall|i: int| #[trigger] old(self).content(i) is None,
        ensures
            final(self).wf_basic(),
            final(self).stm() == old(self).stm(),
            final(self).move_num() == old(self).move_num(),
            forall|c: Color, p: Piece| #[trigger] final(self).pos().hand_count(c, p) == old(self).pos().hand_count(c, p),
            ok == board_layout(b@) is Some,
            ok ==> forall|j: int| 0 <= j < 81 ==> #[trigger] final(self).content(reading_square(j)) == board_layout(
                b@,
            ).unwrap()[j],
    {
        let ghost pre = *self;
        let mut row: usize = 0;
        let mut col: usize = 0;
        let mut prom = false;
        let ghost mut cells: Seq<Cell> = Seq::empty();
        let mut i: usize = 0;
        while i < b.len()
            invariant
                self.wf_basic(),
                pre == *old(self),
                i <= b.len(),
                self.stm() == pre.stm(),
                self.move_num() == pre.move_num(),
                forall|c: Color, p: Piece| #[trigger] self.pos().hand_count(c, p) == pre.pos().hand_count(c, p),
                board_scan(b@, i as int) == Some((row as int, col as int, prom, cells)),
                row <= 8,
                col <= 9,
                cells.len() == row * 9 + col,
                forall|j: int| 0 <= j < cells.len() ==> #[trigger] self.content(reading_square(j)) == cells[j],
                forall|j: int| cells.len() <= j < 81 ==> #[trigger] self.content(reading_square(j)) is None,
            decreases b.len() - i,
        {
            let c = b[i];
            let ghost st = (row as int, col as int, prom, cells);
            proof {
                assert(board_scan(b@, i + 1) == board_step(st, c));
            }
            if c == 47 {
                if !prom && col == 9 && row < 8 {
                    row = row + 1;
                    col = 0;
                } else {
                    proof {
                        lemma_scan_fails(b@, i as int + 1);
                    }
                    return false;
                }
            } else if 49 <= c && c <= 57 {
                let d = (c - 48) as usize;
                if !prom && col + d <= 9 {
                    proof {
                        let old_cells = cells;
                        cells = cells + Seq::new(d as nat, |k: int| None);
                        assert forall|j: int| 0 <= j < cells.len() implies #[trigger] self.content(reading_square(j)) == cells[j] by {
                            if j >= old_cells.len() {
                                assert(cells[j] == None::<(Piece, Color)>);
                            }
                        }
                    }
                    col = col + d;
                } else {
                    proof {
                        lemma_scan_fails(b@, i as int + 1);
                    }
                    return false;
                }
            } else if c == 43 {
                if !prom {
                    prom = true;
                } else {
                    proof {
                        lemma_scan_fails(b@, i as int + 1);
                    }
                    return false;
                }
            } else {
                match Piece::try_from_char(c as char) {
                    Some((p, color)) => {
                        if col < 9 && (!prom || p.is_promotable()) {
                            let piece = p.do_promote(prom);
                            let k = 9 * (8 - col) + row;
                            let square = Square::index_const(k);
                            proof {
                                let j0 = cells.len() as int;
                                assert(reading_square(j0) == k);
                                lemma_reading_square(j0);
                                assert(self.content(reading_square(j0)) is None);
                                assert((self.pos().piece_at(k as int) is Some) == (self.pos().color_at(k as int) is Some));
                                assert(self.piece_at(square.idx()) is None);
                            }
                            self.unchecked_put(color, piece, square);
                            proof {
                                let j0 = cells.len() as int;
                                let old_cells = cells;
                                cells = cells.push(Some((piece, color)));
                                assert forall|j: int| 0 <= j < cells.len() implies #[trigger] self.content(reading_square(j)) == cells[j] by {
                                    if j < j0 {
                                        lemma_reading_square_inj(j, j0);
                                    }
                                }
                                assert forall|j: int| cells.len() <= j < 81 implies #[trigger] self.content(reading_square(j)) is None by {
                                    lemma_reading_square_inj(j, j0);
                                }
                            }
                            col = col + 1;
                            prom = false;
                        } else {
                            proof {
                                lemma_scan_fails(b@, i as int + 1);
                            }
                            return false;
                        }
                    },
                    None => {
                        proof {
                            lemma_scan_fails(b@, i as int + 1);
                        }
                        return false;
                    },
                }
            }
            i = i + 1;
        }
        row == 8 && col == 9 && !prom
    }
}

/// Once reading a board field fails, it stays failed.
proof fn lemma_scan_fails(b: Seq<u8>, n: int)
    requires
        0 <= n <= b.len(),
        board_scan(b, n) is None,
    ensures
        board_scan(b, b.len() as int) is None,
    decreases b.len() - n,
{
    if n < b.len() {
        lemma_scan_fails(b, n + 1);
    }
}


/// Once reading a hands field fails, it stays failed.
proof fn lemma_hand_scan_fails(b: Seq<u8>, n: int)
    requires
        0 <= n <= b.len(),
        hand_scan(b, n) is None,
    ensures
        hand_scan(b, b.len() as int) is None,
    decreases b.len() - n,
{
    if n < b.len() {
        lemma_hand_scan_fails(b, n + 1);
    }
}

/// Reading more digits never makes a number smaller.
proof fn lemma_decimal_mono(b: Seq<u8>, i: int, n: int)
    requires
        0 <= i <= n <= b.len(),
        forall|k: int| 0 <= k < n ==> 48 <= #[trigger] b[k] <= 57,
    ensures
        decimal(b, n) >= decimal(b, i),
    decreases n - i,
{
    if i < n {
        lemma_decimal_mono(b, i, n - 1);
        assert(decimal(b, n - 1) >= 0) by {
            lemma_decimal_nonneg(b, n - 1);
        }
    }
}

proof fn lemma_decimal_nonneg(b: Seq<u8>, n: int)
    requires
        0 <= n <= b.len(),
        forall|k: int| 0 <= k < n ==> 48 <= #[trigger] b[k] <= 57,
    ensures
        decimal(b, n) >= 0,
    decreases n,
{
    if n > 0 {
        lemma_decimal_nonneg(b, n - 1);
    }
}

/// The index of the first space at or after `i`, or the length.
fn find_space(b: &[u8], i: usize) -> (r: usize)
    requires
        i <= b.len(),
    ensures
        r == space_at(b@, i as int),
        i <= r <= b.len(),
{
    let mut j = i;
    while j < b.len()
        invariant
            i <= j <= b.len(),
            space_at(b@, i as int) == space_at(b@, j as int),
        decreases b.len() - j,
    {
        if b[j] == 32 {
            return j;
        }
        j = j + 1;
    }
    j
}

/// The side to move named by a field.
fn parse_side_to_move(b: &[u8]) -> (r: Option<Color>)
    ensures
        r == stm_layout(b@),
{
    if b.len() == 1 && b[0] == 98 {
        proof {
            assert(b@ =~= seq![98u8]);
        }
        Some(Color::Black)
    } else if b.len() == 1 && b[0] == 119 {
        proof {
            assert(b@ =~= seq![119u8]);
        }
        Some(Color::White)
    } else {
        proof {
            if b@ == seq![98u8] || b@ == seq![119u8] {
                assert(b@.len() == 1);
            }
        }
        None
    }
}

/// The move number named by a field.
fn parse_move_number(b: &[u8]) -> (r: Option<u16>)
    ensures
        r == (match move_number_layout(b@) {
            Some(n) => Some(n as u16),
            None => None,
        }),
{
    if b.len() == 0 {
        return None;
    }
    let mut value: u32 = 0;
    let mut i: usize = 0;
    while i < b.len()
        invariant
            i <= b.len(),
            b.len() > 0,
            value == decimal(b@, i as int),
            value <= 65535,
            forall|k: int| 0 <= k < i ==> 48 <= #[trigger] b@[k] <= 57,
        decreases b.len() - i,
    {
        let c = b[i];
        if c < 48 || c > 57 {
            return None;
        }
        value = value * 10 + (c - 48) as u32;
        if value > 65535 {
            proof {
                assert(decimal(b@, i + 1) > 65535);
                if forall|k: int| 0 <= k < b.len() ==> 48 <= #[trigger] b@[k] <= 57 {
                    lemma_decimal_mono(b@, i + 1, b.len() as int);
                }
            }
            return None;
        }
        i = i + 1;
    }
    if value == 0 {
        return None;
    }
    Some(value as u16)
}

impl Board {
    /// Set the hands of a board with empty hands from a hands field; false when the field is
    /// malformed.
    #[verifier::rlimit(100)]
    fn parse_hands(&mut self, b: &[u8]) -> (ok: bool)
        requires
            old(self).wf_basic(),
            forall|c: Color, p: Piece| #[trigger] old(self).pos().hand_count(c, p) == 0,
        ensures
            final(self).wf_basic(),
            final(self).stm() == old(self).stm(),
            final(self).move_num() == old(self).move_num(),
            forall|i: int| #[trigger] final(self).content(i) == old(self).content(i),
            ok == hands_layout(b@) is Some,
            ok ==> forall|c: Color, p: Piece| #[trigger] final(self).pos().hand_count(c, p) == hand_value(
                hands_layout(b@).unwrap(),
                c,
                p,
            ),
    {
        let ghost pre = *self;
        if b.len() == 1 && b[0] == 45 {
            proof {
                assert(b@ =~= seq![45u8]);
            }
            return true;
        }
        if b.len() == 0 {
            return false;
        }
        proof {
            assert(b@ != seq![45u8]) by {
                if b@ == seq![45u8] {
                    assert(b@.len() == 1 && b@[0] == 45);
                }
            }
        }
        let mut count: u8 = 0;
        let ghost mut set: Seq<(Color, Piece, int)> = Seq::empty();
        let mut i: usize = 0;
        while i < b.len()
            invariant
                self.wf_basic(),
                pre == *old(self),
                i <= b.len(),
                b@ != seq![45u8],
                b.len() > 0,
                self.stm() == pre.stm(),
                self.move_num() == pre.move_num(),
                forall|k: int| #[trigger] self.content(k) == pre.content(k),
                hand_scan(b@, i as int) == Some((count as int, set)),
                count < 20,
                forall|c: Color, p: Piece| #[trigger] self.pos().hand_count(c, p) == hand_value(set, c, p),
            decreases b.len() - i,
        {
            let c = b[i];
            proof {
                assert(hand_scan(b@, i + 1) == hand_step((count as int, set), c));
            }
            if 48 <= c && c <= 57 {
                let n = count as u32 * 10 + (c - 48) as u32;
                if n >= 20 {
                    proof {
                        lemma_hand_scan_fails(b@, i as int + 1);
                    }
                    return false;
                }
                count = n as u8;
            } else {
                match Piece::try_from_char(c as char) {
                    Some((p, color)) => {
                        if p.index() < 7 {
                            let n = if count == 0 {
                                1
                            } else {
                                count
                            };
                            self.unchecked_set_hand(color, p, n);
                            proof {
                                let old_set = set;
                                set = set.push((color, p, n as int));
                                assert(set.drop_last() =~= old_set);
                            }
                            count = 0;
                        } else {
                            proof {
                                lemma_hand_scan_fails(b@, i as int + 1);
                            }
                            return false;
                        }
                    },
                    None => {
                        proof {
                            lemma_hand_scan_fails(b@, i as int + 1);
                        }
                        return false;
                    },
                }
            }
            i = i + 1;
        }
        count == 0
    }
}


/// The SFEN of the start position.
pub const SFEN_STARTPOS: &'static str = "lnsgkgsnl/1r5b1/ppppppppp/9/9/9/PPPPPPPPP/1B5R1/LNSGKGSNL b - 1";

/// The SFEN of the six-piece handicap start position.
pub const SFEN_6PIECE_HANDICAP: &'static str = "2sgkgs2/9/ppppppppp/9/9/9/PPPPPPPPP/1B5R1/LNSGKGSNL w - 2";

/// The SFEN of the four-piece handicap start position.
pub const SFEN_4PIECE_HANDICAP: &'static str = "1nsgkgsn1/9/ppppppppp/9/9/9/PPPPPPPPP/1B5R1/LNSGKGSNL w - 2";

/// The SFEN of the two-piece handicap start position.
pub const SFEN_2PIECE_HANDICAP: &'static str = "lnsgkgsnl/9/ppppppppp/9/9/9/PPPPPPPPP/1B5R1/LNSGKGSNL w - 2";

impl Board {
    /// The board passes every check: a valid position, no piece type in play more often
    /// than the game has it, and at most two checkers.
    pub open spec fn accepted(self, for_tsume: bool) -> bool {
        &&& self.valid(for_tsume)
        &&& self.counts_ok()
        &&& popcount(self.checkers_bb()) < 3
    }

    /// The board holds what `l` describes, with White's hand given every piece not yet in
    /// play, as tsume problems do.
    pub open spec fn matches_tsume(self, l: SfenLayout) -> bool {
        &&& forall|j: int| 0 <= j < 81 ==> #[trigger] self.content(reading_square(j)) == l.0[j]
        &&& forall|c: Color, p: Piece| #[trigger] self.pos().hand_count(c, p) == (if c == Color::White && p.idx() < 7 {
            crate::piece::MAX_HAND[p.idx()] - hand_value(l.1, Color::Black, p) - popcount(
                self.pos().piece_bb(p) | self.pos().piece_bb(promoted(p)),
            )
        } else {
            hand_value(l.1, c, p)
        })
        &&& self.stm() == l.2
        &&& self.move_num() == l.3
    }

    /// Pass the move to the other side; checkers and pins are not updated.
    fn toggle_side(&mut self)
        requires
            old(self).wf_basic(),
        ensures
            final(self).wf_basic(),
            final(self).stm() == old(self).stm().other(),
            final(self).move_num() == old(self).move_num(),
            forall|i: int| #[trigger] final(self).content(i) == old(self).content(i),
            forall|c: Color, p: Piece| #[trigger] final(self).pos().hand_count(c, p) == old(self).pos().hand_count(c, p),
    {
        let ghost pre = *self;
        self.inner.toggle_side_to_move();
        proof {
            assert forall|c: Color| #[trigger] self.no_pawn_bb(c) == pre.no_pawn_bb(c) by {}
            assert forall|c: Color, f: int| #[trigger] pre.pawn_on_file(c, f) == self.pawn_on_file(c, f) by {
                crate::board::lemma_pawn_file_same(pre, *self, c, f);
            }
        }
    }

    /// Read the fields of a SFEN string into a board; the position is not checked.
    #[verifier::rlimit(100)]
    fn parse_fields(sfen: &[u8]) -> (r: Result<Board, SFENParseError>)
        ensures
            match sfen_syntax(sfen@) {
                Err(e) => r == Err::<Board, SFENParseError>(e),
                Ok(l) => r matches Ok(b) && b.wf() && b.matches(l),
            },
    {
        let mut board = Board::default();
        let e0 = find_space(sfen, 0);
        if !board.parse_board(slice_range(sfen, 0, e0)) {
            return Err(SFENParseError::InvalidBoard);
        }
        if e0 >= sfen.len() {
            return Err(SFENParseError::MissingField);
        }
        let e1 = find_space(sfen, e0 + 1);
        let stm = match parse_side_to_move(slice_range(sfen, e0 + 1, e1)) {
            None => {
                return Err(SFENParseError::InvalidSideToMove);
            },
            Some(c) => c,
        };
        if e1 >= sfen.len() {
            return Err(SFENParseError::MissingField);
        }
        let e2 = find_space(sfen, e1 + 1);
        if !board.parse_hands(slice_range(sfen, e1 + 1, e2)) {
            return Err(SFENParseError::InvalidHands);
        }
        let mut number: u16 = 1;
        if e2 < sfen.len() {
            let e3 = find_space(sfen, e2 + 1);
            number = match parse_move_number(slice_range(sfen, e2 + 1, e3)) {
                None => {
                    return Err(SFENParseError::InvalidMoveNumber);
                },
                Some(n) => n,
            };
            if e3 < sfen.len() {
                return Err(SFENParseError::TooManyFields);
            }
        }
        let ghost cells = board_layout(sfen@.subrange(0, e0 as int)).unwrap();
        let ghost set = hands_layout(sfen@.subrange(e1 + 1, e2 as int)).unwrap();
        proof {
            assert(sfen_syntax(sfen@) == Ok::<SfenLayout, SFENParseError>((cells, set, stm, number as int)));
        }
        let ghost parsed = board;
        if stm != board.side_to_move() {
            board.toggle_side();
        }
        let ghost toggled = board;
        board.set_move_number(number);
        let ghost before = board;
        board.update_checkers_and_pins();
        proof {
            assert forall|i: int| #[trigger] board.content(i) == parsed.content(i) by {
                assert(board.content(i) == before.content(i));
                assert(before.content(i) == toggled.content(i));
            }
            assert forall|c: Color, p: Piece| #[trigger] board.pos().hand_count(c, p) == parsed.pos().hand_count(c, p) by {
                assert(toggled.pos().hand_count(c, p) == parsed.pos().hand_count(c, p));
            }
            assert(board.matches((cells, set, stm, number as int)));
        }
        Ok(board)
    }

    /// Read a position from a SFEN string: board, hands, side to move and an optional move
    /// number (1 when absent). Both sides need a king, and the position must be valid.
    pub fn from_sfen(sfen: &str) -> (r: Result<Board, SFENParseError>)
        ensures
            match sfen_syntax(sfen.spec_bytes()) {
                Err(e) => r == Err::<Board, SFENParseError>(e),
                Ok(l) => match r {
                    Ok(b) => b.wf() && b.matches(l) && b.accepted(false),
                    Err(e) => e == SFENParseError::InvalidBoard && exists|b: Board| b.wf() && #[trigger] b.matches(l)
                        && !b.accepted(false),
                },
            },
    {
        let board = match Self::parse_fields(sfen.as_bytes()) {
            Ok(b) => b,
            Err(e) => {
                return Err(e);
            },
        };
        if !board.piece_counts_are_valid() || !board.is_valid(false) || !board.checkers_and_pins_are_valid() {
            return Err(SFENParseError::InvalidBoard);
        }
        Ok(board)
    }

    /// Read a tsume problem from a SFEN string: as [`Self::from_sfen`], but Black needs no
    /// king, and every piece not in play goes to White's hand.
    #[verifier::rlimit(100)]
    pub fn tsume(sfen: &str) -> (r: Result<Board, SFENParseError>)
        ensures
            match sfen_syntax(sfen.spec_bytes()) {
                Err(e) => r == Err::<Board, SFENParseError>(e),
                Ok(l) => match r {
                    Ok(b) => b.wf() && b.matches_tsume(l) && b.accepted(true),
                    Err(e) => e == SFENParseError::InvalidBoard && ((exists|b: Board| b.wf() && #[trigger] b.matches(l)
                        && !b.counts_ok()) || (exists|b: Board| b.wf() && #[trigger] b.matches_tsume(l) && !b.accepted(
                        true,
                    ))),
                },
            },
    {
        let mut board = match Self::parse_fields(sfen.as_bytes()) {
            Ok(b) => b,
            Err(e) => {
                return Err(e);
            },
        };
        if !board.piece_counts_are_valid() {
            proof {
                assert(board.wf() && board.matches(sfen_syntax(sfen.spec_bytes()).unwrap()) && !board.counts_ok());
            }
            return Err(SFENParseError::InvalidBoard);
        }
        let ghost parsed = board;
        board.piece_counts_make_valid();
        let ghost filled = board;
        board.update_checkers_and_pins();
        proof {
            assert forall|i: int| #[trigger] board.content(i) == filled.content(i) by {}
            assert forall|c: Color, p: Piece| #[trigger] board.pos().hand_count(c, p) == filled.pos().hand_count(c, p) by {}
            assert forall|p: Piece| #[trigger] board.pos().piece_bb(p) == parsed.pos().piece_bb(p) by {
                crate::board::zobrist::lemma_wf_bits(board.pos());
                crate::board::zobrist::lemma_wf_bits(parsed.pos());
                assert forall|i: int| 0 <= i < 81 implies crate::bitboard::bit(board.pos().piece_bb(p), i)
                    == crate::bitboard::bit(parsed.pos().piece_bb(p), i) by {
                    assert(board.content(i) == parsed.content(i));
                }
                crate::bitboard::lemma_board_ext(
                    crate::bitboard::BitBoard(board.pos().piece_bb(p)),
                    crate::bitboard::BitBoard(parsed.pos().piece_bb(p)),
                );
            }
        }
        proof {
            let l = sfen_syntax(sfen.spec_bytes()).unwrap();
            assert forall|j: int| 0 <= j < 81 implies #[trigger] board.content(reading_square(j)) == l.0[j] by {
                assert(board.content(reading_square(j)) == parsed.content(reading_square(j)));
            }
            assert forall|c: Color, p: Piece| #[trigger] board.pos().hand_count(c, p) == (if c == Color::White && p.idx() < 7 {
                crate::piece::MAX_HAND[p.idx()] - hand_value(l.1, Color::Black, p) - popcount(
                    board.pos().piece_bb(p) | board.pos().piece_bb(promoted(p)),
                )
            } else {
                hand_value(l.1, c, p)
            }) by {
                assert(board.pos().piece_bb(p) == parsed.pos().piece_bb(p));
                assert(board.pos().piece_bb(promoted(p)) == parsed.pos().piece_bb(promoted(p)));
            }
            assert(board.matches_tsume(l));
        }
        if !board.piece_counts_are_valid() || !board.is_valid(true) || !board.checkers_and_pins_are_valid() {
            return Err(SFENParseError::InvalidBoard);
        }
        Ok(board)
    }
}

/// The back-rank piece on file index `f`: lance, knight, silver, gold, king, and back.
pub open spec fn back_rank(f: int) -> Piece {
    if f == 0 || f == 8 {
        Piece::Lance
    } else if f == 1 || f == 7 {
        Piece::Knight
    } else if f == 2 || f == 6 {
        Piece::Silver
    } else if f == 3 || f == 5 {
        Piece::Gold
    } else {
        Piece::King
    }
}

/// The content of square index `i` in the start position.
pub open spec fn start_content(i: int) -> Option<(Piece, Color)> {
    let f = i / 9;
    let r = i % 9;
    if !(0 <= i < 81) {
        None
    } else if r == 0 {
        Some((back_rank(f), Color::White))
    } else if r == 2 {
        Some((Piece::Pawn, Color::White))
    } else if r == 6 {
        Some((Piece::Pawn, Color::Black))
    } else if r == 8 {
        Some((back_rank(f), Color::Black))
    } else if r == 1 && f == 7 {
        Some((Piece::Rook, Color::White))
    } else if r == 1 && f == 1 {
        Some((Piece::Bishop, Color::White))
    } else if r == 7 && f == 7 {
        Some((Piece::Bishop, Color::Black))
    } else if r == 7 && f == 1 {
        Some((Piece::Rook, Color::Black))
    } else {
        None
    }
}

/// The content of square index `i` in the start position.
fn start_piece(i: usize) -> (r: Option<(Piece, Color)>)
    requires
        i < 81,
    ensures
        r == start_content(i as int),
{
    let f = i / 9;
    let r = i % 9;
    let back = if f == 0 || f == 8 {
        Piece::Lance
    } else if f == 1 || f == 7 {
        Piece::Knight
    } else if f == 2 || f == 6 {
        Piece::Silver
    } else if f == 3 || f == 5 {
        Piece::Gold
    } else {
        Piece::King
    };
    if r == 0 {
        Some((back, Color::White))
    } else if r == 2 {
        Some((Piece::Pawn, Color::White))
    } else if r == 6 {
        Some((Piece::Pawn, Color::Black))
    } else if r == 8 {
        Some((back, Color::Black))
    } else if r == 1 && f == 7 {
        Some((Piece::Rook, Color::White))
    } else if r == 1 && f == 1 {
        Some((Piece::Bishop, Color::White))
    } else if r == 7 && f == 7 {
        Some((Piece::Bishop, Color::Black))
    } else if r == 7 && f == 1 {
        Some((Piece::Rook, Color::Black))
    } else {
        None
    }
}

impl Board {
    /// The start position: Black to move, move number 1, empty hands.
    #[verifier::rlimit(100)]
    pub fn startpos() -> (r: Board)
        ensures
            r.wf(),
            forall|i: int| #[trigger] r.content(i) == start_content(i),
            forall|c: Color, p: Piece| #[trigger] r.pos().hand_count(c, p) == 0,
            r.stm() == Color::Black,
            r.move_num() == 1,
    {
        let mut board = Board::default();
        let mut i: usize = 0;
        while i < 81
            invariant
                board.wf_basic(),
                i <= 81,
                forall|j: int| 0 <= j < i ==> #[trigger] board.content(j) == start_content(j),
                forall|j: int| !(0 <= j < i) ==> #[trigger] board.content(j) is None,
                forall|c: Color, p: Piece| #[trigger] board.pos().hand_count(c, p) == 0,
                board.stm() == Color::Black,
            decreases 81 - i,
        {
            match start_piece(i) {
                Some((p, c)) => {
                    let sq = Square::index_const(i);
                    proof {
                        assert(board.content(i as int) is None);
                        assert((board.pos().piece_at(i as int) is Some) == (board.pos().color_at(i as int) is Some));
                    }
                    board.unchecked_put(c, p, sq);
                },
                None => {},
            }
            i = i + 1;
        }
        let ghost looped = board;
        board.set_move_number(1);
        let ghost before = board;
        board.update_checkers_and_pins();
        proof {
            assert forall|i: int| #[trigger] board.content(i) == start_content(i) by {
                assert(board.content(i) == before.content(i));
                assert(before.content(i) == looped.content(i));
                if 0 <= i < 81 {
                    assert(looped.content(i) == start_content(i));
                } else {
                    assert(looped.content(i) is None);
                }
            }
        }
        board
    }
}

impl core::str::FromStr for Board {
    type Err = SFENParseError;

    fn from_str(s: &str) -> Result<Board, SFENParseError> {
        Board::from_sfen(s)
    }
}

/// The decimal digits of `n`, most significant first.
pub open spec fn num_text(n: nat) -> Seq<u8>
    decreases n,
{
    if n < 10 {
        seq![(48 + n) as u8]
    } else {
        num_text(n / 10) + seq![(48 + n % 10) as u8]
    }
}

/// Append the decimal digits of `n` to `out`.
fn push_num(out: &mut Vec<u8>, n: u32)
    ensures
        final(out)@ == old(out)@ + num_text(n as nat),
    decreases n,
{
    if n >= 10 {
        push_num(out, n / 10);
    }
    out.push((48 + n % 10) as u8);
    proof {
        if n >= 10 {
            assert(final(out)@ =~= old(out)@ + num_text(n as nat));
        } else {
            assert(final(out)@ =~= old(out)@ + num_text(n as nat));
        }
    }
}

/// The pieces that can be held, in the order in which USI writes hands.
pub open spec fn usi_hand_piece(i: int) -> Piece {
    if i == 0 {
        Piece::Rook
    } else if i == 1 {
        Piece::Bishop
    } else if i == 2 {
        Piece::Gold
    } else if i == 3 {
        Piece::Silver
    } else if i == 4 {
        Piece::Knight
    } else if i == 5 {
        Piece::Lance
    } else {
        Piece::Pawn
    }
}

impl Board {
    /// The text of one rank (`r`, 0 for rank a) of the board field from column `col` on,
    /// with `run` empty squares pending before it.
    pub open spec fn row_text(self, r: int, col: int, run: int) -> Seq<u8>
        decreases 9 - col,
    {
        if col >= 9 {
            if run > 0 {
                seq![(48 + run) as u8]
            } else {
                Seq::empty()
            }
        } else {
            match self.content(reading_square(9 * r + col)) {
                None => self.row_text(r, col + 1, run + 1),
                Some((p, c)) => (if run > 0 {
                    seq![(48 + run) as u8]
                } else {
                    Seq::empty()
                }) + piece_text(p, c) + self.row_text(r, col + 1, 0),
            }
        }
    }

    /// The board field up to rank `n`: the ranks before it, separated by `/`.
    pub open spec fn board_text(self, n: int) -> Seq<u8>
        decreases n,
    {
        if n <= 0 {
            Seq::empty()
        } else if n == 1 {
            self.row_text(0, 0, 0)
        } else {
            self.board_text(n - 1) + seq![47u8] + self.row_text(n - 1, 0, 0)
        }
    }

    /// The hand entry `k` (Black's pieces in USI order, then White's): nothing for none,
    /// the letter for one, else the count and the letter.
    pub open spec fn hand_item(self, k: int) -> Seq<u8> {
        let c = if k < 7 {
            Color::Black
        } else {
            Color::White
        };
        let p = usi_hand_piece(k % 7);
        let n = self.pos().hand_count(c, p);
        if n == 0 {
            Seq::empty()
        } else if n == 1 {
            piece_text(p, c)
        } else {
            num_text(n as nat) + piece_text(p, c)
        }
    }

    /// The first `k` hand entries, written one after the other.
    pub open spec fn hands_body(self, k: int) -> Seq<u8>
        decreases k,
    {
        if k <= 0 {
            Seq::empty()
        } else {
            self.hands_body(k - 1) + self.hand_item(k - 1)
        }
    }

    /// The hands field: `-` for empty hands.
    pub open spec fn hands_text(self) -> Seq<u8> {
        if self.hands_body(14).len() == 0 {
            seq![45u8]
        } else {
            self.hands_body(14)
        }
    }

    /// The SFEN text of the position: board, side to move, hands and move number.
    pub open spec fn sfen_text(self) -> Seq<u8> {
        self.board_text(9) + seq![32u8] + seq![if self.stm() == Color::Black {
            98u8
        } else {
            119u8
        }] + seq![32u8] + self.hands_text() + seq![32u8] + num_text(self.move_num() as nat)
    }

    /// Append one rank of the board field.
    fn push_row(&self, out: &mut Vec<u8>, r: usize)
        requires
            self.pos().wf(),
            r < 9,
        ensures
            final(out)@ == old(out)@ + self.row_text(r as int, 0, 0),
    {
        let mut col: usize = 0;
        let mut run: u8 = 0;
        while col < 9
            invariant
                self.pos().wf(),
                r < 9,
                col <= 9,
                run <= col,
                out@ + self.row_text(r as int, col as int, run as int) == old(out)@ + self.row_text(r as int, 0, 0),
            decreases 9 - col,
        {
            let ghost pre = out@;
            let sq = Square::index_const(9 * (8 - col) + r);
            proof {
                assert(reading_square(9 * r + col) == 9 * (8 - col) + r) by (nonlinear_arith)
                    requires r < 9, col < 9;
            }
            match (self.piece_on(sq), self.color_on(sq)) {
                (Some(p), Some(c)) => {
                    if run > 0 {
                        out.push(48 + run);
                    }
                    let code = p.to_str(c);
                    let mut k: usize = 0;
                    let ghost mid = out@;
                    while k < code.len()
                        invariant
                            k <= code.len(),
                            out@ == mid + code@.subrange(0, k as int),
                        decreases code.len() - k,
                    {
                        out.push(code[k]);
                        proof {
                            assert(code@.subrange(0, k + 1) =~= code@.subrange(0, k as int).push(code@[k as int]));
                        }
                        k += 1;
                    }
                    proof {
                        assert(code@.subrange(0, code@.len() as int) =~= code@);
                        assert(self.content(reading_square(9 * r + col)) == Some((p, c)));
                        let head: Seq<u8> = if run > 0 {
                            seq![(48 + run) as u8]
                        } else {
                            Seq::empty()
                        };
                        assert(mid =~= pre + head);
                        assert(out@ + self.row_text(r as int, col + 1, 0) =~= pre + (head + piece_text(p, c) + self.row_text(r as int, col + 1, 0)));
                    }
                    run = 0;
                },
                _ => {
                    proof {
                        assert(self.content(reading_square(9 * r + col)) is None);
                    }
                    run = run + 1;
                },
            }
            col += 1;
        }
        if run > 0 {
            let ghost pre = out@;
            out.push(48 + run);
            proof {
                assert(out@ =~= pre + seq![(48 + run) as u8]);
            }
        }
    }

    /// The position as SFEN text: the board with runs of empty squares counted, the side to
    /// move, the hands in USI order (`-` when empty) and the move number.
    pub fn to_sfen(&self) -> (r: Vec<u8>)
        requires
            self.pos().wf(),
        ensures
            r@ == self.sfen_text(),
    {
        let mut out: Vec<u8> = Vec::new();
        let mut r: usize = 0;
        while r < 9
            invariant
                self.pos().wf(),
                r <= 9,
                out@ == self.board_text(r as int),
            decreases 9 - r,
        {
            let ghost pre = out@;
            if r > 0 {
                out.push(47);
            }
            self.push_row(&mut out, r);
            proof {
                if r == 0 {
                    assert(out@ =~= self.board_text(1));
                } else {
                    assert(out@ =~= self.board_text(r + 1));
                }
            }
            r += 1;
        }
        out.push(32);
        out.push(if self.side_to_move() == Color::Black { 98 } else { 119 });
        out.push(32);
        let ghost before_hands = out@;
        let start_len = out.len();
        let mut k: usize = 0;
        while k < 14
            invariant
                k <= 14,
                start_len == before_hands.len(),
                out@ == before_hands + self.hands_body(k as int),
            decreases 14 - k,
        {
            let ghost pre = out@;
            let c = if k < 7 { Color::Black } else { Color::White };
            let p = match k % 7 {
                0 => Piece::Rook,
                1 => Piece::Bishop,
                2 => Piece::Gold,
                3 => Piece::Silver,
                4 => Piece::Knight,
                5 => Piece::Lance,
                _ => Piece::Pawn,
            };
            let n = self.num_in_hand(c, p);
            if n > 0 {
                if n > 1 {
                    push_num(&mut out, n as u32);
                }
                let code = p.to_str(c);
                let mut j: usize = 0;
                let ghost mid = out@;
                while j < code.len()
                    invariant
                        j <= code.len(),
                        out@ == mid + code@.subrange(0, j as int),
                    decreases code.len() - j,
                {
                    out.push(code[j]);
                    proof {
                        assert(code@.subrange(0, j + 1) =~= code@.subrange(0, j as int).push(code@[j as int]));
                    }
                    j += 1;
                }
                proof {
                    assert(code@.subrange(0, code@.len() as int) =~= code@);
                }
            }
            proof {
                assert(out@ =~= pre + self.hand_item(k as int));
                assert(out@ =~= before_hands + self.hands_body(k + 1));
            }
            k += 1;
        }
        if out.len() == start_len {
            out.push(45);
            proof {
                assert(self.hands_body(14).len() == 0);
            }
        }
        let ghost after_hands = out@;
        out.push(32);
        push_num(&mut out, self.move_number() as u32);
        proof {
            assert(out@ =~= self.sfen_text());
        }
        out
    }
}

/// The position of a piece that can be held in the USI order of hands.
pub open spec fn usi_hand_pos(p: Piece) -> int {
    match p {
        Piece::Rook => 0,
        Piece::Bishop => 1,
        Piece::Gold => 2,
        Piece::Silver => 3,
        Piece::Knight => 4,
        Piece::Lance => 5,
        _ => 6,
    }
}

/// The hand entry of `c` and `p` among the fourteen entries of a hands field: Black's first.
pub open spec fn hand_entry(c: Color, p: Piece) -> int {
    (if c == Color::Black {
        0int
    } else {
        7int
    }) + usi_hand_pos(p)
}

/// The color of hand entry `j`: Black for the first seven.
pub open spec fn entry_color(j: int) -> Color {
    if j < 7 {
        Color::Black
    } else {
        Color::White
    }
}

/// Reading the first `n` bytes depends on those bytes only.
#[verifier::rlimit(100)]
proof fn lemma_hand_scan_prefix(a: Seq<u8>, b: Seq<u8>, n: int)
    requires
        0 <= n <= a.len(),
        n <= b.len(),
        a.subrange(0, n) == b.subrange(0, n),
    ensures
        hand_scan(a, n) == hand_scan(b, n),
    decreases n,
{
    if n > 0 {
        assert(a.subrange(0, n - 1) =~= a.subrange(0, n).subrange(0, n - 1));
        assert(b.subrange(0, n - 1) =~= b.subrange(0, n).subrange(0, n - 1));
        assert(a[n - 1] == a.subrange(0, n)[n - 1]);
        assert(b[n - 1] == b.subrange(0, n)[n - 1]);
        lemma_hand_scan_prefix(a, b, n - 1);
    }
}

/// The letter of a piece that can be held is read back as that piece and color.
#[verifier::rlimit(100)]
proof fn lemma_hand_letter(p: Piece, c: Color)
    requires
        p.idx() < 7,
    ensures
        piece_text(p, c) == seq![letter_byte(p, c)],
        piece_letter(letter_byte(p, c) as char) == Some((p, c)),
        !(48 <= letter_byte(p, c) <= 57),
{
    lemma_piece_code_round_trip(p, c);
    assert(piece_text(p, c)[0] == letter_byte(p, c));
}

impl Board {
    /// The counts set by the first `k` hand entries, in order.
    pub open spec fn hands_set(self, k: int) -> Seq<(Color, Piece, int)>
        decreases k,
    {
        if k <= 0 {
            Seq::empty()
        } else {
            let c = if k - 1 < 7 {
                Color::Black
            } else {
                Color::White
            };
            let p = usi_hand_piece((k - 1) % 7);
            let n = self.pos().hand_count(c, p);
            self.hands_set(k - 1) + (if n == 0 {
                Seq::empty()
            } else {
                seq![(c, p, n as int)]
            })
        }
    }
}

/// Reading one more hand entry after a complete reading appends its count.
#[verifier::rlimit(100)]
proof fn lemma_hand_item_scan(b: Board, k: int, a: Seq<u8>, set: Seq<(Color, Piece, int)>)
    requires
        0 <= k < 14,
        hand_scan(a, a.len() as int) == Some((0int, set)),
        forall|c: Color, p: Piece| p.idx() < 7 ==> #[trigger] b.pos().hand_count(c, p) < 20,
    ensures
        hand_scan(a + b.hand_item(k), (a + b.hand_item(k)).len() as int) == Some(
            (
                0int,
                set + (if b.pos().hand_count(
                    if k < 7 {
                        Color::Black
                    } else {
                        Color::White
                    },
                    usi_hand_piece(k % 7),
                ) == 0 {
                    Seq::empty()
                } else {
                    seq![
                        (
                            if k < 7 {
                                Color::Black
                            } else {
                                Color::White
                            },
                            usi_hand_piece(k % 7),
                            b.pos().hand_count(
                                if k < 7 {
                                    Color::Black
                                } else {
                                    Color::White
                                },
                                usi_hand_piece(k % 7),
                            ) as int,
                        ),
                    ]
                }),
            ),
        ),
{
    let c = if k < 7 {
        Color::Black
    } else {
        Color::White
    };
    let p = usi_hand_piece(k % 7);
    let n = b.pos().hand_count(c, p);
    let x = b.hand_item(k);
    let ax = a + x;
    let m = a.len() as int;
    assert(p.idx() < 7);
    lemma_hand_letter(p, c);
    let l = letter_byte(p, c);
    assert(ax.subrange(0, m) =~= a.subrange(0, m));
    assert(a.subrange(0, m) =~= a);
    lemma_hand_scan_prefix(ax, a, m);
    if n == 0 {
        assert(x =~= Seq::<u8>::empty());
        assert(ax =~= a);
        assert(set + Seq::<(Color, Piece, int)>::empty() =~= set);
    } else if n == 1 {
        assert(x =~= seq![l]);
        assert(ax[m] == l);
        assert(hand_scan(ax, m + 1) == hand_step((0int, set), l));
    } else if n < 10 {
        assert(num_text(n as nat) =~= seq![(48 + n) as u8]);
        assert(x =~= seq![(48 + n) as u8, l]);
        assert(ax[m] == (48 + n) as u8);
        assert(ax[m + 1] == l);
        assert(hand_scan(ax, m + 1) == Some((n as int, set)));
        assert(hand_scan(ax, m + 2) == hand_step((n as int, set), l));
    } else {
        assert(num_text(n as nat / 10) =~= seq![49u8]);
        assert(num_text(n as nat) =~= seq![49u8, (48 + n % 10) as u8]);
        assert(x =~= seq![49u8, (48 + n % 10) as u8, l]);
        assert(ax[m] == 49u8);
        assert(ax[m + 1] == (48 + n % 10) as u8);
        assert(ax[m + 2] == l);
        assert(hand_scan(ax, m + 1) == Some((1int, set)));
        assert(hand_scan(ax, m + 2) == Some((n as int, set)));
        assert(hand_scan(ax, m + 3) == hand_step((n as int, set), l));
    }
}

/// The count that the first `k` hand entries set for a piece that can be held: its count
/// in the hand when its entry is among them, else zero.
#[verifier::rlimit(100)]
proof fn lemma_hands_set_value(b: Board, k: int, c: Color, p: Piece)
    requires
        0 <= k <= 14,
        p.idx() < 7,
    ensures
        hand_value(b.hands_set(k), c, p) == if hand_entry(c, p) < k {
            b.pos().hand_count(c, p) as int
        } else {
            0
        },
    decreases k,
{
    if k > 0 {
        lemma_hands_set_value(b, k - 1, c, p);
        let ck = if k - 1 < 7 {
            Color::Black
        } else {
            Color::White
        };
        let pk = usi_hand_piece((k - 1) % 7);
        let n = b.pos().hand_count(ck, pk);
        let prev = b.hands_set(k - 1);
        if n == 0 {
            assert(b.hands_set(k) =~= prev);
        } else {
            let x = (ck, pk, n as int);
            assert(b.hands_set(k) =~= prev.push(x));
            assert(b.hands_set(k).drop_last() =~= prev);
        }
    }
}

/// Reading the first `k` hand entries sets their counts, and leaves nothing pending.
#[verifier::rlimit(100)]
proof fn lemma_hands_scan(b: Board, k: int)
    requires
        0 <= k <= 14,
        forall|c: Color, p: Piece| p.idx() < 7 ==> #[trigger] b.pos().hand_count(c, p) < 20,
    ensures
        hand_scan(b.hands_body(k), b.hands_body(k).len() as int) == Some((0int, b.hands_set(k))),
        b.hands_body(k).len() == 0 ==> forall|j: int| 0 <= j < k ==> b.pos().hand_count(
            #[trigger] entry_color(j),
            usi_hand_piece(j % 7),
        ) == 0,
    decreases k,
{
    if k > 0 {
        lemma_hands_scan(b, k - 1);
        lemma_hand_item_scan(b, k - 1, b.hands_body(k - 1), b.hands_set(k - 1));
        assert(b.hands_body(k) == b.hands_body(k - 1) + b.hand_item(k - 1));
    }
}

/// Reading the hands field that [`Board::to_sfen`] writes gives back every count in both
/// hands, counts of several digits included: for each color and each piece that can be
/// held, the count read (see [`hands_layout`] and [`hand_value`]) is the count in the hand.
/// Counts must be below 20, the most a hands field can name.
#[verifier::rlimit(100)]
pub proof fn lemma_hands_round_trip(b: Board)
    requires
        forall|c: Color, p: Piece| p.idx() < 7 ==> #[trigger] b.pos().hand_count(c, p) < 20,
    ensures
        hands_layout(b.hands_text()) matches Some(set) && forall|c: Color, p: Piece| p.idx() < 7 ==> #[trigger] hand_value(
            set,
            c,
            p,
        ) == b.pos().hand_count(c, p),
{
    lemma_hands_scan(b, 14);
    let body = b.hands_body(14);
    let set = b.hands_set(14);
    assert forall|c: Color, p: Piece| p.idx() < 7 implies #[trigger] hand_value(set, c, p) == b.pos().hand_count(c, p) by {
        lemma_hands_set_value(b, 14, c, p);
    }
    if body.len() == 0 {
        assert forall|c: Color, p: Piece| p.idx() < 7 implies #[trigger] b.pos().hand_count(c, p) == 0 by {
            let j = hand_entry(c, p);
            assert(0 <= j < 14);
            assert(usi_hand_piece(j % 7) == p);
            assert(entry_color(j) == c);
        }
        assert forall|c: Color, p: Piece| p.idx() < 7 implies #[trigger] hand_value(
            Seq::<(Color, Piece, int)>::empty(),
            c,
            p,
        ) == b.pos().hand_count(c, p) by {}
    } else {
        if body == seq![45u8] {
            assert(hand_scan(body, 1) == hand_step((0int, Seq::<(Color, Piece, int)>::empty()), 45u8));
            assert(piece_letter(45u8 as char) is None);
        }
    }
}

/// Reading decimal digits in a hands field builds their value as the pending count.
#[verifier::rlimit(100)]
proof fn lemma_digits_scan(a: Seq<u8>, set: Seq<(Color, Piece, int)>, digits: Seq<u8>, j: int)
    requires
        hand_scan(a, a.len() as int) == Some((0int, set)),
        0 <= j <= digits.len(),
        forall|i: int| 0 <= i < digits.len() ==> 48 <= #[trigger] digits[i] <= 57,
        decimal(digits, digits.len() as int) < 20,
    ensures
        hand_scan(a + digits, (a.len() + j) as int) == Some((decimal(digits, j), set)),
    decreases j,
{
    let ad = a + digits;
    let m = a.len() as int;
    if j == 0 {
        assert(ad.subrange(0, m) =~= a.subrange(0, m));
        assert(a.subrange(0, m) =~= a);
        lemma_hand_scan_prefix(ad, a, m);
    } else {
        lemma_digits_scan(a, set, digits, j - 1);
        lemma_decimal_mono(digits, j, digits.len() as int);
        lemma_decimal_nonneg(digits, j - 1);
        assert(ad[m + j - 1] == digits[j - 1]);
    }
}

/// A hands field names counts in decimal: after a complete reading, decimal digits of a
/// value below 20 and then the letter of a piece that can be held set that piece's count in
/// the hand of its color to the value of the digits (to one when the value is zero or no
/// digit is given).
#[verifier::rlimit(100)]
pub proof fn lemma_hand_count_digits(a: Seq<u8>, set: Seq<(Color, Piece, int)>, digits: Seq<u8>, p: Piece, c: Color)
    requires
        hand_scan(a, a.len() as int) == Some((0int, set)),
        p.idx() < 7,
        forall|i: int| 0 <= i < digits.len() ==> 48 <= #[trigger] digits[i] <= 57,
        decimal(digits, digits.len() as int) < 20,
    ensures
        hand_scan(a + digits + seq![letter_byte(p, c)], (a.len() + digits.len() + 1) as int) == Some(
            (
                0int,
                set.push(
                    (
                        c,
                        p,
                        if decimal(digits, digits.len() as int) == 0 {
                            1
                        } else {
                            decimal(digits, digits.len() as int)
                        },
                    ),
                ),
            ),
        ),
{
    let n = digits.len() as int;
    lemma_digits_scan(a, set, digits, n);
    lemma_hand_letter(p, c);
    let l = letter_byte(p, c);
    let all = a + digits + seq![l];
    let ad = a + digits;
    let m = ad.len() as int;
    assert(all.subrange(0, m) =~= ad.subrange(0, m));
    assert(ad.subrange(0, m) =~= ad);
    lemma_hand_scan_prefix(all, ad, m);
    assert(all[m] == l);
    lemma_decimal_nonneg(digits, n);
}

/// Reading the first `n` bytes of a board field depends on those bytes only.
#[verifier::rlimit(100)]
proof fn lemma_board_scan_prefix(a: Seq<u8>, b: Seq<u8>, n: int)
    requires
        0 <= n <= a.len(),
        n <= b.len(),
        a.subrange(0, n) == b.subrange(0, n),
    ensures
        board_scan(a, n) == board_scan(b, n),
    decreases n,
{
    if n > 0 {
        assert(a.subrange(0, n - 1) =~= a.subrange(0, n).subrange(0, n - 1));
        assert(b.subrange(0, n - 1) =~= b.subrange(0, n).subrange(0, n - 1));
        assert(a[n - 1] == a.subrange(0, n)[n - 1]);
        assert(b[n - 1] == b.subrange(0, n)[n - 1]);
        lemma_board_scan_prefix(a, b, n - 1);
    }
}

/// Reading one more byte of a board field is one more step.
#[verifier::rlimit(100)]
proof fn lemma_board_push(a: Seq<u8>, c: u8)
    ensures
        board_scan(a.push(c), a.len() + 1int) == (match board_scan(a, a.len() as int) {
            Some(st) => board_step(st, c),
            None => None,
        }),
{
    let m = a.len() as int;
    assert(a.push(c).subrange(0, m) =~= a.subrange(0, m));
    assert(a.subrange(0, m) =~= a);
    lemma_board_scan_prefix(a.push(c), a, m);
}

impl Board {
    /// The first `n` squares in reading order, as a board field lists them.
    pub open spec fn reading_cells(self, n: int) -> Seq<Cell> {
        Seq::new(n as nat, |j: int| self.content(reading_square(j)))
    }
}

/// Reading the text of a piece after a complete square puts that piece on the next square.
#[verifier::rlimit(100)]
proof fn lemma_piece_text_scan(a: Seq<u8>, r: int, col: int, cells: Seq<Cell>, p: Piece, c: Color)
    requires
        board_scan(a, a.len() as int) == Some((r, col, false, cells)),
        col < 9,
    ensures
        board_scan(a + piece_text(p, c), (a + piece_text(p, c)).len() as int) == Some(
            (r, col + 1, false, cells.push(Some((p, c)))),
        ),
{
    lemma_piece_code_round_trip(p, c);
    let t = piece_text(p, c);
    if p.idx() < 8 {
        assert(a + t =~= a.push(t[0]));
        lemma_board_push(a, t[0]);
        assert(piece_letter(t[0] as char) == Some((p, c)));
    } else {
        assert(a + t =~= a.push(43u8).push(t[1]));
        lemma_board_push(a, 43u8);
        lemma_board_push(a.push(43u8), t[1]);
        assert(piece_letter(t[1] as char) == Some((crate::piece::unpromoted(p), c)));
        assert(promoted(crate::piece::unpromoted(p)) == p);
    }
}

/// Reading the rest of a rank of the board field, from column `col` with `run` empty
/// squares pending, completes the rank.
#[verifier::rlimit(100)]
proof fn lemma_row_scan(b: Board, a: Seq<u8>, r: int, col: int, run: int)
    requires
        0 <= r < 9,
        0 <= run <= col <= 9,
        board_scan(a, a.len() as int) == Some((r, col - run, false, b.reading_cells(9 * r + col - run))),
        forall|j: int| 9 * r + col - run <= j < 9 * r + col ==> #[trigger] b.content(reading_square(j)) is None,
    ensures
        board_scan(a + b.row_text(r, col, run), (a + b.row_text(r, col, run)).len() as int) == Some(
            (r, 9int, false, b.reading_cells(9 * r + 9)),
        ),
    decreases 9 - col,
{
    let base = 9 * r + col - run;
    let nones = Seq::new(run as nat, |k: int| None::<(Piece, Color)>);
    if run > 0 {
        assert(b.reading_cells(base) + nones =~= b.reading_cells(9 * r + col));
    }
    if col >= 9 {
        if run > 0 {
            assert(b.row_text(r, col, run) =~= seq![(48 + run) as u8]);
            assert(a + seq![(48 + run) as u8] =~= a.push((48 + run) as u8));
            lemma_board_push(a, (48 + run) as u8);
        } else {
            assert(a + b.row_text(r, col, run) =~= a);
        }
    } else {
        match b.content(reading_square(9 * r + col)) {
            None => {
                lemma_row_scan(b, a, r, col + 1, run + 1);
            },
            Some((p, c)) => {
                let head: Seq<u8> = if run > 0 {
                    seq![(48 + run) as u8]
                } else {
                    Seq::empty()
                };
                let a1 = a + head;
                if run > 0 {
                    assert(a1 =~= a.push((48 + run) as u8));
                    lemma_board_push(a, (48 + run) as u8);
                } else {
                    assert(a1 =~= a);
                }
                assert(board_scan(a1, a1.len() as int) == Some((r, col, false, b.reading_cells(9 * r + col))));
                lemma_piece_text_scan(a1, r, col, b.reading_cells(9 * r + col), p, c);
                let a2 = a1 + piece_text(p, c);
                assert(b.reading_cells(9 * r + col).push(Some((p, c))) =~= b.reading_cells(9 * r + col + 1));
                lemma_row_scan(b, a2, r, col + 1, 0);
                assert(a + b.row_text(r, col, run) =~= a2 + b.row_text(r, col + 1, 0));
            },
        }
    }
}

/// Reading the first `n` ranks of the board field gives the squares of those ranks.
#[verifier::rlimit(100)]
proof fn lemma_board_text_scan(b: Board, n: int)
    requires
        1 <= n <= 9,
    ensures
        board_scan(b.board_text(n), b.board_text(n).len() as int) == Some((n - 1, 9int, false, b.reading_cells(9 * n))),
    decreases n,
{
    if n == 1 {
        assert(b.reading_cells(0) =~= Seq::<Cell>::empty());
        assert(board_scan(Seq::<u8>::empty(), 0) == Some((0int, 0int, false, b.reading_cells(0))));
        lemma_row_scan(b, Seq::empty(), 0, 0, 0);
        assert(Seq::<u8>::empty() + b.row_text(0, 0, 0) =~= b.board_text(1));
    } else {
        lemma_board_text_scan(b, n - 1);
        let a = b.board_text(n - 1).push(47u8);
        lemma_board_push(b.board_text(n - 1), 47u8);
        lemma_row_scan(b, a, n - 1, 0, 0);
        assert(a + b.row_text(n - 1, 0, 0) =~= b.board_text(n));
    }
}

/// Reading the board field that [`Board::to_sfen`] writes gives back every square: the
/// cell read for each position in reading order is the content of that square.
#[verifier::rlimit(100)]
pub proof fn lemma_board_field_round_trip(b: Board)
    ensures
        board_layout(b.board_text(9)) == Some(b.reading_cells(81)),
        forall|j: int| 0 <= j < 81 ==> #[trigger] b.reading_cells(81)[j] == b.content(reading_square(j)),
{
    lemma_board_text_scan(b, 9);
}

/// The value of the first `n` digits depends on those digits only.
#[verifier::rlimit(100)]
proof fn lemma_decimal_prefix(a: Seq<u8>, b: Seq<u8>, n: int)
    requires
        0 <= n <= a.len(),
        n <= b.len(),
        forall|i: int| 0 <= i < n ==> a[i] == b[i],
    ensures
        decimal(a, n) == decimal(b, n),
    decreases n,
{
    if n > 0 {
        lemma_decimal_prefix(a, b, n - 1);
    }
}

/// The digits of a number are decimal digits and read back as the number.
#[verifier::rlimit(100)]
proof fn lemma_num_text(n: nat)
    ensures
        num_text(n).len() >= 1,
        forall|i: int| 0 <= i < num_text(n).len() ==> 48 <= #[trigger] num_text(n)[i] <= 57,
        decimal(num_text(n), num_text(n).len() as int) == n,
    decreases n,
{
    if n >= 10 {
        lemma_num_text(n / 10);
        let h = num_text(n / 10);
        let t = num_text(n);
        assert(t =~= h + seq![(48 + n % 10) as u8]);
        assert forall|i: int| 0 <= i < t.len() implies 48 <= #[trigger] t[i] <= 57 by {
            if i < h.len() {
                assert(t[i] == h[i]);
            }
        }
        lemma_decimal_prefix(t, h, h.len() as int);
        assert(t[h.len() as int] == (48 + n % 10) as u8);
        assert(decimal(t, t.len() as int) == decimal(t, h.len() as int) * 10 + (t[h.len() as int] - 48));
        assert((n / 10) * 10 + n % 10 == n);
    } else {
        let t = num_text(n);
        assert(decimal(t, 0) == 0);
        assert(t[0] == (48 + n) as u8);
        assert(decimal(t, 1) == decimal(t, 0) * 10 + (t[0] - 48));
    }
}

/// The first space at or after `i` is at `j`.
#[verifier::rlimit(100)]
proof fn lemma_space_at(b: Seq<u8>, i: int, j: int)
    requires
        0 <= i <= j <= b.len(),
        j < b.len() ==> b[j] == 32,
        forall|x: int| i <= x < j ==> b[x] != 32,
    ensures
        space_at(b, i) == j,
    decreases j - i,
{
    if i < j {
        lemma_space_at(b, i + 1, j);
    }
}

/// A board field that reads to the end holds no space.
#[verifier::rlimit(100)]
proof fn lemma_board_no_space(b: Seq<u8>)
    requires
        board_scan(b, b.len() as int) is Some,
    ensures
        forall|x: int| 0 <= x < b.len() ==> b[x] != 32,
{
    assert forall|x: int| 0 <= x < b.len() implies b[x] != 32 by {
        if b[x] == 32 {
            assert(piece_letter(32u8 as char) is None);
            assert(board_scan(b, x + 1) is None);
            lemma_scan_fails(b, x + 1);
        }
    }
}

/// A hands field that reads to the end holds no space.
#[verifier::rlimit(100)]
proof fn lemma_hands_no_space(b: Seq<u8>)
    requires
        hand_scan(b, b.len() as int) is Some,
    ensures
        forall|x: int| 0 <= x < b.len() ==> b[x] != 32,
{
    assert forall|x: int| 0 <= x < b.len() implies b[x] != 32 by {
        if b[x] == 32 {
            assert(piece_letter(32u8 as char) is None);
            assert(hand_scan(b, x + 1) is None);
            lemma_hand_scan_fails(b, x + 1);
        }
    }
}

/// Reading back the SFEN text that [`Board::to_sfen`] writes gives the same position: the
/// text is accepted field by field, the cell read for each position is the content of its
/// square, the count read for each color and piece that can be held is its count in the
/// hand, and the side to move and the move number are those of the board. Hand counts must
/// be below 20 and the move number at least one, as the SFEN grammar asks.
#[verifier::rlimit(100)]
pub proof fn lemma_sfen_round_trip(b: Board)
    requires
        forall|c: Color, p: Piece| p.idx() < 7 ==> #[trigger] b.pos().hand_count(c, p) < 20,
        b.move_num() >= 1,
    ensures
        sfen_syntax(b.sfen_text()) matches Ok(l) && l.0 == b.reading_cells(81) && (forall|j: int|
            0 <= j < 81 ==> #[trigger] l.0[j] == b.content(reading_square(j))) && (forall|c: Color, p: Piece|
            p.idx() < 7 ==> #[trigger] hand_value(l.1, c, p) == b.pos().hand_count(c, p)) && l.2 == b.stm() && l.3
            == b.move_num(),
{
    let bt = b.board_text(9);
    let st: u8 = if b.stm() == Color::Black {
        98u8
    } else {
        119u8
    };
    let ht = b.hands_text();
    let nt = num_text(b.move_num() as nat);
    let text = b.sfen_text();
    assert(text =~= bt + seq![32u8] + seq![st] + seq![32u8] + ht + seq![32u8] + nt);
    lemma_board_field_round_trip(b);
    lemma_board_text_scan(b, 9);
    lemma_board_no_space(bt);
    lemma_hands_round_trip(b);
    lemma_num_text(b.move_num() as nat);
    let e0 = bt.len() as int;
    let e1 = e0 + 2;
    let e2 = e1 + 1 + ht.len();
    // the hands field holds no space
    if ht == seq![45u8] {
    } else {
        lemma_hands_scan(b, 14);
        assert(ht == b.hands_body(14));
        lemma_hands_no_space(ht);
    }
    assert forall|x: int| 0 <= x < e0 implies text[x] != 32 by {
        assert(text[x] == bt[x]);
    }
    lemma_space_at(text, 0, e0);
    assert(text[e0 + 1] == st);
    lemma_space_at(text, e0 + 1, e1);
    assert forall|x: int| e1 + 1 <= x < e2 implies text[x] != 32 by {
        assert(text[x] == ht[x - e1 - 1]);
    }
    lemma_space_at(text, e1 + 1, e2);
    assert forall|x: int| e2 + 1 <= x < text.len() implies text[x] != 32 by {
        assert(text[x] == nt[x - e2 - 1]);
    }
    lemma_space_at(text, e2 + 1, text.len() as int);
    assert(text.subrange(0, e0) =~= bt);
    assert(text.subrange(e0 + 1, e1) =~= seq![st]);
    assert(text.subrange(e1 + 1, e2) =~= ht);
    assert(text.subrange(e2 + 1, text.len() as int) =~= nt);
    assert(b.move_num() <= 65535);
}

} // verus!
