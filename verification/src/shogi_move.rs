//! Shogi moves: drops and board moves, with USI and Grimbergen parsing.
use vstd::prelude::*;
use crate::piece::{Piece, piece_code, piece_text, lemma_piece_code_round_trip};
use crate::color::Color;
use crate::square::{Square, square_code, lemma_square_idx};
use vstd::string::StringSliceAdditionalSpecFns;

verus! {

/// A Shogi move.
#[derive(Debug, Clone, Copy, PartialEq, Eq, Hash, Structural)]
pub enum Move {
    /// Put a piece from hand on an empty square.
    Drop {
        /// The piece dropped.
        piece: Piece,
        /// The square it lands on.
        to: Square,
    },
    /// Move a piece on the board, possibly promoting it.
    BoardMove {
        /// The square the piece leaves.
        from: Square,
        /// The square the piece lands on.
        to: Square,
        /// The piece promotes.
        promotion: bool,
    },
}

/// Why a move string was not a valid move.
#[derive(Debug, Clone, Copy, PartialEq, Eq, Hash, Structural)]
pub enum MoveParseError {
    /// The piece of a drop was not valid.
    InvalidPiece,
    /// A square was not valid.
    InvalidSquare,
    /// The move did not have the expected shape.
    InvalidFormat,
    /// Characters were left after the move.
    ExtraCharacters,
}

/// The index of the first `*` (byte 42) in `b` at or after `i`, if any.
pub open spec fn find_star(b: Seq<u8>, i: int) -> Option<int>
    decreases b.len() - i,
{
    if i < 0 || i >= b.len() {
        None
    } else if b[i] == 42 {
        Some(i)
    } else {
        find_star(b, i + 1)
    }
}

/// A drop written as a piece code, `*` and a square, split at the star `k`.
pub open spec fn drop_at(b: Seq<u8>, k: int) -> Result<Move, MoveParseError> {
    match piece_code(b.subrange(0, k)) {
        None => Err(MoveParseError::InvalidPiece),
        Some((p, _)) => match square_code(b.subrange(k + 1, b.len() as int)) {
            None => Err(MoveParseError::InvalidSquare),
            Some(t) => Ok(Move::Drop { piece: p, to: t }),
        },
    }
}

/// The move a USI string names: a drop such as `P*7b`, or two squares and an optional `+`.
pub open spec fn usi_move(b: Seq<u8>) -> Result<Move, MoveParseError> {
    match find_star(b, 0) {
        Some(k) => drop_at(b, k),
        None => if b.len() < 4 {
            Err(MoveParseError::InvalidFormat)
        } else {
            match square_code(b.subrange(0, 2)) {
                None => Err(MoveParseError::InvalidSquare),
                Some(from) => match square_code(b.subrange(2, 4)) {
                    None => Err(MoveParseError::InvalidSquare),
                    Some(to) => if b.len() == 4 {
                        Ok(Move::BoardMove { from, to, promotion: false })
                    } else if b[4] != 43 || b.len() > 5 {
                        Err(MoveParseError::ExtraCharacters)
                    } else {
                        Ok(Move::BoardMove { from, to, promotion: true })
                    },
                },
            }
        },
    }
}

/// The length of the piece part of a Grimbergen board move: two with a `+`, else one.
pub open spec fn piece_part_len(b: Seq<u8>) -> int {
    if b.len() > 0 && b[0] == 43 {
        2
    } else {
        1
    }
}

/// The move a Grimbergen string names: a drop such as `P*7b`, or a piece, a square, `x` or
/// `-`, a square and an optional `+` or `=`, such as `B8hx3c+`.
pub open spec fn grimbergen_move(b: Seq<u8>) -> Result<Move, MoveParseError> {
    match find_star(b, 0) {
        Some(k) => drop_at(b, k),
        None => {
            let n = piece_part_len(b);
            if b.len() < n + 2 {
                Err(MoveParseError::InvalidSquare)
            } else {
                match square_code(b.subrange(n, n + 2)) {
                    None => Err(MoveParseError::InvalidSquare),
                    Some(from) => if b.len() < n + 5 {
                        Err(MoveParseError::InvalidSquare)
                    } else {
                        match square_code(b.subrange(n + 3, n + 5)) {
                            None => Err(MoveParseError::InvalidSquare),
                            Some(to) => if b[n + 2] != 120 && b[n + 2] != 45 {
                                Err(MoveParseError::InvalidFormat)
                            } else if b.len() == n + 5 {
                                Ok(Move::BoardMove { from, to, promotion: false })
                            } else if b[n + 5] != 43 && b[n + 5] != 61 {
                                Err(MoveParseError::ExtraCharacters)
                            } else if b.len() > n + 6 {
                                Err(MoveParseError::ExtraCharacters)
                            } else {
                                Ok(Move::BoardMove { from, to, promotion: b[n + 5] == 43 })
                            },
                        }
                    },
                }
            }
        },
    }
}

/// The index of the first `*` in `b`, if any.
fn find_star_exec(b: &[u8]) -> (r: Option<usize>)
    ensures
        r matches Some(k) ==> find_star(b@, 0) == Some(k as int) && k < b.len(),
        r is None ==> find_star(b@, 0) is None,
{
    let mut i: usize = 0;
    while i < b.len()
        invariant
            i <= b.len(),
            find_star(b@, 0) == find_star(b@, i as int),
        decreases b.len() - i,
    {
        if b[i] == 42 {
            return Some(i);
        }
        i = i + 1;
    }
    None
}

/// Parse a drop split at the star `k`.
fn parse_drop(b: &[u8], k: usize) -> (r: Result<Move, MoveParseError>)
    requires
        k < b.len(),
    ensures
        r == drop_at(b@, k as int),
{
    let piece_part = slice_range(b, 0, k);
    let square_part = slice_range(b, k + 1, b.len());
    match Piece::try_from_bytes(piece_part) {
        None => Err(MoveParseError::InvalidPiece),
        Some((p, _)) => match Square::try_from_bytes(square_part) {
            None => Err(MoveParseError::InvalidSquare),
            Some(t) => Ok(Move::Drop { piece: p, to: t }),
        },
    }
}

/// The bytes of `b` from `lo` up to `hi`.
pub(crate) fn slice_range(b: &[u8], lo: usize, hi: usize) -> (r: &[u8])
    requires
        lo <= hi <= b.len(),
    ensures
        r@ == b@.subrange(lo as int, hi as int),
{
    let (head, _) = b.split_at(hi);
    let (_, mid) = head.split_at(lo);
    mid
}

impl Move {
    /// The square the move lands on.
    pub open spec fn to_square(self) -> Square {
        match self {
            Move::Drop { to, .. } => to,
            Move::BoardMove { to, .. } => to,
        }
    }

    /// The index of the square the move lands on.
    pub open spec fn to_idx(self) -> int {
        self.to_square().idx()
    }

    /// Is this move a promotion?
    pub fn is_promotion(&self) -> (r: bool)
        ensures
            r == (*self matches Move::BoardMove { promotion, .. } && promotion),
    {
        match self {
            Move::BoardMove { promotion, .. } => *promotion,
            Move::Drop { .. } => false,
        }
    }

    /// Is this move a drop?
    pub fn is_drop(&self) -> (r: bool)
        ensures
            r == (self is Drop),
    {
        matches!(self, Move::Drop { .. })
    }

    /// Is this move a board move?
    pub fn is_board_move(&self) -> (r: bool)
        ensures
            r == (self is BoardMove),
    {
        !self.is_drop()
    }

    /// The piece dropped, for a drop; a board move needs the board to know its piece.
    pub fn piece(&self) -> (r: Option<Piece>)
        ensures
            r == (match *self {
                Move::Drop { piece, .. } => Some(piece),
                Move::BoardMove { .. } => None,
            }),
    {
        match self {
            Move::Drop { piece, .. } => Some(*piece),
            Move::BoardMove { .. } => None,
        }
    }

    /// The square a board move leaves; a drop has none.
    pub fn from(&self) -> (r: Option<Square>)
        ensures
            r == (match *self {
                Move::Drop { .. } => None,
                Move::BoardMove { from, .. } => Some(from),
            }),
    {
        match self {
            Move::Drop { .. } => None,
            Move::BoardMove { from, .. } => Some(*from),
        }
    }

    /// The square the move lands on.
    pub fn to(&self) -> (r: Square)
        ensures
            r == (match *self {
                Move::Drop { to, .. } => to,
                Move::BoardMove { to, .. } => to,
            }),
    {
        match self {
            Move::Drop { to, .. } => *to,
            Move::BoardMove { to, .. } => *to,
        }
    }

    /// Parse a move in USI notation: `P*7b` for a drop, `7g7f` or `7g7f+` for a board move.
    pub fn from_str(s: &str) -> (r: Result<Move, MoveParseError>)
        ensures
            r == usi_move(s.spec_bytes()),
    {
        Self::from_usi_bytes(s.as_bytes())
    }

    /// Parse a move in USI notation, given as bytes.
    pub fn from_usi_bytes(b: &[u8]) -> (r: Result<Move, MoveParseError>)
        ensures
            r == usi_move(b@),
    {
        if let Some(k) = find_star_exec(b) {
            return parse_drop(b, k);
        }
        if b.len() < 4 {
            return Err(MoveParseError::InvalidFormat);
        }
        let from = match Square::try_from_bytes(slice_range(b, 0, 2)) {
            Some(sq) => sq,
            None => return Err(MoveParseError::InvalidSquare),
        };
        let to = match Square::try_from_bytes(slice_range(b, 2, 4)) {
            Some(sq) => sq,
            None => return Err(MoveParseError::InvalidSquare),
        };
        if b.len() == 4 {
            Ok(Move::BoardMove { from, to, promotion: false })
        } else if b[4] != 43 || b.len() > 5 {
            Err(MoveParseError::ExtraCharacters)
        } else {
            Ok(Move::BoardMove { from, to, promotion: true })
        }
    }

    /// Parse a move in the notation of Reier Grimbergen: `P*7b` for a drop, or a piece,
    /// a square, `x` or `-`, a square and an optional `+` or `=`, such as `R8bx8f` or `B8hx3c+`.
    /// The piece of a board move is not checked.
    pub fn parse(s: &str) -> (r: Result<Move, MoveParseError>)
        requires
            find_star(s.spec_bytes(), 0) is None ==> s.spec_bytes().len() >= piece_part_len(
                s.spec_bytes(),
            ),
        ensures
            r == grimbergen_move(s.spec_bytes()),
    {
        Self::parse_bytes(s.as_bytes())
    }

    /// Parse a move in the notation of Reier Grimbergen, given as bytes.
    pub fn parse_bytes(b: &[u8]) -> (r: Result<Move, MoveParseError>)
        requires
            find_star(b@, 0) is None ==> b@.len() >= piece_part_len(b@),
        ensures
            r == grimbergen_move(b@),
    {
        if let Some(k) = find_star_exec(b) {
            return parse_drop(b, k);
        }
        let n: usize = if b.len() > 0 && b[0] == 43 { 2 } else { 1 };
        if b.len() < n + 2 {
            return Err(MoveParseError::InvalidSquare);
        }
        let from = match Square::try_from_bytes(slice_range(b, n, n + 2)) {
            Some(sq) => sq,
            None => return Err(MoveParseError::InvalidSquare),
        };
        if b.len() < n + 5 {
            return Err(MoveParseError::InvalidSquare);
        }
        let to = match Square::try_from_bytes(slice_range(b, n + 3, n + 5)) {
            Some(sq) => sq,
            None => return Err(MoveParseError::InvalidSquare),
        };
        if b[n + 2] != 120 && b[n + 2] != 45 {
            return Err(MoveParseError::InvalidFormat);
        }
        if b.len() == n + 5 {
            return Ok(Move::BoardMove { from, to, promotion: false });
        }
        if b[n + 5] != 43 && b[n + 5] != 61 {
            return Err(MoveParseError::ExtraCharacters);
        }
        if b.len() > n + 6 {
            return Err(MoveParseError::ExtraCharacters);
        }
        Ok(Move::BoardMove { from, to, promotion: b[n + 5] == 43 })
    }
}

impl core::str::FromStr for Move {
    type Err = MoveParseError;

    fn from_str(s: &str) -> Result<Move, MoveParseError> {
        Move::from_usi_bytes(s.as_bytes())
    }
}

/// The USI name of a square: its file digit (`1` to `9`) and its rank letter (`a` to `i`).
pub open spec fn square_text(s: Square) -> Seq<u8> {
    seq![(49 + s.idx() / 9) as u8, (97 + s.idx() % 9) as u8]
}

/// The USI text of a move: the two squares of a board move, then `+` when it promotes; or
/// the (uppercase) code of the dropped piece, `*` and the target square.
pub open spec fn usi_text(mv: Move) -> Seq<u8> {
    match mv {
        Move::BoardMove { from, to, promotion } => square_text(from) + square_text(to) + (if promotion {
            seq![43u8]
        } else {
            Seq::empty()
        }),
        Move::Drop { piece, to } => piece_text(piece, Color::Black) + seq![42u8] + square_text(to),
    }
}

/// Reading the name of a square gives the square.
proof fn lemma_square_text(s: Square)
    ensures
        square_code(square_text(s)) == Some(s),
{
    lemma_square_idx(s);
    let i = s.idx();
    assert(0 <= i / 9 <= 8 && 0 <= i % 9 <= 8);
    assert(9 * (i / 9) + i % 9 == i);
}

/// No `*` at or after `i`.
proof fn lemma_no_star(b: Seq<u8>, i: int)
    requires
        0 <= i,
        forall|j: int| i <= j < b.len() ==> b[j] != 42,
    ensures
        find_star(b, i) is None,
    decreases b.len() - i,
{
    if i < b.len() {
        lemma_no_star(b, i + 1);
    }
}

/// The first `*` at or after `i` is at `k`.
proof fn lemma_star_at(b: Seq<u8>, i: int, k: int)
    requires
        0 <= i <= k < b.len(),
        b[k] == 42,
        forall|j: int| i <= j < k ==> b[j] != 42,
    ensures
        find_star(b, i) == Some(k),
    decreases k - i,
{
    if i < k {
        lemma_star_at(b, i + 1, k);
    }
}

/// Reading the USI text of a move gives the move back: a board move with its promotion
/// flag (`+` read as promoting, its absence as not), and a drop with its piece and square.
pub proof fn lemma_usi_round_trip(mv: Move)
    ensures
        usi_move(usi_text(mv)) == Ok::<Move, MoveParseError>(mv),
{
    let b = usi_text(mv);
    match mv {
        Move::BoardMove { from, to, promotion } => {
            lemma_square_text(from);
            lemma_square_text(to);
            lemma_square_idx(from);
            lemma_square_idx(to);
            assert(b.subrange(0, 2) =~= square_text(from));
            assert(b.subrange(2, 4) =~= square_text(to));
            lemma_no_star(b, 0);
        },
        Move::Drop { piece, to } => {
            lemma_square_text(to);
            lemma_square_idx(to);
            lemma_piece_code_round_trip(piece, Color::Black);
            let t = piece_text(piece, Color::Black);
            let k = t.len() as int;
            assert(b[k] == 42);
            assert forall|j: int| 0 <= j < k implies b[j] != 42 by {
                assert(b[j] == t[j]);
            }
            lemma_star_at(b, 0, k);
            assert(b.subrange(0, k) =~= t);
            assert(b.subrange(k + 1, b.len() as int) =~= square_text(to));
        },
    }
}

/// The square that a square name names has that name.
proof fn lemma_square_code_text(b: Seq<u8>)
    requires
        square_code(b) is Some,
    ensures
        b == square_text(square_code(b).unwrap()),
{
    let f = b[0] - 49;
    let r = b[1] - 97;
    let i = crate::square::sq_index(f, r);
    crate::square::lemma_square_from_idx(i);
    assert(i / 9 == f && i % 9 == r);
    assert(b =~= square_text(square_code(b).unwrap()));
}

/// A board move is read only from its USI text: a text that reads as a board move is the
/// two square names of the move, followed by `+` exactly when the move promotes.
pub proof fn lemma_usi_board_move_text(b: Seq<u8>)
    requires
        usi_move(b) matches Ok(Move::BoardMove { .. }),
    ensures
        b == usi_text(usi_move(b).unwrap()),
{
    lemma_square_code_text(b.subrange(0, 2));
    lemma_square_code_text(b.subrange(2, 4));
    if b.len() == 4 {
        assert(b =~= b.subrange(0, 2) + b.subrange(2, 4));
    } else {
        assert(b =~= b.subrange(0, 2) + b.subrange(2, 4) + seq![43u8]);
    }
    assert(b =~= usi_text(usi_move(b).unwrap()));
}

} // verus!
