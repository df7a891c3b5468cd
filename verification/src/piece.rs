//! Shogi piece types.
use vstd::prelude::*;
use crate::color::Color;
use crate::square::Square;
use vstd::string::StringSliceAdditionalSpecFns;

verus! {

broadcast use crate::bits::group_bit_lemmas;

/// Shogi piece types.
#[derive(Debug, Clone, Copy, PartialEq, Eq, Hash, PartialOrd, Ord, Structural)]
pub enum Piece {
    Pawn,
    Lance,
    Knight,
    Silver,
    Bishop,
    Rook,
    Gold,
    King,
    Tokin,
    PLance,
    PKnight,
    PSilver,
    PBishop,
    PRook,
}

impl Piece {
    /// The number of values.
    pub const NUM: usize = 14;

    /// All values, in index order.
    pub const ALL: [Piece; 14] = [
        Piece::Pawn, Piece::Lance, Piece::Knight, Piece::Silver, Piece::Bishop, Piece::Rook,
        Piece::Gold, Piece::King, Piece::Tokin, Piece::PLance, Piece::PKnight, Piece::PSilver,
        Piece::PBishop, Piece::PRook,
    ];

    /// The position of this value in [`Self::ALL`].
    pub open spec fn idx(self) -> int {
        match self {
            Piece::Pawn => 0,
            Piece::Lance => 1,
            Piece::Knight => 2,
            Piece::Silver => 3,
            Piece::Bishop => 4,
            Piece::Rook => 5,
            Piece::Gold => 6,
            Piece::King => 7,
            Piece::Tokin => 8,
            Piece::PLance => 9,
            Piece::PKnight => 10,
            Piece::PSilver => 11,
            Piece::PBishop => 12,
            Piece::PRook => 13,
        }
    }

    /// The value at position `i` of [`Self::ALL`].
    pub open spec fn from_idx(i: int) -> Self {
        if i == 0 {
            Piece::Pawn
        } else if i == 1 {
            Piece::Lance
        } else if i == 2 {
            Piece::Knight
        } else if i == 3 {
            Piece::Silver
        } else if i == 4 {
            Piece::Bishop
        } else if i == 5 {
            Piece::Rook
        } else if i == 6 {
            Piece::Gold
        } else if i == 7 {
            Piece::King
        } else if i == 8 {
            Piece::Tokin
        } else if i == 9 {
            Piece::PLance
        } else if i == 10 {
            Piece::PKnight
        } else if i == 11 {
            Piece::PSilver
        } else if i == 12 {
            Piece::PBishop
        } else {
            Piece::PRook
        }
    }

    /// The position of this value in [`Self::ALL`].
    pub fn index(self) -> (r: usize)
        ensures
            r == self.idx(),
    {
        match self {
            Piece::Pawn => 0,
            Piece::Lance => 1,
            Piece::Knight => 2,
            Piece::Silver => 3,
            Piece::Bishop => 4,
            Piece::Rook => 5,
            Piece::Gold => 6,
            Piece::King => 7,
            Piece::Tokin => 8,
            Piece::PLance => 9,
            Piece::PKnight => 10,
            Piece::PSilver => 11,
            Piece::PBishop => 12,
            Piece::PRook => 13,
        }
    }

    /// The value at position `i` of [`Self::ALL`].
    pub fn index_const(i: usize) -> (r: Self)
        requires
            i < 14,
        ensures
            r.idx() == i,
            r == Self::from_idx(i as int),
    {
        match i {
            0 => Piece::Pawn,
            1 => Piece::Lance,
            2 => Piece::Knight,
            3 => Piece::Silver,
            4 => Piece::Bishop,
            5 => Piece::Rook,
            6 => Piece::Gold,
            7 => Piece::King,
            8 => Piece::Tokin,
            9 => Piece::PLance,
            10 => Piece::PKnight,
            11 => Piece::PSilver,
            12 => Piece::PBishop,
            _ => Piece::PRook,
        }
    }

    /// The value at position `i` of [`Self::ALL`], if there is one.
    pub fn try_index(i: usize) -> (r: Option<Self>)
        ensures
            i < 14 ==> r == Some(Self::from_idx(i as int)),
            i >= 14 ==> r is None,
    {
        if i < 14 {
            Some(Self::index_const(i))
        } else {
            None
        }
    }
}

/// Every value of [`Piece`] has a position below [`Piece::NUM`], and positions identify values.
pub broadcast proof fn lemma_piece_idx(x: Piece)
    ensures
        0 <= #[trigger] x.idx() < 14,
        Piece::from_idx(x.idx()) == x,
{
}

/// Positions below [`Piece::NUM`] name exactly one value.
pub broadcast proof fn lemma_piece_from_idx(i: int)
    requires
        0 <= i < 14,
    ensures
        #[trigger] Piece::from_idx(i).idx() == i,
{
}
/// The number of piece types that can be held in hand: pawn to gold.
pub const HAND_NUM: usize = 7;

/// The most pieces of each type a side can hold in hand (pawn, lance, knight, silver,
/// bishop, rook, gold; zero for the rest).
pub const MAX_HAND: [u8; 14] = [18, 4, 4, 4, 2, 2, 4, 0, 0, 0, 0, 0, 0, 0];

/// A piece paired with its color.
#[derive(Debug, Clone, Copy, PartialEq, Eq, Hash, Structural)]
pub struct ColoredPiece {
    /// The piece type.
    pub piece: Piece,
    /// The side it belongs to.
    pub color: Color,
}

/// The promoted form of a piece; pieces that cannot promote map to themselves.
pub open spec fn promoted(p: Piece) -> Piece {
    match p {
        Piece::Pawn => Piece::Tokin,
        Piece::Lance => Piece::PLance,
        Piece::Knight => Piece::PKnight,
        Piece::Silver => Piece::PSilver,
        Piece::Bishop => Piece::PBishop,
        Piece::Rook => Piece::PRook,
        _ => p,
    }
}

/// The unpromoted form of a piece; unpromoted pieces map to themselves.
pub open spec fn unpromoted(p: Piece) -> Piece {
    match p {
        Piece::Tokin => Piece::Pawn,
        Piece::PLance => Piece::Lance,
        Piece::PKnight => Piece::Knight,
        Piece::PSilver => Piece::Silver,
        Piece::PBishop => Piece::Bishop,
        Piece::PRook => Piece::Rook,
        _ => p,
    }
}

/// A piece of `color` must promote on a square of rank index `rank`: it could never move again.
pub open spec fn must_promote_at(p: Piece, color: Color, rank: int) -> bool {
    if color == Color::White {
        ((p == Piece::Pawn || p == Piece::Lance) && rank == 8) || (p == Piece::Knight && rank >= 7)
    } else {
        ((p == Piece::Pawn || p == Piece::Lance) && rank == 0) || (p == Piece::Knight && rank <= 1)
    }
}

/// The rank indices of the promotion zone of `color`: the three far ranks.
pub open spec fn in_promotion_zone(color: Color, rank: int) -> bool {
    if color == Color::White {
        rank > 5
    } else {
        rank < 3
    }
}

/// The piece and color named by one SFEN letter.
pub open spec fn piece_letter(c: char) -> Option<(Piece, Color)> {
    if c == 'p' {
        Some((Piece::Pawn, Color::White))
    } else if c == 'l' {
        Some((Piece::Lance, Color::White))
    } else if c == 'n' {
        Some((Piece::Knight, Color::White))
    } else if c == 's' {
        Some((Piece::Silver, Color::White))
    } else if c == 'g' {
        Some((Piece::Gold, Color::White))
    } else if c == 'r' {
        Some((Piece::Rook, Color::White))
    } else if c == 'b' {
        Some((Piece::Bishop, Color::White))
    } else if c == 'k' {
        Some((Piece::King, Color::White))
    } else if c == 'P' {
        Some((Piece::Pawn, Color::Black))
    } else if c == 'L' {
        Some((Piece::Lance, Color::Black))
    } else if c == 'N' {
        Some((Piece::Knight, Color::Black))
    } else if c == 'S' {
        Some((Piece::Silver, Color::Black))
    } else if c == 'G' {
        Some((Piece::Gold, Color::Black))
    } else if c == 'R' {
        Some((Piece::Rook, Color::Black))
    } else if c == 'B' {
        Some((Piece::Bishop, Color::Black))
    } else if c == 'K' {
        Some((Piece::King, Color::Black))
    } else {
        None
    }
}

/// The SFEN letter of the unpromoted piece `p` of color `c`.
pub open spec fn letter_byte(p: Piece, c: Color) -> u8 {
    let lower: u8 = match p {
        Piece::Pawn => 112,
        Piece::Lance => 108,
        Piece::Knight => 110,
        Piece::Silver => 115,
        Piece::Bishop => 98,
        Piece::Rook => 114,
        Piece::Gold => 103,
        _ => 107,
    };
    if c == Color::White {
        lower
    } else {
        (lower - 32) as u8
    }
}

/// The SFEN code of `p` of color `c`: its letter, after a `+` for a promoted piece.
pub open spec fn piece_text(p: Piece, c: Color) -> Seq<u8> {
    if p.idx() < 8 {
        seq![letter_byte(p, c)]
    } else {
        seq![43u8, letter_byte(unpromoted(p), c)]
    }
}

/// The piece and color named by a SFEN piece code: one letter, or `+` and the letter of a
/// piece that can promote. Characters after the first two are not read.
pub open spec fn piece_code(b: Seq<u8>) -> Option<(Piece, Color)> {
    if b.len() == 0 {
        None
    } else if b[0] == 43 {
        if b.len() >= 2 {
            match piece_letter(b[1] as char) {
                Some((p, c)) => if p == Piece::Gold || p == Piece::King {
                    None
                } else {
                    Some((promoted(p), c))
                },
                None => None,
            }
        } else {
            None
        }
    } else if b.len() == 1 {
        piece_letter(b[0] as char)
    } else {
        None
    }
}

impl Piece {
    /// Is this a promoted piece?
    pub fn is_promoted(self) -> (r: bool)
        ensures
            r == (self.idx() >= 8),
    {
        self.index() >= 8
    }

    /// Is this an unpromoted piece?
    pub fn is_unpromoted(self) -> (r: bool)
        ensures
            r == (self.idx() < 8),
    {
        self.index() < 8
    }

    /// Can this piece ever promote?
    pub fn is_promotable(self) -> (r: bool)
        ensures
            r == (self.idx() < 6),
    {
        self.index() < 6
    }

    /// Can this piece of `color` promote on `square`: it can promote at all, and the square is
    /// in the promotion zone of `color`.
    pub fn can_promote(self, color: Color, square: Square) -> (r: bool)
        ensures
            r == (self.idx() < 6 && in_promotion_zone(color, square.rank_idx())),
    {
        if !self.is_promotable() {
            false
        } else {
            let rank = square.rank().index();
            match color {
                Color::White => rank > 5,
                Color::Black => rank < 3,
            }
        }
    }

    /// Must this piece of `color` promote on `square`?
    pub fn must_promote(self, color: Color, square: Square) -> (r: bool)
        ensures
            r == must_promote_at(self, color, square.rank_idx()),
    {
        let rank = square.rank().index();
        if 1 < rank && rank < 7 {
            return false;
        }
        match color {
            Color::White => match self {
                Piece::Pawn | Piece::Lance => rank == 8,
                Piece::Knight => rank >= 7,
                _ => false,
            },
            Color::Black => match self {
                Piece::Pawn | Piece::Lance => rank == 0,
                Piece::Knight => rank <= 1,
                _ => false,
            },
        }
    }

    /// Can this piece of `color` be dropped on `square`: it would not have to promote there.
    /// The square is assumed empty.
    pub fn can_drop(self, color: Color, square: Square) -> (r: bool)
        ensures
            r == !must_promote_at(self, color, square.rank_idx()),
    {
        !self.must_promote(color, square)
    }

    /// The promoted form of this piece; a piece that cannot promote stays itself.
    pub fn promote(self) -> (r: Piece)
        ensures
            r == promoted(self),
    {
        match self {
            Piece::Pawn => Piece::Tokin,
            Piece::Lance => Piece::PLance,
            Piece::Knight => Piece::PKnight,
            Piece::Silver => Piece::PSilver,
            Piece::Bishop => Piece::PBishop,
            Piece::Rook => Piece::PRook,
            _ => self,
        }
    }

    /// The promoted form when `yes`, this piece otherwise.
    pub fn do_promote(self, yes: bool) -> (r: Piece)
        ensures
            r == (if yes { promoted(self) } else { self }),
    {
        if yes {
            self.promote()
        } else {
            self
        }
    }

    /// The unpromoted form of this piece; an unpromoted piece stays itself.
    pub fn unpromote(self) -> (r: Piece)
        ensures
            r == unpromoted(self),
    {
        match self {
            Piece::Tokin => Piece::Pawn,
            Piece::PLance => Piece::Lance,
            Piece::PKnight => Piece::Knight,
            Piece::PSilver => Piece::Silver,
            Piece::PBishop => Piece::Bishop,
            Piece::PRook => Piece::Rook,
            _ => self,
        }
    }

    /// The SFEN letter of this unpromoted piece: lowercase for White, uppercase for Black.
    pub fn to_letter(self, color: Color) -> (r: u8)
        requires
            self.idx() < 8,
        ensures
            piece_letter(r as char) == Some((self, color)),
            r == letter_byte(self, color),
    {
        let lower: u8 = match self {
            Piece::Pawn => 112,
            Piece::Lance => 108,
            Piece::Knight => 110,
            Piece::Silver => 115,
            Piece::Bishop => 98,
            Piece::Rook => 114,
            Piece::Gold => 103,
            _ => 107,
        };
        match color {
            Color::White => lower,
            Color::Black => lower - 32,
        }
    }

    /// The SFEN code of this piece of `color`, such as `p`, `K` or `+r`.
    pub fn to_str(self, color: Color) -> (r: Vec<u8>)
        ensures
            piece_code(r@) == Some((self, color)),
            r@ == piece_text(self, color),
    {
        let base = self.unpromote();
        let l = base.to_letter(color);
        if base == self {
            let r = vec![l];
            proof {
                assert(r@ =~= seq![l]);
            }
            r
        } else {
            let r = vec![43u8, l];
            proof {
                assert(r@ =~= seq![43u8, l]);
                assert(l != 43u8);
            }
            r
        }
    }

    /// The piece and color named by one SFEN letter: lowercase for White, uppercase for Black.
    pub fn try_from_char(c: char) -> (r: Option<(Piece, Color)>)
        ensures
            r == piece_letter(c),
    {
        match c {
            'p' => Some((Piece::Pawn, Color::White)),
            'l' => Some((Piece::Lance, Color::White)),
            'n' => Some((Piece::Knight, Color::White)),
            's' => Some((Piece::Silver, Color::White)),
            'g' => Some((Piece::Gold, Color::White)),
            'r' => Some((Piece::Rook, Color::White)),
            'b' => Some((Piece::Bishop, Color::White)),
            'k' => Some((Piece::King, Color::White)),
            'P' => Some((Piece::Pawn, Color::Black)),
            'L' => Some((Piece::Lance, Color::Black)),
            'N' => Some((Piece::Knight, Color::Black)),
            'S' => Some((Piece::Silver, Color::Black)),
            'G' => Some((Piece::Gold, Color::Black)),
            'R' => Some((Piece::Rook, Color::Black)),
            'B' => Some((Piece::Bishop, Color::Black)),
            'K' => Some((Piece::King, Color::Black)),
            _ => None,
        }
    }

    /// The piece and color named by a SFEN piece code such as `p`, `K` or `+r`.
    pub fn try_from_str(s: &str) -> (r: Option<(Piece, Color)>)
        ensures
            r == piece_code(s.spec_bytes()),
    {
        let b = s.as_bytes();
        Self::try_from_bytes(b)
    }

    /// The piece and color named by a SFEN piece code, given as bytes.
    pub fn try_from_bytes(b: &[u8]) -> (r: Option<(Piece, Color)>)
        ensures
            r == piece_code(b@),
    {
        if b.len() == 0 {
            return None;
        }
        let first = b[0];
        if first == 43 {
            if b.len() < 2 {
                return None;
            }
            match Self::try_from_char(b[1] as char) {
                Some((p, c)) => {
                    if p == Piece::Gold || p == Piece::King {
                        None
                    } else {
                        Some((p.promote(), c))
                    }
                },
                None => None,
            }
        } else if b.len() == 1 {
            Self::try_from_char(first as char)
        } else {
            None
        }
    }
}

/// Reading back the SFEN code of a piece gives the piece and its color.
pub proof fn lemma_piece_code_round_trip(p: Piece, c: Color)
    ensures
        piece_code(piece_text(p, c)) == Some((p, c)),
{
    let t = piece_text(p, c);
    match c {
        Color::White => match p {
            Piece::Pawn => assert(piece_letter(t[0] as char) == Some((p, c))),
            Piece::Lance => assert(piece_letter(t[0] as char) == Some((p, c))),
            Piece::Knight => assert(piece_letter(t[0] as char) == Some((p, c))),
            Piece::Silver => assert(piece_letter(t[0] as char) == Some((p, c))),
            Piece::Bishop => assert(piece_letter(t[0] as char) == Some((p, c))),
            Piece::Rook => assert(piece_letter(t[0] as char) == Some((p, c))),
            Piece::Gold => assert(piece_letter(t[0] as char) == Some((p, c))),
            Piece::King => assert(piece_letter(t[0] as char) == Some((p, c))),
            _ => assert(piece_letter(t[1] as char) == Some((unpromoted(p), c))),
        },
        Color::Black => match p {
            Piece::Pawn => assert(piece_letter(t[0] as char) == Some((p, c))),
            Piece::Lance => assert(piece_letter(t[0] as char) == Some((p, c))),
            Piece::Knight => assert(piece_letter(t[0] as char) == Some((p, c))),
            Piece::Silver => assert(piece_letter(t[0] as char) == Some((p, c))),
            Piece::Bishop => assert(piece_letter(t[0] as char) == Some((p, c))),
            Piece::Rook => assert(piece_letter(t[0] as char) == Some((p, c))),
            Piece::Gold => assert(piece_letter(t[0] as char) == Some((p, c))),
            Piece::King => assert(piece_letter(t[0] as char) == Some((p, c))),
            _ => assert(piece_letter(t[1] as char) == Some((unpromoted(p), c))),
        },
    }
}

} // verus!
