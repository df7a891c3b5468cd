//! The two sides of a Shogi game.
use vstd::prelude::*;

verus! {

broadcast use crate::bits::group_bit_lemmas;

/// The two sides: White (Gote) and Black (Sente).
#[derive(Debug, Clone, Copy, PartialEq, Eq, Hash, PartialOrd, Ord, Structural)]
pub enum Color {
    White,
    Black,
}

impl Color {
    /// The number of values.
    pub const NUM: usize = 2;

    /// All values, in index order.
    pub const ALL: [Color; 2] = [
        Color::White, Color::Black,
    ];

    /// The position of this value in [`Self::ALL`].
    pub open spec fn idx(self) -> int {
        match self {
            Color::White => 0,
            Color::Black => 1,
        }
    }

    /// The value at position `i` of [`Self::ALL`].
    pub open spec fn from_idx(i: int) -> Self {
        if i == 0 {
            Color::White
        } else {
            Color::Black
        }
    }

    /// The position of this value in [`Self::ALL`].
    pub fn index(self) -> (r: usize)
        ensures
            r == self.idx(),
    {
        match self {
            Color::White => 0,
            Color::Black => 1,
        }
    }

    /// The value at position `i` of [`Self::ALL`].
    pub fn index_const(i: usize) -> (r: Self)
        requires
            i < 2,
        ensures
            r.idx() == i,
            r == Self::from_idx(i as int),
    {
        match i {
            0 => Color::White,
            _ => Color::Black,
        }
    }

    /// The value at position `i` of [`Self::ALL`], if there is one.
    pub fn try_index(i: usize) -> (r: Option<Self>)
        ensures
            i < 2 ==> r == Some(Self::from_idx(i as int)),
            i >= 2 ==> r is None,
    {
        if i < 2 {
            Some(Self::index_const(i))
        } else {
            None
        }
    }
}

/// Every value of [`Color`] has a position below [`Color::NUM`], and positions identify values.
pub broadcast proof fn lemma_color_idx(x: Color)
    ensures
        0 <= #[trigger] x.idx() < 2,
        Color::from_idx(x.idx()) == x,
{
}

/// Positions below [`Color::NUM`] name exactly one value.
pub broadcast proof fn lemma_color_from_idx(i: int)
    requires
        0 <= i < 2,
    ensures
        #[trigger] Color::from_idx(i).idx() == i,
{
}
impl Color {
    /// The other side.
    pub open spec fn other(self) -> Color {
        match self {
            Color::White => Color::Black,
            Color::Black => Color::White,
        }
    }

    /// Parse a side from its SFEN letter: `b` is Black (Sente), `w` is White (Gote).
    pub fn try_from_char(c: char) -> (r: Option<Color>)
        ensures
            r == (if c == 'b' {
                Some(Color::Black)
            } else if c == 'w' {
                Some(Color::White)
            } else {
                None
            }),
    {
        if c == 'b' {
            Some(Color::Black)
        } else if c == 'w' {
            Some(Color::White)
        } else {
            None
        }
    }

    /// The SFEN letter of this side.
    pub fn to_char(self) -> (r: char)
        ensures
            r == (if self == Color::Black { 'b' } else { 'w' }),
    {
        match self {
            Color::Black => 'b',
            Color::White => 'w',
        }
    }
}

impl core::ops::Not for Color {
    type Output = Color;

    fn not(self) -> (r: Color)
        ensures
            r == self.other(),
    {
        match self {
            Color::White => Color::Black,
            Color::Black => Color::White,
        }
    }
}

impl vstd::std_specs::ops::NotSpecImpl for Color {
    open spec fn obeys_not_spec() -> bool {
        true
    }

    open spec fn not_req(self) -> bool {
        true
    }

    open spec fn not_spec(self) -> Color {
        self.other()
    }
}

} // verus!
