//! Squares, colours and piece kinds.
//!
//! A square is a number in `0..64`: rank times eight plus file, with file 0
//! the a-file and rank 0 the first rank.

use vstd::prelude::*;
use vstd::string::StringSliceAdditionalSpecFns;

verus! {

/// The file of a square, `0..8`.
pub open spec fn file_of(sq: int) -> int {
    sq % 8
}

/// The rank of a square, `0..8`.
pub open spec fn rank_of(sq: int) -> int {
    sq / 8
}

/// Whether `sq` names a square of the board.
pub open spec fn on_board(sq: int) -> bool {
    0 <= sq < 64
}

/// The side a piece belongs to.
#[derive(Copy, Clone, Debug, PartialEq, Eq, Structural)]
pub enum Color {
    White,
    Black,
}

impl Color {
    /// `1` for White, `-1` for Black.
    pub open spec fn spec_sign(self) -> int {
        match self {
            Color::White => 1,
            Color::Black => -1,
        }
    }

    /// The colour as the sign used for the side to move.
    pub fn sign(self) -> (r: i8)
        ensures
            r == self.spec_sign(),
    {
        match self {
            Color::White => 1,
            Color::Black => -1,
        }
    }
}

/// The eight bitboards of a position: two colour occupancies and six piece
/// kinds.
#[derive(Copy, Clone, Debug, PartialEq, Eq, Structural)]
pub enum BBPiece {
    White,
    Black,
    Pawn,
    Knight,
    Bishop,
    Rook,
    Queen,
    King,
}

impl BBPiece {
    /// The slot of this bitboard, `0..8`.
    pub open spec fn spec_idx(self) -> int {
        match self {
            BBPiece::White => 0,
            BBPiece::Black => 1,
            BBPiece::Pawn => 2,
            BBPiece::Knight => 3,
            BBPiece::Bishop => 4,
            BBPiece::Rook => 5,
            BBPiece::Queen => 6,
            BBPiece::King => 7,
        }
    }

    /// Whether this names a piece kind rather than a colour.
    pub open spec fn is_kind(self) -> bool {
        self.spec_idx() >= 2
    }

    /// Whether this names a colour.
    pub open spec fn is_color(self) -> bool {
        self.spec_idx() < 2
    }

    /// The piece kind that lives in slot `idx`.
    pub open spec fn spec_kind(idx: int) -> BBPiece {
        if idx == 2 {
            BBPiece::Pawn
        } else if idx == 3 {
            BBPiece::Knight
        } else if idx == 4 {
            BBPiece::Bishop
        } else if idx == 5 {
            BBPiece::Rook
        } else if idx == 6 {
            BBPiece::Queen
        } else {
            BBPiece::King
        }
    }

    /// The slot of this bitboard.
    pub fn idx(self) -> (r: usize)
        ensures
            r == self.spec_idx(),
            r < 8,
    {
        match self {
            BBPiece::White => 0,
            BBPiece::Black => 1,
            BBPiece::Pawn => 2,
            BBPiece::Knight => 3,
            BBPiece::Bishop => 4,
            BBPiece::Rook => 5,
            BBPiece::Queen => 6,
            BBPiece::King => 7,
        }
    }

    /// The piece kind in slot `idx`. Slots 0 and 1 are colours, not kinds.
    pub fn from(idx: usize) -> (r: Self)
        requires
            2 <= idx <= 7,
        ensures
            r == Self::spec_kind(idx as int),
            r.spec_idx() == idx,
            r.is_kind(),
    {
        if idx == 2 {
            BBPiece::Pawn
        } else if idx == 3 {
            BBPiece::Knight
        } else if idx == 4 {
            BBPiece::Bishop
        } else if idx == 5 {
            BBPiece::Rook
        } else if idx == 6 {
            BBPiece::Queen
        } else {
            BBPiece::King
        }
    }

    /// The colour bitboard of the given side.
    pub fn of_side(white: bool) -> (r: Self)
        ensures
            r == (if white { BBPiece::White } else { BBPiece::Black }),
    {
        if white {
            BBPiece::White
        } else {
            BBPiece::Black
        }
    }
}

/// The sixty-four squares by name.
#[derive(Copy, Clone, Debug, PartialEq, Eq, Structural)]
pub enum Squares {
    A1, B1, C1, D1, E1, F1, G1, H1,
    A2, B2, C2, D2, E2, F2, G2, H2,
    A3, B3, C3, D3, E3, F3, G3, H3,
    A4, B4, C4, D4, E4, F4, G4, H4,
    A5, B5, C5, D5, E5, F5, G5, H5,
    A6, B6, C6, D6, E6, F6, G6, H6,
    A7, B7, C7, D7, E7, F7, G7, H7,
    A8, B8, C8, D8, E8, F8, G8, H8,
}

impl Squares {
    /// The number of this square.
    pub open spec fn spec_idx(self) -> int {
        match self {
            Squares::A1 => 0,
            Squares::B1 => 1,
            Squares::C1 => 2,
            Squares::D1 => 3,
            Squares::E1 => 4,
            Squares::F1 => 5,
            Squares::G1 => 6,
            Squares::H1 => 7,
            Squares::A2 => 8,
            Squares::B2 => 9,
            Squares::C2 => 10,
            Squares::D2 => 11,
            Squares::E2 => 12,
            Squares::F2 => 13,
            Squares::G2 => 14,
            Squares::H2 => 15,
            Squares::A3 => 16,
            Squares::B3 => 17,
            Squares::C3 => 18,
            Squares::D3 => 19,
            Squares::E3 => 20,
            Squares::F3 => 21,
            Squares::G3 => 22,
            Squares::H3 => 23,
            Squares::A4 => 24,
            Squares::B4 => 25,
            Squares::C4 => 26,
            Squares::D4 => 27,
            Squares::E4 => 28,
            Squares::F4 => 29,
            Squares::G4 => 30,
            Squares::H4 => 31,
            Squares::A5 => 32,
            Squares::B5 => 33,
            Squares::C5 => 34,
            Squares::D5 => 35,
            Squares::E5 => 36,
            Squares::F5 => 37,
            Squares::G5 => 38,
            Squares::H5 => 39,
            Squares::A6 => 40,
            Squares::B6 => 41,
            Squares::C6 => 42,
            Squares::D6 => 43,
            Squares::E6 => 44,
            Squares::F6 => 45,
            Squares::G6 => 46,
            Squares::H6 => 47,
            Squares::A7 => 48,
            Squares::B7 => 49,
            Squares::C7 => 50,
            Squares::D7 => 51,
            Squares::E7 => 52,
            Squares::F7 => 53,
            Squares::G7 => 54,
            Squares::H7 => 55,
            Squares::A8 => 56,
            Squares::B8 => 57,
            Squares::C8 => 58,
            Squares::D8 => 59,
            Squares::E8 => 60,
            Squares::F8 => 61,
            Squares::G8 => 62,
            Squares::H8 => 63,
        }
    }

    /// The number of this square.
    pub fn idx(self) -> (r: u8)
        ensures
            r == self.spec_idx(),
            r < 64,
    {
        match self {
            Squares::A1 => 0,
            Squares::B1 => 1,
            Squares::C1 => 2,
            Squares::D1 => 3,
            Squares::E1 => 4,
            Squares::F1 => 5,
            Squares::G1 => 6,
            Squares::H1 => 7,
            Squares::A2 => 8,
            Squares::B2 => 9,
            Squares::C2 => 10,
            Squares::D2 => 11,
            Squares::E2 => 12,
            Squares::F2 => 13,
            Squares::G2 => 14,
            Squares::H2 => 15,
            Squares::A3 => 16,
            Squares::B3 => 17,
            Squares::C3 => 18,
            Squares::D3 => 19,
            Squares::E3 => 20,
            Squares::F3 => 21,
            Squares::G3 => 22,
            Squares::H3 => 23,
            Squares::A4 => 24,
            Squares::B4 => 25,
            Squares::C4 => 26,
            Squares::D4 => 27,
            Squares::E4 => 28,
            Squares::F4 => 29,
            Squares::G4 => 30,
            Squares::H4 => 31,
            Squares::A5 => 32,
            Squares::B5 => 33,
            Squares::C5 => 34,
            Squares::D5 => 35,
            Squares::E5 => 36,
            Squares::F5 => 37,
            Squares::G5 => 38,
            Squares::H5 => 39,
            Squares::A6 => 40,
            Squares::B6 => 41,
            Squares::C6 => 42,
            Squares::D6 => 43,
            Squares::E6 => 44,
            Squares::F6 => 45,
            Squares::G6 => 46,
            Squares::H6 => 47,
            Squares::A7 => 48,
            Squares::B7 => 49,
            Squares::C7 => 50,
            Squares::D7 => 51,
            Squares::E7 => 52,
            Squares::F7 => 53,
            Squares::G7 => 54,
            Squares::H7 => 55,
            Squares::A8 => 56,
            Squares::B8 => 57,
            Squares::C8 => 58,
            Squares::D8 => 59,
            Squares::E8 => 60,
            Squares::F8 => 61,
            Squares::G8 => 62,
            Squares::H8 => 63,
        }
    }
}

pub const A1: u8 = 0;
pub const B1: u8 = 1;
pub const C1: u8 = 2;
pub const D1: u8 = 3;
pub const E1: u8 = 4;
pub const F1: u8 = 5;
pub const G1: u8 = 6;
pub const H1: u8 = 7;
pub const A8: u8 = 56;
pub const B8: u8 = 57;
pub const C8: u8 = 58;
pub const D8: u8 = 59;
pub const E8: u8 = 60;
pub const F8: u8 = 61;
pub const G8: u8 = 62;
pub const H8: u8 = 63;

/// The square that two bytes of algebraic notation name: a file letter
/// `a..h` followed by a rank digit `1..8`.
pub open spec fn spec_square(file: u8, rank: u8) -> Option<usize> {
    if 97 <= file <= 104 && 49 <= rank <= 56 {
        Some(((rank - 49) * 8 + (file - 97)) as usize)
    } else {
        None
    }
}

/// The square named by a file letter and a rank digit, if they are such.
pub fn square_from_bytes(file: u8, rank: u8) -> (r: Option<usize>)
    ensures
        r == spec_square(file, rank),
        r matches Some(s) ==> s < 64,
{
    if 97 <= file && file <= 104 && 49 <= rank && rank <= 56 {
        let f: usize = (file - 97) as usize;
        let k: usize = (rank - 49) as usize;
        Some(k * 8 + f)
    } else {
        None
    }
}

/// The square that a string names, if it is exactly a file letter and a rank
/// digit.
pub open spec fn spec_sq_to_idx(bytes: Seq<u8>) -> Option<usize> {
    if bytes.len() == 2 {
        spec_square(bytes[0], bytes[1])
    } else {
        None
    }
}

/// Reads a square in algebraic notation: `"a1"` is 0 and `"h8"` is 63.
/// Anything else is no square.
pub fn sq_to_idx(pos: &str) -> (r: Option<usize>)
    ensures
        r == spec_sq_to_idx(pos.spec_bytes()),
        r matches Some(s) ==> s < 64,
{
    let bytes = pos.as_bytes();
    if bytes.len() == 2 {
        square_from_bytes(bytes[0], bytes[1])
    } else {
        None
    }
}

/// The file letter of a square, as a byte.
pub open spec fn spec_file_byte(idx: int) -> u8 {
    (97 + idx % 8) as u8
}

/// The rank digit of a square, as a byte.
pub open spec fn spec_rank_byte(idx: int) -> u8 {
    (49 + idx / 8) as u8
}

/// The file letter of a square.
pub fn file_byte(idx: usize) -> (r: u8)
    requires
        idx < 64,
    ensures
        r == spec_file_byte(idx as int),
        97 <= r <= 104,
{
    97u8 + (idx % 8) as u8
}

/// The rank digit of a square.
pub fn rank_byte(idx: usize) -> (r: u8)
    requires
        idx < 64,
    ensures
        r == spec_rank_byte(idx as int),
        49 <= r <= 56,
{
    49u8 + (idx / 8) as u8
}

/// Appends one character to a string, by `String::push`.
#[verifier::external_body]
pub(crate) fn push_char(s: &mut String, c: char)
    ensures
        final(s)@ == old(s)@.push(c),
{
    s.push(c)
}

/// Writes a square in algebraic notation: 0 is `"a1"` and 63 is `"h8"`.
pub fn idx_to_sq(idx: usize) -> (r: String)
    requires
        idx < 64,
    ensures
        r@ == seq![spec_file_byte(idx as int) as char, spec_rank_byte(idx as int) as char],
{
    let mut s = String::new();
    push_char(&mut s, file_byte(idx) as char);
    push_char(&mut s, rank_byte(idx) as char);
    proof {
        assert(s@ =~= seq![spec_file_byte(idx as int) as char, spec_rank_byte(idx as int) as char]);
    }
    s
}

/// Reading back what `idx_to_sq` writes gives the square again.
pub proof fn lemma_square_text_round_trip(idx: int)
    requires
        0 <= idx < 64,
    ensures
        spec_square(spec_file_byte(idx), spec_rank_byte(idx)) == Some(idx as usize),
{
}

} // verus!
