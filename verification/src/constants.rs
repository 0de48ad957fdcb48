use vstd::prelude::*;

verus! {

/// The two sides of a chess game.
#[derive(Clone, Copy, PartialEq, Eq, Debug, Structural)]
pub enum Color {
    White,
    Black,
}

/// The six kinds of chess pieces.
#[derive(Clone, Copy, PartialEq, Eq, Debug, Structural)]
pub enum PieceType {
    Pawn,
    Knight,
    Bishop,
    Rook,
    Queen,
    King,
}

impl Color {
    /// Index of this color in the per-color bitboard array: White first.
    pub open spec fn idx(self) -> int {
        match self {
            Color::White => 0,
            Color::Black => 1,
        }
    }

    /// The other side.
    pub open spec fn spec_opponent(self) -> Color {
        match self {
            Color::White => Color::Black,
            Color::Black => Color::White,
        }
    }

    /// Executable index into the per-color bitboard array.
    pub fn to_index(self) -> (i: usize)
        ensures
            i == self.idx(),
    {
        match self {
            Color::White => 0,
            Color::Black => 1,
        }
    }

    /// Executable opposite color.
    pub fn opponent(self) -> (o: Color)
        ensures
            o == self.spec_opponent(),
    {
        match self {
            Color::White => Color::Black,
            Color::Black => Color::White,
        }
    }
}

/// Index of a piece kind in the per-kind bitboard array, in the fixed
/// scan order pawn, knight, bishop, rook, queen, king.
pub open spec fn piece_idx(p: PieceType) -> int {
    match p {
        PieceType::Pawn => 0,
        PieceType::Knight => 1,
        PieceType::Bishop => 2,
        PieceType::Rook => 3,
        PieceType::Queen => 4,
        PieceType::King => 5,
    }
}

/// The piece kind stored at a given array index, if the index is in range.
pub open spec fn piece_from_idx(i: int) -> Option<PieceType> {
    if i == 0 {
        Some(PieceType::Pawn)
    } else if i == 1 {
        Some(PieceType::Knight)
    } else if i == 2 {
        Some(PieceType::Bishop)
    } else if i == 3 {
        Some(PieceType::Rook)
    } else if i == 4 {
        Some(PieceType::Queen)
    } else if i == 5 {
        Some(PieceType::King)
    } else {
        None
    }
}

impl PieceType {
    /// Convert from an array index (0..=5) used in the bitboard arrays.
    /// Returns None if the index is out of range.
    pub fn from_usize(idx: usize) -> (r: Option<Self>)
        ensures
            r == piece_from_idx(idx as int),
    {
        match idx {
            0 => Some(PieceType::Pawn),
            1 => Some(PieceType::Knight),
            2 => Some(PieceType::Bishop),
            3 => Some(PieceType::Rook),
            4 => Some(PieceType::Queen),
            5 => Some(PieceType::King),
            _ => None,
        }
    }

    /// Convert to the array index used for bitboard array access.
    pub fn to_usize(self) -> (i: usize)
        ensures
            i == piece_idx(self),
    {
        match self {
            PieceType::Pawn => 0,
            PieceType::Knight => 1,
            PieceType::Bishop => 2,
            PieceType::Rook => 3,
            PieceType::Queen => 4,
            PieceType::King => 5,
        }
    }
}

/// A colored piece.
#[derive(Clone, Copy, PartialEq, Eq, Debug, Structural)]
pub struct Piece {
    pub color: Color,
    pub piece_type: PieceType,
}

/// Board square index 0..=63; square = rank * 8 + file, a1 = 0.
pub type Square = u8;

/// One bit per square, bit i standing for square i.
pub type Bitboard = u64;

pub const RANK_1: Bitboard = 0x00000000000000FF;

pub const RANK_2: Bitboard = 0x000000000000FF00;

pub const RANK_3: Bitboard = 0x0000000000FF0000;

pub const RANK_4: Bitboard = 0x00000000FF000000;

pub const RANK_5: Bitboard = 0x000000FF00000000;

pub const RANK_6: Bitboard = 0x0000FF0000000000;

pub const RANK_7: Bitboard = 0x00FF000000000000;

pub const RANK_8: Bitboard = 0xFF00000000000000;

pub const FILE_A: Bitboard = 0x0101010101010101;

pub const FILE_B: Bitboard = 0x0202020202020202;

pub const FILE_C: Bitboard = 0x0404040404040404;

pub const FILE_D: Bitboard = 0x0808080808080808;

pub const FILE_E: Bitboard = 0x1010101010101010;

pub const FILE_F: Bitboard = 0x2020202020202020;

pub const FILE_G: Bitboard = 0x4040404040404040;

pub const FILE_H: Bitboard = 0x8080808080808080;

} // verus!
