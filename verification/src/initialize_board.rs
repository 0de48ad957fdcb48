use vstd::prelude::*;

use crate::constants::Bitboard;
use crate::constants::Color;
use crate::constants::PieceType;
use crate::constants::Square;
use crate::constants::piece_idx;
use crate::utils::bit;
use crate::utils::exactly_one_bit;

verus! {

broadcast use vstd::array::group_array_axioms;

/// A chess position: per-color, per-kind occupancy bitboards plus the
/// game-state bookkeeping fields.
#[derive(Debug, Copy, Clone)]
pub struct Board {
    /// Piece bitboards, indexed by color then piece kind.
    pub pieces: [[Bitboard; 6]; 2],
    /// Union of all twelve piece bitboards.
    pub occupied: Bitboard,
    /// Side to move.
    pub turn: Color,
    /// Bit flags: 1 white kingside, 2 white queenside, 4 black kingside,
    /// 8 black queenside.
    pub castling_rights: u8,
    /// The square a pawn may capture onto en passant this ply, if any.
    pub en_passant: Option<Square>,
    /// Plies since the last pawn move or capture.
    pub half_moves: u32,
    /// Move number, incremented after each Black move.
    pub full_moves: u32,
    /// Reserved for a position fingerprint; not computed here.
    pub hash: u64,
}

impl Board {
    /// The bitboard of pieces of the given color and kind.
    pub open spec fn piece_mask(self, c: Color, p: PieceType) -> u64 {
        self.pieces[c.idx()][piece_idx(p)]
    }

    /// Union of the six piece bitboards of one color.
    pub open spec fn color_mask(self, c: Color) -> u64 {
        self.piece_mask(c, PieceType::Pawn) | self.piece_mask(c, PieceType::Knight)
            | self.piece_mask(c, PieceType::Bishop) | self.piece_mask(c, PieceType::Rook)
            | self.piece_mask(c, PieceType::Queen) | self.piece_mask(c, PieceType::King)
    }

    /// The kind of the piece of color `c` standing on square `s`, found
    /// by scanning the kinds in the fixed order pawn to king.
    pub open spec fn piece_kind_at(self, c: Color, s: u64) -> Option<PieceType> {
        if bit(self.piece_mask(c, PieceType::Pawn), s) {
            Some(PieceType::Pawn)
        } else if bit(self.piece_mask(c, PieceType::Knight), s) {
            Some(PieceType::Knight)
        } else if bit(self.piece_mask(c, PieceType::Bishop), s) {
            Some(PieceType::Bishop)
        } else if bit(self.piece_mask(c, PieceType::Rook), s) {
            Some(PieceType::Rook)
        } else if bit(self.piece_mask(c, PieceType::Queen), s) {
            Some(PieceType::Queen)
        } else if bit(self.piece_mask(c, PieceType::King), s) {
            Some(PieceType::King)
        } else {
            None
        }
    }

    /// Invariant: no square is claimed by two of the twelve bitboards.
    pub open spec fn masks_disjoint(self) -> bool {
        forall|c1: Color, p1: PieceType, c2: Color, p2: PieceType, s: u64|
            #![trigger bit(self.piece_mask(c1, p1), s), bit(self.piece_mask(c2, p2), s)]
            s < 64 && bit(self.piece_mask(c1, p1), s) && bit(self.piece_mask(c2, p2), s) ==> (c1
                == c2 && p1 == p2)
    }

    /// Invariant: `occupied` is the union of the twelve bitboards.
    pub open spec fn occupied_ok(self) -> bool {
        self.occupied == self.color_mask(Color::White) | self.color_mask(Color::Black)
    }

    /// Invariant: each side has exactly one king.
    pub open spec fn kings_ok(self) -> bool {
        exactly_one_bit(self.piece_mask(Color::White, PieceType::King)) && exactly_one_bit(
            self.piece_mask(Color::Black, PieceType::King),
        )
    }

    /// Invariant: an en-passant target square is the empty square that
    /// the opposing pawn just skipped, directly behind that pawn.
    pub open spec fn en_passant_ok(self) -> bool {
        match self.en_passant {
            Some(e) => {
                let ei = e as u64;
                ei < 64 && !bit(self.occupied, ei) && (match self.turn {
                    Color::White => ei / 8 == 5 && bit(
                        self.piece_mask(Color::Black, PieceType::Pawn),
                        (ei - 8) as u64,
                    ),
                    Color::Black => ei / 8 == 2 && bit(
                        self.piece_mask(Color::White, PieceType::Pawn),
                        (ei + 8) as u64,
                    ),
                })
            },
            None => true,
        }
    }

    /// Invariant: a castling-rights flag implies its king and rook still
    /// stand on their home squares.
    pub open spec fn castling_ok(self) -> bool {
        &&& (self.castling_rights & 0b0001u8 != 0 ==> bit(
            self.piece_mask(Color::White, PieceType::King),
            4,
        ) && bit(self.piece_mask(Color::White, PieceType::Rook), 7))
        &&& (self.castling_rights & 0b0010u8 != 0 ==> bit(
            self.piece_mask(Color::White, PieceType::King),
            4,
        ) && bit(self.piece_mask(Color::White, PieceType::Rook), 0))
        &&& (self.castling_rights & 0b0100u8 != 0 ==> bit(
            self.piece_mask(Color::Black, PieceType::King),
            60,
        ) && bit(self.piece_mask(Color::Black, PieceType::Rook), 63))
        &&& (self.castling_rights & 0b1000u8 != 0 ==> bit(
            self.piece_mask(Color::Black, PieceType::King),
            60,
        ) && bit(self.piece_mask(Color::Black, PieceType::Rook), 56))
    }

    /// The position invariants that every state handed to the move
    /// machinery satisfies and that applying a generated move preserves.
    pub open spec fn wf(self) -> bool {
        &&& self.masks_disjoint()
        &&& self.occupied_ok()
        &&& self.kings_ok()
        &&& self.en_passant_ok()
        &&& self.castling_ok()
    }

    /// The standard starting position.
    pub open spec fn start_position() -> Board {
        Board {
            pieces: [
                [0xFF00u64, 0x42u64, 0x24u64, 0x81u64, 0x08u64, 0x10u64],
                [
                    0xFF000000000000u64,
                    0x4200000000000000u64,
                    0x2400000000000000u64,
                    0x8100000000000000u64,
                    0x0800000000000000u64,
                    0x1000000000000000u64,
                ],
            ],
            occupied: 0xFFFF00000000FFFFu64,
            turn: Color::White,
            castling_rights: 0b1111u8,
            en_passant: None,
            half_moves: 0u32,
            full_moves: 1u32,
            hash: 0u64,
        }
    }

    /// Build the standard starting position.
    pub fn new() -> (board: Board)
        ensures
            board == Board::start_position(),
            board.wf(),
    {
        let board = Board {
            pieces: [
                // White: pawns on rank 2, knights b1 g1, bishops c1 f1,
                // rooks a1 h1, queen d1, king e1.
                [0xFF00u64, 0x42u64, 0x24u64, 0x81u64, 0x08u64, 0x10u64],
                // Black mirrored on ranks 7 and 8.
                [
                    0xFF000000000000u64,
                    0x4200000000000000u64,
                    0x2400000000000000u64,
                    0x8100000000000000u64,
                    0x0800000000000000u64,
                    0x1000000000000000u64,
                ],
            ],
            occupied: 0xFFFF00000000FFFFu64,
            turn: Color::White,
            castling_rights: 0b1111,
            en_passant: None,
            half_moves: 0,
            full_moves: 1,
            hash: 0,
        };
        proof {
            lemma_start_position_wf();
        }
        board
    }

    /// On a board with disjoint bitboards, a marked square of one
    /// bitboard is found by the kind scan.
    pub proof fn lemma_kind_at_of_bit(self, c: Color, p: PieceType, s: u64)
        requires
            self.masks_disjoint(),
            s < 64,
            bit(self.piece_mask(c, p), s),
        ensures
            self.piece_kind_at(c, s) == Some(p),
    {
    }

    /// A color's union bitboard marks a square exactly when the kind
    /// scan finds a piece of that color there.
    pub proof fn lemma_color_mask_bit(self, c: Color, s: u64)
        requires
            s < 64,
        ensures
            bit(self.color_mask(c), s) <==> self.piece_kind_at(c, s) is Some,
    {
        crate::utils::lemma_bit_ops();
    }

    /// The kind of the piece of color `c` on square `s`, scanning the
    /// kinds in the fixed order pawn to king.
    pub fn kind_at(&self, c: Color, s: Square) -> (r: Option<PieceType>)
        requires
            s < 64,
        ensures
            r == self.piece_kind_at(c, s as u64),
    {
        let ci = c.to_index();
        if crate::utils::get_bit(self.pieces[ci][0], s) {
            Some(PieceType::Pawn)
        } else if crate::utils::get_bit(self.pieces[ci][1], s) {
            Some(PieceType::Knight)
        } else if crate::utils::get_bit(self.pieces[ci][2], s) {
            Some(PieceType::Bishop)
        } else if crate::utils::get_bit(self.pieces[ci][3], s) {
            Some(PieceType::Rook)
        } else if crate::utils::get_bit(self.pieces[ci][4], s) {
            Some(PieceType::Queen)
        } else if crate::utils::get_bit(self.pieces[ci][5], s) {
            Some(PieceType::King)
        } else {
            None
        }
    }

    /// Union of the six piece bitboards of one color.
    pub fn all_pieces(&self, color: Color) -> (r: Bitboard)
        ensures
            r == self.color_mask(color),
    {
        let ci = color.to_index();
        self.pieces[ci][0] | self.pieces[ci][1] | self.pieces[ci][2] | self.pieces[ci][3]
            | self.pieces[ci][4] | self.pieces[ci][5]
    }
}

/// The twelve bitboards of the starting arrangement, one per color and kind.
spec fn mask_of(c: Color, p: PieceType) -> u64 {
    match c {
        Color::White => match p {
            PieceType::Pawn => 0xFF00u64,
            PieceType::Knight => 0x42u64,
            PieceType::Bishop => 0x24u64,
            PieceType::Rook => 0x81u64,
            PieceType::Queen => 0x08u64,
            PieceType::King => 0x10u64,
        },
        Color::Black => match p {
            PieceType::Pawn => 0xFF000000000000u64,
            PieceType::Knight => 0x4200000000000000u64,
            PieceType::Bishop => 0x2400000000000000u64,
            PieceType::Rook => 0x8100000000000000u64,
            PieceType::Queen => 0x0800000000000000u64,
            PieceType::King => 0x1000000000000000u64,
        },
    }
}

/// The starting arrangement satisfies every position invariant.
pub proof fn lemma_start_position_wf()
    ensures
        Board::start_position().wf(),
{
    let b = Board::start_position();
    assert(forall|s: u64|
        #![trigger bit(0xFF00u64, s)]
        #![trigger bit(0x42u64, s)]
        #![trigger bit(0x24u64, s)]
        #![trigger bit(0x81u64, s)]
        #![trigger bit(0x08u64, s)]
        #![trigger bit(0x10u64, s)]
        #![trigger bit(0xFF000000000000u64, s)]
        #![trigger bit(0x4200000000000000u64, s)]
        #![trigger bit(0x2400000000000000u64, s)]
        #![trigger bit(0x8100000000000000u64, s)]
        #![trigger bit(0x0800000000000000u64, s)]
        #![trigger bit(0x1000000000000000u64, s)]
        s < 64 ==> ((bit(0xFF00u64, s) <==> 8 <= s < 16) && (bit(0x42u64, s) <==> s == 1
            || s == 6) && (bit(0x24u64, s) <==> s == 2 || s == 5) && (bit(0x81u64, s) <==> s == 0
            || s == 7) && (bit(0x08u64, s) <==> s == 3) && (bit(0x10u64, s) <==> s == 4) && (bit(
            0xFF000000000000u64,
            s,
        ) <==> 48 <= s < 56) && (bit(0x4200000000000000u64, s) <==> s == 57 || s == 62) && (bit(
            0x2400000000000000u64,
            s,
        ) <==> s == 58 || s == 61) && (bit(0x8100000000000000u64, s) <==> s == 56 || s == 63) && (
        bit(0x0800000000000000u64, s) <==> s == 59) && (bit(0x1000000000000000u64, s) <==> s == 60)))
        by (bit_vector);
    assert(0xFFFF00000000FFFFu64 == (0xFF00u64 | 0x42u64 | 0x24u64 | 0x81u64 | 0x08u64 | 0x10u64) | (
    0xFF000000000000u64 | 0x4200000000000000u64 | 0x2400000000000000u64 | 0x8100000000000000u64
        | 0x0800000000000000u64 | 0x1000000000000000u64)) by (bit_vector);
    assert(exactly_one_bit(0x10u64) && exactly_one_bit(0x1000000000000000u64)) by (bit_vector);
    assert forall|c: Color, p: PieceType| #[trigger] b.piece_mask(c, p) == mask_of(c, p) by {
        match c {
            Color::White => {
                assert(b.pieces[0] =~= [0xFF00u64, 0x42u64, 0x24u64, 0x81u64, 0x08u64, 0x10u64]);
            },
            Color::Black => {
                assert(b.pieces[1] =~= [
                    0xFF000000000000u64,
                    0x4200000000000000u64,
                    0x2400000000000000u64,
                    0x8100000000000000u64,
                    0x0800000000000000u64,
                    0x1000000000000000u64,
                ]);
            },
        }
    }
    assert(b.masks_disjoint());
    assert(b.occupied_ok());
    assert(b.kings_ok());
    assert(b.castling_ok());
}

} // verus!
