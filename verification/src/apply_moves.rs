use vstd::prelude::*;

use crate::constants::Color;
use crate::constants::PieceType;
use crate::constants::Square;
use crate::constants::piece_idx;
use crate::initialize_board::Board;
use crate::pseudo_legal_move_generation::Move;
use crate::pseudo_legal_move_generation::pseudo_legal;
use crate::utils::bit;
use crate::utils::clear_bit;
use crate::utils::lemma_bit_ext;
use crate::utils::lemma_bit_ops;
use crate::utils::lemma_rights_masks;
use crate::utils::set_bit;

verus! {

broadcast use vstd::array::group_array_axioms;

/// The row `r` with entry `j` replaced by `v`.
pub open spec fn upd_row(r: [u64; 6], j: int, v: u64) -> [u64; 6] {
    [
        if j == 0 { v } else { r[0] },
        if j == 1 { v } else { r[1] },
        if j == 2 { v } else { r[2] },
        if j == 3 { v } else { r[3] },
        if j == 4 { v } else { r[4] },
        if j == 5 { v } else { r[5] },
    ]
}

/// The piece-bitboard array with the entry for (color `i`, kind `j`)
/// replaced by `v`.
pub open spec fn upd_masks(a: [[u64; 6]; 2], i: int, j: int, v: u64) -> [[u64; 6]; 2] {
    [if i == 0 { upd_row(a[0], j, v) } else { a[0] }, if i == 1 { upd_row(a[1], j, v) } else { a[1] }]
}

/// Entry-wise reading of `upd_masks`.
pub proof fn lemma_upd_masks(a: [[u64; 6]; 2], i: int, j: int, v: u64)
    requires
        0 <= i < 2,
        0 <= j < 6,
    ensures
        forall|i2: int, j2: int|
            0 <= i2 < 2 && 0 <= j2 < 6 ==> #[trigger] upd_masks(a, i, j, v)[i2][j2] == (if i2 == i
                && j2 == j {
                v
            } else {
                a[i2][j2]
            }),
{
}

/// Remove the piece of color `c`, kind `p` from square `s`, in its
/// bitboard and in the occupancy union.
pub open spec fn spec_clear_piece(b: Board, c: Color, p: PieceType, s: u64) -> Board {
    Board {
        pieces: upd_masks(b.pieces, c.idx(), piece_idx(p), b.piece_mask(c, p) & !(1u64 << s)),
        occupied: b.occupied & !(1u64 << s),
        ..b
    }
}

/// Put a piece of color `c`, kind `p` on square `s`, in its bitboard
/// and in the occupancy union.
pub open spec fn spec_add_piece(b: Board, c: Color, p: PieceType, s: u64) -> Board {
    Board {
        pieces: upd_masks(b.pieces, c.idx(), piece_idx(p), b.piece_mask(c, p) | (1u64 << s)),
        occupied: b.occupied | (1u64 << s),
        ..b
    }
}

/// How `spec_clear_piece` reads back: the chosen bitboard loses square
/// `s`, every other bitboard is untouched.
pub proof fn lemma_clear_piece(b: Board, c: Color, p: PieceType, s: u64)
    requires
        s < 64,
    ensures
        forall|c2: Color, p2: PieceType|
            #[trigger] spec_clear_piece(b, c, p, s).piece_mask(c2, p2) == (if c2 == c && p2 == p {
                b.piece_mask(c, p) & !(1u64 << s)
            } else {
                b.piece_mask(c2, p2)
            }),
{
    lemma_upd_masks(b.pieces, c.idx(), piece_idx(p), b.piece_mask(c, p) & !(1u64 << s));
    assert forall|c2: Color, p2: PieceType|
        #[trigger] spec_clear_piece(b, c, p, s).piece_mask(c2, p2) == (if c2 == c && p2 == p {
            b.piece_mask(c, p) & !(1u64 << s)
        } else {
            b.piece_mask(c2, p2)
        }) by {
        assert(c2.idx() == c.idx() ==> c2 == c);
        assert(piece_idx(p2) == piece_idx(p) ==> p2 == p);
    }
}

/// How `spec_add_piece` reads back: the chosen bitboard gains square
/// `s`, every other bitboard is untouched.
pub proof fn lemma_add_piece(b: Board, c: Color, p: PieceType, s: u64)
    requires
        s < 64,
    ensures
        forall|c2: Color, p2: PieceType|
            #[trigger] spec_add_piece(b, c, p, s).piece_mask(c2, p2) == (if c2 == c && p2 == p {
                b.piece_mask(c, p) | (1u64 << s)
            } else {
                b.piece_mask(c2, p2)
            }),
{
    lemma_upd_masks(b.pieces, c.idx(), piece_idx(p), b.piece_mask(c, p) | (1u64 << s));
    assert forall|c2: Color, p2: PieceType|
        #[trigger] spec_add_piece(b, c, p, s).piece_mask(c2, p2) == (if c2 == c && p2 == p {
            b.piece_mask(c, p) | (1u64 << s)
        } else {
            b.piece_mask(c2, p2)
        }) by {
        assert(c2.idx() == c.idx() ==> c2 == c);
        assert(piece_idx(p2) == piece_idx(p) ==> p2 == p);
    }
}

/// The moving piece's kind: the side to move's piece on the origin
/// square (pawn as an arbitrary placeholder on a square without one;
/// callers rule that out).
pub open spec fn moving_kind(b: Board, m: Move) -> PieceType {
    match b.piece_kind_at(b.turn, m.from as u64) {
        Some(p) => p,
        None => PieceType::Pawn,
    }
}

/// The move is a pawn arriving on the en-passant target square, which
/// captures the pawn behind that square.
pub open spec fn is_ep_capture(b: Board, m: Move) -> bool {
    moving_kind(b, m) == PieceType::Pawn && b.piece_kind_at(b.turn, m.from as u64) is Some
        && b.en_passant == Some(m.to)
}

/// The square of the pawn an en-passant capture removes: one rank
/// behind the destination, from the mover's point of view.
pub open spec fn ep_capture_square(b: Board, m: Move) -> u64 {
    match b.turn {
        Color::White => (m.to as int - 8) as u64,
        Color::Black => (m.to as int + 8) as u64,
    }
}

/// The kind of the captured piece, if the move captures one.
pub open spec fn captured_kind(b: Board, m: Move) -> Option<PieceType> {
    if is_ep_capture(b, m) {
        Some(PieceType::Pawn)
    } else {
        b.piece_kind_at(b.turn.spec_opponent(), m.to as u64)
    }
}

/// The square the captured piece is removed from.
pub open spec fn captured_square(b: Board, m: Move) -> u64 {
    if is_ep_capture(b, m) {
        ep_capture_square(b, m)
    } else {
        m.to as u64
    }
}

/// The kind placed on the destination: the promotion choice for a
/// promoting pawn, else the moving kind itself.
pub open spec fn placed_kind(b: Board, m: Move) -> PieceType {
    match m.promotion {
        Some(p) => p,
        None => moving_kind(b, m),
    }
}

/// The move is a king stepping two files: castling.
pub open spec fn is_castle_move(b: Board, m: Move) -> bool {
    moving_kind(b, m) == PieceType::King && (m.from as int - m.to as int == 2 || m.to as int
        - m.from as int == 2)
}

/// The castling rights after the move: a king move drops both of its
/// color's rights, a rook leaving its home corner drops that corner's
/// right, and capturing a rook on its home corner drops the opponent's
/// corresponding right.
pub open spec fn rights_after(b: Board, m: Move) -> u8 {
    let c = b.turn;
    let mv = moving_kind(b, m);
    let r0 = b.castling_rights;
    let r1 = if mv == PieceType::King {
        if c == Color::White {
            r0 & !0b0011u8
        } else {
            r0 & !0b1100u8
        }
    } else if mv == PieceType::Rook {
        if c == Color::White {
            if m.from == 0 {
                r0 & !0b0010u8
            } else if m.from == 7 {
                r0 & !0b0001u8
            } else {
                r0
            }
        } else {
            if m.from == 56 {
                r0 & !0b1000u8
            } else if m.from == 63 {
                r0 & !0b0100u8
            } else {
                r0
            }
        }
    } else {
        r0
    };
    if captured_kind(b, m) == Some(PieceType::Rook) {
        let cs = captured_square(b, m);
        if c == Color::White {
            if cs == 56 {
                r1 & !0b1000u8
            } else if cs == 63 {
                r1 & !0b0100u8
            } else {
                r1
            }
        } else {
            if cs == 0 {
                r1 & !0b0010u8
            } else if cs == 7 {
                r1 & !0b0001u8
            } else {
                r1
            }
        }
    } else {
        r1
    }
}

/// The en-passant target after the move: set to the skipped square
/// exactly after a pawn double push, cleared otherwise.
pub open spec fn ep_after(b: Board, m: Move) -> Option<Square> {
    if moving_kind(b, m) == PieceType::Pawn && (m.from as int - m.to as int == 16 || m.to as int
        - m.from as int == 16) {
        Some(((m.from as int + m.to as int) / 2) as Square)
    } else {
        None
    }
}

/// The successor position: the state transition of applying one
/// pseudo-legal move, step by step.
pub open spec fn apply_move_spec(b: Board, m: Move) -> Board {
    let c = b.turn;
    let mv = moving_kind(b, m);
    let b1 = spec_clear_piece(b, c, mv, m.from as u64);
    let b2 = match captured_kind(b, m) {
        Some(k) => spec_clear_piece(b1, c.spec_opponent(), k, captured_square(b, m)),
        None => b1,
    };
    let b3 = spec_add_piece(b2, c, placed_kind(b, m), m.to as u64);
    let b4 = if is_castle_move(b, m) {
        if m.to > m.from {
            spec_add_piece(
                spec_clear_piece(b3, c, PieceType::Rook, (m.from as int + 3) as u64),
                c,
                PieceType::Rook,
                (m.from as int + 1) as u64,
            )
        } else {
            spec_add_piece(
                spec_clear_piece(b3, c, PieceType::Rook, (m.from as int - 4) as u64),
                c,
                PieceType::Rook,
                (m.from as int - 1) as u64,
            )
        }
    } else {
        b3
    };
    Board {
        castling_rights: rights_after(b, m),
        en_passant: ep_after(b, m),
        half_moves: if mv == PieceType::Pawn || captured_kind(b, m) is Some {
            0u32
        } else {
            (b.half_moves + 1) as u32
        },
        full_moves: if c == Color::Black {
            (b.full_moves + 1) as u32
        } else {
            b.full_moves
        },
        turn: c.spec_opponent(),
        ..b4
    }
}

/// Two boards with the same piece bitboards and occupancy agree on the
/// placement invariants.
proof fn lemma_same_placement(x: Board, y: Board)
    requires
        x.pieces == y.pieces,
        x.occupied == y.occupied,
    ensures
        y.masks_disjoint() == x.masks_disjoint(),
        y.occupied_ok() == x.occupied_ok(),
        forall|c2: Color, p2: PieceType|
            #![trigger x.piece_mask(c2, p2)]
            #![trigger y.piece_mask(c2, p2)]
            x.piece_mask(c2, p2) == y.piece_mask(c2, p2),
{
    assert forall|c2: Color, p2: PieceType|
        #![trigger x.piece_mask(c2, p2)]
        #![trigger y.piece_mask(c2, p2)]
        x.piece_mask(c2, p2) == y.piece_mask(c2, p2) by {}
    assert(x.color_mask(Color::White) == y.color_mask(Color::White));
    assert(x.color_mask(Color::Black) == y.color_mask(Color::Black));
    if x.masks_disjoint() {
        assert forall|c1: Color, p1: PieceType, c2: Color, p2: PieceType, t: u64|
            t < 64 && #[trigger] bit(y.piece_mask(c1, p1), t) && #[trigger] bit(
                y.piece_mask(c2, p2),
                t,
            ) implies (c1 == c2 && p1 == p2) by {
            assert(bit(x.piece_mask(c1, p1), t) && bit(x.piece_mask(c2, p2), t));
        }
        assert(y.masks_disjoint());
    }
    if y.masks_disjoint() {
        assert forall|c1: Color, p1: PieceType, c2: Color, p2: PieceType, t: u64|
            t < 64 && #[trigger] bit(x.piece_mask(c1, p1), t) && #[trigger] bit(
                x.piece_mask(c2, p2),
                t,
            ) implies (c1 == c2 && p1 == p2) by {
            assert(bit(y.piece_mask(c1, p1), t) && bit(y.piece_mask(c2, p2), t));
        }
        assert(x.masks_disjoint());
    }
}

/// A two-file king move is never a plain king step.
proof fn lemma_two_file_not_step(a: u64, b: u64)
    requires
        a < 64,
        b < 64,
        a as int - b as int == 2 || b as int - a as int == 2,
    ensures
        !crate::attack::king_step(a, b),
{
    assert(a == 8 * (a / 8) + a % 8) by (nonlinear_arith);
    assert(b == 8 * (b / 8) + b % 8) by (nonlinear_arith);
}

/// In a castling move from a well-formed position, the king stands on
/// its home square, the rook on its home corner, no piece is captured,
/// and the path squares, the rook's destination among them, are empty.
proof fn lemma_castle_squares(b: Board, m: Move)
    requires
        b.wf(),
        pseudo_legal(b, m),
        moving_kind(b, m) == PieceType::King,
        m.from as int - m.to as int == 2 || m.to as int - m.from as int == 2,
    ensures
        captured_kind(b, m) is None,
        m.promotion is None,
        b.turn == Color::White ==> m.from == 4 && (m.to == 6 || m.to == 2),
        b.turn == Color::Black ==> m.from == 60 && (m.to == 62 || m.to == 58),
        m.to > m.from ==> bit(b.piece_mask(b.turn, PieceType::Rook), (m.from + 3) as u64) && !bit(
            b.occupied,
            (m.from + 1) as u64,
        ) && !bit(b.occupied, m.to as u64),
        m.from > m.to ==> bit(b.piece_mask(b.turn, PieceType::Rook), (m.from as int - 4) as u64)
            && !bit(b.occupied, (m.from as int - 1) as u64) && !bit(b.occupied, m.to as u64),
{
    let c = b.turn;
    let from = m.from as u64;
    let to = m.to as u64;
    lemma_two_file_not_step(from, to);
    assert(crate::pseudo_legal_move_generation::castle_ok(b, c, m.from as int, m.to as int));
    crate::utils::lemma_exactly_one_bit();
    lemma_bit_ops();
    let occ = b.occupied;
    match c {
        Color::White => {
            assert(bit(b.piece_mask(Color::White, PieceType::King), 4));
            assert(bit(b.piece_mask(Color::White, PieceType::King), from));
            assert(from == 4);
            if m.to > m.from {
                assert(occ & 0x60u64 == 0 ==> !bit(occ, 5) && !bit(occ, 6))
                    by (bit_vector);
            } else {
                assert(occ & 0x0Eu64 == 0 ==> !bit(occ, 1) && !bit(occ, 2)
                    && !bit(occ, 3)) by (bit_vector);
            }
        },
        Color::Black => {
            assert(bit(b.piece_mask(Color::Black, PieceType::King), 60));
            assert(bit(b.piece_mask(Color::Black, PieceType::King), from));
            assert(from == 60);
            if m.to > m.from {
                assert(occ & 0x6000000000000000u64 == 0 ==> !bit(occ, 61) && !bit(occ, 62)) by (bit_vector);
            } else {
                assert(occ & 0x0E00000000000000u64 == 0 ==> !bit(occ, 57) && !bit(occ, 58) && !bit(occ, 59)) by (bit_vector);
            }
        },
    }
    // The destination is empty, so nothing is captured.
    b.lemma_color_mask_bit(c.spec_opponent(), to);
    if b.piece_kind_at(c.spec_opponent(), to) is Some {
        assert(bit(b.color_mask(c.spec_opponent()), to));
        assert(bit(b.occupied, to));
    }
}

/// After the origin square and any captured piece are cleared, the
/// move's destination square is empty.
proof fn lemma_apply_destination_empty(b: Board, m: Move)
    requires
        b.wf(),
        pseudo_legal(b, m),
    ensures
        ({
            let b1 = spec_clear_piece(b, b.turn, moving_kind(b, m), m.from as u64);
            let b2 = match captured_kind(b, m) {
                Some(k) => spec_clear_piece(
                    b1,
                    b.turn.spec_opponent(),
                    k,
                    captured_square(b, m),
                ),
                None => b1,
            };
            !bit(b2.occupied, m.to as u64)
        }),
{
    let c = b.turn;
    let opp = c.spec_opponent();
    let mv = moving_kind(b, m);
    let from = m.from as u64;
    let to = m.to as u64;
    lemma_bit_ops();
    if is_ep_capture(b, m) {
        assert(!bit(b.occupied, to));
    } else if captured_kind(b, m) is Some {
        assert(captured_square(b, m) == to);
    } else {
        // No capture: show the destination was empty already.
        b.lemma_color_mask_bit(opp, to);
        assert(!bit(b.color_mask(opp), to));
        match mv {
            PieceType::Pawn => {
                // Not a capture step (that would capture or be en
                // passant), so a push onto an empty square.
                assert(!bit(b.occupied, to));
            },
            PieceType::King => {
                if crate::attack::king_step(from, to) && !bit(b.color_mask(c), to) {
                    assert(!bit(b.occupied, to));
                } else {
                    lemma_castle_squares(b, m);
                    assert(!bit(b.occupied, to));
                }
            },
            _ => {
                assert(!bit(b.color_mask(c), to));
                assert(!bit(b.occupied, to));
            },
        }
    }
}

/// A castling right that survives a move still has its king and rook
/// on their home squares afterwards.
#[verifier::rlimit(100)]
proof fn lemma_castle_home_bits(b: Board, m: Move, fin: Board, flag: u8, side: Color, ksq: u64, rsq: u64)
    requires
        b.wf(),
        pseudo_legal(b, m),
        captured_kind(b, m) != Some(PieceType::King),
        fin == apply_move_spec(b, m),
        (flag == 0b0001u8 && side == Color::White && ksq == 4 && rsq == 7) || (flag == 0b0010u8
            && side == Color::White && ksq == 4 && rsq == 0) || (flag == 0b0100u8 && side
            == Color::Black && ksq == 60 && rsq == 63) || (flag == 0b1000u8 && side == Color::Black
            && ksq == 60 && rsq == 56),
    ensures
        fin.castling_rights & flag != 0 ==> bit(fin.piece_mask(side, PieceType::King), ksq) && bit(
            fin.piece_mask(side, PieceType::Rook),
            rsq,
        ),
{
    if fin.castling_rights & flag != 0 {
        let c = b.turn;
        let opp = c.spec_opponent();
        let mv = moving_kind(b, m);
        let from = m.from as u64;
        let to = m.to as u64;
        let placed = placed_kind(b, m);
        lemma_rights_masks();
        lemma_bit_ops();
        assert((!0b0011u8) & 0b0001u8 == 0 && (!0b0011u8) & 0b0010u8 == 0 && (!0b1100u8)
            & 0b0100u8 == 0 && (!0b1100u8) & 0b1000u8 == 0 && (!0b0001u8) & 0b0001u8 == 0 && (
        !0b0010u8) & 0b0010u8 == 0 && (!0b0100u8) & 0b0100u8 == 0 && (!0b1000u8) & 0b1000u8 == 0)
            by (bit_vector);
        assert(fin.castling_rights == rights_after(b, m));
        assert(b.castling_rights & flag != 0);
        assert(bit(b.piece_mask(side, PieceType::King), ksq) && bit(
            b.piece_mask(side, PieceType::Rook),
            rsq,
        ));
        // Mirror the board chain of the transition and read each step.
        let b1 = spec_clear_piece(b, c, mv, from);
        let b2 = match captured_kind(b, m) {
            Some(k) => spec_clear_piece(b1, opp, k, captured_square(b, m)),
            None => b1,
        };
        let b3 = spec_add_piece(b2, c, placed, to);
        lemma_clear_piece(b, c, mv, from);
        if captured_kind(b, m) is Some {
            lemma_clear_piece(b1, opp, captured_kind(b, m).unwrap(), captured_square(b, m));
            assert(captured_square(b, m) < 64) by {
                if is_ep_capture(b, m) {
                    let ei = b.en_passant.unwrap() as u64;
                }
            }
        }
        lemma_add_piece(b2, c, placed, to);
        let b4 = if is_castle_move(b, m) {
            if m.to > m.from {
                spec_add_piece(
                    spec_clear_piece(b3, c, PieceType::Rook, (m.from as int + 3) as u64),
                    c,
                    PieceType::Rook,
                    (m.from as int + 1) as u64,
                )
            } else {
                spec_add_piece(
                    spec_clear_piece(b3, c, PieceType::Rook, (m.from as int - 4) as u64),
                    c,
                    PieceType::Rook,
                    (m.from as int - 1) as u64,
                )
            }
        } else {
            b3
        };
        if is_castle_move(b, m) {
            // A castle is a king move, which clears both of its color's
            // rights, so the surviving flag belongs to the other side.
            lemma_castle_squares(b, m);
            assert(c != side);
            if m.to > m.from {
                lemma_clear_piece(b3, c, PieceType::Rook, (m.from as int + 3) as u64);
                lemma_add_piece(
                    spec_clear_piece(b3, c, PieceType::Rook, (m.from as int + 3) as u64),
                    c,
                    PieceType::Rook,
                    (m.from as int + 1) as u64,
                );
            } else {
                lemma_clear_piece(b3, c, PieceType::Rook, (m.from as int - 4) as u64);
                lemma_add_piece(
                    spec_clear_piece(b3, c, PieceType::Rook, (m.from as int - 4) as u64),
                    c,
                    PieceType::Rook,
                    (m.from as int - 1) as u64,
                );
            }
        }
        lemma_same_placement(b4, fin);
        if c == side {
            // The mover still holds the right: not a king move, and not
            // this rook leaving its corner.
            assert(mv != PieceType::King);
            assert(placed != PieceType::King);
            assert(mv == PieceType::Rook ==> from != rsq);
            assert(bit(b4.piece_mask(side, PieceType::King), ksq));
            assert(bit(b4.piece_mask(side, PieceType::Rook), rsq));
        } else {
            // Only a capture can touch the other side's bitboards, and
            // a capture on this rook's corner would have cleared the flag.
            match captured_kind(b, m) {
                Some(k) => {
                    let cs = captured_square(b, m);
                    assert(k != PieceType::King);
                    if cs == rsq {
                        if is_ep_capture(b, m) {
                            b.lemma_kind_at_of_bit(side, PieceType::Rook, rsq);
                            b.lemma_kind_at_of_bit(side, PieceType::Pawn, cs);
                            assert(false);
                        } else {
                            b.lemma_kind_at_of_bit(side, PieceType::Rook, rsq);
                            assert(k == PieceType::Rook);
                            assert(false);
                        }
                    }
                    assert(bit(b4.piece_mask(side, PieceType::King), ksq));
                    assert(bit(b4.piece_mask(side, PieceType::Rook), rsq));
                },
                None => {
                    assert(bit(b4.piece_mask(side, PieceType::King), ksq));
                    assert(bit(b4.piece_mask(side, PieceType::Rook), rsq));
                },
            }
        }
    }
}

impl Board {
    /// Apply one pseudo-legal move, producing the successor position:
    /// captures (including en passant), promotion, castling rook
    /// relocation, castling-rights revocation, en-passant target
    /// update, the move counters, and the side to move.
    #[verifier::rlimit(100)]
    pub fn apply_move(&mut self, m: &Move)
        requires
            old(self).wf(),
            pseudo_legal(*old(self), *m),
            old(self).half_moves < 0xFFFFFFFFu32,
            old(self).full_moves < 0xFFFFFFFFu32,
        ensures
            *final(self) == apply_move_spec(*old(self), *m),
            final(self).castling_rights & !old(self).castling_rights == 0,
            final(self).turn == old(self).turn.spec_opponent(),
            final(self).half_moves == (if moving_kind(*old(self), *m) == PieceType::Pawn
                || captured_kind(*old(self), *m) is Some {
                0u32
            } else {
                (old(self).half_moves + 1) as u32
            }),
            final(self).en_passant == ep_after(*old(self), *m),
            final(self).full_moves == (if old(self).turn == Color::Black {
                (old(self).full_moves + 1) as u32
            } else {
                old(self).full_moves
            }),
            final(self).masks_disjoint(),
            final(self).occupied_ok(),
            crate::utils::exactly_one_bit(
                final(self).piece_mask(old(self).turn, PieceType::King),
            ),
            captured_kind(*old(self), *m) != Some(PieceType::King) ==> final(self).wf(),
    {
        let ghost b = *old(self);
        let c = self.turn;
        let opp = c.opponent();
        let mv_opt = self.kind_at(c, m.from);
        let mv = mv_opt.unwrap();
        proof {
            assert(opp != c);
            assert(mv == moving_kind(b, *m));
            assert(bit(b.piece_mask(c, mv), m.from as u64));
        }
        self.remove_piece(c, mv, m.from);
        proof {
            lemma_clear_piece(b, c, mv, m.from as u64);
            lemma_bit_ops();
        }
        let placed = match m.promotion {
            Some(pp) => pp,
            None => mv,
        };
        let is_ep = mv == PieceType::Pawn && (match self.en_passant {
            Some(e) => e == m.to,
            None => false,
        });
        proof {
            assert(is_ep == is_ep_capture(b, *m));
        }
        let ghost b1 = *self;
        let captured: Option<PieceType>;
        let captured_sq: Square;
        if is_ep {
            let ep_sq = if c == Color::White {
                m.to - 8
            } else {
                m.to + 8
            };
            proof {
                assert(ep_sq as u64 == ep_capture_square(b, *m));
                assert(bit(b.piece_mask(opp, PieceType::Pawn), ep_sq as u64));
                assert(b1.piece_mask(opp, PieceType::Pawn) == b.piece_mask(opp, PieceType::Pawn));
            }
            self.remove_piece(opp, PieceType::Pawn, ep_sq);
            captured = Some(PieceType::Pawn);
            captured_sq = ep_sq;
        } else {
            proof {
                assert(b1.piece_kind_at(opp, m.to as u64) == b.piece_kind_at(opp, m.to as u64));
            }
            let cap = self.kind_at(opp, m.to);
            if let Some(k) = cap {
                proof {
                    assert(bit(b1.piece_mask(opp, k), m.to as u64));
                }
                self.remove_piece(opp, k, m.to);
            }
            captured = cap;
            captured_sq = m.to;
        }
        let ghost b2v = *self;
        proof {
            assert(captured == captured_kind(b, *m));
            assert(captured_sq as u64 == captured_square(b, *m));
            assert(placed == placed_kind(b, *m));
            lemma_apply_destination_empty(b, *m);
            if captured is Some {
                lemma_clear_piece(b1, opp, captured.unwrap(), captured_sq as u64);
            }
        }
        self.add_piece(c, placed, m.to);
        let ghost b3 = *self;
        proof {
            lemma_add_piece(b2v, c, placed, m.to as u64);
        }
        if mv == PieceType::King && (m.from + 2 == m.to || m.to + 2 == m.from) {
            proof {
                lemma_castle_squares(b, *m);
                assert(b3.piece_mask(c, PieceType::Rook) == b.piece_mask(c, PieceType::Rook));
                assert(b3.occupied == b.occupied & !(1u64 << (m.from as u64)) | (1u64 << (
                m.to as u64)));
            }
            let rook_from: Square;
            let rook_to: Square;
            if m.to > m.from {
                rook_from = m.from + 3;
                rook_to = m.from + 1;
            } else {
                rook_from = m.from - 4;
                rook_to = m.from - 1;
            }
            proof {
                assert(bit(b3.piece_mask(c, PieceType::Rook), rook_from as u64));
                assert(!bit(b3.occupied, rook_to as u64) && !bit(
                    1u64 << (rook_from as u64),
                    rook_to as u64,
                ));
            }
            self.remove_piece(c, PieceType::Rook, rook_from);
            proof {
                assert(!bit(self.occupied, rook_to as u64));
                lemma_clear_piece(b3, c, PieceType::Rook, rook_from as u64);
            }
            let ghost b3r = *self;
            self.add_piece(c, PieceType::Rook, rook_to);
            proof {
                lemma_add_piece(b3r, c, PieceType::Rook, rook_to as u64);
            }
        }
        let ghost b4v = *self;
        // Castling rights: read the pre-move piece kinds.
        let mut rights = self.castling_rights;
        if mv == PieceType::King {
            if c == Color::White {
                rights = rights & !0b0011u8;
            } else {
                rights = rights & !0b1100u8;
            }
        } else if mv == PieceType::Rook {
            if c == Color::White {
                if m.from == 0 {
                    rights = rights & !0b0010u8;
                } else if m.from == 7 {
                    rights = rights & !0b0001u8;
                }
            } else {
                if m.from == 56 {
                    rights = rights & !0b1000u8;
                } else if m.from == 63 {
                    rights = rights & !0b0100u8;
                }
            }
        }
        if let Some(k) = captured {
            if k == PieceType::Rook {
                if c == Color::White {
                    if captured_sq == 56 {
                        rights = rights & !0b1000u8;
                    }
                    if captured_sq == 63 {
                        rights = rights & !0b0100u8;
                    }
                } else {
                    if captured_sq == 0 {
                        rights = rights & !0b0010u8;
                    }
                    if captured_sq == 7 {
                        rights = rights & !0b0001u8;
                    }
                }
            }
        }
        self.castling_rights = rights;
        proof {
            assert(rights == rights_after(b, *m));
            lemma_rights_masks();
        }
        // En-passant target: cleared, then set after a double pawn push.
        self.en_passant = None;
        if mv == PieceType::Pawn && (m.from + 16 == m.to || m.to + 16 == m.from) {
            self.en_passant = Some((m.from + m.to) / 2);
        }
        proof {
            assert(self.en_passant == ep_after(b, *m));
        }
        // Counters: the halfmove clock resets on pawn moves and
        // captures, the fullmove number advances after Black's move.
        if mv == PieceType::Pawn || captured.is_some() {
            self.half_moves = 0;
        } else {
            self.half_moves = self.half_moves + 1;
        }
        if c == Color::Black {
            self.full_moves = self.full_moves + 1;
        }
        self.turn = opp;
        proof {
            assert(*self =~= apply_move_spec(b, *m));
            lemma_same_placement(b4v, *self);
            crate::utils::lemma_exactly_one_bit();
            let fin = *self;
            let from = m.from as u64;
            let to = m.to as u64;
            // The mover keeps exactly one king, whatever was captured.
            if mv == PieceType::King {
                assert(fin.piece_mask(c, PieceType::King) == (b.piece_mask(c, PieceType::King)
                    & !(1u64 << from)) | (1u64 << to));
            } else {
                assert(placed != PieceType::King);
                assert(fin.piece_mask(c, PieceType::King) == b.piece_mask(c, PieceType::King));
            }
            assert(crate::utils::exactly_one_bit(fin.piece_mask(c, PieceType::King)));
            if captured_kind(b, *m) != Some(PieceType::King) {
                assert(fin.piece_mask(opp, PieceType::King) == b.piece_mask(opp, PieceType::King));
                assert(fin.kings_ok());
                // The en-passant invariant for the new target.
                if fin.en_passant is Some {
                    let e = fin.en_passant.unwrap() as u64;
                    assert(mv == PieceType::Pawn);
                    assert(captured_kind(b, *m) is None) by {
                        if is_ep_capture(b, *m) {
                            let ei = b.en_passant.unwrap() as u64;
                        }
                        if b.piece_kind_at(opp, to) is Some {
                            b.lemma_color_mask_bit(opp, to);
                            assert(bit(b.occupied, to));
                        }
                    }
                    if c == Color::White {
                        assert(to == m.from + 16);
                        assert(e == from + 8);
                        assert(e / 8 == 2 && to / 8 == 3);
                        assert(bit(fin.piece_mask(Color::White, PieceType::Pawn), to));
                        assert(!bit(fin.occupied, e));
                    } else {
                        assert(m.from == m.to + 16);
                        assert(e == to + 8 && e == from - 8);
                        assert(e / 8 == 5 && to / 8 == 4);
                        assert(bit(fin.piece_mask(Color::Black, PieceType::Pawn), to));
                        assert(!bit(fin.occupied, e));
                    }
                    assert(fin.en_passant_ok());
                } else {
                    assert(fin.en_passant_ok());
                }
                // Each surviving castling right still has its king and
                // rook at home.
                assert((!0b0011u8) & 0b0011u8 == 0 && (!0b1100u8) & 0b1100u8 == 0 && (!0b0001u8)
                    & 0b0001u8 == 0 && (!0b0010u8) & 0b0010u8 == 0 && (!0b0100u8) & 0b0100u8 == 0
                    && (!0b1000u8) & 0b1000u8 == 0 && 0b0001u8 & 0b0011u8 != 0 && 0b0010u8
                    & 0b0011u8 != 0 && 0b0100u8 & 0b1100u8 != 0 && 0b1000u8 & 0b1100u8 != 0)
                    by (bit_vector);
                lemma_castle_home_bits(b, *m, fin, 0b0001u8, Color::White, 4, 7);
                lemma_castle_home_bits(b, *m, fin, 0b0010u8, Color::White, 4, 0);
                lemma_castle_home_bits(b, *m, fin, 0b0100u8, Color::Black, 60, 63);
                lemma_castle_home_bits(b, *m, fin, 0b1000u8, Color::Black, 60, 56);
                assert(fin.castling_ok());
                assert(fin.wf());
            }
        }
    }

    /// Take the piece of color `c` and kind `p` off square `s`.
    fn remove_piece(&mut self, c: Color, p: PieceType, s: Square)
        requires
            s < 64,
            old(self).masks_disjoint(),
            old(self).occupied_ok(),
            bit(old(self).piece_mask(c, p), s as u64),
        ensures
            *final(self) == spec_clear_piece(*old(self), c, p, s as u64),
            final(self).masks_disjoint(),
            final(self).occupied_ok(),
    {
        let ci = c.to_index();
        let pi = p.to_usize();
        let mut bb = self.pieces[ci][pi];
        clear_bit(&mut bb, s);
        self.pieces[ci][pi] = bb;
        let mut occ = self.occupied;
        clear_bit(&mut occ, s);
        self.occupied = occ;
        proof {
            let b0 = *old(self);
            let su = s as u64;
            let tgt = spec_clear_piece(b0, c, p, su);
            lemma_upd_masks(b0.pieces, ci as int, pi as int, b0.piece_mask(c, p) & !(1u64 << su));
            assert(self.pieces[0] =~= tgt.pieces[0]);
            assert(self.pieces[1] =~= tgt.pieces[1]);
            assert(self.pieces =~= tgt.pieces);
            assert(*self =~= tgt);
            lemma_clear_piece(b0, c, p, su);
            lemma_bit_ops();
            // Disjointness: every bitboard only shrank.
            assert forall|c1: Color, p1: PieceType, c2: Color, p2: PieceType, t: u64|
                t < 64 && #[trigger] bit(self.piece_mask(c1, p1), t) && #[trigger] bit(
                    self.piece_mask(c2, p2),
                    t,
                ) implies (c1 == c2 && p1 == p2) by {
                assert(bit(b0.piece_mask(c1, p1), t));
                assert(bit(b0.piece_mask(c2, p2), t));
            }
            // Occupancy: the union lost exactly square `s`.
            assert forall|t: u64| t < 64 implies (#[trigger] bit(self.occupied, t) <==> bit(
                self.color_mask(Color::White) | self.color_mask(Color::Black),
                t,
            )) by {
                if bit(self.occupied, t) {
                    assert(bit(b0.occupied, t) && t != su);
                    b0.lemma_color_mask_bit(Color::White, t);
                    b0.lemma_color_mask_bit(Color::Black, t);
                    if bit(b0.color_mask(Color::White), t) {
                        let k = b0.piece_kind_at(Color::White, t).unwrap();
                        assert(bit(b0.piece_mask(Color::White, k), t));
                        assert(bit(self.piece_mask(Color::White, k), t));
                        self.lemma_color_mask_bit(Color::White, t);
                    } else {
                        let k = b0.piece_kind_at(Color::Black, t).unwrap();
                        assert(bit(b0.piece_mask(Color::Black, k), t));
                        assert(bit(self.piece_mask(Color::Black, k), t));
                        self.lemma_color_mask_bit(Color::Black, t);
                    }
                }
                if bit(self.color_mask(Color::White) | self.color_mask(Color::Black), t) {
                    self.lemma_color_mask_bit(Color::White, t);
                    self.lemma_color_mask_bit(Color::Black, t);
                    let cx = if bit(self.color_mask(Color::White), t) {
                        Color::White
                    } else {
                        Color::Black
                    };
                    let k = self.piece_kind_at(cx, t).unwrap();
                    assert(bit(self.piece_mask(cx, k), t));
                    if cx == c && k == p {
                        assert(bit(b0.piece_mask(c, p), t) && t != su);
                    } else {
                        assert(bit(b0.piece_mask(cx, k), t));
                        assert(t != su);
                    }
                    b0.lemma_color_mask_bit(cx, t);
                    assert(bit(b0.occupied, t));
                    assert(bit(self.occupied, t));
                }
            }
            lemma_bit_ext(
                self.occupied,
                self.color_mask(Color::White) | self.color_mask(Color::Black),
            );
        }
    }

    /// Put a piece of color `c` and kind `p` on the empty square `s`.
    fn add_piece(&mut self, c: Color, p: PieceType, s: Square)
        requires
            s < 64,
            old(self).masks_disjoint(),
            old(self).occupied_ok(),
            !bit(old(self).occupied, s as u64),
        ensures
            *final(self) == spec_add_piece(*old(self), c, p, s as u64),
            final(self).masks_disjoint(),
            final(self).occupied_ok(),
    {
        let ci = c.to_index();
        let pi = p.to_usize();
        let mut bb = self.pieces[ci][pi];
        set_bit(&mut bb, s);
        self.pieces[ci][pi] = bb;
        let mut occ = self.occupied;
        set_bit(&mut occ, s);
        self.occupied = occ;
        proof {
            let b0 = *old(self);
            let su = s as u64;
            let tgt = spec_add_piece(b0, c, p, su);
            lemma_upd_masks(b0.pieces, ci as int, pi as int, b0.piece_mask(c, p) | (1u64 << su));
            assert(self.pieces[0] =~= tgt.pieces[0]);
            assert(self.pieces[1] =~= tgt.pieces[1]);
            assert(self.pieces =~= tgt.pieces);
            assert(*self =~= tgt);
            lemma_add_piece(b0, c, p, su);
            lemma_bit_ops();
            // No other bitboard holds `s`: the square was empty.
            assert forall|c2: Color, p2: PieceType| !bit(
                #[trigger] b0.piece_mask(c2, p2),
                su,
            ) by {
                if bit(b0.piece_mask(c2, p2), su) {
                    b0.lemma_color_mask_bit(c2, su);
                    assert(bit(b0.color_mask(c2), su));
                    assert(bit(b0.occupied, su));
                }
            }
            assert forall|c1: Color, p1: PieceType, c2: Color, p2: PieceType, t: u64|
                t < 64 && #[trigger] bit(self.piece_mask(c1, p1), t) && #[trigger] bit(
                    self.piece_mask(c2, p2),
                    t,
                ) implies (c1 == c2 && p1 == p2) by {
                if t == su {
                    assert(c1 == c && p1 == p);
                    assert(c2 == c && p2 == p);
                } else {
                    assert(bit(b0.piece_mask(c1, p1), t));
                    assert(bit(b0.piece_mask(c2, p2), t));
                }
            }
            assert forall|t: u64| t < 64 implies (#[trigger] bit(self.occupied, t) <==> bit(
                self.color_mask(Color::White) | self.color_mask(Color::Black),
                t,
            )) by {
                if bit(self.occupied, t) {
                    if t == su {
                        assert(bit(self.piece_mask(c, p), t));
                        self.lemma_color_mask_bit(c, t);
                    } else {
                        assert(bit(b0.occupied, t));
                        b0.lemma_color_mask_bit(Color::White, t);
                        b0.lemma_color_mask_bit(Color::Black, t);
                        let cx = if bit(b0.color_mask(Color::White), t) {
                            Color::White
                        } else {
                            Color::Black
                        };
                        let k = b0.piece_kind_at(cx, t).unwrap();
                        assert(bit(b0.piece_mask(cx, k), t));
                        assert(bit(self.piece_mask(cx, k), t));
                        self.lemma_color_mask_bit(cx, t);
                    }
                }
                if bit(self.color_mask(Color::White) | self.color_mask(Color::Black), t) {
                    self.lemma_color_mask_bit(Color::White, t);
                    self.lemma_color_mask_bit(Color::Black, t);
                    let cx = if bit(self.color_mask(Color::White), t) {
                        Color::White
                    } else {
                        Color::Black
                    };
                    let k = self.piece_kind_at(cx, t).unwrap();
                    assert(bit(self.piece_mask(cx, k), t));
                    if t == su {
                        assert(bit(self.occupied, t));
                    } else {
                        assert(bit(b0.piece_mask(cx, k), t));
                        b0.lemma_color_mask_bit(cx, t);
                        assert(bit(b0.occupied, t));
                        assert(bit(self.occupied, t));
                    }
                }
            }
            lemma_bit_ext(
                self.occupied,
                self.color_mask(Color::White) | self.color_mask(Color::Black),
            );
        }
    }
}

/// The position after a whole sequence of moves, applied left to right.
pub open spec fn apply_moves_spec(b: Board, ms: Seq<Move>) -> Board
    decreases ms.len(),
{
    if ms.len() == 0 {
        b
    } else {
        apply_moves_spec(apply_move_spec(b, ms[0]), ms.drop_first())
    }
}

/// Castling-rights monotonicity: over any sequence of applied moves, a
/// castling-rights flag once cleared is never set again.
pub proof fn lemma_castling_rights_monotonic(b: Board, ms: Seq<Move>)
    ensures
        apply_moves_spec(b, ms).castling_rights & !b.castling_rights == 0,
    decreases ms.len(),
{
    if ms.len() == 0 {
        let r0 = b.castling_rights;
        assert(r0 & !r0 == 0) by (bit_vector);
    } else {
        let b1 = apply_move_spec(b, ms[0]);
        let r0 = b.castling_rights;
        let r1 = b1.castling_rights;
        assert(r1 & !r0 == 0) by {
            lemma_rights_masks();
        }
        lemma_castling_rights_monotonic(b1, ms.drop_first());
        let r2 = apply_moves_spec(b1, ms.drop_first()).castling_rights;
        assert(r2 & !r1 == 0);
        assert(r1 & !r0 == 0 && r2 & !r1 == 0 ==> r2 & !r0 == 0) by (bit_vector);
        assert(apply_moves_spec(b, ms) == apply_moves_spec(b1, ms.drop_first()));
        assert(apply_moves_spec(b, ms).castling_rights & !b.castling_rights == 0);
    }
}

} // verus!
