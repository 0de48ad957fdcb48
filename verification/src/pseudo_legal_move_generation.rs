use vstd::prelude::*;

use crate::attack::diag_reach;
use crate::attack::king_step;
use crate::attack::knight_jump;
use crate::attack::line_reach;
use crate::constants::Color;
use crate::constants::PieceType;
use crate::constants::Square;
use crate::initialize_board::Board;
use crate::utils::bit;
use crate::utils::exactly_one_bit;
use crate::utils::intersects;
use crate::utils::lemma_bit_ops;
use crate::utils::lsb;
use vstd::string::*;

verus! {

/// A move: origin and destination square, and for a pawn reaching the
/// last rank the chosen promotion kind.
#[derive(Debug, Clone, Copy, PartialEq, Eq, Structural)]
pub struct Move {
    pub from: Square,
    pub to: Square,
    pub promotion: Option<PieceType>,
}

/// A pawn of color `c` standing on `from` captures onto `to`: one rank
/// forward for `c` and one file to either side.
pub open spec fn pawn_capture_step(c: Color, from: int, to: int) -> bool {
    0 <= from < 64 && 0 <= to < 64 && (match c {
        Color::White => (to == from + 7 && from % 8 == to % 8 + 1) || (to == from + 9 && from % 8
            + 1 == to % 8),
        Color::Black => (to == from - 7 && from % 8 + 1 == to % 8) || (to == from - 9 && from % 8
            == to % 8 + 1),
    })
}

/// Square `s` is attacked by some piece of color `by`: a pawn capture
/// step away, a knight jump away, a king step away, or reached by a
/// bishop/rook/queen ray under the current occupancy.
pub open spec fn square_attacked(b: Board, s: u64, by: Color) -> bool {
    ||| exists|p: u64|
        p < 64 && #[trigger] bit(b.piece_mask(by, PieceType::Pawn), p) && pawn_capture_step(
            by,
            p as int,
            s as int,
        )
    ||| exists|p: u64|
        p < 64 && #[trigger] bit(b.piece_mask(by, PieceType::Knight), p) && knight_jump(p, s)
    ||| exists|p: u64|
        p < 64 && #[trigger] bit(b.piece_mask(by, PieceType::King), p) && king_step(p, s)
    ||| exists|q: u64|
        q < 64 && #[trigger] bit(
            b.piece_mask(by, PieceType::Bishop) | b.piece_mask(by, PieceType::Queen),
            q,
        ) && diag_reach(b.occupied, s as int, q as int)
    ||| exists|q: u64|
        q < 64 && #[trigger] bit(
            b.piece_mask(by, PieceType::Rook) | b.piece_mask(by, PieceType::Queen),
            q,
        ) && line_reach(b.occupied, s as int, q as int)
}

/// The square of the single king of color `c` (the lowest marked square
/// of its king bitboard).
pub open spec fn king_square_of(b: Board, c: Color) -> u64 {
    vstd::std_specs::bits::u64_trailing_zeros(b.piece_mask(c, PieceType::King)) as u64
}

/// The king of color `c` stands on a square the opponent attacks.
pub open spec fn in_check(b: Board, c: Color) -> bool {
    square_attacked(b, king_square_of(b, c), c.spec_opponent())
}

/// Direction of a pawn push for this color, in linear index steps.
pub open spec fn pawn_dir(c: Color) -> int {
    match c {
        Color::White => 8,
        Color::Black => -8,
    }
}

/// The rank a pawn of this color starts on.
pub open spec fn pawn_start_rank(c: Color) -> int {
    match c {
        Color::White => 1,
        Color::Black => 6,
    }
}

/// The rank on which a pawn of this color promotes.
pub open spec fn promo_rank(c: Color) -> int {
    match c {
        Color::White => 7,
        Color::Black => 0,
    }
}

/// The kinds a pawn may promote to.
pub open spec fn promo_choice_ok(p: PieceType) -> bool {
    p == PieceType::Queen || p == PieceType::Rook || p == PieceType::Bishop || p
        == PieceType::Knight
}

/// A pawn of color `c` may go from `from` to `to`: a single push onto an
/// empty square, a double push from its start rank through two empty
/// squares, or a capture step onto an enemy piece or the en-passant
/// target square.
pub open spec fn pawn_step_ok(b: Board, c: Color, from: int, to: int) -> bool {
    let d = pawn_dir(c);
    ||| (to == from + d && 0 <= to < 64 && !bit(b.occupied, to as u64))
    ||| (to == from + 2 * d && from / 8 == pawn_start_rank(c) && 0 <= from + d < 64 && 0 <= to < 64
        && !bit(b.occupied, (from + d) as u64) && !bit(b.occupied, to as u64))
    ||| (pawn_capture_step(c, from, to) && (bit(b.color_mask(c.spec_opponent()), to as u64)
        || b.en_passant == Some(to as u8)))
}

/// A full pawn move: a legal pawn step, carrying a promotion choice
/// exactly when the destination lies on the promotion rank.
pub open spec fn pawn_move_ok(b: Board, c: Color, from: int, to: int, promo: Option<
    PieceType,
>) -> bool {
    pawn_step_ok(b, c, from, to) && (if to / 8 == promo_rank(c) {
        match promo {
            Some(p) => promo_choice_ok(p),
            None => false,
        }
    } else {
        promo is None
    })
}

/// Castling as the generator emits it: the king (standing on `from`,
/// not currently attacked) steps two files towards a rook whose right
/// is still held, over an empty path between king and rook.
pub open spec fn castle_ok(b: Board, c: Color, from: int, to: int) -> bool {
    &&& bit(b.piece_mask(c, PieceType::King), from as u64)
    &&& 0 <= from < 64
    &&& !square_attacked(b, from as u64, c.spec_opponent())
    &&& (match c {
        Color::White => (to == from + 2 && b.castling_rights & 0x1u8 != 0 && b.occupied & 0x60u64
            == 0) || (to == from - 2 && b.castling_rights & 0x2u8 != 0 && b.occupied & 0x0Eu64
            == 0),
        Color::Black => (to == from + 2 && b.castling_rights & 0x4u8 != 0 && b.occupied
            & 0x6000000000000000u64 == 0) || (to == from - 2 && b.castling_rights & 0x8u8 != 0
            && b.occupied & 0x0E00000000000000u64 == 0),
    })
}

/// The movement rule of one piece kind, from the side to move's view.
pub open spec fn move_ok_for(b: Board, c: Color, p: PieceType, from: int, to: int, promo: Option<
    PieceType,
>) -> bool {
    match p {
        PieceType::Pawn => pawn_move_ok(b, c, from, to, promo),
        PieceType::Knight => knight_jump(from as u64, to as u64) && !bit(
            b.color_mask(c),
            to as u64,
        ) && promo is None,
        PieceType::Bishop => diag_reach(b.occupied, from, to) && 0 <= to < 64 && !bit(
            b.color_mask(c),
            to as u64,
        ) && promo is None,
        PieceType::Rook => line_reach(b.occupied, from, to) && 0 <= to < 64 && !bit(
            b.color_mask(c),
            to as u64,
        ) && promo is None,
        PieceType::Queen => (diag_reach(b.occupied, from, to) || line_reach(b.occupied, from, to))
            && 0 <= to < 64 && !bit(b.color_mask(c), to as u64) && promo is None,
        PieceType::King => ((king_step(from as u64, to as u64) && !bit(b.color_mask(c), to as u64))
            || castle_ok(b, c, from, to)) && promo is None,
    }
}

/// The move obeys the side to move's piece-movement and occupancy rules,
/// disregarding whether it leaves that side's own king in check.
pub open spec fn pseudo_legal(b: Board, m: Move) -> bool {
    &&& m.from < 64
    &&& m.to < 64
    &&& (match b.piece_kind_at(b.turn, m.from as u64) {
        Some(p) => move_ok_for(b, b.turn, p, m.from as int, m.to as int, m.promotion),
        None => false,
    })
}

impl Move {
    /// The kind of the side-to-move piece standing on the origin square.
    pub fn moving_piece(&self, board: &Board) -> (r: Option<PieceType>)
        requires
            self.from < 64,
        ensures
            r == board.piece_kind_at(board.turn, self.from as u64),
    {
        board.kind_at(board.turn, self.from)
    }

    /// The kind of the opposing piece standing on the destination
    /// square, if any. An en-passant capture leaves this empty: the
    /// captured pawn does not stand on the destination square.
    pub fn captured_piece(&self, board: &Board) -> (r: Option<PieceType>)
        requires
            self.to < 64,
        ensures
            r == board.piece_kind_at(board.turn.spec_opponent(), self.to as u64),
    {
        let opp_color = if board.turn == Color::White {
            Color::Black
        } else {
            Color::White
        };
        board.kind_at(opp_color, self.to)
    }
}

impl Board {
    /// The square of the king of the given color. The caller must know
    /// that exactly one king of that color stands on the board.
    pub fn king_square(&self, color: Color) -> (r: Square)
        requires
            exactly_one_bit(self.piece_mask(color, PieceType::King)),
        ensures
            r < 64,
            r as u64 == king_square_of(*self, color),
            bit(self.piece_mask(color, PieceType::King), r as u64),
    {
        let ci = color.to_index();
        lsb(self.pieces[ci][5])
    }

    /// Whether the king of the given color is attacked by the other side.
    pub fn is_in_check(&self, color: Color) -> (r: bool)
        requires
            exactly_one_bit(self.piece_mask(color, PieceType::King)),
        ensures
            r == in_check(*self, color),
    {
        let king_sq = self.king_square(color);
        let opp_color = color.opponent();
        self.is_square_attacked(king_sq, opp_color)
    }

    /// Whether any piece of `by_color` attacks square `sq`, checking
    /// pawns by projecting the reverse capture steps away from `sq`,
    /// knights and kings by their attack tables, and sliders by rays
    /// from `sq` under the current occupancy.
    pub fn is_square_attacked(&self, sq: Square, by_color: Color) -> (r: bool)
        requires
            sq < 64,
        ensures
            r == square_attacked(*self, sq as u64, by_color),
    {
        let ci = by_color.to_index();
        let occupied = self.occupied;
        let ghost s = sq as u64;

        // Pawn attacks: look at the one or two squares a pawn of
        // `by_color` would have to stand on to capture onto `sq`.
        let pawns = self.pieces[ci][0];
        let pawn_hit: bool = if by_color == Color::White {
            (sq >= 7 && sq % 8 != 7 && crate::utils::get_bit(pawns, sq - 7)) || (sq >= 9 && sq % 8
                != 0 && crate::utils::get_bit(pawns, sq - 9))
        } else {
            (sq + 7 < 64 && sq % 8 != 0 && crate::utils::get_bit(pawns, sq + 7)) || (sq + 9 < 64
                && sq % 8 != 7 && crate::utils::get_bit(pawns, sq + 9))
        };
        proof {
            assert(pawns == self.piece_mask(by_color, PieceType::Pawn));
            if pawn_hit {
                if by_color == Color::White {
                    if s >= 7 && s % 8 != 7 && bit(pawns, (s - 7) as u64) {
                        let p: u64 = (s - 7) as u64;
                        assert(bit(self.piece_mask(by_color, PieceType::Pawn), p)
                            && pawn_capture_step(by_color, p as int, s as int));
                    } else {
                        let p: u64 = (s - 9) as u64;
                        assert(bit(self.piece_mask(by_color, PieceType::Pawn), p)
                            && pawn_capture_step(by_color, p as int, s as int));
                    }
                } else {
                    if s + 7 < 64 && s % 8 != 0 && bit(pawns, (s + 7) as u64) {
                        let p: u64 = (s + 7) as u64;
                        assert(bit(self.piece_mask(by_color, PieceType::Pawn), p)
                            && pawn_capture_step(by_color, p as int, s as int));
                    } else {
                        let p: u64 = (s + 9) as u64;
                        assert(bit(self.piece_mask(by_color, PieceType::Pawn), p)
                            && pawn_capture_step(by_color, p as int, s as int));
                    }
                }
                assert(square_attacked(*self, s, by_color));
            } else {
                assert forall|p: u64|
                    p < 64 && #[trigger] bit(self.piece_mask(by_color, PieceType::Pawn), p)
                        && pawn_capture_step(by_color, p as int, s as int) implies false by {}
            }
        }
        if pawn_hit {
            return true;
        }
        // Knight attacks.
        let knights = self.pieces[ci][1];
        let katt = crate::attack::knight_attacks(sq);
        if intersects(katt, knights) {
            proof {
                assert(knights == self.piece_mask(by_color, PieceType::Knight));
                let t = choose|t: u64| t < 64 && #[trigger] bit(katt, t) && bit(knights, t);
                assert(knight_jump(s, t));
                assert(knight_jump(t, s));
                assert(bit(self.piece_mask(by_color, PieceType::Knight), t) && knight_jump(t, s));
                assert(square_attacked(*self, s, by_color));
            }
            return true;
        }
        // King attacks.
        let kings = self.pieces[ci][5];
        let satt = crate::attack::king_attacks(sq);
        if intersects(satt, kings) {
            proof {
                assert(kings == self.piece_mask(by_color, PieceType::King));
                let t = choose|t: u64| t < 64 && #[trigger] bit(satt, t) && bit(kings, t);
                assert(king_step(s, t));
                assert(king_step(t, s));
                assert(bit(self.piece_mask(by_color, PieceType::King), t) && king_step(t, s));
                assert(square_attacked(*self, s, by_color));
            }
            return true;
        }
        // Bishop or queen attacks along the diagonals.
        let bq = self.pieces[ci][2] | self.pieces[ci][4];
        let datt = self.bishop_attacks(sq, occupied);
        if intersects(datt, bq) {
            proof {
                assert(bq == self.piece_mask(by_color, PieceType::Bishop) | self.piece_mask(
                    by_color,
                    PieceType::Queen,
                ));
                let t = choose|t: u64| t < 64 && #[trigger] bit(datt, t) && bit(bq, t);
                assert(diag_reach(self.occupied, s as int, t as int));
                assert(square_attacked(*self, s, by_color));
            }
            return true;
        }
        // Rook or queen attacks along ranks and files.
        let rq = self.pieces[ci][3] | self.pieces[ci][4];
        let latt = self.rook_attacks(sq, occupied);
        if intersects(latt, rq) {
            proof {
                assert(rq == self.piece_mask(by_color, PieceType::Rook) | self.piece_mask(
                    by_color,
                    PieceType::Queen,
                ));
                let t = choose|t: u64| t < 64 && #[trigger] bit(latt, t) && bit(rq, t);
                assert(line_reach(self.occupied, s as int, t as int));
                assert(square_attacked(*self, s, by_color));
            }
            return true;
        }
        proof {
            assert(knights == self.piece_mask(by_color, PieceType::Knight));
            assert(kings == self.piece_mask(by_color, PieceType::King));
            assert(bq == self.piece_mask(by_color, PieceType::Bishop) | self.piece_mask(
                by_color,
                PieceType::Queen,
            ));
            assert(rq == self.piece_mask(by_color, PieceType::Rook) | self.piece_mask(
                by_color,
                PieceType::Queen,
            ));
            assert forall|p: u64|
                p < 64 && #[trigger] bit(self.piece_mask(by_color, PieceType::Knight), p)
                    && knight_jump(p, s) implies false by {
                assert(knight_jump(s, p));
                assert(bit(katt, p) && bit(knights, p));
            }
            assert forall|p: u64|
                p < 64 && #[trigger] bit(self.piece_mask(by_color, PieceType::King), p)
                    && king_step(p, s) implies false by {
                assert(king_step(s, p));
                assert(bit(satt, p) && bit(kings, p));
            }
            assert forall|q: u64|
                q < 64 && #[trigger] bit(
                    self.piece_mask(by_color, PieceType::Bishop) | self.piece_mask(
                        by_color,
                        PieceType::Queen,
                    ),
                    q,
                ) && diag_reach(self.occupied, s as int, q as int) implies false by {
                assert(bit(datt, q) && bit(bq, q));
            }
            assert forall|q: u64|
                q < 64 && #[trigger] bit(
                    self.piece_mask(by_color, PieceType::Rook) | self.piece_mask(
                        by_color,
                        PieceType::Queen,
                    ),
                    q,
                ) && line_reach(self.occupied, s as int, q as int) implies false by {
                assert(bit(latt, q) && bit(rq, q));
            }
            assert(!square_attacked(*self, s, by_color));
        }
        false
    }
}


/// Appending to a sequence adds exactly the new element to its contents.
pub(crate) proof fn lemma_push_contains(s: Seq<Move>, v: Move, x: Move)
    ensures
        s.push(v).contains(x) <==> s.contains(x) || x == v,
{
    if s.contains(x) {
        let i = choose|i: int| 0 <= i < s.len() && s[i] == x;
        assert(s.push(v)[i] == x);
    }
    assert(s.push(v)[s.len() as int] == v);
    if s.push(v).contains(x) && x != v {
        let i = choose|i: int| 0 <= i < s.push(v).len() && s.push(v)[i] == x;
        if i < s.len() {
            assert(s[i] == x);
        }
    }
}

/// Appending an element that is not yet present keeps a sequence
/// free of duplicates.
pub(crate) proof fn lemma_push_no_dup(s: Seq<Move>, v: Move)
    requires
        s.no_duplicates(),
        !s.contains(v),
    ensures
        s.push(v).no_duplicates(),
{
    let t = s.push(v);
    assert forall|i: int, j: int|
        0 <= i < t.len() && 0 <= j < t.len() && i != j implies t[i] != t[j] by {
        if i < s.len() && j < s.len() {
            assert(t[i] == s[i] && t[j] == s[j]);
        } else if i < s.len() {
            assert(t[j] == v && t[i] == s[i]);
            if s[i] == v {
                assert(s.contains(v));
            }
        } else if j < s.len() {
            assert(t[i] == v && t[j] == s[j]);
            if s[j] == v {
                assert(s.contains(v));
            }
        }
    }
}

/// Push one plain move, new to the list.
fn push_one(from: u8, to: u8, moves: &mut Vec<Move>)
    requires
        old(moves)@.no_duplicates(),
        !old(moves)@.contains(Move { from, to, promotion: None }),
    ensures
        final(moves)@.no_duplicates(),
        forall|x: Move|
            #[trigger] final(moves)@.contains(x) <==> old(moves)@.contains(x) || x == (Move {
                from,
                to,
                promotion: None,
            }),
{
    let ghost s0 = moves@;
    moves.push(Move { from, to, promotion: None });
    proof {
        assert forall|x: Move| #[trigger] moves@.contains(x) <==> s0.contains(x) || x == (Move {
            from,
            to,
            promotion: None,
        }) by {
            lemma_push_contains(s0, Move { from, to, promotion: None }, x);
        }
        lemma_push_no_dup(s0, Move { from, to, promotion: None });
    }
}

/// Push the four promotion choices for a pawn arriving on `to`; no
/// move between these squares is on the list yet.
fn push_promotions(from: u8, to: u8, moves: &mut Vec<Move>)
    requires
        old(moves)@.no_duplicates(),
        forall|x: Move| #[trigger] old(moves)@.contains(x) ==> !(x.from == from && x.to == to),
    ensures
        final(moves)@.no_duplicates(),
        forall|x: Move|
            #[trigger] final(moves)@.contains(x) <==> old(moves)@.contains(x) || (x.from == from
                && x.to == to && match x.promotion {
                Some(p) => promo_choice_ok(p),
                None => false,
            }),
{
    let ghost s0 = moves@;
    moves.push(Move { from, to, promotion: Some(PieceType::Queen) });
    moves.push(Move { from, to, promotion: Some(PieceType::Rook) });
    moves.push(Move { from, to, promotion: Some(PieceType::Bishop) });
    moves.push(Move { from, to, promotion: Some(PieceType::Knight) });
    proof {
        let m1 = Move { from, to, promotion: Some(PieceType::Queen) };
        let m2 = Move { from, to, promotion: Some(PieceType::Rook) };
        let m3 = Move { from, to, promotion: Some(PieceType::Bishop) };
        let m4 = Move { from, to, promotion: Some(PieceType::Knight) };
        assert forall|x: Move| #[trigger] moves@.contains(x) <==> s0.contains(x) || (x.from == from
            && x.to == to && match x.promotion {
            Some(p) => promo_choice_ok(p),
            None => false,
        }) by {
            lemma_push_contains(s0, m1, x);
            lemma_push_contains(s0.push(m1), m2, x);
            lemma_push_contains(s0.push(m1).push(m2), m3, x);
            lemma_push_contains(s0.push(m1).push(m2).push(m3), m4, x);
        }
        assert forall|x: Move| #[trigger] s0.push(m1).contains(x) <==> s0.contains(x) || x
            == m1 by {
            lemma_push_contains(s0, m1, x);
        }
        assert forall|x: Move| #[trigger] s0.push(m1).push(m2).contains(x) <==> s0.contains(x) || x
            == m1 || x == m2 by {
            lemma_push_contains(s0, m1, x);
            lemma_push_contains(s0.push(m1), m2, x);
        }
        assert forall|x: Move| #[trigger] s0.push(m1).push(m2).push(m3).contains(x) <==> s0
            .contains(x) || x == m1 || x == m2 || x == m3 by {
            lemma_push_contains(s0, m1, x);
            lemma_push_contains(s0.push(m1), m2, x);
            lemma_push_contains(s0.push(m1).push(m2), m3, x);
        }
        lemma_push_no_dup(s0, m1);
        lemma_push_no_dup(s0.push(m1), m2);
        lemma_push_no_dup(s0.push(m1).push(m2), m3);
        lemma_push_no_dup(s0.push(m1).push(m2).push(m3), m4);
    }
}

/// Push a move to every marked square of `targets`, as plain moves;
/// nothing on the list moves from this square yet.
fn push_targets(from: u8, targets: u64, moves: &mut Vec<Move>)
    requires
        from < 64,
        old(moves)@.no_duplicates(),
        forall|x: Move| #[trigger] old(moves)@.contains(x) ==> x.from != from,
    ensures
        final(moves)@.no_duplicates(),
        forall|x: Move|
            #[trigger] final(moves)@.contains(x) <==> old(moves)@.contains(x) || (x.from == from
                && x.to < 64 && bit(targets, x.to as u64) && x.promotion is None),
{
    let mut to: u8 = 0;
    while to < 64
        invariant
            to <= 64,
            moves@.no_duplicates(),
            forall|x: Move| #[trigger] old(moves)@.contains(x) ==> x.from != from,
            forall|x: Move|
                #[trigger] moves@.contains(x) <==> old(moves)@.contains(x) || (x.from == from
                    && x.to < to && bit(targets, x.to as u64) && x.promotion is None),
        decreases 64 - to,
    {
        if crate::utils::get_bit(targets, to) {
            let ghost s0 = moves@;
            moves.push(Move { from, to, promotion: None });
            proof {
                assert forall|x: Move| #[trigger] moves@.contains(x) <==> old(moves)@.contains(x)
                    || (x.from == from && x.to < to + 1 && bit(targets, x.to as u64)
                    && x.promotion is None) by {
                    lemma_push_contains(s0, Move { from, to, promotion: None }, x);
                }
                assert(!s0.contains(Move { from, to, promotion: None }));
                lemma_push_no_dup(s0, Move { from, to, promotion: None });
            }
        }
        to += 1;
    }
}


impl Board {
    /// Generate all knight, bishop, rook or queen moves of the side to
    /// move: per piece, its attack set masked to exclude own-occupied
    /// squares.
    fn gen_piece_moves(&self, k: PieceType, moves: &mut Vec<Move>)
        requires
            self.wf(),
            k == PieceType::Knight || k == PieceType::Bishop || k == PieceType::Rook || k
                == PieceType::Queen,
            old(moves)@.no_duplicates(),
            forall|x: Move|
                #[trigger] old(moves)@.contains(x) ==> pseudo_legal(*self, x)
                    && self.piece_kind_at(self.turn, x.from as u64) != Some(k),
        ensures
            final(moves)@.no_duplicates(),
            forall|x: Move|
                #[trigger] final(moves)@.contains(x) <==> old(moves)@.contains(x) || (pseudo_legal(
                    *self,
                    x,
                ) && self.piece_kind_at(self.turn, x.from as u64) == Some(k)),
    {
        let c = self.turn;
        let ci = c.to_index();
        let ki = k.to_usize();
        let mask = self.pieces[ci][ki];
        let own = self.all_pieces(c);
        let occupied = self.occupied;
        proof {
            assert(mask == self.piece_mask(c, k));
            lemma_bit_ops();
        }
        let mut from: u8 = 0;
        while from < 64
            invariant
                from <= 64,
                self.wf(),
                c == self.turn,
                mask == self.piece_mask(c, k),
                own == self.color_mask(c),
                occupied == self.occupied,
                k == PieceType::Knight || k == PieceType::Bishop || k == PieceType::Rook || k
                    == PieceType::Queen,
                moves@.no_duplicates(),
                forall|x: Move|
                    #[trigger] old(moves)@.contains(x) ==> pseudo_legal(*self, x)
                        && self.piece_kind_at(c, x.from as u64) != Some(k),
                forall|x: Move|
                    #[trigger] moves@.contains(x) <==> old(moves)@.contains(x) || (pseudo_legal(
                        *self,
                        x,
                    ) && self.piece_kind_at(c, x.from as u64) == Some(k) && x.from < from),
            decreases 64 - from,
        {
            if crate::utils::get_bit(mask, from) {
                let att = match k {
                    PieceType::Knight => crate::attack::knight_attacks(from),
                    PieceType::Bishop => self.bishop_attacks(from, occupied),
                    PieceType::Rook => self.rook_attacks(from, occupied),
                    _ => self.queen_attacks(from, occupied),
                };
                proof {
                    assert forall|t: u64| t < 64 implies (#[trigger] bit(att, t) <==> (match k {
                        PieceType::Knight => knight_jump(from as u64, t),
                        PieceType::Bishop => diag_reach(self.occupied, from as int, t as int),
                        PieceType::Rook => line_reach(self.occupied, from as int, t as int),
                        _ => diag_reach(self.occupied, from as int, t as int) || line_reach(
                            self.occupied,
                            from as int,
                            t as int,
                        ),
                    })) by {
                        match k {
                            PieceType::Knight => {},
                            PieceType::Bishop => {},
                            PieceType::Rook => {},
                            _ => {},
                        }
                    }
                }
                let targets = att & !own;
                let ghost sp = moves@;
                proof {
                    self.lemma_kind_at_of_bit(c, k, from as u64);
                    assert forall|x: Move| #[trigger] moves@.contains(x) implies x.from
                        != from by {
                        if x.from == from {
                            assert(self.piece_kind_at(c, from as u64) == Some(k));
                        }
                    }
                }
                push_targets(from, targets, moves);
                proof {
                    lemma_bit_ops();
                    self.lemma_kind_at_of_bit(c, k, from as u64);
                    assert forall|x: Move| #[trigger] moves@.contains(x) <==> old(moves)@.contains(
                        x,
                    ) || (pseudo_legal(*self, x) && self.piece_kind_at(c, x.from as u64) == Some(k)
                        && x.from < from + 1) by {
                        if x.from == from && x.to < 64 {
                            assert(bit(targets, x.to as u64) <==> bit(att, x.to as u64) && !bit(
                                own,
                                x.to as u64,
                            ));
                            match k {
                                PieceType::Knight => {},
                                PieceType::Bishop => {},
                                PieceType::Rook => {},
                                _ => {},
                            }
                        }
                    }
                }
            } else {
                proof {
                    assert(self.piece_kind_at(c, from as u64) != Some(k));
                    assert forall|x: Move| #[trigger] moves@.contains(x) <==> old(moves)@.contains(
                        x,
                    ) || (pseudo_legal(*self, x) && self.piece_kind_at(c, x.from as u64) == Some(k)
                        && x.from < from + 1) by {}
                }
            }
            from += 1;
        }
    }

    /// Generate the king's moves: its step targets masked to exclude
    /// own-occupied squares, and, when the king is not in check, a
    /// castle to each side whose right is held and whose path is empty.
    fn gen_king_moves(&self, moves: &mut Vec<Move>)
        requires
            self.wf(),
            old(moves)@.no_duplicates(),
            forall|x: Move|
                #[trigger] old(moves)@.contains(x) ==> pseudo_legal(*self, x)
                    && self.piece_kind_at(self.turn, x.from as u64) != Some(PieceType::King),
        ensures
            final(moves)@.no_duplicates(),
            forall|x: Move|
                #[trigger] final(moves)@.contains(x) <==> old(moves)@.contains(x) || (pseudo_legal(
                    *self,
                    x,
                ) && self.piece_kind_at(self.turn, x.from as u64) == Some(PieceType::King)),
    {
        let c = self.turn;
        let own = self.all_pieces(c);
        let king_sq = self.king_square(c);
        proof {
            crate::utils::lemma_exactly_one_bit();
            self.lemma_kind_at_of_bit(c, PieceType::King, king_sq as u64);
            lemma_bit_ops();
        }
        let targets = crate::attack::king_attacks(king_sq) & !own;
        let ghost s1 = moves@;
        proof {
            assert forall|x: Move| #[trigger] moves@.contains(x) implies x.from != king_sq by {
                if x.from == king_sq {
                    assert(self.piece_kind_at(c, king_sq as u64) == Some(PieceType::King));
                }
            }
        }
        push_targets(king_sq, targets, moves);
        let ghost s2 = moves@;
        let in_check = self.is_in_check(c);
        let mut pushed_kingside = false;
        let mut pushed_queenside = false;
        if !in_check {
            let kingside: u8 = if c == Color::White {
                0b0001
            } else {
                0b0100
            };
            let queenside: u8 = if c == Color::White {
                0b0010
            } else {
                0b1000
            };
            if self.castling_rights & kingside != 0 {
                let path: u64 = if c == Color::White {
                    0x60
                } else {
                    0x6000000000000000
                };
                if self.occupied & path == 0 {
                    proof {
                        assert(king_sq == 4 || king_sq == 60);
                        let cand = Move { from: king_sq, to: (king_sq + 2) as u8, promotion: None };
                        assert(!king_step(king_sq as u64, cand.to as u64));
                        assert(!bit(targets, cand.to as u64));
                        assert(!moves@.contains(cand));
                    }
                    push_one(king_sq, king_sq + 2, moves);
                    pushed_kingside = true;
                }
            }
            if self.castling_rights & queenside != 0 {
                let path: u64 = if c == Color::White {
                    0x0E
                } else {
                    0x0E00000000000000
                };
                if self.occupied & path == 0 {
                    proof {
                        assert(king_sq == 4 || king_sq == 60);
                        let cand = Move { from: king_sq, to: (king_sq - 2) as u8, promotion: None };
                        assert(!king_step(king_sq as u64, cand.to as u64));
                        assert(!bit(targets, cand.to as u64));
                        assert(!moves@.contains(cand));
                    }
                    push_one(king_sq, king_sq - 2, moves);
                    pushed_queenside = true;
                }
            }
        }
        proof {
            let ks = king_sq as u64;
            assert forall|x: Move| #[trigger] moves@.contains(x) <==> s1.contains(x) || (
            pseudo_legal(*self, x) && self.piece_kind_at(c, x.from as u64) == Some(
                PieceType::King,
            )) by {
                if x.from < 64 && self.piece_kind_at(c, x.from as u64) == Some(PieceType::King) {
                    assert(bit(self.piece_mask(c, PieceType::King), x.from as u64));
                    assert(x.from == king_sq);
                }
                if x.from == king_sq && x.to < 64 {
                    assert(bit(targets, x.to as u64) <==> king_step(ks, x.to as u64) && !bit(
                        self.color_mask(c),
                        x.to as u64,
                    ));
                    if castle_ok(*self, c, x.from as int, x.to as int) {
                        assert(!in_check);
                        assert(x.to as int == x.from as int + 2 || x.to as int == x.from as int
                            - 2);
                        assert(king_sq == 4 || king_sq == 60);
                    }
                    if pushed_kingside && x == (Move { from: king_sq, to: (king_sq + 2) as u8, promotion: None }) {
                        assert(castle_ok(*self, c, x.from as int, x.to as int));
                    }
                    if pushed_queenside && x == (Move { from: king_sq, to: (king_sq - 2) as u8, promotion: None }) {
                        assert(castle_ok(*self, c, x.from as int, x.to as int));
                    }
                }
            }
        }
    }
}


impl Board {
    /// Generate the moves of one pawn of the side to move: single and
    /// double pushes, diagonal captures (the en-passant square among
    /// the targets), with the four promotion choices on the last rank.
    fn gen_pawn_moves_from(&self, from: u8, moves: &mut Vec<Move>)
        requires
            self.wf(),
            from < 64,
            bit(self.piece_mask(self.turn, PieceType::Pawn), from as u64),
            old(moves)@.no_duplicates(),
            forall|x: Move| #[trigger] old(moves)@.contains(x) ==> x.from != from,
        ensures
            final(moves)@.no_duplicates(),
            forall|x: Move|
                #[trigger] final(moves)@.contains(x) <==> old(moves)@.contains(x) || (pseudo_legal(
                    *self,
                    x,
                ) && x.from == from),
    {
        let c = self.turn;
        let opp = c.opponent();
        let occ = self.occupied;
        let opp_all = self.all_pieces(opp);
        proof {
            lemma_bit_ops();
            self.lemma_kind_at_of_bit(c, PieceType::Pawn, from as u64);
        }
        if c == Color::White {
            if from < 56 && !crate::utils::get_bit(occ, from + 8) {
                if from + 8 >= 56 {
                    push_promotions(from, from + 8, moves);
                } else {
                    push_one(from, from + 8, moves);
                }
                if 8 <= from && from < 16 && !crate::utils::get_bit(occ, from + 16) {
                    push_one(from, from + 16, moves);
                }
            }
            if from % 8 != 0 && from + 7 < 64 {
                let to = from + 7;
                if crate::utils::get_bit(opp_all, to) || (match self.en_passant {
                    Some(e) => e == to,
                    None => false,
                }) {
                    if to >= 56 {
                        push_promotions(from, to, moves);
                    } else {
                        push_one(from, to, moves);
                    }
                }
            }
            if from % 8 != 7 && from + 9 < 64 {
                let to = from + 9;
                if crate::utils::get_bit(opp_all, to) || (match self.en_passant {
                    Some(e) => e == to,
                    None => false,
                }) {
                    if to >= 56 {
                        push_promotions(from, to, moves);
                    } else {
                        push_one(from, to, moves);
                    }
                }
            }
        } else {
            if from >= 8 && !crate::utils::get_bit(occ, from - 8) {
                if from - 8 < 8 {
                    push_promotions(from, from - 8, moves);
                } else {
                    push_one(from, from - 8, moves);
                }
                if 48 <= from && from < 56 && !crate::utils::get_bit(occ, from - 16) {
                    push_one(from, from - 16, moves);
                }
            }
            if from % 8 != 7 && from >= 7 {
                let to = from - 7;
                if crate::utils::get_bit(opp_all, to) || (match self.en_passant {
                    Some(e) => e == to,
                    None => false,
                }) {
                    if to < 8 {
                        push_promotions(from, to, moves);
                    } else {
                        push_one(from, to, moves);
                    }
                }
            }
            if from % 8 != 0 && from >= 9 {
                let to = from - 9;
                if crate::utils::get_bit(opp_all, to) || (match self.en_passant {
                    Some(e) => e == to,
                    None => false,
                }) {
                    if to < 8 {
                        push_promotions(from, to, moves);
                    } else {
                        push_one(from, to, moves);
                    }
                }
            }
        }
        proof {
            let fi = from as int;
            assert forall|x: Move| #[trigger] moves@.contains(x) <==> old(moves)@.contains(x) || (
            pseudo_legal(*self, x) && x.from == from) by {
                if x.from == from {
                    assert(fi == 8 * (fi / 8) + fi % 8) by (nonlinear_arith)
                        requires fi >= 0;
                    let ti = x.to as int;
                    assert(x.to < 64 ==> ti == 8 * (ti / 8) + ti % 8) by (nonlinear_arith)
                        requires ti >= 0;
                }
            }
        }
    }

    /// Generate the pawn moves of the side to move.
    fn gen_pawn_moves(&self, moves: &mut Vec<Move>)
        requires
            self.wf(),
            old(moves)@.no_duplicates(),
            forall|x: Move|
                #[trigger] old(moves)@.contains(x) ==> pseudo_legal(*self, x)
                    && self.piece_kind_at(self.turn, x.from as u64) != Some(PieceType::Pawn),
        ensures
            final(moves)@.no_duplicates(),
            forall|x: Move|
                #[trigger] final(moves)@.contains(x) <==> old(moves)@.contains(x) || (pseudo_legal(
                    *self,
                    x,
                ) && self.piece_kind_at(self.turn, x.from as u64) == Some(PieceType::Pawn)),
    {
        let c = self.turn;
        let ci = c.to_index();
        let pawns = self.pieces[ci][0];
        proof {
            assert(pawns == self.piece_mask(c, PieceType::Pawn));
        }
        let mut from: u8 = 0;
        while from < 64
            invariant
                from <= 64,
                self.wf(),
                c == self.turn,
                pawns == self.piece_mask(c, PieceType::Pawn),
                moves@.no_duplicates(),
                forall|x: Move|
                    #[trigger] old(moves)@.contains(x) ==> pseudo_legal(*self, x)
                        && self.piece_kind_at(c, x.from as u64) != Some(PieceType::Pawn),
                forall|x: Move|
                    #[trigger] moves@.contains(x) <==> old(moves)@.contains(x) || (pseudo_legal(
                        *self,
                        x,
                    ) && self.piece_kind_at(c, x.from as u64) == Some(PieceType::Pawn) && x.from
                        < from),
            decreases 64 - from,
        {
            if crate::utils::get_bit(pawns, from) {
                proof {
                    self.lemma_kind_at_of_bit(c, PieceType::Pawn, from as u64);
                    assert forall|x: Move| #[trigger] moves@.contains(x) implies x.from
                        != from by {
                        if x.from == from {
                            assert(self.piece_kind_at(c, from as u64) == Some(PieceType::Pawn));
                        }
                    }
                }
                self.gen_pawn_moves_from(from, moves);
            }
            from += 1;
        }
    }

    /// Every move of the side to move that obeys piece movement and
    /// occupancy rules, including castling, but disregarding whether
    /// the mover's own king is left in check.
    pub fn generate_pseudo_moves(&self) -> (moves: Vec<Move>)
        requires
            self.wf(),
        ensures
            moves@.no_duplicates(),
            forall|x: Move| #[trigger] moves@.contains(x) <==> pseudo_legal(*self, x),
    {
        let mut moves: Vec<Move> = Vec::new();
        self.gen_pawn_moves(&mut moves);
        self.gen_piece_moves(PieceType::Knight, &mut moves);
        self.gen_piece_moves(PieceType::Bishop, &mut moves);
        self.gen_piece_moves(PieceType::Rook, &mut moves);
        self.gen_piece_moves(PieceType::Queen, &mut moves);
        self.gen_king_moves(&mut moves);
        moves
    }
}


/// Check symmetry: for either color, being in check is exactly being
/// attacked by the opposing color on the square of one's own king.
pub proof fn lemma_check_is_king_square_attacked(b: Board, c: Color)
    ensures
        in_check(b, c) == square_attacked(b, king_square_of(b, c), c.spec_opponent()),
{
}

/// The file letter of a square's file index.
pub open spec fn file_char(f: int) -> char {
    if f == 0 { 'a' } else if f == 1 { 'b' } else if f == 2 { 'c' } else if f == 3 { 'd' }
    else if f == 4 { 'e' } else if f == 5 { 'f' } else if f == 6 { 'g' } else { 'h' }
}

/// The rank digit of a square's rank index.
pub open spec fn rank_char(r: int) -> char {
    if r == 0 { '1' } else if r == 1 { '2' } else if r == 2 { '3' } else if r == 3 { '4' }
    else if r == 4 { '5' } else if r == 5 { '6' } else if r == 6 { '7' } else { '8' }
}

/// A square's name: file letter then rank digit.
pub open spec fn square_chars(s: int) -> Seq<char> {
    seq![file_char(s % 8), rank_char(s / 8)]
}

/// The letter announcing the moving piece; pawns stay silent.
pub open spec fn piece_letter(p: PieceType) -> Seq<char> {
    match p {
        PieceType::Pawn => Seq::empty(),
        PieceType::Knight => seq!['N'],
        PieceType::Bishop => seq!['B'],
        PieceType::Rook => seq!['R'],
        PieceType::Queen => seq!['Q'],
        PieceType::King => seq!['K'],
    }
}

/// The lowercase suffix of a promotion choice.
pub open spec fn promo_letter(o: Option<PieceType>) -> Seq<char> {
    match o {
        Some(PieceType::Queen) => seq!['q'],
        Some(PieceType::Rook) => seq!['r'],
        Some(PieceType::Bishop) => seq!['b'],
        Some(PieceType::Knight) => seq!['n'],
        _ => Seq::empty(),
    }
}

/// The long algebraic rendering of a move on its board: piece letter,
/// origin, `x` when a piece stands on the destination, destination,
/// promotion suffix; empty when no piece stands on the origin square.
pub open spec fn long_algebraic(b: Board, m: Move) -> Seq<char> {
    match b.piece_kind_at(b.turn, m.from as u64) {
        None => Seq::empty(),
        Some(p) => piece_letter(p) + square_chars(m.from as int) + (
        if b.piece_kind_at(b.turn.spec_opponent(), m.to as u64) is Some {
            seq!['x']
        } else {
            Seq::empty()
        }) + square_chars(m.to as int) + promo_letter(m.promotion),
    }
}

/// The file letter of a square's file index.
fn file_str(f: u8) -> (r: &'static str)
    requires
        f < 8,
    ensures
        r@ == seq![file_char(f as int)],
{
    if f == 0 {
        proof { reveal_strlit("a"); assert("a"@ =~= seq![file_char(0)]); }
        "a"
    } else if f == 1 {
        proof { reveal_strlit("b"); assert("b"@ =~= seq![file_char(1)]); }
        "b"
    } else if f == 2 {
        proof { reveal_strlit("c"); assert("c"@ =~= seq![file_char(2)]); }
        "c"
    } else if f == 3 {
        proof { reveal_strlit("d"); assert("d"@ =~= seq![file_char(3)]); }
        "d"
    } else if f == 4 {
        proof { reveal_strlit("e"); assert("e"@ =~= seq![file_char(4)]); }
        "e"
    } else if f == 5 {
        proof { reveal_strlit("f"); assert("f"@ =~= seq![file_char(5)]); }
        "f"
    } else if f == 6 {
        proof { reveal_strlit("g"); assert("g"@ =~= seq![file_char(6)]); }
        "g"
    } else {
        proof { reveal_strlit("h"); assert("h"@ =~= seq![file_char(7)]); }
        "h"
    }
}

/// The rank digit of a square's rank index.
fn rank_str(k: u8) -> (r: &'static str)
    requires
        k < 8,
    ensures
        r@ == seq![rank_char(k as int)],
{
    if k == 0 {
        proof { reveal_strlit("1"); assert("1"@ =~= seq![rank_char(0)]); }
        "1"
    } else if k == 1 {
        proof { reveal_strlit("2"); assert("2"@ =~= seq![rank_char(1)]); }
        "2"
    } else if k == 2 {
        proof { reveal_strlit("3"); assert("3"@ =~= seq![rank_char(2)]); }
        "3"
    } else if k == 3 {
        proof { reveal_strlit("4"); assert("4"@ =~= seq![rank_char(3)]); }
        "4"
    } else if k == 4 {
        proof { reveal_strlit("5"); assert("5"@ =~= seq![rank_char(4)]); }
        "5"
    } else if k == 5 {
        proof { reveal_strlit("6"); assert("6"@ =~= seq![rank_char(5)]); }
        "6"
    } else if k == 6 {
        proof { reveal_strlit("7"); assert("7"@ =~= seq![rank_char(6)]); }
        "7"
    } else {
        proof { reveal_strlit("8"); assert("8"@ =~= seq![rank_char(7)]); }
        "8"
    }
}

/// The name of a square, file letter then rank digit.
fn square_to_algebraic(sq: Square) -> (r: String)
    requires
        sq < 64,
    ensures
        r@ == square_chars(sq as int),
{
    let mut s = String::new();
    s.append(file_str(sq % 8));
    s.append(rank_str(sq / 8));
    proof {
        assert(s@ =~= square_chars(sq as int));
    }
    s
}

impl Move {
    /// Render the move in long algebraic notation against the board it
    /// was generated from; empty when no piece of the side to move
    /// stands on the origin square.
    #[verifier::rlimit(100)]
    pub fn to_long_algebraic(&self, board: &Board) -> (r: String)
        requires
            self.from < 64,
            self.to < 64,
        ensures
            r@ == long_algebraic(*board, *self),
    {
        let mp = self.moving_piece(board);
        if mp.is_none() {
            let r = String::new();
            return r;
        }
        let piece_char: &'static str = match mp.unwrap() {
            PieceType::Pawn => {
                proof { reveal_strlit(""); }
                ""
            },
            PieceType::Knight => {
                proof { reveal_strlit("N"); }
                "N"
            },
            PieceType::Bishop => {
                proof { reveal_strlit("B"); }
                "B"
            },
            PieceType::Rook => {
                proof { reveal_strlit("R"); }
                "R"
            },
            PieceType::Queen => {
                proof { reveal_strlit("Q"); }
                "Q"
            },
            PieceType::King => {
                proof { reveal_strlit("K"); }
                "K"
            },
        };
        proof {
            assert(piece_char@ =~= piece_letter(mp.unwrap()));
        }
        let capture: &'static str = if self.captured_piece(board).is_some() {
            proof { reveal_strlit("x"); }
            "x"
        } else {
            proof { reveal_strlit(""); }
            ""
        };
        let promo_str: &'static str = match self.promotion {
            Some(PieceType::Queen) => {
                proof { reveal_strlit("q"); }
                "q"
            },
            Some(PieceType::Rook) => {
                proof { reveal_strlit("r"); }
                "r"
            },
            Some(PieceType::Bishop) => {
                proof { reveal_strlit("b"); }
                "b"
            },
            Some(PieceType::Knight) => {
                proof { reveal_strlit("n"); }
                "n"
            },
            _ => {
                proof { reveal_strlit(""); }
                ""
            },
        };
        proof {
            assert(promo_str@ =~= promo_letter(self.promotion));
        }
        let mut s = String::new();
        s.append(piece_char);
        s.append(file_str(self.from % 8));
        s.append(rank_str(self.from / 8));
        s.append(capture);
        s.append(file_str(self.to % 8));
        s.append(rank_str(self.to / 8));
        s.append(promo_str);
        proof {
            assert(s@ =~= long_algebraic(*board, *self));
        }
        s
    }
}

} // verus!
