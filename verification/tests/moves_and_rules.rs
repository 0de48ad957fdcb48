use my_own_chess_engine::constants::Color;
use my_own_chess_engine::constants::PieceType;
use my_own_chess_engine::initialize_board::Board;
use my_own_chess_engine::pseudo_legal_move_generation::Move;

fn empty_board() -> Board {
    Board {
        pieces: [[0; 6]; 2],
        occupied: 0,
        turn: Color::White,
        castling_rights: 0,
        en_passant: None,
        half_moves: 0,
        full_moves: 1,
        hash: 0,
    }
}

fn recompute_occupied(b: &mut Board) {
    b.occupied = b.all_pieces(Color::White) | b.all_pieces(Color::Black);
}

fn find_move(moves: &[Move], from: u8, to: u8) -> Option<Move> {
    moves.iter().copied().find(|m| m.from == from && m.to == to)
}

fn perft(b: &Board, depth: u32) -> u64 {
    if depth == 0 {
        return 1;
    }
    let moves = b.generate_legal_moves();
    if depth == 1 {
        return moves.len() as u64;
    }
    let mut nodes = 0;
    for m in &moves {
        let mut child = *b;
        child.apply_move(m);
        nodes += perft(&child, depth - 1);
    }
    nodes
}

#[test]
fn perft_depth_1_and_2() {
    let b = Board::new();
    assert_eq!(perft(&b, 1), 20);
    assert_eq!(perft(&b, 2), 400);
}

#[test]
fn perft_depth_3() {
    let b = Board::new();
    assert_eq!(perft(&b, 3), 8902);
}

#[test]
fn perft_depth_4() {
    let b = Board::new();
    assert_eq!(perft(&b, 4), 197281);
}

#[test]
fn promotion_yields_four_moves() {
    // White king d8, white pawn h7, black king a1, White to move.
    let mut b = empty_board();
    b.pieces[0][5] = 1 << 59;
    b.pieces[0][0] = 1 << 55;
    b.pieces[1][5] = 1 << 0;
    recompute_occupied(&mut b);
    let moves = b.generate_legal_moves();
    let promos: Vec<Move> = moves.iter().copied().filter(|m| m.from == 55).collect();
    assert_eq!(promos.len(), 4);
    let mut kinds = Vec::new();
    for m in &promos {
        assert_eq!(m.from, 55);
        assert_eq!(m.to, 63);
        kinds.push(m.promotion.unwrap());
    }
    for k in [PieceType::Queen, PieceType::Rook, PieceType::Bishop, PieceType::Knight] {
        assert!(kinds.contains(&k));
    }
    // Rendering carries the lowercase promotion letter.
    let q = promos.iter().find(|m| m.promotion == Some(PieceType::Queen)).unwrap();
    assert_eq!(q.to_long_algebraic(&b), "h7h8q");
}

#[test]
fn en_passant_capture() {
    // Black pawn d5, white pawn e5, white king d1, black king h8,
    // target square d6.
    let mut b = empty_board();
    b.pieces[0][0] = 1 << 36;
    b.pieces[0][5] = 1 << 3;
    b.pieces[1][0] = 1 << 35;
    b.pieces[1][5] = 1 << 63;
    b.en_passant = Some(43);
    recompute_occupied(&mut b);
    let moves = b.generate_legal_moves();
    let ep = find_move(&moves, 36, 43).expect("en passant capture e5 to d6 must be legal");
    let mut after = b;
    after.apply_move(&ep);
    // The black pawn disappears from d5, not from d6.
    assert_eq!(after.pieces[1][0], 0);
    assert!(after.pieces[0][0] & (1 << 43) != 0);
    assert!(after.occupied & (1 << 35) == 0);
    assert_eq!(after.en_passant, None);
    assert_eq!(after.half_moves, 0);
    // The destination square held no piece, so no capture marker.
    assert_eq!(ep.to_long_algebraic(&b), "e5d6");
}

#[test]
fn halfmove_clock_resets_on_pawn_moves_and_captures() {
    let start = Board::new();
    // A pawn push resets the clock.
    let mut b = start;
    let moves = b.generate_legal_moves();
    let e4 = find_move(&moves, 12, 28).unwrap();
    b.apply_move(&e4);
    assert_eq!(b.half_moves, 0);
    // A knight move increments it.
    let moves = b.generate_legal_moves();
    let nf6 = find_move(&moves, 62, 45).unwrap();
    b.apply_move(&nf6);
    assert_eq!(b.half_moves, 1);
    let moves = b.generate_legal_moves();
    let nc3 = find_move(&moves, 1, 18).unwrap();
    b.apply_move(&nc3);
    assert_eq!(b.half_moves, 2);
    // A capture resets it again: knight f6 takes the e4 pawn.
    let moves = b.generate_legal_moves();
    let nxe4 = find_move(&moves, 45, 28).unwrap();
    b.apply_move(&nxe4);
    assert_eq!(b.half_moves, 0);
    assert_eq!(nxe4.to_long_algebraic(&b), "");
}

#[test]
fn fullmove_number_and_turn() {
    let mut b = Board::new();
    assert_eq!(b.full_moves, 1);
    let e4 = find_move(&b.generate_legal_moves(), 12, 28).unwrap();
    b.apply_move(&e4);
    assert_eq!(b.turn, Color::Black);
    assert_eq!(b.full_moves, 1);
    let e5 = find_move(&b.generate_legal_moves(), 52, 36).unwrap();
    b.apply_move(&e5);
    assert_eq!(b.turn, Color::White);
    assert_eq!(b.full_moves, 2);
}

#[test]
fn castling_rights_never_return() {
    let mut b = Board::new();
    let mut prev = b.castling_rights;
    // March the white king out and back; rights fall and stay fallen.
    for (from, to) in [(12u8, 28u8), (52, 36), (4, 12), (62, 45), (12, 4)] {
        let m = find_move(&b.generate_legal_moves(), from, to).unwrap();
        b.apply_move(&m);
        assert_eq!(b.castling_rights & !prev, 0, "a cleared right was set again");
        prev = b.castling_rights;
    }
    // The white king moved, so both white rights are gone for good.
    assert_eq!(b.castling_rights & 0b0011, 0);
    assert_eq!(b.castling_rights & 0b1100, 0b1100);
}

#[test]
fn invariants_hold_after_every_legal_move() {
    let b = Board::new();
    for m in &b.generate_legal_moves() {
        let mut child = b;
        child.apply_move(m);
        // Occupancy is the union of the twelve bitboards.
        let union = child.all_pieces(Color::White) | child.all_pieces(Color::Black);
        assert_eq!(child.occupied, union);
        // The twelve bitboards are pairwise disjoint.
        let mut flat = Vec::new();
        for ci in 0..2 {
            for pi in 0..6 {
                flat.push(child.pieces[ci][pi]);
            }
        }
        for i in 0..12 {
            for j in 0..12 {
                if i != j {
                    assert_eq!(flat[i] & flat[j], 0);
                }
            }
        }
        // One king per side.
        assert_eq!(child.pieces[0][5].count_ones(), 1);
        assert_eq!(child.pieces[1][5].count_ones(), 1);
        // En passant only after the double pushes.
        let double = m.to == m.from + 16 && child.pieces[0][0] & (1 << m.to) != 0;
        assert_eq!(child.en_passant.is_some(), double);
    }
}

#[test]
fn check_symmetry_matches_attack_query() {
    let start = Board::new();
    for color in [Color::White, Color::Black] {
        let king_sq = start.king_square(color);
        assert_eq!(
            start.is_in_check(color),
            start.is_square_attacked(king_sq, color.opponent())
        );
        assert!(!start.is_in_check(color));
    }
    // A rook staring down the king's file gives check.
    let mut b = empty_board();
    b.pieces[0][5] = 1 << 4;
    b.pieces[1][5] = 1 << 60;
    b.pieces[1][3] = 1 << 44;
    recompute_occupied(&mut b);
    for color in [Color::White, Color::Black] {
        let king_sq = b.king_square(color);
        assert_eq!(b.is_in_check(color), b.is_square_attacked(king_sq, color.opponent()));
    }
    assert!(b.is_in_check(Color::White));
    assert!(!b.is_in_check(Color::Black));
}

#[test]
fn long_algebraic_rendering() {
    let b = Board::new();
    let moves = b.generate_legal_moves();
    assert_eq!(find_move(&moves, 12, 28).unwrap().to_long_algebraic(&b), "e2e4");
    assert_eq!(find_move(&moves, 1, 18).unwrap().to_long_algebraic(&b), "Nb1c3");
    // A rook capture carries the marker.
    let mut c = empty_board();
    c.pieces[0][3] = 1 << 0;
    c.pieces[0][5] = 1 << 4;
    c.pieces[1][0] = 1 << 48;
    c.pieces[1][5] = 1 << 60;
    recompute_occupied(&mut c);
    let rook_takes = find_move(&c.generate_legal_moves(), 0, 48).unwrap();
    assert_eq!(rook_takes.to_long_algebraic(&c), "Ra1xa7");
    // Piece queries behind the rendering.
    assert_eq!(rook_takes.moving_piece(&c), Some(PieceType::Rook));
    assert_eq!(rook_takes.captured_piece(&c), Some(PieceType::Pawn));
}

#[test]
fn castling_moves_are_generated_and_applied() {
    // White king e1 and rooks a1 h1 with both rights, path clear.
    let mut b = empty_board();
    b.pieces[0][5] = 1 << 4;
    b.pieces[0][3] = (1 << 0) | (1 << 7);
    b.pieces[1][5] = 1 << 60;
    b.castling_rights = 0b0011;
    recompute_occupied(&mut b);
    let moves = b.generate_legal_moves();
    let kingside = find_move(&moves, 4, 6).expect("kingside castle");
    let queenside = find_move(&moves, 4, 2).expect("queenside castle");
    let mut after = b;
    after.apply_move(&kingside);
    // King to g1, rook from h1 to f1.
    assert_eq!(after.pieces[0][5], 1 << 6);
    assert_eq!(after.pieces[0][3], (1 << 0) | (1 << 5));
    assert_eq!(after.castling_rights & 0b0011, 0);
    let mut after_q = b;
    after_q.apply_move(&queenside);
    // King to c1, rook from a1 to d1.
    assert_eq!(after_q.pieces[0][5], 1 << 2);
    assert_eq!(after_q.pieces[0][3], (1 << 3) | (1 << 7));
    assert_eq!(after_q.castling_rights & 0b0011, 0);
}
