use my_own_chess_engine::attack::king_attacks;
use my_own_chess_engine::attack::knight_attacks;
use my_own_chess_engine::constants::Color;
use my_own_chess_engine::constants::PieceType;
use my_own_chess_engine::initialize_board::Board;
use my_own_chess_engine::pawn_directions::shift;
use my_own_chess_engine::pawn_directions::shift_north_east;
use my_own_chess_engine::pawn_directions::shift_north_west;
use my_own_chess_engine::pawn_directions::shift_south_east;
use my_own_chess_engine::pawn_directions::shift_south_west;
use my_own_chess_engine::utils::clear_bit;
use my_own_chess_engine::utils::get_bit;
use my_own_chess_engine::utils::lsb;
use my_own_chess_engine::utils::msb;
use my_own_chess_engine::utils::pop_lsb;
use my_own_chess_engine::utils::set_bit;

#[test]
fn start_position_fields() {
    let b = Board::new();
    assert_eq!(b.pieces[0][0], 0xFF00);
    assert_eq!(b.pieces[0][1], 0x42);
    assert_eq!(b.pieces[0][2], 0x24);
    assert_eq!(b.pieces[0][3], 0x81);
    assert_eq!(b.pieces[0][4], 0x08);
    assert_eq!(b.pieces[0][5], 0x10);
    assert_eq!(b.pieces[1][0], 0xFF000000000000);
    assert_eq!(b.pieces[1][1], 0x4200000000000000);
    assert_eq!(b.pieces[1][2], 0x2400000000000000);
    assert_eq!(b.pieces[1][3], 0x8100000000000000);
    assert_eq!(b.pieces[1][4], 0x0800000000000000);
    assert_eq!(b.pieces[1][5], 0x1000000000000000);
    assert_eq!(b.occupied, 0xFFFF00000000FFFF);
    assert_eq!(b.turn, Color::White);
    assert_eq!(b.castling_rights, 0b1111);
    assert_eq!(b.en_passant, None);
    assert_eq!(b.half_moves, 0);
    assert_eq!(b.full_moves, 1);
    assert_eq!(b.all_pieces(Color::White), 0xFFFF);
    assert_eq!(b.all_pieces(Color::Black), 0xFFFF000000000000);
}

#[test]
fn bit_utilities() {
    let mut bb: u64 = 0;
    set_bit(&mut bb, 0);
    assert!(get_bit(bb, 0));
    set_bit(&mut bb, 63);
    assert!(get_bit(bb, 63));
    clear_bit(&mut bb, 0);
    assert!(!get_bit(bb, 0));
    assert_eq!(lsb(bb), 63);
    assert_eq!(msb(bb), 63);

    let mut rank2: u64 = 0xFF00;
    let mut seen = Vec::new();
    while let Some(sq) = pop_lsb(&mut rank2) {
        seen.push(sq);
    }
    assert_eq!(seen, vec![8, 9, 10, 11, 12, 13, 14, 15]);
    assert_eq!(rank2, 0);
    let mut empty: u64 = 0;
    assert_eq!(pop_lsb(&mut empty), None);
}

#[test]
fn shifts_drop_wrapping_squares() {
    // A plain shift moves every square one rank up.
    assert_eq!(shift(0xFF00, 8), 0xFF0000);
    assert_eq!(shift(0xFF0000, -8), 0xFF00);
    // A pawn on b3 attacks a4 to the north-west; one on a4 has no
    // north-west neighbour, so its wrapped image is masked off.
    assert_eq!(shift_north_west(1 << 17), 1 << 24);
    assert_eq!(shift_north_west(1 << 24), 0);
    // g2 to h3 north-east; h2 wraps and is dropped.
    assert_eq!(shift_north_east(1 << 14), 1 << 23);
    assert_eq!(shift_north_east(1 << 15), 0);
    // b3 to a2 south-west; a3 wraps and is dropped.
    assert_eq!(shift_south_west(1 << 17), 1 << 8);
    assert_eq!(shift_south_west(1 << 16), 0);
    // g3 to h2 south-east; h3 wraps and is dropped.
    assert_eq!(shift_south_east(1 << 22), 1 << 15);
    assert_eq!(shift_south_east(1 << 23), 0);
}

#[test]
fn attack_tables_at_corners_and_center() {
    // A knight on a1 reaches only b3 and c2.
    assert_eq!(knight_attacks(0), (1 << 17) | (1 << 10));
    // A knight on d4 reaches all eight jump targets.
    assert_eq!(knight_attacks(27).count_ones(), 8);
    // A king on a1 reaches a2, b1 and b2.
    assert_eq!(king_attacks(0), (1 << 8) | (1 << 1) | (1 << 9));
    // A king on e4 reaches all eight neighbours.
    assert_eq!(king_attacks(28).count_ones(), 8);
}

#[test]
fn piece_type_index_round_trip() {
    let kinds = [
        PieceType::Pawn,
        PieceType::Knight,
        PieceType::Bishop,
        PieceType::Rook,
        PieceType::Queen,
        PieceType::King,
    ];
    for (i, k) in kinds.iter().enumerate() {
        assert_eq!(k.to_usize(), i);
        assert_eq!(PieceType::from_usize(i), Some(*k));
    }
    assert_eq!(PieceType::from_usize(6), None);
    assert_eq!(Color::White.opponent(), Color::Black);
    assert_eq!(Color::Black.opponent(), Color::White);
}
