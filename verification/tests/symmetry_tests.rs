use nuttchess::board::BoardState;
use nuttchess::tables::Tables;
use nuttchess::tt::ZobKeys;

#[test]
fn leaper_tables_are_symmetric() {
    let tables = Tables::new();
    for s in 0..64usize {
        for q in 0..64usize {
            let q_bit: u64 = 1 << q;
            let s_bit: u64 = 1 << s;
            assert_eq!(
                tables.knight_attacks[s] & q_bit != 0,
                tables.knight_attacks[q] & s_bit != 0
            );
            assert_eq!(
                tables.king_attacks[s] & q_bit != 0,
                tables.king_attacks[q] & s_bit != 0
            );
            assert_eq!(
                tables.white_pawn_attacks[s] & q_bit != 0,
                tables.black_pawn_attacks[q] & s_bit != 0
            );
        }
    }
    // A knight on b1 reaches c3, and one on c3 reaches b1.
    assert!(tables.knight_attacks[Tables::B1 as usize] & (1 << Tables::C3) != 0);
    assert!(tables.knight_attacks[Tables::C3 as usize] & (1 << Tables::B1) != 0);
}

#[test]
fn hash_changes_by_the_side_key() {
    let keys = ZobKeys::new();
    let board = BoardState::state_from_string_fen(
        "r3k2r/p1ppqpb1/bn2pnp1/3PN3/1p2P3/2N2Q1p/PPPBBPPP/R3K2R w KQkq - 0 1".to_string(),
    );
    let mut flipped = board.clone();
    flipped.white_to_move = !flipped.white_to_move;
    assert_eq!(
        keys.generate_hash(&flipped),
        keys.generate_hash(&board) ^ keys.side_key
    );
    assert_ne!(keys.generate_hash(&flipped), keys.generate_hash(&board));
}

#[test]
fn hash_changes_by_the_en_passant_key() {
    let keys = ZobKeys::new();
    let board = BoardState::state_from_string_fen("4k3/8/8/3pP3/8/8/8/4K3 w - d6 0 1".to_string());
    assert_eq!(board.en_passant_target, 1 << Tables::D6);
    let mut cleared = board.clone();
    cleared.en_passant_target = 0;
    assert_eq!(
        keys.generate_hash(&board),
        keys.generate_hash(&cleared) ^ keys.enpassant_keys[Tables::D6 as usize]
    );
}

#[test]
fn hash_changes_by_the_castling_keys() {
    let keys = ZobKeys::new();
    let board = BoardState::state_from_string_fen(
        "r3k2r/p1ppqpb1/bn2pnp1/3PN3/1p2P3/2N2Q1p/PPPBBPPP/R3K2R w KQkq - 0 1".to_string(),
    );
    let hash = keys.generate_hash(&board);
    let mut b = board.clone();
    b.white_kingside_castle_rights = false;
    assert_eq!(hash, keys.generate_hash(&b) ^ keys.castle_keys[0]);
    let mut b = board.clone();
    b.white_queenside_castle_rights = false;
    assert_eq!(hash, keys.generate_hash(&b) ^ keys.castle_keys[1]);
    let mut b = board.clone();
    b.black_kingside_castle_rights = false;
    assert_eq!(hash, keys.generate_hash(&b) ^ keys.castle_keys[2]);
    let mut b = board.clone();
    b.black_queenside_castle_rights = false;
    assert_eq!(hash, keys.generate_hash(&b) ^ keys.castle_keys[3]);
}

#[test]
fn built_tables_pass_the_exactness_check() {
    // By the check's contract, passing it means every rook and bishop
    // lookup gives the real attack set, for every occupancy.
    let tables = Tables::new();
    assert!(tables.lookups_exact());
}

#[test]
fn a_broken_magic_fails_the_exactness_check() {
    let mut tables = Tables::new();
    tables.rook_magics[Tables::A1 as usize] = 1;
    assert!(!tables.lookups_exact());
}

#[test]
fn slider_masks_lie_within_empty_board_attacks() {
    let tables = Tables::new();
    for s in 0..64usize {
        let rook_reach = Tables::calculate_relevent_rook_occupancy(s, 0);
        let bishop_reach = Tables::calculate_relevent_bishop_occupancy(s, 0);
        assert_eq!(tables.rook_occupancy[s] & rook_reach, tables.rook_occupancy[s]);
        assert_eq!(tables.bishop_occupancy[s] & bishop_reach, tables.bishop_occupancy[s]);
        // The mask leaves out the last square of each ray.
        assert_ne!(tables.rook_occupancy[s], rook_reach);
    }
}

#[test]
fn bishop_masks_hold_at_most_nine_squares() {
    let tables = Tables::new();
    let mut most = 0;
    for s in 0..64usize {
        assert!(tables.relevent_bishop_count[s] <= 9);
        assert_eq!(
            tables.relevent_bishop_count[s],
            tables.bishop_occupancy[s].count_ones() as u64
        );
        if tables.relevent_bishop_count[s] > most {
            most = tables.relevent_bishop_count[s];
        }
    }
    assert_eq!(most, 9);
    assert_eq!(tables.relevent_bishop_count[Tables::D4 as usize], 9);
}
