use nuttchess::board::{BoardState, MoveRep, PieceType, Promotion};
use nuttchess::eval::{delta_ps_score, eval, material_value, piece_square_score};
use nuttchess::generate::generate;
use nuttchess::notation::bitboard_lines;
use nuttchess::search::{id_search, negamax, perft_divide, time_exceeded, time_to_spend, timer_check};
use nuttchess::tables::{BISHOP_MAGICS, ROOK_MAGICS};
use nuttchess::tables::Tables;
use nuttchess::tt::ZobKeys;
use rand_core::{Rng, SeedableRng};
use rand_xorshift::XorShiftRng;
use std::time::Instant;

const KIWIPETE: &str = "r3k2r/p1ppqpb1/bn2pnp1/3PN3/1p2P3/2N2Q1p/PPPBBPPP/R3K2R w KQkq - 0 1";

fn fen_tokens(fen: &str) -> Vec<String> {
    fen.split(' ').map(|t| t.to_string()).collect()
}

#[test]
fn unmake_restores_every_move_of_kiwipete() {
    let tables = Tables::new();
    let mut board = BoardState::state_from_string_fen(KIWIPETE.to_string());
    let before = board.clone();
    let moves = generate(&board, &tables);
    assert_eq!(moves.len(), 48);
    for mv in moves.iter() {
        board.make(mv);
        assert_ne!(board, before);
        board.unmake(mv);
        assert_eq!(board, before);
    }
}

#[test]
fn unmake_restores_castling_rights_after_castling() {
    let tables = Tables::new();
    let mut board = BoardState::state_from_string_fen(KIWIPETE.to_string());
    let before = board.clone();
    let castles: Vec<MoveRep> = generate(&board, &tables)
        .into_iter()
        .filter(|m| m.promotion == Some(Promotion::Castle))
        .collect();
    assert_eq!(castles.len(), 2);
    for mv in castles.iter() {
        board.make(mv);
        assert!(!board.white_kingside_castle_rights);
        assert!(!board.white_queenside_castle_rights);
        assert!(board.black_kingside_castle_rights);
        board.unmake(mv);
        assert_eq!(board, before);
    }
}

#[test]
fn hash_is_restored_after_make_and_unmake() {
    let tables = Tables::new();
    let zob_keys = ZobKeys::new();
    let mut board = BoardState::state_from_string_fen(KIWIPETE.to_string());
    let hash = zob_keys.generate_hash(&board);
    for mv in generate(&board, &tables).iter() {
        board.make(mv);
        assert_ne!(zob_keys.generate_hash(&board), hash);
        board.unmake(mv);
        assert_eq!(zob_keys.generate_hash(&board), hash);
    }
}

#[test]
fn move_names_round_trip() {
    let mut board = BoardState::state_from_string_fen("4k3/4P3/8/8/8/8/8/4K3 w - - 0 1".to_string());
    assert!(board.can_apply_string_move("e7e8q"));
    board.apply_string_move("e7e8q".to_string());
    assert_eq!(board.white_pawns, 0);
    assert_eq!(board.white_queens, 1u64 << 59);
    let promotion = MoveRep::new(1u64 << 51, 1u64 << 59, Some(Promotion::Queen), PieceType::Pawn, None);
    assert_eq!(promotion.to_string().unwrap(), "e7e8q");
    let push = MoveRep::new(1u64 << 11, 1u64 << 27, None, PieceType::Pawn, None);
    assert_eq!(push.to_string().unwrap(), "e2e4");
}

#[test]
fn square_names() {
    assert_eq!(MoveRep::mask_to_string(1).unwrap(), "h1");
    assert_eq!(MoveRep::mask_to_string(1u64 << 63).unwrap(), "a8");
    assert_eq!(MoveRep::mask_to_string(1u64 << 27).unwrap(), "e4");
    // the highest set bit names the square
    assert_eq!(MoveRep::mask_to_string((1u64 << 27) | 1).unwrap(), "e4");
}

#[test]
fn string_moves_that_cannot_be_applied() {
    let board = BoardState::starting_state();
    assert!(board.can_apply_string_move("e2e4"));
    assert!(!board.can_apply_string_move("e3e4"));
    assert!(!board.can_apply_string_move("e2"));
    assert!(!board.can_apply_string_move("z2e4"));
    assert!(!board.can_apply_string_move("e9e4"));
}

fn fen_error(fen: &str) -> String {
    match BoardState::state_from_fen(&fen_tokens(fen)) {
        Err(e) => e,
        Ok(_) => panic!("expected an error for {fen}"),
    }
}

#[test]
fn fen_errors() {
    let few = "String does not have enough tokens to be a valid fen string";
    assert_eq!(fen_error("8/8/8/8/8/8/8/8 w - -"), few);
    assert_eq!(fen_error("8/8/8/8/8/8/8/8"), few);
    assert_eq!(fen_error("8/8/8/8/8/8/8/7x w - - 0 1"), "Unexpected character found in x");
    // the placement is read before the number of fields is known
    assert_eq!(fen_error("8/8/8/8/8/8/8/7x"), "Unexpected character found in x");
    assert_eq!(
        fen_error("8/8/8/8/8/8/8 w - - 0 1"),
        "Incorect number of positions found (shift_value is 128)"
    );
    assert_eq!(fen_error("8/8/8/8/8/8/8/8 x - - 0 1"), "Invalid side to move \"x\"");
    assert_eq!(
        fen_error("8/8/8/8/8/8/8/8 w KX - 0 1"),
        "Unknown character \"X\" found in castle rights field"
    );
    assert_eq!(
        fen_error("8/8/8/8/8/8/8/8 w - e 0 1"),
        "En passant target does not have the expected number of characters"
    );
    assert_eq!(fen_error("8/8/8/8/8/8/8/8 w - i3 0 1"), "Unrecognized value \"i\" found in file");
    assert_eq!(fen_error("8/8/8/8/8/8/8/8 w - ex 0 1"), "Unrecognized value \"x\" found in rank");
    assert_eq!(fen_error("8/8/8/8/8/8/8/8 w - - 256 1"), "Error parsing the number of halfmoves");
    assert_eq!(fen_error("8/8/8/8/8/8/8/8 w - - 0 65536"), "Error parsing the number of fullmoves");
    assert_eq!(fen_error("8/8/8/8/8/8/8/8 w - - 0 x"), "Error parsing the number of fullmoves");
    match BoardState::state_from_fen(&[]) {
        Err(e) => assert_eq!(e, "No fenstring placement data found"),
        Ok(_) => panic!("expected an error"),
    }
    // an optional plus sign is read before the digits
    assert!(BoardState::state_from_fen(&fen_tokens("8/8/8/8/8/8/8/8 w - - +3 +7")).is_ok());
}

#[test]
fn fen_fields() {
    let board = BoardState::state_from_fen(&fen_tokens("4k3/8/8/3pP3/8/8/8/4K3 w Kq d6 255 65535")).unwrap();
    assert!(board.white_to_move);
    assert!(board.white_kingside_castle_rights);
    assert!(!board.white_queenside_castle_rights);
    assert!(!board.black_kingside_castle_rights);
    assert!(board.black_queenside_castle_rights);
    assert_eq!(board.en_passant_target, 1u64 << 44);
    assert_eq!(board.reversable_move_counter, 255);
    assert_eq!(board.full_move_counter, 65535);
    assert_eq!(board.white_king, 1u64 << 3);
    assert_eq!(board.black_king, 1u64 << 59);
    assert_eq!(board.white_pawns, 1u64 << 35);
    assert_eq!(board.black_pawns, 1u64 << 36);
}

#[test]
fn get_index_values() {
    assert_eq!(Tables::get_index(0), -1);
    assert_eq!(Tables::get_index(1), 0);
    assert_eq!(Tables::get_index(8 | 64), 3);
    assert_eq!(Tables::get_index(1u64 << 63), 63);
}

#[test]
fn occupancy_from_number() {
    let occupancy = (1u64 << 1) | (1u64 << 4) | (1u64 << 9);
    assert_eq!(Tables::map_number_to_occupancy(0b101, occupancy), (1u64 << 1) | (1u64 << 9));
    assert_eq!(Tables::map_number_to_occupancy(0b111, occupancy), occupancy);
    assert_eq!(Tables::map_number_to_occupancy(0, occupancy), 0);
}

#[test]
fn magic_hash_takes_top_bits() {
    assert_eq!(Tables::apply_magic_hash(1, 4, 0xF000_0000_0000_0000), 0xF);
    assert_eq!(Tables::apply_magic_hash(2, 12, 1u64 << 62), 1u64 << 11);
    assert_eq!(Tables::apply_magic_hash(3, 64, 1u64 << 63), 1u64 << 63);
}

#[test]
fn relevant_occupancy_of_corner_rook() {
    // rook on h1 with no blockers: the whole of rank 1 and file h
    let expected = 0x0101_0101_0101_01FE;
    assert_eq!(Tables::calculate_relevent_rook_occupancy(0, 0), expected);
    // a blocker on h4 ends the ray up the h file there
    let blocked = 0x0000_0000_0101_01FE;
    assert_eq!(Tables::calculate_relevent_rook_occupancy(0, 1u64 << 24), blocked);
}

#[test]
fn magic_candidates_are_the_and_of_three_draws() {
    let mut rng = XorShiftRng::seed_from_u64(7);
    let mut twin = XorShiftRng::seed_from_u64(7);
    let magic = Tables::get_possible_magic(&mut rng);
    let expected = twin.next_u64() & twin.next_u64() & twin.next_u64();
    assert_eq!(magic, expected);
    assert_eq!(rng.next_u64(), twin.next_u64());
}

#[test]
fn starting_position_scores_even() {
    let tables = Tables::new();
    let board = BoardState::starting_state();
    assert_eq!(material_value(&board), 0);
    assert_eq!(piece_square_score(&board), 0);
    assert_eq!(eval(&board, &tables, 20, 20), 0);
}

#[test]
fn material_after_losing_a_queen() {
    let board = BoardState::state_from_string_fen(
        "rnb1kbnr/pppppppp/8/8/8/8/PPPPPPPP/RNBQKBNR w KQkq - 0 1".to_string(),
    );
    assert_eq!(material_value(&board), 900);
    let black = BoardState::state_from_string_fen(
        "rnb1kbnr/pppppppp/8/8/8/8/PPPPPPPP/RNBQKBNR b KQkq - 0 1".to_string(),
    );
    assert_eq!(material_value(&black), -material_value(&board));
}

#[test]
fn no_timer_never_runs_out() {
    assert!(!timer_check(None, None));
    assert!(!timer_check(None, Some(0)));
    assert!(!timer_check(Some(Instant::now()), None));
    assert!(!timer_check(Some(Instant::now()), Some(1_000_000)));
}

#[test]
fn negamax_finds_back_rank_mate() {
    let tables = Tables::new();
    let zob_keys = ZobKeys::new();
    let mut board = BoardState::state_from_string_fen("6k1/5ppp/8/8/8/8/8/R5K1 w - - 0 1".to_string());
    let before = board.clone();
    let mut counter = 0;
    let best = negamax(&mut board, &tables, &zob_keys, 2, None, None, &mut counter).unwrap();
    assert_eq!(best.to_string().unwrap(), "a1a8");
    assert_eq!(board, before);
}

#[test]
fn iterative_deepening_without_timer_matches_negamax() {
    let tables = Tables::new();
    let zob_keys = ZobKeys::new();
    let mut board = BoardState::state_from_string_fen("6k1/5ppp/8/8/8/8/8/R5K1 w - - 0 1".to_string());
    let before = board.clone();
    let mut nodes = 5;
    let best = id_search(&mut board, &tables, &zob_keys, 2, None, None, &mut nodes);
    let mut counter = 0;
    let direct = negamax(&mut board, &tables, &zob_keys, 2, None, None, &mut counter).unwrap();
    assert_eq!(best, direct);
    assert_eq!(nodes, 5);
    assert_eq!(board, before);
}

#[test]
fn table_magics_pass_the_magic_check() {
    let tables = Tables::new();
    for square in 0..64usize {
        let mask = tables.rook_occupancy[square];
        let count = tables.relevent_rook_count[square];
        let occupancies = Tables::magic_occupancies(mask, count);
        assert_eq!(occupancies.len(), 1usize << count);
        assert_eq!(occupancies[0], 0);
        assert_eq!(occupancies[occupancies.len() - 1], mask);
        assert!(Tables::magic_works(tables.rook_magics[square], mask, square, count, true, &occupancies));
        // the zero magic leaves the top byte of the product empty
        assert!(!Tables::magic_works(0, mask, square, count, true, &occupancies));

        let mask = tables.bishop_occupancy[square];
        let count = tables.relevent_bishop_count[square];
        let occupancies = Tables::magic_occupancies(mask, count);
        assert!(Tables::magic_works(tables.bishop_magics[square], mask, square, count, false, &occupancies));
    }
}

#[test]
fn magic_with_few_top_bits_is_refused() {
    let tables = Tables::new();
    let mask = tables.rook_occupancy[0];
    let count = tables.relevent_rook_count[0];
    let occupancies = Tables::magic_occupancies(mask, count);
    // the product with the mask has no bit in its top byte
    assert!(!Tables::magic_works(1, mask, 0, count, true, &occupancies));
}

#[test]
fn bitboard_rows() {
    let lines = bitboard_lines(0xff00 | (1u64 << 63) | 1);
    assert_eq!(lines.len(), 10);
    assert_eq!(lines[0], "8   1 0 0 0 0 0 0 0");
    assert_eq!(lines[1], "7   0 0 0 0 0 0 0 0");
    assert_eq!(lines[6], "2   1 1 1 1 1 1 1 1");
    assert_eq!(lines[7], "1   0 0 0 0 0 0 0 1");
    assert_eq!(lines[8], "");
    assert_eq!(lines[9], "    a b c d e f g h");
}

#[test]
fn perft_divide_of_the_starting_position() {
    let tables = Tables::new();
    let zob_keys = ZobKeys::new();
    let mut board = BoardState::starting_state();
    let before = board.clone();
    let (counts, total) = perft_divide(&mut board, &tables, &zob_keys, 3);
    assert_eq!(counts.len(), 20);
    assert_eq!(total, 8902);
    assert_eq!(counts.iter().map(|c| c.1).sum::<usize>(), 8902);
    for (mv, count) in counts.iter() {
        if mv.to_string().unwrap() == "e2e4" {
            assert_eq!(*count, 600);
        }
        if mv.to_string().unwrap() == "g1f3" {
            assert_eq!(*count, 440);
        }
    }
    assert_eq!(board, before);
    let (counts, total) = perft_divide(&mut board, &tables, &zob_keys, 1);
    assert_eq!(total, 20);
    assert!(counts.iter().all(|c| c.1 == 1));
}

#[test]
fn delta_score_agrees_with_board_scores_on_kiwipete() {
    let tables = Tables::new();
    let mut board = BoardState::state_from_string_fen(KIWIPETE.to_string());
    for mv in generate(&board, &tables).iter() {
        let before = piece_square_score(&board);
        let delta = delta_ps_score(&board, mv);
        board.make(mv);
        let after = piece_square_score(&board);
        board.unmake(mv);
        assert_eq!(delta, -(before + after));
    }
}

#[test]
fn delta_score_misses_the_pawn_taken_en_passant() {
    let tables = Tables::new();
    let mut board = BoardState::state_from_string_fen("4k3/8/8/3pP3/8/8/8/4K3 w - d6 0 1".to_string());
    let en_passant: Vec<MoveRep> = generate(&board, &tables)
        .into_iter()
        .filter(|m| m.to_string().unwrap() == "e5d6")
        .collect();
    assert_eq!(en_passant.len(), 1);
    let mv = en_passant[0];
    let before = piece_square_score(&board);
    let delta = delta_ps_score(&board, &mv);
    board.make(&mv);
    let after = piece_square_score(&board);
    assert_ne!(delta, -(before + after));
}

#[test]
fn lookups_match_ray_attacks_on_blocker_patterns() {
    let tables = Tables::new();
    for square in [0usize, 18, 36, 63] {
        let mask = tables.rook_occupancy[square];
        for pattern in Tables::magic_occupancies(mask, tables.relevent_rook_count[square]) {
            assert_eq!(
                tables.get_rook_attack(square, pattern),
                Tables::calculate_relevent_rook_occupancy(square, pattern)
            );
        }
        let mask = tables.bishop_occupancy[square];
        for pattern in Tables::magic_occupancies(mask, tables.relevent_bishop_count[square]) {
            assert_eq!(
                tables.get_bishop_attack(square, pattern),
                Tables::calculate_relevent_bishop_occupancy(square, pattern)
            );
        }
    }
}

#[test]
fn time_for_the_side_to_move() {
    assert_eq!(time_to_spend(true, 60_000, 30_000, 1_000, 0), 3_500);
    assert_eq!(time_to_spend(false, 60_000, 30_000, 1_000, 0), 1_500);
    assert_eq!(time_to_spend(true, u64::MAX, 0, u64::MAX, 0), (u64::MAX / 20 + u64::MAX / 2) as u128);
}

fn bitboards(board: &BoardState) -> [u64; 12] {
    [
        board.white_pawns,
        board.white_knights,
        board.white_bishops,
        board.white_rooks,
        board.white_queens,
        board.white_king,
        board.black_pawns,
        board.black_knights,
        board.black_bishops,
        board.black_rooks,
        board.black_queens,
        board.black_king,
    ]
}

fn pieces_apart(board: &BoardState) -> bool {
    let bbs = bitboards(board);
    (0..12).all(|i| (0..12).all(|j| i == j || bbs[i] & bbs[j] == 0))
}

#[test]
fn moves_keep_one_piece_per_square() {
    let tables = Tables::new();
    for fen in [KIWIPETE, "4k3/8/8/3pP3/8/8/8/4K3 w - d6 0 1", "r3k2r/Pppp1ppp/1b3nbN/nP6/BBP1P3/q4N2/Pp1P2PP/R2Q1RK1 w kq - 0 1"] {
        let mut board = BoardState::state_from_string_fen(fen.to_string());
        assert!(pieces_apart(&board));
        for mv in generate(&board, &tables).iter() {
            board.make(mv);
            assert!(pieces_apart(&board));
            board.unmake(mv);
        }
    }
}

#[test]
fn zobrist_keys_are_the_seeded_draws_in_order() {
    let keys = ZobKeys::new();
    let mut rng = XorShiftRng::seed_from_u64(0);
    for square in 0..64 {
        for piece in 0..12 {
            assert_eq!(keys.piece_keys[piece][square], rng.next_u64());
        }
    }
    for square in 0..64 {
        assert_eq!(keys.enpassant_keys[square], rng.next_u64());
    }
    for castle in 0..4 {
        assert_eq!(keys.castle_keys[castle], rng.next_u64());
    }
    assert_eq!(keys.side_key, rng.next_u64());
}

#[test]
fn quiet_rook_moves_are_reversible() {
    let rook = MoveRep::new(1u64 << 3, 1u64 << 0, None, PieceType::Rook, None);
    assert!(rook.is_reversible());
    let king = MoveRep::new(1u64 << 3, 1u64 << 0, None, PieceType::King, None);
    assert!(!king.is_reversible());
    let knight = MoveRep::new(1u64 << 6, 1u64 << 23, None, PieceType::Knight, None);
    assert!(knight.is_reversible());
}

#[test]
fn elapsed_time_against_the_allowance() {
    assert!(time_exceeded(11, 10));
    assert!(!time_exceeded(10, 10));
    assert!(!time_exceeded(0, u128::MAX));
}

#[test]
fn tables_use_the_fixed_magics() {
    let tables = Tables::new();
    assert_eq!(tables.rook_magics, ROOK_MAGICS);
    assert_eq!(tables.bishop_magics, BISHOP_MAGICS);
}

#[test]
fn magic_search_gives_the_first_passing_candidate() {
    let tables = Tables::new();
    for (square, rook) in [(0usize, true), (27, false)] {
        let (mask, count) = if rook {
            (tables.rook_occupancy[square], tables.relevent_rook_count[square])
        } else {
            (tables.bishop_occupancy[square], tables.relevent_bishop_count[square])
        };
        let found = Tables::generate_magic(mask, square, count, rook).unwrap();
        let occupancies = Tables::magic_occupancies(mask, count);
        let mut rng = XorShiftRng::seed_from_u64(0);
        let first = loop {
            let candidate = rng.next_u64() & rng.next_u64() & rng.next_u64();
            if Tables::magic_works(candidate, mask, square, count, rook, &occupancies) {
                break candidate;
            }
        };
        assert_eq!(found, first);
    }
}

#[test]
fn lookups_match_ray_attacks_for_any_occupancy() {
    let tables = Tables::new();
    let mut rng = XorShiftRng::seed_from_u64(11);
    for _ in 0..2000 {
        let occupancy = rng.next_u64() & rng.next_u64();
        for square in 0..64usize {
            assert_eq!(
                tables.get_rook_attack(square, occupancy),
                Tables::calculate_relevent_rook_occupancy(square, occupancy)
            );
            assert_eq!(
                tables.get_bishop_attack(square, occupancy),
                Tables::calculate_relevent_bishop_occupancy(square, occupancy)
            );
        }
    }
}
