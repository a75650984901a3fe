use nuttchess::attacks;
use nuttchess::board::{BoardState, MoveRep, PieceType, Promotion};
use nuttchess::eval::{delta_ps_score, eval, get_piece_value, material_value, piece_square_score};
use nuttchess::generate::{
    generate, generate_attacking_moves, generate_blocking_moves, generate_target_blocking,
    move_king_to_safety, pop_lsb,
};
use nuttchess::search::perft_search;
use nuttchess::tables::Tables;
use nuttchess::tt::ZobKeys;

#[test]
fn test_pop_lsb() {
    let mut bb = 3;
    let least_sig = pop_lsb(&mut bb);
    assert_eq!(least_sig, 0);
    assert_eq!(bb, 2);
}

#[test]
fn test_gen_attacking_moves_1() {
    let board = BoardState::state_from_string_fen(
        "rnbqkbnr/pppppppp/1P6/8/5B2/3P4/P1P1PPPP/RN1QKBNR w KQkq - 0 1".to_string(),
    );
    let tables = Tables::new();
    let target = 1 << Tables::C7;

    let expected_move_1 = MoveRep {
        starting_square: 1 << Tables::F4,
        ending_square: 1 << Tables::C7,
        promotion: None,
        moved_type: PieceType::Bishop,
        attacked_type: Some(PieceType::Pawn),
    };

    let expected_move_2 = MoveRep {
        starting_square: 1 << Tables::B6,
        ending_square: 1 << Tables::C7,
        promotion: None,
        moved_type: PieceType::Pawn,
        attacked_type: Some(PieceType::Pawn),
    };

    let results = generate_attacking_moves(&board, &tables, target);
    assert_eq!(results.len(), 2);
    assert!(results.contains(&expected_move_1));
    assert!(results.contains(&expected_move_2));
}

#[test]
fn test_gen_attacking_moves_2() {
    let board = BoardState::state_from_string_fen(
        "rnbqkbnr/pppppppp/8/8/8/8/PPPPPPPP/RNBQKBNR w KQkq - 0 1".to_string(),
    );
    let tables = Tables::new();
    let results = generate_attacking_moves(&board, &tables, 1 << Tables::E8);
    assert_eq!(results.len(), 0);
}

#[test]
fn test_gen_attacking_moves_3() {
    let board = BoardState::state_from_string_fen(
        "rnbqkbnr/ppp1pppp/8/8/8/8/PPP1PPPP/RNBQKBNR w KQkq - 0 1".to_string(),
    );
    let tables = Tables::new();
    let target = 1 << Tables::D8;

    let expected_move = MoveRep {
        starting_square: 1 << Tables::D1,
        ending_square: 1 << Tables::D8,
        promotion: None,
        moved_type: PieceType::Queen,
        attacked_type: Some(PieceType::Queen),
    };

    let results = generate_attacking_moves(&board, &tables, target);
    assert_eq!(results.len(), 1);
    assert!(results.contains(&expected_move));
}

#[test]
fn test_gen_attacking_moves_4() {
    let board = BoardState::state_from_string_fen(
        "rnbqkbnr/pp2pppp/8/2p5/3Q4/8/PPP1PPPP/RNB1KBNR b KQkq - 0 1".to_string(),
    );
    let tables = Tables::new();
    let target = 1 << Tables::D4;

    let expected_move_1 = MoveRep {
        starting_square: 1 << Tables::D8,
        ending_square: 1 << Tables::D4,
        promotion: None,
        moved_type: PieceType::Queen,
        attacked_type: Some(PieceType::Queen),
    };

    let expected_move_2 = MoveRep {
        starting_square: 1 << Tables::C5,
        ending_square: 1 << Tables::D4,
        promotion: None,
        moved_type: PieceType::Pawn,
        attacked_type: Some(PieceType::Queen),
    };

    let results = generate_attacking_moves(&board, &tables, target);
    assert_eq!(results.len(), 2);
    assert!(results.contains(&expected_move_1));
    assert!(results.contains(&expected_move_2));
}

#[test]
fn test_gen_blocking_moves_1() {
    let board = BoardState::state_from_string_fen(
        "rn1qkbnr/pppppppp/8/5b2/8/2NK4/P1PP1PPP/R1BQ1BNR w kq - 0 1".to_string(),
    );
    let tables = Tables::new();

    let expected_move = MoveRep {
        starting_square: 1 << Tables::C3,
        ending_square: 1 << Tables::E4,
        promotion: None,
        moved_type: PieceType::Knight,
        attacked_type: None,
    };

    let results = generate_blocking_moves(&board, &tables, 1 << Tables::D3, 1 << Tables::F5);
    assert_eq!(results.len(), 1);
    assert!(results.contains(&expected_move));
}

#[test]
fn test_gen_blocking_moves_2() {
    let board = BoardState::state_from_string_fen(
        "rnbqkbnr/p1pppppp/1p6/8/8/6P1/PPPPPPBP/RNBQK1NR b KQkq - 0 1".to_string(),
    );
    let tables = Tables::new();

    let expected_move_1 = MoveRep::new(
        1 << Tables::C7,
        1 << Tables::C6,
        None,
        PieceType::Pawn,
        None,
    );

    let expected_move_2 = MoveRep::new(
        1 << Tables::D7,
        1 << Tables::D5,
        None,
        PieceType::Pawn,
        None,
    );

    let expected_move_3 = MoveRep::new(
        1 << Tables::B8,
        1 << Tables::C6,
        None,
        PieceType::Knight,
        None,
    );

    let expected_move_4 = MoveRep::new(
        1 << Tables::C8,
        1 << Tables::B7,
        None,
        PieceType::Bishop,
        None,
    );

    let results = generate_blocking_moves(&board, &tables, 1 << Tables::A8, 1 << Tables::G2);
    assert_eq!(results.len(), 4);
    assert!(results.contains(&expected_move_1));
    assert!(results.contains(&expected_move_2));
    assert!(results.contains(&expected_move_3));
    assert!(results.contains(&expected_move_4));
}

#[test]
fn test_gen_blocking_moves_3() {
    let board = BoardState::state_from_string_fen(
        "rnbqkbnr/pppp1ppp/4p3/8/8/BP2P3/P1PP1PPP/RN1QKBNR b KQkq - 0 1".to_string(),
    );
    let tables = Tables::new();

    let expected_move_1 = MoveRep::new(
        1 << Tables::G8,
        1 << Tables::E7,
        None,
        PieceType::Knight,
        None,
    );

    let expected_move_2 = MoveRep::new(
        1 << Tables::D8,
        1 << Tables::E7,
        None,
        PieceType::Queen,
        None,
    );

    let expected_move_3 = MoveRep::new(
        1 << Tables::D7,
        1 << Tables::D6,
        None,
        PieceType::Pawn,
        None,
    );

    let expected_move_4 = MoveRep::new(
        1 << Tables::C7,
        1 << Tables::C5,
        None,
        PieceType::Pawn,
        None,
    );

    let results = generate_blocking_moves(&board, &tables, 1 << Tables::F8, 1 << Tables::A3);
    assert_eq!(results.len(), 4);
    assert!(results.contains(&expected_move_1));
    assert!(results.contains(&expected_move_2));
    assert!(results.contains(&expected_move_3));
    assert!(results.contains(&expected_move_4));
}

#[test]
fn test_gen_blocking_moves_4() {
    let board = BoardState::state_from_string_fen(
        "rnbqkbnr/ppp1pppp/8/8/8/8/PPP1PPPP/RNBQKBNR b KQkq - 0 1".to_string(),
    );

    let tables = Tables::new();

    let expected_move_1 = MoveRep::new(
        1 << Tables::C8,
        1 << Tables::D7,
        None,
        PieceType::Bishop,
        None,
    );

    let expected_move_2 = MoveRep::new(
        1 << Tables::B8,
        1 << Tables::D7,
        None,
        PieceType::Knight,
        None,
    );

    let results = generate_blocking_moves(&board, &tables, 1 << Tables::D8, 1 << Tables::D1);
    assert_eq!(results.len(), 2);
    assert!(results.contains(&expected_move_1));
    assert!(results.contains(&expected_move_2));
}

#[test]
fn king_escape_1() {
    let board = BoardState::state_from_string_fen(
        "rnbq1bnr/pppp1ppp/8/4k2R/8/8/PPPPPPP1/RNBQKBN1 b Q - 0 1".to_string(),
    );
    let tables = Tables::new();

    let expected_move_1 = MoveRep::new(
        1 << Tables::E5,
        1 << Tables::F6,
        None,
        PieceType::King,
        None,
    );
    let expected_move_2 = MoveRep::new(
        1 << Tables::E5,
        1 << Tables::E6,
        None,
        PieceType::King,
        None,
    );
    let expected_move_3 = MoveRep::new(
        1 << Tables::E5,
        1 << Tables::D6,
        None,
        PieceType::King,
        None,
    );
    let expected_move_4 = MoveRep::new(
        1 << Tables::E5,
        1 << Tables::D4,
        None,
        PieceType::King,
        None,
    );
    let expected_move_5 = MoveRep::new(
        1 << Tables::E5,
        1 << Tables::E4,
        None,
        PieceType::King,
        None,
    );
    let expected_move_6 = MoveRep::new(
        1 << Tables::E5,
        1 << Tables::F4,
        None,
        PieceType::King,
        None,
    );

    let results = move_king_to_safety(&board, &tables);
    assert_eq!(results.len(), 6);
    assert!(results.contains(&expected_move_1));
    assert!(results.contains(&expected_move_2));
    assert!(results.contains(&expected_move_3));
    assert!(results.contains(&expected_move_4));
    assert!(results.contains(&expected_move_5));
    assert!(results.contains(&expected_move_6));
}

#[test]
fn king_escape_2() {
    let board = BoardState::state_from_string_fen("8/8/8/8/4k3/2KP4/8/8 b - - 0 1".to_string());
    let tables = Tables::new();

    let expected_move_1 = MoveRep::new(
        1 << Tables::E4,
        1 << Tables::E3,
        None,
        PieceType::King,
        None,
    );
    let expected_move_2 = MoveRep::new(
        1 << Tables::E4,
        1 << Tables::F3,
        None,
        PieceType::King,
        None,
    );
    let expected_move_3 = MoveRep::new(
        1 << Tables::E4,
        1 << Tables::F4,
        None,
        PieceType::King,
        None,
    );
    let expected_move_4 = MoveRep::new(
        1 << Tables::E4,
        1 << Tables::F5,
        None,
        PieceType::King,
        None,
    );
    let expected_move_5 = MoveRep::new(
        1 << Tables::E4,
        1 << Tables::E5,
        None,
        PieceType::King,
        None,
    );
    let expected_move_6 = MoveRep::new(
        1 << Tables::E4,
        1 << Tables::D5,
        None,
        PieceType::King,
        None,
    );

    let results = move_king_to_safety(&board, &tables);
    assert_eq!(results.len(), 6);
    assert!(results.contains(&expected_move_1));
    assert!(results.contains(&expected_move_2));
    assert!(results.contains(&expected_move_3));
    assert!(results.contains(&expected_move_4));
    assert!(results.contains(&expected_move_5));
    assert!(results.contains(&expected_move_6));
}

#[test]
fn king_escape_3() {
    let board =
        BoardState::state_from_string_fen("3Q1k2/4Q3/8/8/8/2K5/8/8 b - - 0 1".to_string());
    let tables = Tables::new();
    let results = move_king_to_safety(&board, &tables);
    assert_eq!(results.len(), 0);
}

#[test]
fn king_escape_4() {
    let board = BoardState::state_from_string_fen(
        "rnb1kbnr/ppppqppp/8/8/8/8/PPP2PPP/RNBQKBNR w KQkq - 0 1".to_string(),
    );
    let tables = Tables::new();

    let expected_move = MoveRep::new(
        1 << Tables::E1,
        1 << Tables::D2,
        None,
        PieceType::King,
        None,
    );
    let results = move_king_to_safety(&board, &tables);
    for mv in &results {
        println!("{mv:?}");
    }
    assert_eq!(results.len(), 1);
    assert!(results.contains(&expected_move));
}

#[test]
fn king_escape_5() {
    let board = BoardState::state_from_string_fen(
        "rnbq1bnr/ppppkppp/4pB2/8/8/1P6/P1PPPPPP/RN1QKBNR b - - 0 1".to_string(),
    );

    let tables = Tables::new();
    let results = generate(&board, &tables);
    for mv in &results {
        println!("{mv:?}");
    }
    assert_eq!(results.len(), 5);
}

#[test]
fn test_king_in_check_1() {
    let board = BoardState::state_from_string_fen(
        "rn1qkbnr/2pppppp/bp6/p7/8/1P2P3/P1PPKPPP/RNBQ1BNR w - - 0 1".to_string(),
    );
    let tables = Tables::new();

    let unexpected_move = MoveRep::new(
        1 << Tables::B3,
        1 << Tables::B5,
        None,
        PieceType::Pawn,
        None,
    );

    let results = generate(&board, &tables);
    // for mv in &results {
    //     println!("{:?}", mv);
    // }
    assert!(!results.contains(&unexpected_move));
    // panic!();
}

#[test]
fn test_king_in_check_2() {
    let board = BoardState::state_from_string_fen(
        "rnb1kbnr/pp1ppppp/8/q7/2p5/2KP4/PPP1PPPP/RNBQ1BNR w kq - 0 1".to_string(),
    );
    let tables = Tables::new();

    let expected_move = MoveRep::new(
        1 << Tables::C3,
        1 << Tables::C4,
        None,
        PieceType::King,
        Some(PieceType::Pawn),
    );
    let moves = generate(&board, &tables);
    for mv in &moves {
        println!("{mv:?}");
    }
    assert!(moves.contains(&expected_move));
}

#[test]
fn test_sample_bishop_move() {
    let board = BoardState::state_from_string_fen(
        "rnbqkbnr/1ppppp1p/8/p5p1/8/1P6/PBPPPPPP/RN1QKBNR w KQkq - 0 1".to_string(),
    );

    let tables = Tables::new();

    let expected_move = MoveRep::new(
        1 << Tables::B2,
        1 << Tables::H8,
        None,
        PieceType::Bishop,
        Some(PieceType::Rook),
    );

    let results = generate(&board, &tables);
    assert!(results.contains(&expected_move));
}

#[test]
fn generate_test_white_kingside_castle() {
    let board = BoardState::state_from_string_fen(
        "rnbqkbnr/1ppp2pp/4pp2/p7/2B5/4P3/PPPPNPPP/RNBQK2R w KQkq - 0 1".to_string(),
    );
    let tables = Tables::new();

    let expected_move = MoveRep::new(
        1 << Tables::E1,
        1 << Tables::G1,
        Some(Promotion::Castle),
        PieceType::King,
        None,
    );
    let moves = generate(&board, &tables);
    assert!(moves.contains(&expected_move));
}

#[test]
fn generate_test_white_queenside_castle() {
    let board = BoardState::state_from_string_fen(
        "rnbqkbnr/1ppp2pp/4pp2/p7/8/BPNP4/P1PQPPPP/R3KBNR w KQkq - 0 1".to_string(),
    );
    let tables = Tables::new();

    let expected_move = MoveRep::new(
        1 << Tables::E1,
        1 << Tables::C1,
        Some(Promotion::Castle),
        PieceType::King,
        None,
    );
    let moves = generate(&board, &tables);
    assert!(moves.contains(&expected_move));
}

#[test]
fn generate_test_black_kingside_castle() {
    let board = BoardState::state_from_string_fen(
        "rnbqk2r/1ppp2pp/3bpp1n/p7/8/BPNP4/P1PQPPPP/R3KBNR b KQkq - 0 1".to_string(),
    );
    let tables = Tables::new();

    let expected_move = MoveRep::new(
        1 << Tables::E8,
        1 << Tables::G8,
        Some(Promotion::Castle),
        PieceType::King,
        None,
    );
    let moves = generate(&board, &tables);
    assert!(moves.contains(&expected_move));
}

#[test]
fn generate_test_black_queenside_castle() {
    let board = BoardState::state_from_string_fen(
        "r3kbnr/pppqpppp/2npb3/8/8/8/PPPPPPPP/RNBQKBNR b KQkq - 0 1".to_string(),
    );
    let tables = Tables::new();

    let expected_move = MoveRep::new(
        1 << Tables::E8,
        1 << Tables::C8,
        Some(Promotion::Castle),
        PieceType::King,
        None,
    );
    let moves = generate(&board, &tables);
    assert!(moves.contains(&expected_move));
}

#[test]
fn test_castle_blocked_1() {
    let board = BoardState::state_from_string_fen(
        "r3kbnr/pp1qpppp/1Bnpb3/2p5/8/8/PPPPPPPP/RN1QKBNR b KQkq - 0 1".to_string(),
    );
    let tables = Tables::new();

    let unexpected_move = MoveRep::new(
        1 << Tables::E8,
        1 << Tables::C8,
        Some(Promotion::Castle),
        PieceType::King,
        None,
    );

    let moves = generate(&board, &tables);
    assert!(!moves.contains(&unexpected_move));
}

#[test]
fn test_castle_blocked_2() {
    let board = BoardState::state_from_string_fen(
        "r3kbnr/pp1Bpppp/2npb3/2pq4/8/8/PPPPPPPP/RN1QKBNR b KQkq - 0 1".to_string(),
    );
    let tables = Tables::new();
    let unexpected_move = MoveRep::new(
        1 << Tables::E8,
        1 << Tables::C8,
        Some(Promotion::Castle),
        PieceType::King,
        None,
    );

    let moves = generate(&board, &tables);
    assert!(!moves.contains(&unexpected_move));
}

#[test]
fn test_castle_blocked_3() {
    let board = BoardState::state_from_string_fen(
        "r3kbnr/pp2pppp/2npb3/2pq4/8/8/PPPPPPPP/RN1QKBNR w KQkq - 0 1".to_string(),
    );
    let tables = Tables::new();

    let unexpected_move = MoveRep::new(
        1 << Tables::E1,
        1 << Tables::C1,
        Some(Promotion::Castle),
        PieceType::King,
        None,
    );

    let moves = generate(&board, &tables);
    assert!(!moves.contains(&unexpected_move));
}

#[test]
fn test_castle_blocked_4() {
    let board = BoardState::state_from_string_fen(
        "r3kbnr/pp2pppp/2npb3/2p5/3q1BP1/5PN1/PPPPP2P/RN1QK2R w KQkq - 0 1".to_string(),
    );
    let tables = Tables::new();

    let unexpected_move = MoveRep::new(
        1 << Tables::E1,
        1 << Tables::G1,
        Some(Promotion::Castle),
        PieceType::King,
        None,
    );

    let moves = generate(&board, &tables);
    assert!(!moves.contains(&unexpected_move));
}

#[test]
fn test_castle_blocked_5() {
    let board = BoardState::state_from_string_fen(
        "r3k2r/p1ppqpb1/bn2pnp1/3PN3/1p2P3/2N2Q2/PPPBBPpP/1R2K2R w Kkq - 0 1".to_string(),
    );
    let tables = Tables::new();

    let unexpected_mov = MoveRep::new(
        1 << Tables::E1,
        1 << Tables::G1,
        Some(Promotion::Castle),
        PieceType::King,
        None,
    );
    let results = generate(&board, &tables);
    assert!(!results.contains(&unexpected_mov));
}

