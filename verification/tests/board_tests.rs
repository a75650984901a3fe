use nuttchess::attacks;
use nuttchess::board::{BoardState, MoveRep, PieceType, Promotion};
use nuttchess::eval::{delta_ps_score, eval, get_piece_value, material_value, piece_square_score};
use nuttchess::generate::{
    generate, generate_attacking_moves, generate_blocking_moves, generate_target_blocking,
    move_king_to_safety, pop_lsb,
};
use nuttchess::search::perft_search;
use nuttchess::tables::Tables;
use nuttchess::tt::ZobKeys;

#[test]
fn test_white_pawn_push() {
    let mut pawn_test = BoardState::state_from_string_fen(
        "rnbqkbnr/pppppppp/8/8/8/8/PPPPPPPP/RNBQKBNR w KQkq - 0 1".to_string(),
    );

    let move_test = MoveRep {
        starting_square: 1 << Tables::A2,
        ending_square: 1 << Tables::A4,
        promotion: None,
        moved_type: PieceType::Pawn,
        attacked_type: None,
    };

    pawn_test.make(&move_test);

    assert_eq!(pawn_test.white_to_move, false);
    assert_eq!(pawn_test.white_pawns & 1 << Tables::A4 != 0, true);
    assert_eq!(pawn_test.white_pawns & 1 << Tables::A2 != 0, false);
}

#[test]
fn test_black_pawn_push() {
    let mut black_pawn_test = BoardState::state_from_string_fen(
        "rnbqkbnr/pppppppp/8/8/8/8/PPPPPPPP/RNBQKBNR b KQkq - 0 1".to_string(),
    );

    let move_test = MoveRep {
        starting_square: 1 << Tables::D7,
        ending_square: 1 << Tables::D5,
        promotion: None,
        moved_type: PieceType::Pawn,
        attacked_type: None,
    };

    black_pawn_test.make(&move_test);

    assert_eq!(black_pawn_test.white_to_move, true);
    assert_eq!(black_pawn_test.black_pawns & 1 << Tables::D7 != 0, false);
    assert_eq!(black_pawn_test.black_pawns & 1 << Tables::D5 != 0, true);
}

#[test]
fn test_black_pawn_attack() {
    let mut black_pawn_attack_test = BoardState::state_from_string_fen(
        "rnbqkbnr/pppppppp/1P6/8/8/8/P1PPPPPP/RNBQKBNR b KQkq - 0 1".to_string(),
    );

    let move_test = MoveRep {
        starting_square: 1 << Tables::A7,
        ending_square: 1 << Tables::B6,
        promotion: None,
        moved_type: PieceType::Pawn,
        attacked_type: Some(PieceType::Pawn),
    };

    black_pawn_attack_test.make(&move_test);

    assert_eq!(black_pawn_attack_test.white_to_move, true);
    assert_eq!(
        black_pawn_attack_test.black_pawns & 1 << Tables::A7 != 0,
        false
    );
    assert_eq!(
        black_pawn_attack_test.black_pawns & 1 << Tables::B6 != 0,
        true
    );
    assert_eq!(
        black_pawn_attack_test.white_pawns & 1 << Tables::B6 != 0,
        false
    );
}

#[test]
fn test_white_pawn_attack() {
    let mut pawn_attack_test = BoardState::state_from_string_fen(
        "rnbqkbnr/1ppppppp/8/8/8/2p5/PPPPPPPP/RNBQKBNR w KQkq - 0 1".to_string(),
    );

    let move_test = MoveRep {
        starting_square: 1 << Tables::B2,
        ending_square: 1 << Tables::C3,
        promotion: None,
        moved_type: PieceType::Pawn,
        attacked_type: Some(PieceType::Pawn),
    };

    pawn_attack_test.make(&move_test);

    assert_eq!(pawn_attack_test.white_to_move, false);
    assert_eq!(pawn_attack_test.white_pawns & 1 << Tables::B2 != 0, false);
    assert_eq!(pawn_attack_test.white_pawns & 1 << Tables::C3 != 0, true);
    assert_eq!(pawn_attack_test.black_pawns & 1 << Tables::C3 != 0, false);
}

#[test]
fn test_white_knight() {
    let mut knight_test = BoardState::state_from_string_fen(
        "rnbqkbnr/pppppppp/8/8/8/N7/PPPPPPPP/R1BQKBNR w KQkq - 0 1".to_string(),
    );

    let move_test = MoveRep {
        starting_square: 1 << Tables::B2,
        ending_square: 1 << Tables::A3,
        promotion: None,
        moved_type: PieceType::Knight,
        attacked_type: None,
    };

    knight_test.make(&move_test);

    assert_eq!(knight_test.white_to_move, false);
    assert_eq!(knight_test.white_knights & 1 << Tables::A3 != 0, true);
    assert_eq!(knight_test.white_knights & 1 << Tables::B2 != 0, false);
}

#[test]
fn test_black_knight() {
    let mut black_knight_test = BoardState::state_from_string_fen(
        "rnbqkbnr/pppppppp/8/8/8/8/PPPPPPPP/RNBQKBNR b KQkq - 0 1".to_string(),
    );

    let move_test = MoveRep {
        starting_square: 1 << Tables::B8,
        ending_square: 1 << Tables::A6,
        promotion: None,
        moved_type: PieceType::Knight,
        attacked_type: None,
    };

    black_knight_test.make(&move_test);

    assert_eq!(black_knight_test.white_to_move, true);
    assert_eq!(
        black_knight_test.black_knights & 1 << Tables::B8 != 0,
        false
    );
    assert_eq!(black_knight_test.black_knights & 1 << Tables::A6 != 0, true);
}

#[test]
fn test_white_knight_attack() {
    let mut white_knight_attack = BoardState::state_from_string_fen(
        "rnbqkbnr/1ppppppp/8/8/8/2p5/PPPPPPPP/RNBQKBNR w KQkq - 0 1".to_string(),
    );

    let move_test = MoveRep {
        starting_square: 1 << Tables::B1,
        ending_square: 1 << Tables::C3,
        promotion: None,
        moved_type: PieceType::Knight,
        attacked_type: Some(PieceType::Pawn),
    };

    white_knight_attack.make(&move_test);

    assert_eq!(white_knight_attack.white_to_move, false);
    assert_eq!(
        white_knight_attack.white_knights & 1 << Tables::B1 != 0,
        false
    );
    assert_eq!(
        white_knight_attack.white_knights & 1 << Tables::C3 != 0,
        true
    );
    assert_eq!(
        white_knight_attack.black_pawns & 1 << Tables::C3 != 0,
        false
    );
}

#[test]
fn test_black_knight_attack() {
    let mut black_knight_attack_test = BoardState::state_from_string_fen(
        "rnbqkbnr/pppppppp/2P5/8/8/8/P1PPPPPP/RNBQKBNR b KQkq - 0 1".to_string(),
    );

    let move_test = MoveRep {
        starting_square: 1 << Tables::B8,
        ending_square: 1 << Tables::C6,
        promotion: None,
        moved_type: PieceType::Knight,
        attacked_type: Some(PieceType::Pawn),
    };

    black_knight_attack_test.make(&move_test);

    assert_eq!(black_knight_attack_test.white_to_move, true);
    assert_eq!(
        black_knight_attack_test.black_knights & 1 << Tables::B8 != 0,
        false
    );
    assert_eq!(
        black_knight_attack_test.black_knights & 1 << Tables::C6 != 0,
        true
    );
    assert_eq!(
        black_knight_attack_test.white_pawns & 1 << Tables::C6 != 0,
        false
    );
}

#[test]
fn white_rook_move() {
    let mut board = BoardState::state_from_string_fen(
        "rnbqkbnr/pppppppp/8/8/8/8/1PPPPPPP/RNBQKBNR w KQkq - 0 1".to_string(),
    );

    let move_test = MoveRep {
        starting_square: 1 << Tables::A1,
        ending_square: 1 << Tables::A5,
        promotion: None,
        moved_type: PieceType::Rook,
        attacked_type: None,
    };

    board.make(&move_test);

    assert_eq!(board.white_to_move, false);
    assert_eq!(board.white_rooks & 1 << Tables::A1 != 0, false);
    assert_eq!(board.white_rooks & 1 << Tables::A5 != 0, true);
}

#[test]
fn black_rook_move() {
    let mut board = BoardState::state_from_string_fen(
        "rnbqkbnr/1ppppppp/8/8/8/8/PPPPPPPP/RNBQKBNR b KQkq - 0 1".to_string(),
    );

    let move_test = MoveRep {
        starting_square: 1 << Tables::A8,
        ending_square: 1 << Tables::A3,
        promotion: None,
        moved_type: PieceType::Rook,
        attacked_type: None,
    };

    board.make(&move_test);

    assert_eq!(board.white_to_move, true);
    assert_eq!(board.black_rooks & 1 << Tables::A8 != 0, false);
    assert_eq!(board.black_rooks & 1 << Tables::A3 != 0, true);
}

#[test]
fn white_rook_attack() {
    let mut board = BoardState::state_from_string_fen(
        "rnbqkbnr/pppppppp/8/8/p7/8/1PPPPPPP/RNBQKBNR w KQkq - 0 1".to_string(),
    );

    let move_test = MoveRep {
        starting_square: 1 << Tables::A1,
        ending_square: 1 << Tables::A4,
        promotion: None,
        moved_type: PieceType::Rook,
        attacked_type: Some(PieceType::Pawn),
    };

    board.make(&move_test);

    assert_eq!(board.white_to_move, false);
    assert_eq!(board.white_rooks & 1 << Tables::A1 != 0, false);
    assert_eq!(board.white_rooks & 1 << Tables::A4 != 0, true);
    assert_eq!(board.black_pawns & 1 << Tables::A4 != 0, false);
}

#[test]
fn black_rook_attack() {
    let mut board = BoardState::state_from_string_fen(
        "rnbqkbnr/1ppppppp/8/8/P7/8/PPPPPPPP/RNBQKBNR b KQkq - 0 1".to_string(),
    );

    let move_test = MoveRep {
        starting_square: 1 << Tables::A8,
        ending_square: 1 << Tables::A4,
        promotion: None,
        moved_type: PieceType::Rook,
        attacked_type: Some(PieceType::Pawn),
    };

    board.make(&move_test);

    assert_eq!(board.white_to_move, true);
    assert_eq!(board.black_rooks & 1 << Tables::A8 != 0, false);
    assert_eq!(board.black_rooks & 1 << Tables::A4 != 0, true);
    assert_eq!(board.white_pawns & 1 << Tables::A4 != 0, false);
}

#[test]
fn unmake_white_pawn_push() {
    let mut board = BoardState::state_from_string_fen(
        "rnbqkbnr/pppppppp/8/8/8/8/PPPPPPPP/RNBQKBNR w KQkq - 0 1".to_string(),
    );

    let move_test = MoveRep {
        starting_square: 1 << Tables::D2,
        ending_square: 1 << Tables::D4,
        promotion: None,
        moved_type: PieceType::Pawn,
        attacked_type: None,
    };

    board.make(&move_test);
    board.unmake(&move_test);

    assert_eq!(board.white_to_move, true);
    assert_eq!(board.white_pawns & 1 << Tables::D2 != 0, true);
    assert_eq!(board.white_pawns & 1 << Tables::D4 != 0, false);
}

#[test]
fn unmake_white_pawn_attack() {
    let mut board = BoardState::state_from_string_fen(
        "rnbqkbnr/pp1ppppp/8/8/8/2p5/PPPPPPPP/RNBQKBNR w KQkq - 0 1".to_string(),
    );

    let move_test = MoveRep {
        starting_square: 1 << Tables::D2,
        ending_square: 1 << Tables::C3,
        promotion: None,
        moved_type: PieceType::Pawn,
        attacked_type: Some(PieceType::Pawn),
    };

    board.make(&move_test);
    board.unmake(&move_test);

    assert_eq!(board.white_to_move, true);
    assert_eq!(board.white_pawns & 1 << Tables::D2 != 0, true);
    assert_eq!(board.white_pawns & 1 << Tables::C3 != 0, false);
    assert_eq!(board.black_pawns & 1 << Tables::C3 != 0, true);
}

#[test]
fn unmake_black_pawn_push() {
    let mut board = BoardState::state_from_string_fen(
        "rnbqkbnr/pppppppp/8/8/8/8/PPPPPPPP/RNBQKBNR b KQkq - 0 1".to_string(),
    );

    let move_test = MoveRep {
        starting_square: 1 << Tables::H7,
        ending_square: 1 << Tables::H5,
        promotion: None,
        moved_type: PieceType::Pawn,
        attacked_type: None,
    };

    board.make(&move_test);
    board.unmake(&move_test);

    assert_eq!(board.white_to_move, false);
    assert_eq!(board.black_pawns & 1 << Tables::H7 != 0, true);
    assert_eq!(board.black_pawns & 1 << Tables::H5 != 0, false);
}

#[test]
fn unmake_black_pawn_attack() {
    let mut board = BoardState::state_from_string_fen(
        "rnbqkbnr/pppppppp/P7/8/8/8/PP1PPPPP/RNBQKBNR b KQkq - 0 1".to_string(),
    );

    let move_test = MoveRep {
        starting_square: 1 << Tables::B7,
        ending_square: 1 << Tables::A6,
        promotion: None,
        moved_type: PieceType::Pawn,
        attacked_type: Some(PieceType::Pawn),
    };

    board.make(&move_test);
    board.unmake(&move_test);

    assert_eq!(board.white_to_move, false);
    assert_eq!(board.black_pawns & 1 << Tables::B7 != 0, true);
    assert_eq!(board.black_pawns & 1 << Tables::A6 != 0, false);
    assert_eq!(board.white_pawns & 1 << Tables::A6 != 0, true);
}

#[test]
fn unmake_white_knight_move() {
    let mut board = BoardState::state_from_string_fen(
        "rnbqkbnr/pppppppp/8/8/8/8/PPPPPPPP/RNBQKBNR w KQkq - 0 1".to_string(),
    );

    let test_move = MoveRep {
        starting_square: 1 << Tables::G1,
        ending_square: 1 << Tables::H3,
        promotion: None,
        moved_type: PieceType::Knight,
        attacked_type: None,
    };

    board.make(&test_move);
    board.unmake(&test_move);

    assert_eq!(board.white_to_move, true);
    assert_eq!(board.white_knights & 1 << Tables::G1 != 0, true);
    assert_eq!(board.white_knights & 1 << Tables::H3 != 0, false);
}

#[test]
fn unmake_white_knight_attack() {
    let mut board = BoardState::state_from_string_fen(
        "rnbqkbnr/pp1ppppp/8/8/8/5p2/PPPPPPPP/RNBQKBNR w KQkq - 0 1".to_string(),
    );

    let test_move = MoveRep {
        starting_square: 1 << Tables::G1,
        ending_square: 1 << Tables::H3,
        promotion: None,
        moved_type: PieceType::Knight,
        attacked_type: Some(PieceType::Pawn),
    };

    board.make(&test_move);
    board.unmake(&test_move);

    assert_eq!(board.white_to_move, true);
    assert_eq!(board.white_knights & 1 << Tables::G1 != 0, true);
    assert_eq!(board.white_knights & 1 << Tables::H3 != 0, false);
    assert_eq!(board.black_pawns & 1 << Tables::H3 != 0, true);
}

#[test]
fn unmake_black_knight_move() {
    let mut board = BoardState::state_from_string_fen(
        "rnbqkbnr/pppppppp/8/8/8/8/PPPPPPPP/RNBQKBNR b KQkq - 0 1".to_string(),
    );

    let test_move = MoveRep {
        starting_square: 1 << Tables::G8,
        ending_square: 1 << Tables::F6,
        promotion: None,
        moved_type: PieceType::Knight,
        attacked_type: None,
    };

    board.make(&test_move);
    board.unmake(&test_move);

    assert_eq!(board.white_to_move, false);
    assert_eq!(board.black_knights & 1 << Tables::G8 != 0, true);
    assert_eq!(board.black_knights & 1 << Tables::F6 != 0, false);
}

#[test]
fn unmake_black_knight_attack() {
    let mut board = BoardState::state_from_string_fen(
        "rnbqkbnr/pppppppp/7P/8/8/8/PPPPP1PP/RNBQKBNR b KQkq - 0 1".to_string(),
    );

    let test_move = MoveRep {
        starting_square: 1 << Tables::G8,
        ending_square: 1 << Tables::H6,
        promotion: None,
        moved_type: PieceType::Knight,
        attacked_type: Some(PieceType::Pawn),
    };

    board.make(&test_move);
    board.unmake(&test_move);

    assert_eq!(board.white_to_move, false);
    assert_eq!(board.black_knights & 1 << Tables::G8 != 0, true);
    assert_eq!(board.black_knights & 1 << Tables::H6 != 0, false);
    assert_eq!(board.white_pawns & 1 << Tables::H6 != 0, true);
}

#[test]
fn unmake_white_rook_move() {
    let mut board = BoardState::state_from_string_fen(
        "rnbqkbnr/pppppppp/8/8/8/8/1PPPPPPP/RNBQKBNR w KQkq - 0 1".to_string(),
    );

    let test_move = MoveRep {
        starting_square: 1 << Tables::A1,
        ending_square: 1 << Tables::A5,
        promotion: None,
        moved_type: PieceType::Rook,
        attacked_type: None,
    };

    board.make(&test_move);
    board.unmake(&test_move);

    assert_eq!(board.white_to_move, true);
    assert_eq!(board.white_rooks & 1 << Tables::A1 != 0, true);
    assert_eq!(board.white_rooks & 1 << Tables::A5 != 0, false);
}

#[test]
fn unmake_white_rook_attack() {
    let mut board = BoardState::state_from_string_fen(
        "rnbqkbnr/pppppppp/8/p7/8/8/1PPPPPPP/RNBQKBNR w KQkq - 0 1".to_string(),
    );

    let test_move = MoveRep {
        starting_square: 1 << Tables::A1,
        ending_square: 1 << Tables::A5,
        promotion: None,
        moved_type: PieceType::Rook,
        attacked_type: Some(PieceType::Pawn),
    };

    board.make(&test_move);
    board.unmake(&test_move);

    assert_eq!(board.white_to_move, true);
    assert_eq!(board.white_rooks & 1 << Tables::A1 != 0, true);
    assert_eq!(board.white_rooks & 1 << Tables::A5 != 0, false);
    assert_eq!(board.black_pawns & 1 << Tables::A5 != 0, true);
}

#[test]
fn unmake_black_rook_move() {
    let mut board = BoardState::state_from_string_fen(
        "rnbqkbnr/1ppppppp/8/8/8/8/PPPPPPPP/RNBQKBNR b KQkq - 0 1".to_string(),
    );

    let test_move = MoveRep {
        starting_square: 1 << Tables::A8,
        ending_square: 1 << Tables::A3,
        promotion: None,
        moved_type: PieceType::Rook,
        attacked_type: None,
    };

    board.make(&test_move);
    board.unmake(&test_move);

    assert_eq!(board.white_to_move, false);
    assert_eq!(board.black_rooks & 1 << Tables::A8 != 0, true);
    assert_eq!(board.black_rooks & 1 << Tables::A3 != 0, false);
}

#[test]
fn unmake_black_rook_attack() {
    let mut board = BoardState::state_from_string_fen(
        "rnbqkbnr/1ppppppp/8/8/8/8/PPPPPPPP/RNBQKBNR b KQkq - 0 1".to_string(),
    );

    let test_move = MoveRep {
        starting_square: 1 << Tables::A8,
        ending_square: 1 << Tables::A2,
        promotion: None,
        moved_type: PieceType::Rook,
        attacked_type: Some(PieceType::Pawn),
    };

    board.make(&test_move);
    board.unmake(&test_move);

    assert_eq!(board.white_to_move, false);
    assert_eq!(board.black_rooks & 1 << Tables::A8 != 0, true);
    assert_eq!(board.black_rooks & 1 << Tables::A2 != 0, false);
    assert_eq!(board.white_pawns & 1 << Tables::A2 != 0, true);
}

#[test]
fn white_attack_mask_pawn() {
    let board = BoardState::state_from_string_fen("8/8/8/8/8/8/7P/8 w - - 0 1".to_string());
    let tables = Tables::new();
    let expected = 0x20000;
    let result = board.white_attack_mask(&tables);
    assert_eq!(expected, result);
}

#[test]
fn white_attack_mask_knight() {
    let board = BoardState::state_from_string_fen("8/8/8/3N4/8/8/8/8 w - - 0 1".to_string());
    let tables = Tables::new();
    let expected = 0x28440044280000;
    let result = board.white_attack_mask(&tables);
    assert_eq!(expected, result);
}

#[test]
fn white_attack_mask_rook() {
    let board = BoardState::state_from_string_fen("8/8/8/8/8/8/8/3R4 w - - 0 1".to_string());
    let tables = Tables::new();
    let expected = 0x10101010101010ef;
    let result = board.white_attack_mask(&tables);
    assert_eq!(expected, result);
}

#[test]
fn white_attack_mask_rook_with_blocker() {
    let board = BoardState::state_from_string_fen("8/8/8/8/3P4/8/8/3R4 w - - 0 1".to_string());
    let tables = Tables::new();
    let expected = 0x28101010ef;
    let result = board.white_attack_mask(&tables);
    assert_eq!(expected, result);
}

#[test]
fn white_attack_mask_bishop() {
    let board = BoardState::state_from_string_fen("8/8/8/8/8/8/8/5B2 w - - 0 1".to_string());
    let tables = Tables::new();
    let expected = 0x804020110a00;
    let result = board.white_attack_mask(&tables);
    assert_eq!(expected, result);
}

#[test]
fn white_attack_mask_bishop_with_blocker() {
    let board = BoardState::state_from_string_fen("8/8/8/8/2P5/8/8/5B2 w - - 0 1".to_string());
    let tables = Tables::new();
    let expected = 0x5020110a00;
    let result = board.white_attack_mask(&tables);
    assert_eq!(expected, result);
}

#[test]
fn white_attack_mask_queen() {
    let board = BoardState::state_from_string_fen("8/8/8/8/3Q4/8/8/8 w - - 0 1".to_string());
    let tables = Tables::new();
    let expected = 0x11925438ef385492;
    let result = board.white_attack_mask(&tables);
    assert_eq!(expected, result);
}

#[test]
fn white_attack_mask_starting_pos() {
    let board = BoardState::state_from_string_fen(
        "rnbqkbnr/pppppppp/8/8/8/8/PPPPPPPP/RNBQKBNR w KQkq - 0 1".to_string(),
    );
    let tables = Tables::new();
    let expected = 0xffff7e;
    let result = board.white_attack_mask(&tables);
    assert_eq!(expected, result);
}

#[test]
fn black_attack_mask_pawn() {
    let board = BoardState::state_from_string_fen("8/8/3p4/8/8/8/8/8 b - - 0 1".to_string());
    let tables = Tables::new();
    let expected = 0x2800000000;
    let result = board.black_attack_mask(&tables);
    assert_eq!(expected, result);
}

#[test]
fn black_attack_mask_knight() {
    let board = BoardState::state_from_string_fen("8/8/3n4/8/8/8/8/8 b - - 0 1".to_string());
    let tables = Tables::new();
    let expected = 0x2844004428000000;
    let result = board.black_attack_mask(&tables);
    assert_eq!(expected, result);
}

#[test]
fn black_attack_mask_rook() {
    let board = BoardState::state_from_string_fen("8/8/8/3r4/8/8/8/8 b - - 0 1".to_string());
    let tables = Tables::new();
    let expected = 0x101010ef10101010;
    let result = board.black_attack_mask(&tables);
    assert_eq!(expected, result);
}

#[test]
fn black_attack_mask_rook_with_blocker() {
    let board = BoardState::state_from_string_fen("8/8/8/3r1p2/8/8/8/8 b - - 0 1".to_string());
    let tables = Tables::new();
    let expected = 0x101010ec1a101010;
    let result = board.black_attack_mask(&tables);
    assert_eq!(expected, result);
}

#[test]
fn black_attack_mask_bishop() {
    let board = BoardState::state_from_string_fen("8/8/8/3b4/8/8/8/8 b - - 0 1".to_string());
    let tables = Tables::new();
    let expected = 0x8244280028448201;
    let result = board.black_attack_mask(&tables);
    assert_eq!(expected, result);
}

#[test]
fn black_attack_mask_bishop_with_blocker() {
    let board = BoardState::state_from_string_fen("8/8/8/8/2p5/8/8/5b2 b - - 0 1".to_string());
    let tables = Tables::new();
    let expected = 0x20510a00;
    let result = board.black_attack_mask(&tables);
    assert_eq!(expected, result);
}

#[test]
fn black_attack_mask_queen() {
    let board = BoardState::state_from_string_fen("8/8/8/8/3q4/8/8/8 w - - 0 1".to_string());
    let tables = Tables::new();
    let expected = 0x11925438ef385492;
    let result = board.black_attack_mask(&tables);
    assert_eq!(expected, result);
}

#[test]
fn white_in_check_1() {
    let board = BoardState::state_from_string_fen(
        "rnb1kbnr/pp1ppppp/2p5/q7/3P4/4P3/PPP2PPP/RNBQKBNR w KQkq - 0 1".to_string(),
    );
    let tables = Tables::new();
    let expected = true;
    let result = board.white_in_check(&tables);
    assert_eq!(expected, result);
}

#[test]
fn white_in_check_2() {
    let board = BoardState::state_from_string_fen(
        "rnbqkb1r/pppppppp/8/8/8/5n2/PPPPPPPP/RNBQKBNR w KQkq - 0 1".to_string(),
    );
    let tables = Tables::new();
    let expected = true;
    let result = board.white_in_check(&tables);
    assert_eq!(expected, result);
}

#[test]
fn white_in_check_3() {
    let board = BoardState::state_from_string_fen(
        "rnbqkbnr/pppppppp/8/8/8/8/PPPPPPPP/RNBQKBNR w KQkq - 0 1".to_string(),
    );
    let tables = Tables::new();
    let expected = false;
    let result = board.white_in_check(&tables);
    assert_eq!(expected, result);
}

#[test]
fn white_in_check_4() {
    let board = BoardState::state_from_string_fen(
        "rnb1kbnr/pppppppp/8/8/4q3/8/PPPPPPPP/RNBQKBNR w KQkq - 0 1".to_string(),
    );
    let tables = Tables::new();
    let expected = false;
    let result = board.white_in_check(&tables);
    assert_eq!(expected, result);
}

#[test]
fn black_in_check_1() {
    let board = BoardState::state_from_string_fen(
        "rnbq1bnr/ppppkppp/8/3Np3/8/8/PPPPPPPP/R1BQKBNR b KQ - 0 1".to_string(),
    );
    let tables = Tables::new();
    let expected = true;
    let result = board.black_in_check(&tables);
    assert_eq!(expected, result);
}

#[test]
fn black_in_check_2() {
    let board = BoardState::state_from_string_fen(
        "rnbqkbnr/pppppppp/3N4/8/8/8/PPPPPPPP/R1BQKBNR w KQkq - 0 1".to_string(),
    );
    let tables = Tables::new();
    let expected = true;
    let result = board.black_in_check(&tables);
    assert_eq!(expected, result);
}

#[test]
fn black_in_check_3() {
    let board = BoardState::state_from_string_fen(
        "rnbqkbnr/pppppppp/8/8/8/8/PPPPPPPP/RNBQKBNR w KQkq - 0 1".to_string(),
    );
    let tables = Tables::new();
    let expected = false;
    let result = board.black_in_check(&tables);
    assert_eq!(expected, result);
}

#[test]
fn black_in_check_4() {
    let board = BoardState::state_from_string_fen(
        "rnbqkbnr/pppppppp/8/3Q4/8/8/PPPPPPPP/RNB1KBNR w KQkq - 0 1".to_string(),
    );
    let tables = Tables::new();
    let expected = false;
    let result = board.black_in_check(&tables);
    assert_eq!(expected, result);
}

#[test]
fn white_attacking_1() {
    let board = BoardState::state_from_string_fen(
        "rnbqkbnr/pppp1ppp/8/4Q3/8/8/PPPPPPPP/RNB1KBNR w KQkq - 0 1".to_string(),
    );
    let tables = Tables::new();

    let expected = 1 << Tables::E5;
    let result = board.white_attacking(&tables, 1 << Tables::E8);
    assert_eq!(expected, result);
}

#[test]
fn white_attacking_2() {
    let board = BoardState::state_from_string_fen(
        "rnbqkbnr/pppppppp/8/8/8/8/PPPPPPPP/RNBQKBNR w KQkq - 0 1".to_string(),
    );

    let tables = Tables::new();
    let expected = 0;
    let result = board.white_attacking(&tables, 1 << Tables::E8);
    assert_eq!(expected, result);
}

#[test]
fn white_attacking_3() {
    let board = BoardState::state_from_string_fen(
        "rnbqkbnr/pppppppp/8/8/8/8/PPPPPPPP/RNBQKBNR w KQkq - 0 1".to_string(),
    );

    let tables = Tables::new();
    let expected = 0x78;
    let result = board.white_attacking(&tables, 1 << Tables::D2);
    assert_eq!(expected, result);
}

#[test]
fn white_attacking_4() {
    let board = BoardState::state_from_string_fen(
        "rnbqkbnr/pppppppp/3N4/8/8/8/PPPPPPPP/RNBQKB1R w KQkq - 0 1".to_string(),
    );
    let tables = Tables::new();
    let expected = 1 << Tables::D6;
    let result = board.white_attacking(&tables, 1 << Tables::C8);
    assert_eq!(expected, result);
}

#[test]
fn white_attacking_5() {
    let board = BoardState::state_from_string_fen(
        "rnbqkbnr/pppppppp/3P4/8/8/8/PPP1PPPP/RNBQKBNR w KQkq - 0 1".to_string(),
    );
    let tables = Tables::new();
    let expected = 1 << Tables::D6;
    let result = board.white_attacking(&tables, 1 << Tables::E7);
    assert_eq!(expected, result);
}

#[test]
fn black_attacking_1() {
    let board = BoardState::state_from_string_fen(
        "rnbqkbnr/ppp1pppp/8/8/8/8/PPP1PPPP/RNBQKBNR w KQkq - 0 1".to_string(),
    );
    let tables = Tables::new();
    let expected = 1 << Tables::D8;
    let result = board.black_attacking(&tables, 1 << Tables::D1);
    assert_eq!(expected, result);
}

#[test]
fn black_attacking_2() {
    let board = BoardState::state_from_string_fen(
        "rnbqkbnr/pppp1ppp/8/8/8/4p3/PPPPPPPP/RNBQKBNR w KQkq - 0 1".to_string(),
    );
    let tables = Tables::new();
    let expected = 1 << Tables::E3;
    let result = board.black_attacking(&tables, 1 << Tables::F2);
    assert_eq!(expected, result);
}

#[test]
fn black_attacking_3() {
    let board = BoardState::state_from_string_fen(
        "rnbqk1nr/pppppppp/8/8/1b6/8/PPP1PPPP/RNBQKBNR w KQkq - 0 1".to_string(),
    );
    let tables = Tables::new();
    let expected = 1 << Tables::B4;
    let result = board.black_attacking(&tables, 1 << Tables::E1);
}

#[test]
fn black_attacking_4() {
    let board = BoardState::state_from_string_fen(
        "rnbqkbnr/1ppppppp/8/8/8/8/PPPPPPPP/RNBQKBNR w KQkq - 0 1".to_string(),
    );
    let tables = Tables::new();
    let expected = 1 << Tables::A8;
    let result = board.black_attacking(&tables, 1 << Tables::A2);
    assert_eq!(expected, result);
}

#[test]
fn black_attacking_5() {
    let board = BoardState::state_from_string_fen(
        "r1bqkbnr/pppppppp/8/8/8/6n1/PPPPPPPP/RNBQKBNR w KQkq - 0 1".to_string(),
    );
    let tables = Tables::new();
    let expected = 1 << Tables::G3;
    let result = board.black_attacking(&tables, 1 << Tables::H1);
    assert_eq!(expected, result);
}

#[test]
fn test_safe_for_king_1() {
    let mut board = BoardState::state_from_string_fen(
        "rnbqkbnr/pppppppp/8/8/8/8/PPPPPPPP/RNBQKBNR w KQkq - 0 1".to_string(),
    );
    let tables = Tables::new();
    let play = MoveRep::new(
        1 << Tables::E2,
        1 << Tables::E4,
        None,
        PieceType::Pawn,
        None,
    );
    let result = board.move_safe_for_king(&tables, &play);
    assert_eq!(true, result);
}

#[test]
fn test_safe_for_king_2() {
    let mut board = BoardState::state_from_string_fen(
        "rn1qkbnr/p1pppppp/b7/8/8/8/PPPP1PPP/RNBQKBNR w KQkq - 0 1".to_string(),
    );
    let tables = Tables::new();
    let play = MoveRep::new(
        1 << Tables::E1,
        1 << Tables::E2,
        None,
        PieceType::King,
        None,
    );
    let result = board.move_safe_for_king(&tables, &play);
    assert_eq!(false, result);
}

#[test]
fn test_safe_for_king_3() {
    let mut board = BoardState::state_from_string_fen(
        "rnbqkbnr/pppp1ppp/8/8/8/8/PPPPPPPP/RNBQKBNR b KQkq - 0 1".to_string(),
    );
    let tables = Tables::new();
    let play = MoveRep::new(
        1 << Tables::E8,
        1 << Tables::E7,
        None,
        PieceType::King,
        None,
    );
    let result = board.move_safe_for_king(&tables, &play);
    assert_eq!(true, result);
}

#[test]
fn test_safe_for_king_4() {
    let mut board = BoardState::state_from_string_fen(
        "rnbqkbnr/pppppppp/8/8/Q7/8/PP1PPPPP/RNB1KBNR b KQkq - 0 1".to_string(),
    );
    let tables = Tables::new();
    let play = MoveRep::new(
        1 << Tables::D7,
        1 << Tables::D6,
        None,
        PieceType::Pawn,
        None,
    );
    let result = board.move_safe_for_king(&tables, &play);
    assert_eq!(false, result);
}

#[test]
fn test_is_reversible_1() {
    let mv = MoveRep::new(
        1 << Tables::D2,
        1 << Tables::D4,
        None,
        PieceType::Pawn,
        None,
    );

    let result = mv.is_reversible();
    assert_eq!(result, false);
}

#[test]
fn test_is_reversible_2() {
    let mv = MoveRep::new(
        1 << Tables::B1,
        1 << Tables::A3,
        None,
        PieceType::Knight,
        None,
    );

    let result = mv.is_reversible();
    assert_eq!(result, true);
}

#[test]
fn test_is_reversible_3() {
    let mv = MoveRep::new(
        1 << Tables::C1,
        1 << Tables::G5,
        None,
        PieceType::Bishop,
        Some(PieceType::Pawn),
    );

    let result = mv.is_reversible();
    assert_eq!(result, false);
}

#[test]
fn test_is_reversible_4() {
    let mv = MoveRep::new(
        1 << Tables::E1,
        1 << Tables::A1,
        None,
        PieceType::King,
        None,
    );

    let result = mv.is_reversible();
    assert_eq!(result, false);
}

#[test]
fn test_is_reversible_5() {
    let mv = MoveRep::new(
        1 << Tables::G7,
        1 << Tables::G8,
        Some(Promotion::Queen),
        PieceType::Pawn,
        None,
    );

    let result = mv.is_reversible();
    assert_eq!(result, false);
}

#[test]
fn test_en_passant_1() {
    let mut board = BoardState::starting_state();

    let mv_1 = MoveRep::new(
        1 << Tables::B2,
        1 << Tables::B4,
        None,
        PieceType::Pawn,
        None,
    );

    let mv_2 = MoveRep::new(
        1 << Tables::G8,
        1 << Tables::F6,
        None,
        PieceType::Knight,
        None,
    );

    assert_eq!(board.en_passant_target, 0);
    board.make(&mv_1);
    assert_eq!(board.en_passant_target, 1 << Tables::B3);
    board.make(&mv_2);
    assert_eq!(board.en_passant_target, 0);
    board.unmake(&mv_2);
    assert_eq!(board.en_passant_target, 1 << Tables::B3);
    board.unmake(&mv_1);
    assert_eq!(board.en_passant_target, 0);
}

#[test]
fn test_en_passant_2() {
    let mut board = BoardState::starting_state();

    let mv_1 = MoveRep::new(
        1 << Tables::B1,
        1 << Tables::C3,
        None,
        PieceType::Knight,
        None,
    );

    board.make(&mv_1);
    assert_eq!(board.en_passant_target, 0);
    board.unmake(&mv_1);
    assert_eq!(board.en_passant_target, 0);
}

#[test]
fn test_en_passant_3() {
    let mut board = BoardState::starting_state();

    let mv_1 = MoveRep::new(
        1 << Tables::B2,
        1 << Tables::B3,
        None,
        PieceType::Pawn,
        None,
    );

    board.make(&mv_1);
    assert_eq!(board.en_passant_target, 0);
}

#[test]
fn test_en_passant_4() {
    let mut board = BoardState::state_from_string_fen(
        "rnbqkbnr/pppppppp/8/8/8/2N5/PPPPPPPP/R1BQKBNR b KQkq - 0 1".to_string(),
    );

    let mv_1 = MoveRep::new(
        1 << Tables::E7,
        1 << Tables::E5,
        None,
        PieceType::Pawn,
        None,
    );

    board.make(&mv_1);
    assert_eq!(board.en_passant_target, 1 << Tables::E6);
    board.unmake(&mv_1);
    assert_eq!(board.en_passant_target, 0);
}

#[test]
fn test_en_passant_attack_1() {
    let mut board = BoardState::state_from_string_fen(
        "rnbqkbnr/ppp1pppp/8/8/2Pp4/8/PP1PPPPP/RNBQKBNR b KQkq c3 0 1".to_string(),
    );

    let tables = Tables::new();

    let expected_mv = MoveRep::new(
        1 << Tables::D4,
        1 << Tables::C3,
        None,
        PieceType::Pawn,
        Some(PieceType::Pawn),
    );

    let results = generate(&board, &tables);
    assert!(results.contains(&expected_mv));
}

#[test]
fn test_en_passant_attack_2() {
    let mut board = BoardState::state_from_string_fen(
        "rnbqkbnr/ppp1pppp/8/2Pp4/8/8/PP1PPPPP/RNBQKBNR w KQkq d6 0 1".to_string(),
    );

    let tables = Tables::new();

    let expected_mv = MoveRep::new(
        1 << Tables::C5,
        1 << Tables::D6,
        None,
        PieceType::Pawn,
        Some(PieceType::Pawn),
    );

    let results = generate(&board, &tables);
    assert!(results.contains(&expected_mv));
}

#[test]
fn test_en_passant_move_1() {
    let mut board = BoardState::state_from_string_fen(
        "rnbqkbnr/p1pppppp/8/Pp6/8/8/1PPPPPPP/RNBQKBNR w KQkq b6 0 1".to_string(),
    );

    let tables = Tables::new();

    let expected_mv = MoveRep::new(
        1 << Tables::A5,
        1 << Tables::B6,
        None,
        PieceType::Pawn,
        Some(PieceType::Pawn),
    );

    board.make(&expected_mv);
    assert_eq!(board.black_pawns, 0xbf000000000000);
    board.unmake(&expected_mv);
    assert_eq!(board.black_pawns, 0xbf004000000000);
}

#[test]
fn test_pin_mask_1() {
    let board = BoardState::state_from_string_fen(
        "1nbqkbnr/pppppppp/8/4r3/8/8/PPPPQPPP/RNB1KBNR w - - 0 1".to_string(),
    );
    let tables = Tables::new();

    let target = 1 << Tables::E1;
    let expected = 1 << Tables::E2;
    let mask = board.pin_mask(&tables, target, board.white_to_move);
    assert_eq!(mask, expected);
}

#[test]
fn test_pin_mask_2() {
    let board = BoardState::state_from_string_fen(
        "1nbqkbnr/pppppppp/8/4R3/8/8/PPPPQPPP/RNB1KBN1 b - - 0 1".to_string(),
    );
    let tables = Tables::new();

    let target = 1 << Tables::E8;
    let expected = 1 << Tables::E7;
    let mask = board.pin_mask(&tables, target, board.white_to_move);
    assert_eq!(mask, expected);
}

#[test]
fn test_pin_mask_3() {
    let board = BoardState::state_from_string_fen(
        "rnb1kbnr/pp1ppppp/2p5/q7/8/2NP4/PPP1PPPP/R1BQKBNR w KQkq - 0 1".to_string(),
    );
    let tables = Tables::new();

    let target = 1 << Tables::E1;
    let expected = 1 << Tables::C3;
    let mask = board.pin_mask(&tables, target, board.white_to_move);
    assert_eq!(mask, expected);
}

#[test]
fn test_pin_mask_4() {
    let board = BoardState::state_from_string_fen(
        "1nb1kbnr/pp1ppppp/2p1r3/q7/8/2NP4/PPP1PPPP/R1BQKBNR w - - 0 1".to_string(),
    );
    let tables = Tables::new();

    let target = 1 << Tables::E1;
    let expected = (1 << Tables::C3) | (1 << Tables::E2);
    let mask = board.pin_mask(&tables, target, board.white_to_move);
    assert_eq!(mask, expected);
}

#[test]
fn test_pin_safe_1() {
    let board = BoardState::state_from_string_fen(
        "1nb1kbnr/pp1ppppp/2p1r3/q7/8/2NP4/PPP1PPPP/R1BQKBNR w - - 0 1".to_string(),
    );
    let tables = Tables::new();
    let target = 1 << Tables::E1;
    let mv = MoveRep::new(
        1 << Tables::G1,
        1 << Tables::H3,
        None,
        PieceType::Knight,
        None,
    );

    let result = board.pin_safe(&tables, target, &mv);
    assert_eq!(result, true);
}

#[test]
fn test_pin_safe_2() {
    let board = BoardState::state_from_string_fen(
        "1nb1kbnr/pp1ppppp/2p1r3/q7/8/2NP4/PPP1PPPP/R1BQKBNR w - - 0 1".to_string(),
    );
    let tables = Tables::new();
    let target = 1 << Tables::E1;
    let mv = MoveRep::new(
        1 << Tables::E2,
        1 << Tables::E3,
        None,
        PieceType::Pawn,
        None,
    );

    let result = board.pin_safe(&tables, target, &mv);
    assert_eq!(result, true);
}

#[test]
fn test_pin_safe_3() {
    let board = BoardState::state_from_string_fen(
        "1nb1kbnr/pp1ppppp/2p1r3/q7/8/2NP4/PPP1PPPP/R1BQKBNR w - - 0 1".to_string(),
    );
    let tables = Tables::new();
    let target = 1 << Tables::E1;
    let mv = MoveRep::new(
        1 << Tables::C3,
        1 << Tables::E4,
        None,
        PieceType::Knight,
        None,
    );

    let result = board.pin_safe(&tables, target, &mv);
    assert_eq!(result, false);
}

#[test]
fn test_pin_safe_4() {
    let board = BoardState::state_from_string_fen(
        "rnbqkbnr/pppppppp/8/8/Q7/8/PP1PPPPP/RNB1KBNR b KQkq - 0 1".to_string(),
    );
    let tables = Tables::new();
    let target = 1 << Tables::E8;
    let mv = MoveRep::new(
        1 << Tables::D7,
        1 << Tables::D5,
        None,
        PieceType::Pawn,
        None,
    );

    let result = board.pin_safe(&tables, target, &mv);
    assert_eq!(result, false);
}

#[test]
fn test_pin_safe_5() {
    let board = BoardState::state_from_string_fen(
        "rnbqkbnr/p1p1pppp/8/1p1p4/Q7/P1P5/1P1PPPPP/RNB1KBNR b KQkq - 0 1".to_string(),
    );
    let tables = Tables::new();
    let target = 1 << Tables::E8;
    let mv = MoveRep::new(
        1 << Tables::B5,
        1 << Tables::A4,
        None,
        PieceType::Pawn,
        Some(PieceType::Queen),
    );

    let result = board.pin_safe(&tables, target, &mv);
    assert_eq!(result, true);
}

#[test]
fn board_test_white_kingside_castle() {
    let mut board = BoardState::state_from_string_fen(
        "rnbqkbnr/pppppppp/8/8/Q7/3BPN2/PP1P1PPP/RNB1K2R w KQkq - 0 1".to_string(),
    );
    let tables = Tables::new();
    let mv = MoveRep::new(
        1 << Tables::E1,
        1 << Tables::G1,
        Some(Promotion::Castle),
        PieceType::King,
        None,
    );
    board.make(&mv);
    assert_eq!(board.white_king, 1 << Tables::G1);
    assert_eq!(board.white_rooks & 1 << Tables::F1, 1 << Tables::F1);
    assert_eq!(board.white_kingside_castle_rights, false);
    assert_eq!(board.white_queenside_castle_rights, false);

    board.unmake(&mv);
    assert_eq!(board.white_king, 1 << Tables::E1);
    assert_eq!(board.white_rooks & 1 << Tables::H1, 1 << Tables::H1);
    assert_eq!(board.white_kingside_castle_rights, true);
    assert_eq!(board.white_queenside_castle_rights, true);
}
#[test]
fn board_test_white_queenside_castle() {
    let mut board = BoardState::state_from_string_fen(
        "rnbqkbnr/pppppppp/8/8/3P4/2NQB3/PPP1PPPP/R3KBNR w KQkq - 0 1".to_string(),
    );
    let tables = Tables::new();
    let mv = MoveRep::new(
        1 << Tables::E1,
        1 << Tables::C1,
        Some(Promotion::Castle),
        PieceType::King,
        None,
    );
    board.make(&mv);
    assert_eq!(board.white_king, 1 << Tables::C1);
    assert_eq!(board.white_rooks & 1 << Tables::D1, 1 << Tables::D1);
    assert_eq!(board.white_kingside_castle_rights, false);
    assert_eq!(board.white_queenside_castle_rights, false);

    board.unmake(&mv);
    assert_eq!(board.white_king, 1 << Tables::E1);
    assert_eq!(board.white_rooks & 1 << Tables::A1, 1 << Tables::A1);
    assert_eq!(board.white_kingside_castle_rights, true);
    assert_eq!(board.white_queenside_castle_rights, true);
}
#[test]
fn board_test_black_kingside_castle() {
    let mut board = BoardState::state_from_string_fen(
        "rnbqk2r/pppppp1p/5n1b/6p1/8/8/PPPPPPPP/RNBQKBNR b KQkq - 0 1".to_string(),
    );
    let tables = Tables::new();
    let mv = MoveRep::new(
        1 << Tables::E8,
        1 << Tables::G8,
        Some(Promotion::Castle),
        PieceType::King,
        None,
    );
    board.make(&mv);
    assert_eq!(board.black_king, 1 << Tables::G8);
    assert_eq!(board.black_rooks & 1 << Tables::F8, 1 << Tables::F8);
    assert_eq!(board.black_kingside_castle_rights, false);
    assert_eq!(board.black_queenside_castle_rights, false);

    board.unmake(&mv);
    assert_eq!(board.black_king, 1 << Tables::E8);
    assert_eq!(board.black_rooks & 1 << Tables::H8, 1 << Tables::H8);
    assert_eq!(board.black_kingside_castle_rights, true);
    assert_eq!(board.black_queenside_castle_rights, true);
}
#[test]
fn board_test_black_queenside_castle() {
    let mut board = BoardState::state_from_string_fen(
        "r3kbnr/ppp1pppp/2nqb3/3p4/8/8/PPPPPPPP/RNBQKBNR b KQkq - 0 1".to_string(),
    );
    let tables = Tables::new();
    let mv = MoveRep::new(
        1 << Tables::E8,
        1 << Tables::C8,
        Some(Promotion::Castle),
        PieceType::King,
        None,
    );
    board.make(&mv);
    assert_eq!(board.black_king, 1 << Tables::C8);
    assert_eq!(board.black_rooks & 1 << Tables::D8, 1 << Tables::D8);
    assert_eq!(board.black_kingside_castle_rights, false);
    assert_eq!(board.black_queenside_castle_rights, false);

    board.unmake(&mv);
    assert_eq!(board.black_king, 1 << Tables::E8);
    assert_eq!(board.black_rooks & 1 << Tables::A8, 1 << Tables::A8);
    assert_eq!(board.black_kingside_castle_rights, true);
    assert_eq!(board.black_queenside_castle_rights, true);
}
#[test]
fn test_white_remove_kingside_castle_rights() {
    let mut board = BoardState::state_from_string_fen(
        "rnbqkbnr/pppppppp/8/8/7P/8/PPPPPPP1/RNBQKBNR w KQkq - 0 1".to_string(),
    );
    let tables = Tables::new();

    let kingside_rook_move = MoveRep::new(
        1 << Tables::H1,
        1 << Tables::H2,
        None,
        PieceType::Rook,
        None,
    );

    board.make(&kingside_rook_move);
    assert_eq!(board.white_kingside_castle_rights, false);
    assert_eq!(board.white_queenside_castle_rights, true);
}
#[test]
fn test_white_remove_queenside_castle_right() {
    let mut board = BoardState::state_from_string_fen(
        "rnbqkbnr/pppppppp/8/8/P6P/8/1PPPPPP1/RNBQKBNR w KQkq - 0 1".to_string(),
    );
    let tables = Tables::new();

    let queenside_rook_move = MoveRep::new(
        1 << Tables::A1,
        1 << Tables::A2,
        None,
        PieceType::Rook,
        None,
    );

    board.make(&queenside_rook_move);
    assert_eq!(board.white_kingside_castle_rights, true);
    assert_eq!(board.white_queenside_castle_rights, false);
}
#[test]
fn test_white_remove_all_castle_rights() {
    let mut board = BoardState::state_from_string_fen(
        "rnbqkbnr/pppppppp/8/8/P3P2P/8/1PPP1PP1/RNBQKBNR w KQkq - 0 1".to_string(),
    );
    let tables = Tables::new();

    let king_move = MoveRep::new(
        1 << Tables::E1,
        1 << Tables::E2,
        None,
        PieceType::King,
        None,
    );

    board.make(&king_move);
    assert_eq!(board.white_kingside_castle_rights, false);
    assert_eq!(board.white_queenside_castle_rights, false);
}
#[test]
fn test_black_remove_kingside_castle_rights() {
    let mut board = BoardState::state_from_string_fen(
        "rnbqkbnr/ppppppp1/8/7p/8/8/PPPPPPPP/RNBQKBNR b KQkq - 0 1".to_string(),
    );
    let tables = Tables::new();

    let kingside_rook_move = MoveRep::new(
        1 << Tables::H8,
        1 << Tables::H7,
        None,
        PieceType::Rook,
        None,
    );

    board.make(&kingside_rook_move);
    assert_eq!(board.black_kingside_castle_rights, false);
    assert_eq!(board.black_queenside_castle_rights, true);
}
#[test]
fn test_black_remove_queenside_castle_right() {
    let mut board = BoardState::state_from_string_fen(
        "rnbqkbnr/1pppppp1/8/p6p/8/8/PPPPPPPP/RNBQKBNR b KQkq - 0 1".to_string(),
    );
    let tables = Tables::new();

    let queenside_rook_move = MoveRep::new(
        1 << Tables::A8,
        1 << Tables::A7,
        None,
        PieceType::Rook,
        None,
    );

    board.make(&queenside_rook_move);
    assert_eq!(board.black_kingside_castle_rights, true);
    assert_eq!(board.black_queenside_castle_rights, false);
}
#[test]
fn test_black_remove_all_castle_rights() {
    let mut board = BoardState::state_from_string_fen(
        "rnbqkbnr/1pppppp1/8/p6p/8/8/PPPPPPPP/RNBQKBNR b KQkq - 0 1".to_string(),
    );
    let tables = Tables::new();

    let king_move = MoveRep::new(
        1 << Tables::E8,
        1 << Tables::E7,
        None,
        PieceType::King,
        None,
    );

    board.make(&king_move);
    assert_eq!(board.black_kingside_castle_rights, false);
    assert_eq!(board.black_queenside_castle_rights, false);
}

#[test]
fn test_white_promotion() {
    let mut board = BoardState::state_from_string_fen(
        "rnbqkb2/pppppp1P/8/8/8/8/PPPPP1PP/RNBQKBNR w KQq - 0 1".to_string(),
    );
    let tables = Tables::new();

    let mv = MoveRep::new(
        1 << Tables::H7,
        1 << Tables::H8,
        Some(Promotion::Queen),
        PieceType::Pawn,
        None,
    );
    board.make(&mv);
    assert_eq!(board.white_queens, 1 << Tables::D1 | 1 << Tables::H8);
    assert_eq!(board.white_pawns & 1 << Tables::H8, 0);
}

