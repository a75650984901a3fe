use nuttchess::attacks;
use nuttchess::board::{BoardState, MoveRep, PieceType, Promotion};
use nuttchess::eval::{delta_ps_score, eval, get_piece_value, material_value, piece_square_score};
use nuttchess::generate::{
    generate, generate_attacking_moves, generate_blocking_moves, generate_target_blocking,
    move_king_to_safety, pop_lsb,
};
use nuttchess::search::perft_search;
use nuttchess::tables::Tables;
use nuttchess::tt::ZobKeys;

#[test]
fn depth_zero() {
    let mut board = BoardState::starting_state();
    let tables = Tables::new();

    let zob_keys = ZobKeys::new();
    let node_count = perft_search(&mut board, &tables, &zob_keys, 0);
    assert_eq!(node_count, 1);
}

#[test]
fn depth_1() {
    let mut board = BoardState::starting_state();
    let tables = Tables::new();

    let zob_keys = ZobKeys::new();
    let node_count = perft_search(&mut board, &tables, &zob_keys, 1);
    assert_eq!(node_count, 20);
}

#[test]
fn depth_2() {
    let mut board = BoardState::starting_state();
    let tables = Tables::new();

    let zob_keys = ZobKeys::new();
    let node_count = perft_search(&mut board, &tables, &zob_keys, 2);
    assert_eq!(node_count, 400);
}

#[test]
fn depth_3() {
    let mut board = BoardState::starting_state();
    let tables = Tables::new();

    let zob_keys = ZobKeys::new();
    let node_count = perft_search(&mut board, &tables, &zob_keys, 3);
    assert_eq!(node_count, 8902);
}

#[test]
fn depth_4() {
    let mut board = BoardState::starting_state();
    let tables = Tables::new();

    let zob_keys = ZobKeys::new();
    let node_count = perft_search(&mut board, &tables, &zob_keys, 4);
    assert_eq!(node_count, 197281);
}





#[test]
fn kiwipete_1() {
    let mut board = BoardState::state_from_string_fen(
        "r3k2r/p1ppqpb1/bn2pnp1/3PN3/1p2P3/2N2Q1p/PPPBBPPP/R3K2R w KQkq - 0 1".to_string(),
    );
    let tables = Tables::new();
    let zob_keys = ZobKeys::new();
    let node_count = perft_search(&mut board, &tables, &zob_keys, 1);
    assert_eq!(node_count, 48);
}

#[test]
fn kiwipete_2() {
    let mut board = BoardState::state_from_string_fen(
        "r3k2r/p1ppqpb1/bn2pnp1/3PN3/1p2P3/2N2Q1p/PPPBBPPP/R3K2R w KQkq - 0 1".to_string(),
    );
    let tables = Tables::new();
    let zob_keys = ZobKeys::new();
    let node_count = perft_search(&mut board, &tables, &zob_keys, 2);
    assert_eq!(node_count, 2039);
}

#[test]
fn kiwipete_3() {
    let mut board = BoardState::state_from_string_fen(
        "r3k2r/p1ppqpb1/bn2pnp1/3PN3/1p2P3/2N2Q1p/PPPBBPPP/R3K2R w KQkq - 0 1".to_string(),
    );
    let tables = Tables::new();
    let zob_keys = ZobKeys::new();
    let node_count = perft_search(&mut board, &tables, &zob_keys, 3);

    assert_eq!(node_count, 97862);
}





#[test]
fn pos3_1() {
    let mut board = BoardState::state_from_string_fen(
        "8/2p5/3p4/KP5r/1R3p1k/8/4P1P1/8 w - - 0 1".to_string(),
    );
    let tables = Tables::new();
    let zob_keys = ZobKeys::new();
    let node_count = perft_search(&mut board, &tables, &zob_keys, 1);
    assert_eq!(node_count, 14);
}

#[test]
fn pos3_2() {
    let mut board = BoardState::state_from_string_fen(
        "8/2p5/3p4/KP5r/1R3p1k/8/4P1P1/8 w - - 0 1".to_string(),
    );
    let tables = Tables::new();
    let zob_keys = ZobKeys::new();
    let node_count = perft_search(&mut board, &tables, &zob_keys, 2);
    assert_eq!(node_count, 191);
}

#[test]
fn pos3_3() {
    let mut board = BoardState::state_from_string_fen(
        "8/2p5/3p4/KP5r/1R3p1k/8/4P1P1/8 w - - 0 1".to_string(),
    );
    let tables = Tables::new();
    let zob_keys = ZobKeys::new();
    let node_count = perft_search(&mut board, &tables, &zob_keys, 3);
    assert_eq!(node_count, 2812);
}

#[test]
fn pos3_4() {
    let mut board = BoardState::state_from_string_fen(
        "8/2p5/3p4/KP5r/1R3p1k/8/4P1P1/8 w - - 0 1".to_string(),
    );
    let tables = Tables::new();
    let zob_keys = ZobKeys::new();
    let node_count = perft_search(&mut board, &tables, &zob_keys, 4);
    assert_eq!(node_count, 43238);
}

#[test]
fn pos3_5() {
    let mut board = BoardState::state_from_string_fen(
        "8/2p5/3p4/KP5r/1R3p1k/8/4P1P1/8 w - - 0 1".to_string(),
    );
    let tables = Tables::new();
    let zob_keys = ZobKeys::new();
    let node_count = perft_search(&mut board, &tables, &zob_keys, 5);
    assert_eq!(node_count, 674624);
}



#[test]
fn pos4_1() {
    let mut board = BoardState::state_from_string_fen(
        "r3k2r/Pppp1ppp/1b3nbN/nP6/BBP1P3/q4N2/Pp1P2PP/R2Q1RK1 w kq - 0 1".to_string(),
    );
    let tables = Tables::new();
    let zob_keys = ZobKeys::new();
    let node_count = perft_search(&mut board, &tables, &zob_keys, 1);
    assert_eq!(node_count, 6);
}

#[test]
fn pos4_2() {
    let mut board = BoardState::state_from_string_fen(
        "r3k2r/Pppp1ppp/1b3nbN/nP6/BBP1P3/q4N2/Pp1P2PP/R2Q1RK1 w kq - 0 1".to_string(),
    );
    let tables = Tables::new();
    let zob_keys = ZobKeys::new();
    let node_count = perft_search(&mut board, &tables, &zob_keys, 2);
    assert_eq!(node_count, 264);
}

#[test]
fn pos4_3() {
    let mut board = BoardState::state_from_string_fen(
        "r3k2r/Pppp1ppp/1b3nbN/nP6/BBP1P3/q4N2/Pp1P2PP/R2Q1RK1 w kq - 0 1".to_string(),
    );
    let tables = Tables::new();
    let zob_keys = ZobKeys::new();
    let node_count = perft_search(&mut board, &tables, &zob_keys, 3);
    assert_eq!(node_count, 9467);
}

#[test]
fn pos4_4() {
    let mut board = BoardState::state_from_string_fen(
        "r3k2r/Pppp1ppp/1b3nbN/nP6/BBP1P3/q4N2/Pp1P2PP/R2Q1RK1 w kq - 0 1".to_string(),
    );
    let tables = Tables::new();
    let zob_keys = ZobKeys::new();
    let node_count = perft_search(&mut board, &tables, &zob_keys, 4);
    assert_eq!(node_count, 422333);
}





#[test]
fn pos5_1() {
    let mut board = BoardState::state_from_string_fen(
        "rnbq1k1r/pp1Pbppp/2p5/8/2B5/8/PPP1NnPP/RNBQK2R w KQ - 1 8  ".to_string(),
    );
    let tables = Tables::new();
    let zob_keys = ZobKeys::new();
    let node_count = perft_search(&mut board, &tables, &zob_keys, 1);
    assert_eq!(node_count, 44);
}

#[test]
fn pos5_2() {
    let mut board = BoardState::state_from_string_fen(
        "rnbq1k1r/pp1Pbppp/2p5/8/2B5/8/PPP1NnPP/RNBQK2R w KQ - 1 8  ".to_string(),
    );
    let tables = Tables::new();
    let zob_keys = ZobKeys::new();
    let node_count = perft_search(&mut board, &tables, &zob_keys, 2);
    assert_eq!(node_count, 1486);
}

#[test]
fn pos5_3() {
    let mut board = BoardState::state_from_string_fen(
        "rnbq1k1r/pp1Pbppp/2p5/8/2B5/8/PPP1NnPP/RNBQK2R w KQ - 1 8  ".to_string(),
    );
    let tables = Tables::new();
    let zob_keys = ZobKeys::new();
    let node_count = perft_search(&mut board, &tables, &zob_keys, 3);
    assert_eq!(node_count, 62379);
}





#[test]
fn pos6_1() {
    let mut board = BoardState::state_from_string_fen(
        "r4rk1/1pp1qppp/p1np1n2/2b1p1B1/2B1P1b1/P1NP1N2/1PP1QPPP/R4RK1 w - - 0 10 ".to_string(),
    );
    let tables = Tables::new();
    let zob_keys = ZobKeys::new();
    let node_count = perft_search(&mut board, &tables, &zob_keys, 1);
    assert_eq!(node_count, 46);
}

#[test]
fn pos6_2() {
    let mut board = BoardState::state_from_string_fen(
        "r4rk1/1pp1qppp/p1np1n2/2b1p1B1/2B1P1b1/P1NP1N2/1PP1QPPP/R4RK1 w - - 0 10 ".to_string(),
    );
    let tables = Tables::new();
    let zob_keys = ZobKeys::new();
    let node_count = perft_search(&mut board, &tables, &zob_keys, 2);
    assert_eq!(node_count, 2079);
}

#[test]
fn pos6_3() {
    let mut board = BoardState::state_from_string_fen(
        "r4rk1/1pp1qppp/p1np1n2/2b1p1B1/2B1P1b1/P1NP1N2/1PP1QPPP/R4RK1 w - - 0 10 ".to_string(),
    );
    let tables = Tables::new();
    let zob_keys = ZobKeys::new();
    let node_count = perft_search(&mut board, &tables, &zob_keys, 3);
    assert_eq!(node_count, 89890);
}





#[test]
fn illegal_pawn_move() {
    let mut board = BoardState::state_from_string_fen(
        "r4q1r/pp6/2nP3P/2PNpbkp/Q4Pp1/6P1/PP6/R3KBNR b KQ f3 0 19".to_string(),
    );
    let tables = Tables::new();
    let move1 = MoveRep::new(
        1 << Tables::E5,
        1 << Tables::F3,
        None,
        PieceType::Pawn,
        Some(PieceType::Pawn),
    );
    let moves = generate(&board, &tables);
    for mv in &moves {
        println!("{}", mv.to_string().unwrap());
    }
    assert!(!moves.contains(&move1));
}


#[test]
fn depth_5() {
    let mut board = BoardState::starting_state();
    let tables = Tables::new();
    let zob_keys = ZobKeys::new();
    let node_count = perft_search(&mut board, &tables, &zob_keys, 5);
    assert_eq!(node_count, 4865609);
}

#[test]
fn kiwipete_4() {
    let mut board = BoardState::state_from_string_fen(
        "r3k2r/p1ppqpb1/bn2pnp1/3PN3/1p2P3/2N2Q1p/PPPBBPPP/R3K2R w KQkq - 0 1".to_string(),
    );
    let tables = Tables::new();
    let zob_keys = ZobKeys::new();
    let node_count = perft_search(&mut board, &tables, &zob_keys, 4);

    assert_eq!(node_count, 4085603);
}

#[test]
fn pos3_6() {
    let mut board = BoardState::state_from_string_fen(
        "8/2p5/3p4/KP5r/1R3p1k/8/4P1P1/8 w - - 0 1".to_string(),
    );
    let tables = Tables::new();
    let zob_keys = ZobKeys::new();
    let node_count = perft_search(&mut board, &tables, &zob_keys, 6);
    assert_eq!(node_count, 11030083);
}

#[test]
fn pos4_5() {
    let mut board = BoardState::state_from_string_fen(
        "r3k2r/Pppp1ppp/1b3nbN/nP6/BBP1P3/q4N2/Pp1P2PP/R2Q1RK1 w kq - 0 1".to_string(),
    );
    let tables = Tables::new();
    let zob_keys = ZobKeys::new();
    let node_count = perft_search(&mut board, &tables, &zob_keys, 5);
    assert_eq!(node_count, 15833292);
}

#[test]
fn pos5_4() {
    let mut board = BoardState::state_from_string_fen(
        "rnbq1k1r/pp1Pbppp/2p5/8/2B5/8/PPP1NnPP/RNBQK2R w KQ - 1 8  ".to_string(),
    );
    let tables = Tables::new();
    let zob_keys = ZobKeys::new();
    let node_count = perft_search(&mut board, &tables, &zob_keys, 4);
    assert_eq!(node_count, 2103487);
}

#[test]
fn pos6_4() {
    let mut board = BoardState::state_from_string_fen(
        "r4rk1/1pp1qppp/p1np1n2/2b1p1B1/2B1P1b1/P1NP1N2/1PP1QPPP/R4RK1 w - - 0 10 ".to_string(),
    );
    let tables = Tables::new();
    let zob_keys = ZobKeys::new();
    let node_count = perft_search(&mut board, &tables, &zob_keys, 4);
    assert_eq!(node_count, 3894594);
}
