use nuttchess::attacks;
use nuttchess::board::{BoardState, MoveRep, PieceType, Promotion};
use nuttchess::eval::{delta_ps_score, eval, get_piece_value, material_value, piece_square_score};
use nuttchess::generate::{
    generate, generate_attacking_moves, generate_blocking_moves, generate_target_blocking,
    move_king_to_safety, pop_lsb,
};
use nuttchess::search::perft_search;
use nuttchess::tables::Tables;
use nuttchess::tt::ZobKeys;

fn hash_test(starting_board: &str, final_board: &str, mv: MoveRep) {
    let mut starting_board = BoardState::state_from_string_fen(starting_board.to_string());
    let final_board = BoardState::state_from_string_fen(final_board.to_string());

    let zob_keys = &ZobKeys::new();
    let initial_hash = zob_keys.generate_hash(&starting_board);
    let final_hash = zob_keys.generate_hash(&final_board);

    starting_board.make(&mv);
    assert_eq!(zob_keys.generate_hash(&starting_board), final_hash);
    starting_board.unmake(&mv);
    assert_eq!(zob_keys.generate_hash(&starting_board), initial_hash);
}

fn perft_hash_test(starting_board: &str, depth: u64) {
    let mut starting_board = BoardState::state_from_string_fen(starting_board.to_string());
    let tables = Tables::new();
    let zob_keys = &ZobKeys::new();
    perft_hash_child(&mut starting_board, &tables, zob_keys, depth);
}

fn perft_hash_child(board: &mut BoardState, tables: &Tables, zob_keys: &ZobKeys, depth: u64) {
    if depth == 0 {
        return;
    }
    let moves = generate(board, tables);
    for mv in moves {
        let starting_hash = zob_keys.generate_hash(board);
        board.make(&mv);
        perft_hash_child(board, tables, zob_keys, depth - 1);
        board.unmake(&mv);
        let final_hash = zob_keys.generate_hash(board);
        assert_eq!(starting_hash, final_hash);
    }
}



#[test]
fn perft_hash_kiwipete_4() {
    perft_hash_test(
        "r3k2r/p1ppqpb1/bn2pnp1/3PN3/1p2P3/2N2Q1p/PPPBBPPP/R3K2R w KQkq - 0 1",
        4,
    );
}

#[test]
fn pawn_move_hash() {
    hash_test(
        "rnbqkbnr/pppppppp/8/8/8/8/PPPPPPPP/RNBQKBNR w KQkq - 0 1",
        "rnbqkbnr/pppppppp/8/8/4P3/8/PPPP1PPP/RNBQKBNR b KQkq e3 0 1",
        MoveRep::new(
            1 << Tables::E2,
            1 << Tables::E4,
            None,
            PieceType::Pawn,
            None,
        ),
    );
}

#[test]
fn knight_move_hash() {
    hash_test(
        "rnbqkbnr/pppppppp/8/8/8/8/PPPPPPPP/RNBQKBNR w KQkq - 0 1",
        "rnbqkbnr/pppppppp/8/8/8/5N2/PPPPPPPP/RNBQKB1R b KQkq - 0 1",
        MoveRep::new(
            1 << Tables::G1,
            1 << Tables::F3,
            None,
            PieceType::Knight,
            None,
        ),
    );
}

#[test]
fn bishop_move_hash() {
    hash_test(
        "rnbqkbnr/pppp1ppp/8/4p3/4P3/8/PPPP1PPP/RNBQKBNR w KQkq - 0 1",
        "rnbqkbnr/pppp1ppp/8/1B2p3/4P3/8/PPPP1PPP/RNBQK1NR b KQkq - 0 1",
        MoveRep::new(
            1 << Tables::F1,
            1 << Tables::B5,
            None,
            PieceType::Bishop,
            None,
        ),
    );
}

#[test]
fn fools_mate_hash() {
    hash_test(
        "rnbqkbnr/pppp1ppp/8/4p3/6P1/5P2/PPPPP2P/RNBQKBNR b KQkq - 0 1",
        "rnb1kbnr/pppp1ppp/8/4p3/6Pq/5P2/PPPPP2P/RNBQKBNR w KQkq - 0 1",
        MoveRep::new(
            1 << Tables::D8,
            1 << Tables::H4,
            None,
            PieceType::Queen,
            None,
        ),
    );
}

#[test]
fn promotion_hash() {
    hash_test(
        "rnb1kbnr/pppPpppp/8/8/8/8/PPP1PPPP/RNBQKBNR w KQkq - 0 1",
        "rnbQkbnr/ppp1pppp/8/8/8/8/PPP1PPPP/RNBQKBNR b KQkq - 0 1",
        MoveRep::new(
            1 << Tables::D7,
            1 << Tables::D8,
            Some(Promotion::Queen),
            PieceType::Pawn,
            None,
        ),
    );
}

#[test]
fn attack_hash() {
    hash_test(
        "rnbqkbnr/pppp1ppp/8/4p3/3P4/8/PPP1PPPP/RNBQKBNR w KQkq - 0 1",
        "rnbqkbnr/pppp1ppp/8/4P3/8/8/PPP1PPPP/RNBQKBNR b KQkq - 0 1",
        MoveRep::new(
            1 << Tables::D4,
            1 << Tables::E5,
            None,
            PieceType::Pawn,
            Some(PieceType::Pawn),
        ),
    );
}

#[test]
fn pawn_f2f4_hash() {
    hash_test(
        "rnbqkbnr/pppppppp/8/8/8/8/PPPPPPPP/RNBQKBNR w KQkq - 0 1",
        "rnbqkbnr/pppppppp/8/8/5P2/8/PPPPP1PP/RNBQKBNR b KQkq f3 0 1",
        MoveRep::new(
            1 << Tables::F2,
            1 << Tables::F4,
            None,
            PieceType::Pawn,
            None,
        ),
    );
}

#[test]
fn pawn_f2f3_hash() {
    hash_test(
        "rnbqkbnr/pppppp2/8/6pp/8/6PP/PPPPPP2/RNBQKBNR w KQkq g6 0 1",
        "rnbqkbnr/pppppp2/8/6pp/8/5PPP/PPPPP3/RNBQKBNR b KQkq - 0 1",
        MoveRep::new(
            1 << Tables::F2,
            1 << Tables::F3,
            None,
            PieceType::Pawn,
            None,
        ),
    );
}

#[test]
fn pawn_f2f3_no_enpassant_hash() {
    hash_test(
        "rnbqkbnr/pppppp2/6p1/7p/8/6PP/PPPPPP2/RNBQKBNR w KQkq - 0 1",
        "rnbqkbnr/pppppp2/6p1/7p/8/5PPP/PPPPP3/RNBQKBNR b KQkq - 0 1",
        MoveRep::new(
            1 << Tables::F2,
            1 << Tables::F3,
            None,
            PieceType::Pawn,
            None,
        ),
    );
}

#[test]
fn perft_failure_hash() {
    hash_test(
        "rnbqkbnr/pppppp2/8/6pp/8/6PP/PPPPPP2/RNBQKBNR w KQkq g6 0 1",
        "rnbqkbnr/pppppp2/8/6pp/5P2/6PP/PPPPP3/RNBQKBNR b KQkq f3 0 1",
        MoveRep::new(
            1 << Tables::F2,
            1 << Tables::F4,
            None,
            PieceType::Pawn,
            None,
        ),
    );
}

#[test]
fn en_passant_attacked_1() {
    hash_test(
        "rnbqkbnr/pppppp2/7p/6pP/8/8/PPPPPPP1/RNBQKBNR w KQkq g6 0 1",
        "rnbqkbnr/pppppp2/6Pp/8/8/8/PPPPPPP1/RNBQKBNR b KQkq - 0 1",
        MoveRep::new(
            1 << Tables::H5,
            1 << Tables::G6,
            None,
            PieceType::Pawn,
            Some(PieceType::Pawn),
        ),
    );
}
#[test]
fn en_passant_not_attacked_1() {
    hash_test(
        "rnbqkbnr/pppppp2/7p/6pP/8/8/PPPPPPP1/RNBQKBNR w KQkq g6 0 1",
        "rnbqkbnr/pppppp2/7p/6pP/8/4P3/PPPP1PP1/RNBQKBNR b KQkq - 0 1",
        MoveRep::new(
            1 << Tables::E2,
            1 << Tables::E3,
            None,
            PieceType::Pawn,
            None,
        ),
    );
}
#[test]
fn en_passant_attacked_2() {
    hash_test(
        "rnbqkbnr/ppp1pppp/8/2Pp4/8/8/PP1PPPPP/RNBQKBNR w KQkq d6 0 1",
        "rnbqkbnr/ppp1pppp/3P4/8/8/8/PP1PPPPP/RNBQKBNR b KQkq - 0 1",
        MoveRep::new(
            1 << Tables::C5,
            1 << Tables::D6,
            None,
            PieceType::Pawn,
            Some(PieceType::Pawn),
        ),
    );
}
#[test]
fn en_passant_not_attacked_2() {
    hash_test(
        "rnbqkbnr/ppp1pppp/8/2Pp4/8/8/PP1PPPPP/RNBQKBNR w KQkq d6 0 1",
        "rnbqkbnr/ppp1pppp/2P5/3p4/8/8/PP1PPPPP/RNBQKBNR b KQkq - 0 1",
        MoveRep::new(
            1 << Tables::C5,
            1 << Tables::C6,
            None,
            PieceType::Pawn,
            None,
        ),
    );
}

#[test]
fn castle_black_kingside() {
    hash_test(
        "rnbqk2r/pppppppp/8/8/3P4/8/PPP1PPPP/RNBQKBNR b KQkq - 0 1",
        "rnbq1rk1/pppppppp/8/8/3P4/8/PPP1PPPP/RNBQKBNR w KQ - 0 1",
        MoveRep::new(
            1 << Tables::E8,
            1 << Tables::G8,
            Some(Promotion::Castle),
            PieceType::King,
            None,
        ),
    );
}

#[test]
fn castle_black_queenside() {
    hash_test(
        "r3kbnr/ppp1pppp/3q4/3p4/8/8/PPPPPPPP/RNBQKBNR b KQkq - 0 1",
        "2kr1bnr/ppp1pppp/3q4/3p4/8/8/PPPPPPPP/RNBQKBNR w KQ - 0 1",
        MoveRep::new(
            1 << Tables::E8,
            1 << Tables::C8,
            Some(Promotion::Castle),
            PieceType::King,
            None,
        ),
    );
}

#[test]
fn castle_white_kingside() {
    hash_test(
        "rnbqkbnr/pppppppp/8/8/8/8/PPPPPPPP/RNBQK2R w KQkq - 0 1",
        "rnbqkbnr/pppppppp/8/8/8/8/PPPPPPPP/RNBQ1RK1 b kq - 0 1",
        MoveRep::new(
            1 << Tables::E1,
            1 << Tables::G1,
            Some(Promotion::Castle),
            PieceType::King,
            None,
        ),
    );
}

#[test]
fn castle_white_queenside() {
    hash_test(
        "rnbqkbnr/pppppppp/8/8/8/8/PPPPPPPP/R3KBNR w KQkq - 0 1",
        "rnbqkbnr/pppppppp/8/8/8/8/PPPPPPPP/2KR1BNR b kq - 0 1",
        MoveRep::new(
            1 << Tables::E1,
            1 << Tables::C1,
            Some(Promotion::Castle),
            PieceType::King,
            None,
        ),
    );
}

