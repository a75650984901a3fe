use nuttchess::board::BoardState;
use nuttchess::generate::generate;
use nuttchess::tables::Tables;

fn assert_every_move_taken_back(fen: &str) {
    let tables = Tables::new();
    let board = BoardState::state_from_string_fen(fen.to_string());
    let moves = generate(&board, &tables);
    assert!(!moves.is_empty());
    for mv in moves.iter() {
        let mut played = board.clone();
        played.make(mv);
        assert_ne!(played, board);
        played.unmake(mv);
        assert_eq!(played, board);
    }
}

#[test]
fn generated_moves_taken_back_from_the_start() {
    assert_every_move_taken_back("rnbqkbnr/pppppppp/8/8/8/8/PPPPPPPP/RNBQKBNR w KQkq - 0 1");
}

#[test]
fn generated_moves_taken_back_with_castling() {
    assert_every_move_taken_back(
        "r3k2r/p1ppqpb1/bn2pnp1/3PN3/1p2P3/2N2Q1p/PPPBBPPP/R3K2R w KQkq - 0 1",
    );
    assert_every_move_taken_back(
        "r3k2r/p1ppqpb1/bn2pnp1/3PN3/1p2P3/2N2Q1p/PPPBBPPP/R3K2R b KQkq - 0 1",
    );
}

#[test]
fn generated_moves_taken_back_with_en_passant() {
    assert_every_move_taken_back("4k3/8/8/3pP3/8/8/8/4K3 w - d6 0 1");
    assert_every_move_taken_back("4k3/8/8/8/3Pp3/8/8/4K3 b - d3 0 1");
}

#[test]
fn generated_moves_taken_back_with_promotions() {
    assert_every_move_taken_back("1n5k/P7/8/8/8/8/6Kp/8 w - - 0 1");
    assert_every_move_taken_back("8/P6k/8/8/8/8/7p/K7 b - - 0 1");
}

#[test]
fn generated_moves_taken_back_in_check() {
    // A queen next to the king: the king takes it or steps away.
    assert_every_move_taken_back("4k3/8/8/8/8/8/4q3/4K3 w - - 0 1");
    // A rook checking down the file, with a knight that can block.
    assert_every_move_taken_back("4k3/8/8/8/4r3/8/8/2N1K3 w - - 0 1");
    // A pawn that just stepped two squares gives check and is taken en passant.
    assert_every_move_taken_back("8/8/8/2k5/3Pp3/8/8/4K3 b - d3 0 1");
}
