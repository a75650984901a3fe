//! Move generation: the moves of the side to move, built from the attack
//! tables, with pinned pieces, checks and attacked castling squares taken
//! into account as the tables report them.

use vstd::prelude::*;
use crate::bitboard::{sq_bit, lsb, clear_lsb, lemma_lsb_split, lemma_clear_lsb_smaller, popcount};
use crate::board::{BoardState, BoardModel, MoveRep, PieceType, Promotion};
use crate::tables::{
    Tables,
    white_pawn_attack_spec,
    black_pawn_attack_spec,
    white_pawn_push_spec,
    black_pawn_push_spec,
    knight_attack_spec,
    king_attack_spec,
};
use crate::attacks::{
    attack_mask_spec,
    attackers_spec,
    blockers_spec,
    in_check_spec,
    own_occupancy,
    pin_mask_spec,
    pin_safe_spec,
};

verus! {


/// Kinds of target set a piece's moves are drawn from.
pub const PUSH_TARGETS: u8 = 0;
pub const CAPTURE_TARGETS: u8 = 1;
pub const EN_PASSANT_TARGETS: u8 = 2;
pub const KNIGHT_TARGETS: u8 = 3;
pub const ROOK_TARGETS: u8 = 4;
pub const BISHOP_TARGETS: u8 = 5;
pub const KING_TARGETS: u8 = 6;

/// The rank a pawn of `white` promotes on.
pub open spec fn last_rank(white: bool) -> u64 {
    if white {
        Tables::RANK_8
    } else {
        Tables::RANK_1
    }
}

/// A pawn move reaching the last rank becomes its four promotions (queen,
/// rook, bishop, knight); any other move stays as it is.
pub open spec fn with_promotions(mv: MoveRep, last: u64) -> Seq<MoveRep> {
    if mv.ending_square & last == 0 {
        seq![mv]
    } else {
        seq![
            MoveRep { promotion: Some(Promotion::Queen), ..mv },
            MoveRep { promotion: Some(Promotion::Rook), ..mv },
            MoveRep { promotion: Some(Promotion::Bishop), ..mv },
            MoveRep { promotion: Some(Promotion::Knight), ..mv },
        ]
    }
}

/// The squares a piece on `s` may move to, by kind of target set.
pub open spec fn targets_spec(b: BoardModel, t: Tables, white: bool, mode: int, s: int) -> u64 {
    let own = own_occupancy(b, white);
    let occ = b.occupancy();
    let pawn_attacks = if white {
        white_pawn_attack_spec(s)
    } else {
        black_pawn_attack_spec(s)
    };
    if mode == PUSH_TARGETS {
        if white {
            white_pawn_push_spec(s)
        } else {
            black_pawn_push_spec(s)
        }
    } else if mode == CAPTURE_TARGETS {
        pawn_attacks & own_occupancy(b, !white)
    } else if mode == EN_PASSANT_TARGETS {
        pawn_attacks & b.en_passant_target
    } else if mode == KNIGHT_TARGETS {
        knight_attack_spec(s) & !own
    } else if mode == ROOK_TARGETS {
        t.rook_lookup(s, occ) & !own
    } else if mode == BISHOP_TARGETS {
        t.bishop_lookup(s, occ) & !own
    } else {
        king_attack_spec(s) & !own
    }
}

/// Whether a move of a piece from `from` keeps the king safe from pins:
/// the piece is not pinned, or the king stays safe after the move.
pub open spec fn pin_ok(b: BoardModel, t: Tables, pinned: u64, king: u64, mv: MoveRep) -> bool {
    mv.starting_square & pinned == 0 || pin_safe_spec(b, t, king, mv)
}

/// The moves of a piece of kind `kind` from square `s` to square `e`.
pub open spec fn step_spec(
    b: BoardModel,
    t: Tables,
    pinned: u64,
    king: u64,
    white: bool,
    mode: int,
    kind: PieceType,
    s: int,
    e: int,
) -> Seq<MoveRep> {
    let from = sq_bit(s);
    let to = sq_bit(e);
    let occ = b.occupancy();
    if mode == PUSH_TARGETS {
        // A double push may not jump over a piece
        let jumps = if white {
            to >> 16u64 == from && (to >> 8u64) & occ != 0
        } else {
            to << 16u64 == from && (to << 8u64) & occ != 0
        };
        let mv = MoveRep {
            starting_square: from,
            ending_square: to,
            promotion: None,
            moved_type: PieceType::Pawn,
            attacked_type: b.piece_type_at(to),
        };
        if !jumps && to & occ == 0 && pin_ok(b, t, pinned, king, mv) {
            with_promotions(mv, last_rank(white))
        } else {
            seq![]
        }
    } else if mode == CAPTURE_TARGETS {
        let mv = MoveRep {
            starting_square: from,
            ending_square: to,
            promotion: None,
            moved_type: PieceType::Pawn,
            attacked_type: b.piece_type_at(to),
        };
        if pin_ok(b, t, pinned, king, mv) {
            with_promotions(mv, last_rank(white))
        } else {
            seq![]
        }
    } else if mode == EN_PASSANT_TARGETS {
        let mv = MoveRep {
            starting_square: from,
            ending_square: to,
            promotion: None,
            moved_type: PieceType::Pawn,
            attacked_type: Some(PieceType::Pawn),
        };
        // Both conditions: an en passant capture can uncover the king
        if from & pinned == 0 && pin_safe_spec(b, t, king, mv) {
            seq![mv]
        } else {
            seq![]
        }
    } else {
        let mv = MoveRep {
            starting_square: from,
            ending_square: to,
            promotion: None,
            moved_type: kind,
            attacked_type: b.piece_type_at(to),
        };
        let safe_square = mode != KING_TARGETS || attack_mask_spec(b, t, !white, occ) & to == 0;
        if safe_square && pin_ok(b, t, pinned, king, mv) {
            seq![mv]
        } else {
            seq![]
        }
    }
}

/// The moves from square `s` to each square of `targets`, lowest first.
pub open spec fn over_targets(
    b: BoardModel,
    t: Tables,
    pinned: u64,
    king: u64,
    white: bool,
    mode: int,
    kind: PieceType,
    s: int,
    targets: u64,
) -> Seq<MoveRep>
    decreases targets,
{
    if targets == 0 {
        seq![]
    } else {
        proof {
            lemma_clear_lsb_smaller(targets);
        }
        step_spec(b, t, pinned, king, white, mode, kind, s, lsb(targets)) + over_targets(
            b,
            t,
            pinned,
            king,
            white,
            mode,
            kind,
            s,
            clear_lsb(targets),
        )
    }
}

/// The moves of the pieces on the squares of `froms`, lowest first.
pub open spec fn over_sources(
    b: BoardModel,
    t: Tables,
    pinned: u64,
    king: u64,
    white: bool,
    mode: int,
    kind: PieceType,
    froms: u64,
) -> Seq<MoveRep>
    decreases froms,
{
    if froms == 0 {
        seq![]
    } else {
        proof {
            lemma_clear_lsb_smaller(froms);
        }
        let s = lsb(froms);
        over_targets(b, t, pinned, king, white, mode, kind, s, targets_spec(b, t, white, mode, s))
            + over_sources(b, t, pinned, king, white, mode, kind, clear_lsb(froms))
    }
}

/// The pawn moves of `white`: pushes, captures, then en passant captures.
pub open spec fn pawn_moves_spec(
    b: BoardModel,
    t: Tables,
    pinned: u64,
    king: u64,
    white: bool,
) -> Seq<MoveRep> {
    let pawns = b.bb(white, PieceType::Pawn);
    let ep = b.en_passant_target;
    let ep_sources = if white {
        black_pawn_attack_spec(lsb(ep))
    } else {
        white_pawn_attack_spec(lsb(ep))
    };
    over_sources(b, t, pinned, king, white, PUSH_TARGETS as int, PieceType::Pawn, pawns)
        + over_sources(b, t, pinned, king, white, CAPTURE_TARGETS as int, PieceType::Pawn, pawns)
        + if ep != 0 {
        over_sources(
            b,
            t,
            pinned,
            king,
            white,
            EN_PASSANT_TARGETS as int,
            PieceType::Pawn,
            pawns & ep_sources,
        )
    } else {
        seq![]
    }
}

/// Appends the move, or its four promotions when it reaches `last`.
fn push_with_promotions(mv: MoveRep, last: u64, moves: &mut Vec<MoveRep>)
    ensures
        final(moves)@ == old(moves)@ + with_promotions(mv, last),
{
    if mv.ending_square & last == 0 {
        moves.push(mv);
    } else {
        let mut queen_promotion = mv;
        queen_promotion.promotion = Some(Promotion::Queen);
        let mut rook_promotion = mv;
        rook_promotion.promotion = Some(Promotion::Rook);
        let mut bishop_promotion = mv;
        bishop_promotion.promotion = Some(Promotion::Bishop);
        let mut knight_promotion = mv;
        knight_promotion.promotion = Some(Promotion::Knight);
        moves.push(queen_promotion);
        moves.push(rook_promotion);
        moves.push(bishop_promotion);
        moves.push(knight_promotion);
    }
    assert(final(moves)@ =~= old(moves)@ + with_promotions(mv, last));
}

/// The squares a piece on `s` may move to.
fn targets_of(board: &BoardState, tables: &Tables, white: bool, mode: u8, s: usize) -> (r: u64)
    requires
        tables.wf(),
        s < 64,
    ensures
        r == targets_spec(board@, *tables, white, mode as int, s as int),
{
    let own = if white {
        board.white_occupancy()
    } else {
        board.black_occupancy()
    };
    if mode == PUSH_TARGETS {
        if white {
            tables.white_pawn_push[s]
        } else {
            tables.black_pawn_push[s]
        }
    } else if mode == CAPTURE_TARGETS || mode == EN_PASSANT_TARGETS {
        let pawn_attacks = if white {
            tables.white_pawn_attacks[s]
        } else {
            tables.black_pawn_attacks[s]
        };
        if mode == CAPTURE_TARGETS {
            let opponents = if white {
                board.black_occupancy()
            } else {
                board.white_occupancy()
            };
            pawn_attacks & opponents
        } else {
            pawn_attacks & board.en_passant_target
        }
    } else if mode == KNIGHT_TARGETS {
        tables.knight_attacks[s] & !own
    } else if mode == ROOK_TARGETS {
        tables.get_rook_attack(s, board.occupancy()) & !own
    } else if mode == BISHOP_TARGETS {
        tables.get_bishop_attack(s, board.occupancy()) & !own
    } else {
        tables.king_attacks[s] & !own
    }
}

/// Appends the moves of a piece from square `s` to square `e`.
fn step_moves(
    board: &BoardState,
    tables: &Tables,
    pinned: u64,
    king: u64,
    white: bool,
    mode: u8,
    kind: PieceType,
    s: usize,
    e: usize,
    moves: &mut Vec<MoveRep>,
)
    requires
        tables.wf(),
        s < 64,
        e < 64,
        king != 0,
    ensures
        final(moves)@ == old(moves)@ + step_spec(
            board@,
            *tables,
            pinned,
            king,
            white,
            mode as int,
            kind,
            s as int,
            e as int,
        ),
{
    let from: u64 = 1 << s;
    let to: u64 = 1 << e;
    let occupancy = board.occupancy();
    let last = if white {
        Tables::RANK_8
    } else {
        Tables::RANK_1
    };
    if mode == PUSH_TARGETS {
        let attacked_type = board.get_piece_type(to);
        // Check that a double push does not skip over a piece
        let jumps = if white {
            (to >> 16) == from && (to >> 8) & occupancy != 0
        } else {
            (to << 16) == from && (to << 8) & occupancy != 0
        };
        if !jumps && to & occupancy == 0 {
            let push = MoveRep::new(from, to, None, PieceType::Pawn, attacked_type);
            if push.starting_square & pinned == 0 || board.pin_safe(tables, king, &push) {
                push_with_promotions(push, last, moves);
            }
        }
    } else if mode == CAPTURE_TARGETS {
        let attacked_type = board.get_piece_type(to);
        let attack = MoveRep::new(from, to, None, PieceType::Pawn, attacked_type);
        if attack.starting_square & pinned == 0 || board.pin_safe(tables, king, &attack) {
            push_with_promotions(attack, last, moves);
        }
    } else if mode == EN_PASSANT_TARGETS {
        let attack = MoveRep::new(from, to, None, PieceType::Pawn, Some(PieceType::Pawn));
        // AND rather than OR: an en passant capture can uncover an attack
        if attack.starting_square & pinned == 0 && board.pin_safe(tables, king, &attack) {
            moves.push(attack);
        }
    } else {
        let attacked_type = board.get_piece_type(to);
        let attack = MoveRep::new(from, to, None, kind, attacked_type);
        let safe_square = if mode == KING_TARGETS {
            let enemy_attacks = if white {
                board.black_attack_mask(tables)
            } else {
                board.white_attack_mask(tables)
            };
            enemy_attacks & to == 0
        } else {
            true
        };
        if safe_square && (attack.starting_square & pinned == 0 || board.pin_safe(
            tables,
            king,
            &attack,
        )) {
            moves.push(attack);
        }
    }
    assert(final(moves)@ =~= old(moves)@ + step_spec(
        board@,
        *tables,
        pinned,
        king,
        white,
        mode as int,
        kind,
        s as int,
        e as int,
    ));
}

/// Appends the moves of the pieces on the squares of `froms`, source by
/// source and target by target, lowest first.
fn gather(
    board: &BoardState,
    tables: &Tables,
    pinned: u64,
    king: u64,
    white: bool,
    mode: u8,
    kind: PieceType,
    froms: u64,
    moves: &mut Vec<MoveRep>,
)
    requires
        tables.wf(),
        king != 0,
    ensures
        final(moves)@ == old(moves)@ + over_sources(
            board@,
            *tables,
            pinned,
            king,
            white,
            mode as int,
            kind,
            froms,
        ),
{
    let ghost b = board@;
    let ghost t = *tables;
    let ghost m0 = moves@;
    let mut sources = froms;
    while sources != 0
        invariant
            tables.wf(),
            king != 0,
            b == board@,
            t == *tables,
            m0 + over_sources(b, t, pinned, king, white, mode as int, kind, froms) == moves@
                + over_sources(b, t, pinned, king, white, mode as int, kind, sources),
        decreases sources,
    {
        let ghost before = sources;
        let start_square = pop_lsb(&mut sources);
        let mut targets = targets_of(board, tables, white, mode, start_square);
        let ghost all_targets = targets;
        let ghost m1 = moves@;
        while targets != 0
            invariant
                tables.wf(),
                king != 0,
                b == board@,
                t == *tables,
                start_square < 64,
                m1 + over_targets(
                    b,
                    t,
                    pinned,
                    king,
                    white,
                    mode as int,
                    kind,
                    start_square as int,
                    all_targets,
                ) == moves@ + over_targets(
                    b,
                    t,
                    pinned,
                    king,
                    white,
                    mode as int,
                    kind,
                    start_square as int,
                    targets,
                ),
            decreases targets,
        {
            let ghost tb = targets;
            let ghost mb = moves@;
            let end_square = pop_lsb(&mut targets);
            step_moves(
                board,
                tables,
                pinned,
                king,
                white,
                mode,
                kind,
                start_square,
                end_square,
                moves,
            );
            proof {
                let st = step_spec(
                    b,
                    t,
                    pinned,
                    king,
                    white,
                    mode as int,
                    kind,
                    start_square as int,
                    end_square as int,
                );
                let rest = over_targets(
                    b,
                    t,
                    pinned,
                    king,
                    white,
                    mode as int,
                    kind,
                    start_square as int,
                    targets,
                );
                assert(mb + (st + rest) =~= (mb + st) + rest);
            }
        }
        proof {
            let here = over_targets(
                b,
                t,
                pinned,
                king,
                white,
                mode as int,
                kind,
                start_square as int,
                all_targets,
            );
            let rest = over_sources(b, t, pinned, king, white, mode as int, kind, sources);
            assert(moves@ =~= m1 + here);
            assert(m1 + (here + rest) =~= (m1 + here) + rest);
        }
    }
    assert(moves@ =~= m0 + over_sources(
        b,
        t,
        pinned,
        king,
        white,
        mode as int,
        kind,
        froms,
    ));
}

/// Appends the pawn moves of `white`: pushes, captures, en passant.
fn pawn_moves(
    board: &BoardState,
    tables: &Tables,
    pinned_pieces: u64,
    king: u64,
    white: bool,
    moves: &mut Vec<MoveRep>,
)
    requires
        tables.wf(),
        king != 0,
    ensures
        final(moves)@ == old(moves)@ + pawn_moves_spec(board@, *tables, pinned_pieces, king, white),
{
    let ghost m0 = moves@;
    let pawns = if white {
        board.white_pawns
    } else {
        board.black_pawns
    };
    gather(board, tables, pinned_pieces, king, white, PUSH_TARGETS, PieceType::Pawn, pawns, moves);
    let ghost m1 = moves@;
    gather(board, tables, pinned_pieces, king, white, CAPTURE_TARGETS, PieceType::Pawn, pawns, moves);
    let ghost m2 = moves@;
    if board.en_passant_target != 0 {
        // Pawns that could capture onto the target: look backward with the
        // other colour's attacks
        let ep_index = board.en_passant_target.trailing_zeros() as usize;
        let sources = if white {
            tables.black_pawn_attacks[ep_index]
        } else {
            tables.white_pawn_attacks[ep_index]
        };
        gather(
            board,
            tables,
            pinned_pieces,
            king,
            white,
            EN_PASSANT_TARGETS,
            PieceType::Pawn,
            pawns & sources,
            moves,
        );
    }
    assert(moves@ =~= m0 + pawn_moves_spec(board@, *tables, pinned_pieces, king, white));
}

/// Appends white's pawn moves.
fn white_pawn_moves(
    board: &BoardState,
    tables: &Tables,
    pinned_pieces: u64,
    king: u64,
    moves: &mut Vec<MoveRep>,
)
    requires
        tables.wf(),
        king != 0,
    ensures
        final(moves)@ == old(moves)@ + pawn_moves_spec(board@, *tables, pinned_pieces, king, true),
{
    pawn_moves(board, tables, pinned_pieces, king, true, moves);
}

/// Appends black's pawn moves.
fn black_pawn_moves(
    board: &BoardState,
    tables: &Tables,
    pinned_pieces: u64,
    king: u64,
    moves: &mut Vec<MoveRep>,
)
    requires
        tables.wf(),
        king != 0,
    ensures
        final(moves)@ == old(moves)@ + pawn_moves_spec(board@, *tables, pinned_pieces, king, false),
{
    pawn_moves(board, tables, pinned_pieces, king, false, moves);
}


/// The moves of the knights, rooks, bishops, queens (rook-like, then
/// bishop-like) and king of `white`, in that order.
pub open spec fn piece_moves_spec(
    b: BoardModel,
    t: Tables,
    pinned: u64,
    king: u64,
    white: bool,
) -> Seq<MoveRep> {
    over_sources(
        b,
        t,
        pinned,
        king,
        white,
        KNIGHT_TARGETS as int,
        PieceType::Knight,
        b.bb(white, PieceType::Knight),
    ) + over_sources(
        b,
        t,
        pinned,
        king,
        white,
        ROOK_TARGETS as int,
        PieceType::Rook,
        b.bb(white, PieceType::Rook),
    ) + over_sources(
        b,
        t,
        pinned,
        king,
        white,
        BISHOP_TARGETS as int,
        PieceType::Bishop,
        b.bb(white, PieceType::Bishop),
    ) + over_sources(
        b,
        t,
        pinned,
        king,
        white,
        ROOK_TARGETS as int,
        PieceType::Queen,
        b.bb(white, PieceType::Queen),
    ) + over_sources(
        b,
        t,
        pinned,
        king,
        white,
        BISHOP_TARGETS as int,
        PieceType::Queen,
        b.bb(white, PieceType::Queen),
    ) + over_sources(
        b,
        t,
        pinned,
        king,
        white,
        KING_TARGETS as int,
        PieceType::King,
        b.bb(white, PieceType::King),
    )
}

/// Appends white's knight moves.
fn white_knight_attacks(
    board: &BoardState,
    tables: &Tables,
    pinned_pieces: u64,
    king: u64,
    moves: &mut Vec<MoveRep>,
)
    requires
        tables.wf(),
        king != 0,
    ensures
        final(moves)@ == old(moves)@ + over_sources(
            board@,
            *tables,
            pinned_pieces,
            king,
            true,
            KNIGHT_TARGETS as int,
            PieceType::Knight,
            board@.white_knights,
        ),
{
    gather(board, tables, pinned_pieces, king, true, KNIGHT_TARGETS, PieceType::Knight, board.white_knights, moves);
}

/// Appends white's rook moves.
fn white_rook_attacks(
    board: &BoardState,
    tables: &Tables,
    pinned_pieces: u64,
    king: u64,
    moves: &mut Vec<MoveRep>,
)
    requires
        tables.wf(),
        king != 0,
    ensures
        final(moves)@ == old(moves)@ + over_sources(
            board@,
            *tables,
            pinned_pieces,
            king,
            true,
            ROOK_TARGETS as int,
            PieceType::Rook,
            board@.white_rooks,
        ),
{
    gather(board, tables, pinned_pieces, king, true, ROOK_TARGETS, PieceType::Rook, board.white_rooks, moves);
}

/// Appends white's bishop moves.
fn white_bishop_attacks(
    board: &BoardState,
    tables: &Tables,
    pinned_pieces: u64,
    king: u64,
    moves: &mut Vec<MoveRep>,
)
    requires
        tables.wf(),
        king != 0,
    ensures
        final(moves)@ == old(moves)@ + over_sources(
            board@,
            *tables,
            pinned_pieces,
            king,
            true,
            BISHOP_TARGETS as int,
            PieceType::Bishop,
            board@.white_bishops,
        ),
{
    gather(board, tables, pinned_pieces, king, true, BISHOP_TARGETS, PieceType::Bishop, board.white_bishops, moves);
}

/// Appends white's queen moves: rook-like first, then bishop-like.
fn white_queen_attacks(
    board: &BoardState,
    tables: &Tables,
    pinned_pieces: u64,
    king: u64,
    moves: &mut Vec<MoveRep>,
)
    requires
        tables.wf(),
        king != 0,
    ensures
        final(moves)@ == old(moves)@ + over_sources(
            board@,
            *tables,
            pinned_pieces,
            king,
            true,
            ROOK_TARGETS as int,
            PieceType::Queen,
            board@.white_queens,
        ) + over_sources(
            board@,
            *tables,
            pinned_pieces,
            king,
            true,
            BISHOP_TARGETS as int,
            PieceType::Queen,
            board@.white_queens,
        ),
{
    let ghost m0 = moves@;
    gather(board, tables, pinned_pieces, king, true, ROOK_TARGETS, PieceType::Queen, board.white_queens, moves);
    gather(board, tables, pinned_pieces, king, true, BISHOP_TARGETS, PieceType::Queen, board.white_queens, moves);
    assert(moves@ =~= m0 + over_sources(
        board@,
        *tables,
        pinned_pieces,
        king,
        true,
        ROOK_TARGETS as int,
        PieceType::Queen,
        board@.white_queens,
    ) + over_sources(
        board@,
        *tables,
        pinned_pieces,
        king,
        true,
        BISHOP_TARGETS as int,
        PieceType::Queen,
        board@.white_queens,
    ));
}

/// Appends white's king moves.
fn white_king_attacks(
    board: &BoardState,
    tables: &Tables,
    pinned_pieces: u64,
    king: u64,
    moves: &mut Vec<MoveRep>,
)
    requires
        tables.wf(),
        king != 0,
    ensures
        final(moves)@ == old(moves)@ + over_sources(
            board@,
            *tables,
            pinned_pieces,
            king,
            true,
            KING_TARGETS as int,
            PieceType::King,
            board@.white_king,
        ),
{
    gather(board, tables, pinned_pieces, king, true, KING_TARGETS, PieceType::King, board.white_king, moves);
}

/// Appends black's knight moves.
fn black_knight_attacks(
    board: &BoardState,
    tables: &Tables,
    pinned_pieces: u64,
    king: u64,
    moves: &mut Vec<MoveRep>,
)
    requires
        tables.wf(),
        king != 0,
    ensures
        final(moves)@ == old(moves)@ + over_sources(
            board@,
            *tables,
            pinned_pieces,
            king,
            false,
            KNIGHT_TARGETS as int,
            PieceType::Knight,
            board@.black_knights,
        ),
{
    gather(board, tables, pinned_pieces, king, false, KNIGHT_TARGETS, PieceType::Knight, board.black_knights, moves);
}

/// Appends black's rook moves.
fn black_rook_attacks(
    board: &BoardState,
    tables: &Tables,
    pinned_pieces: u64,
    king: u64,
    moves: &mut Vec<MoveRep>,
)
    requires
        tables.wf(),
        king != 0,
    ensures
        final(moves)@ == old(moves)@ + over_sources(
            board@,
            *tables,
            pinned_pieces,
            king,
            false,
            ROOK_TARGETS as int,
            PieceType::Rook,
            board@.black_rooks,
        ),
{
    gather(board, tables, pinned_pieces, king, false, ROOK_TARGETS, PieceType::Rook, board.black_rooks, moves);
}

/// Appends black's bishop moves.
fn black_bishop_attacks(
    board: &BoardState,
    tables: &Tables,
    pinned_pieces: u64,
    king: u64,
    moves: &mut Vec<MoveRep>,
)
    requires
        tables.wf(),
        king != 0,
    ensures
        final(moves)@ == old(moves)@ + over_sources(
            board@,
            *tables,
            pinned_pieces,
            king,
            false,
            BISHOP_TARGETS as int,
            PieceType::Bishop,
            board@.black_bishops,
        ),
{
    gather(board, tables, pinned_pieces, king, false, BISHOP_TARGETS, PieceType::Bishop, board.black_bishops, moves);
}

/// Appends black's queen moves: rook-like first, then bishop-like.
fn black_queen_attacks(
    board: &BoardState,
    tables: &Tables,
    pinned_pieces: u64,
    king: u64,
    moves: &mut Vec<MoveRep>,
)
    requires
        tables.wf(),
        king != 0,
    ensures
        final(moves)@ == old(moves)@ + over_sources(
            board@,
            *tables,
            pinned_pieces,
            king,
            false,
            ROOK_TARGETS as int,
            PieceType::Queen,
            board@.black_queens,
        ) + over_sources(
            board@,
            *tables,
            pinned_pieces,
            king,
            false,
            BISHOP_TARGETS as int,
            PieceType::Queen,
            board@.black_queens,
        ),
{
    let ghost m0 = moves@;
    gather(board, tables, pinned_pieces, king, false, ROOK_TARGETS, PieceType::Queen, board.black_queens, moves);
    gather(board, tables, pinned_pieces, king, false, BISHOP_TARGETS, PieceType::Queen, board.black_queens, moves);
    assert(moves@ =~= m0 + over_sources(
        board@,
        *tables,
        pinned_pieces,
        king,
        false,
        ROOK_TARGETS as int,
        PieceType::Queen,
        board@.black_queens,
    ) + over_sources(
        board@,
        *tables,
        pinned_pieces,
        king,
        false,
        BISHOP_TARGETS as int,
        PieceType::Queen,
        board@.black_queens,
    ));
}

/// Appends black's king moves.
fn black_king_attacks(
    board: &BoardState,
    tables: &Tables,
    pinned_pieces: u64,
    king: u64,
    moves: &mut Vec<MoveRep>,
)
    requires
        tables.wf(),
        king != 0,
    ensures
        final(moves)@ == old(moves)@ + over_sources(
            board@,
            *tables,
            pinned_pieces,
            king,
            false,
            KING_TARGETS as int,
            PieceType::King,
            board@.black_king,
        ),
{
    gather(board, tables, pinned_pieces, king, false, KING_TARGETS, PieceType::King, board.black_king, moves);
}

/// Appends the moves of the knights, rooks, bishops, queens and king.
#[verifier::rlimit(50)]
#[verifier::spinoff_prover]
fn piece_moves(
    board: &BoardState,
    tables: &Tables,
    pinned_pieces: u64,
    king: u64,
    white: bool,
    moves: &mut Vec<MoveRep>,
)
    requires
        tables.wf(),
        king != 0,
    ensures
        final(moves)@ == old(moves)@ + piece_moves_spec(board@, *tables, pinned_pieces, king, white),
{
    let ghost b = board@;
    let ghost t = *tables;
    let ghost m0 = moves@;
    if white {
        white_knight_attacks(board, tables, pinned_pieces, king, moves);
        white_rook_attacks(board, tables, pinned_pieces, king, moves);
        white_bishop_attacks(board, tables, pinned_pieces, king, moves);
        white_queen_attacks(board, tables, pinned_pieces, king, moves);
        white_king_attacks(board, tables, pinned_pieces, king, moves);
    } else {
        black_knight_attacks(board, tables, pinned_pieces, king, moves);
        black_rook_attacks(board, tables, pinned_pieces, king, moves);
        black_bishop_attacks(board, tables, pinned_pieces, king, moves);
        black_queen_attacks(board, tables, pinned_pieces, king, moves);
        black_king_attacks(board, tables, pinned_pieces, king, moves);
    }
    proof {
        let s1 = over_sources(b, t, pinned_pieces, king, white, KNIGHT_TARGETS as int, PieceType::Knight, b.bb(white, PieceType::Knight));
        let s2 = over_sources(b, t, pinned_pieces, king, white, ROOK_TARGETS as int, PieceType::Rook, b.bb(white, PieceType::Rook));
        let s3 = over_sources(b, t, pinned_pieces, king, white, BISHOP_TARGETS as int, PieceType::Bishop, b.bb(white, PieceType::Bishop));
        let s4 = over_sources(b, t, pinned_pieces, king, white, ROOK_TARGETS as int, PieceType::Queen, b.bb(white, PieceType::Queen));
        let s5 = over_sources(b, t, pinned_pieces, king, white, BISHOP_TARGETS as int, PieceType::Queen, b.bb(white, PieceType::Queen));
        let s6 = over_sources(b, t, pinned_pieces, king, white, KING_TARGETS as int, PieceType::King, b.bb(white, PieceType::King));
        assert(piece_moves_spec(b, t, pinned_pieces, king, white) == s1 + s2 + s3 + s4 + s5 + s6);
        assert(moves@ == m0 + s1 + s2 + s3 + (s4 + s5) + s6);
        assert(m0 + s1 + s2 + s3 + (s4 + s5) + s6 =~= m0 + (s1 + s2 + s3 + s4 + s5 + s6));
    }
    assert(moves@ =~= m0 + piece_moves_spec(board@, *tables, pinned_pieces, king, white));
}

/// The castling moves of `white`: queenside, then kingside, each when the
/// right is held, the king and the two squares it crosses are not attacked
/// (as seen by the attackers of each square), and the squares between king
/// and rook are empty.
pub open spec fn castle_moves_spec(b: BoardModel, t: Tables, white: bool) -> Seq<MoveRep> {
    let k = b.bb(white, PieceType::King);
    let occ = b.occupancy();
    let (queenside, kingside) = if white {
        (b.white_queenside_castle_rights, b.white_kingside_castle_rights)
    } else {
        (b.black_queenside_castle_rights, b.black_kingside_castle_rights)
    };
    let (queen_gap, king_gap) = if white {
        (0x70u64, 0x6u64)
    } else {
        (0x7000000000000000u64, 0x600000000000000u64)
    };
    let (start, queen_end, king_end) = if white {
        (1u64 << Tables::E1, 1u64 << Tables::C1, 1u64 << Tables::G1)
    } else {
        (1u64 << Tables::E8, 1u64 << Tables::C8, 1u64 << Tables::G8)
    };
    let q = queenside && attackers_spec(b, t, !white, k) == 0 && attackers_spec(
        b,
        t,
        !white,
        k << 1u64,
    ) == 0 && attackers_spec(b, t, !white, k << 2u64) == 0 && occ & queen_gap == 0;
    let kk = kingside && attackers_spec(b, t, !white, k) == 0 && attackers_spec(
        b,
        t,
        !white,
        k >> 1u64,
    ) == 0 && attackers_spec(b, t, !white, k >> 2u64) == 0 && occ & king_gap == 0;
    let castle = |end: u64|
        MoveRep {
            starting_square: start,
            ending_square: end,
            promotion: Some(Promotion::Castle),
            moved_type: PieceType::King,
            attacked_type: None,
        };
    (if q {
        seq![castle(queen_end)]
    } else {
        seq![]
    }) + (if kk {
        seq![castle(king_end)]
    } else {
        seq![]
    })
}

/// What castling asks of a board: the side to move has a king, and where
/// it holds a castling right, the king's squares one and two steps towards
/// that rook's side lie on the board.
pub open spec fn castle_ok(b: BoardModel) -> bool {
    let w = b.white_to_move;
    let k = b.bb(w, PieceType::King);
    let (queenside, kingside) = if w {
        (b.white_queenside_castle_rights, b.white_kingside_castle_rights)
    } else {
        (b.black_queenside_castle_rights, b.black_kingside_castle_rights)
    };
    &&& k != 0
    &&& queenside ==> k << 1u64 != 0 && k << 2u64 != 0
    &&& kingside ==> k >> 1u64 != 0 && k >> 2u64 != 0
}

/// What generation asks of a board: the side to move has a king, and,
/// when that king is not in check (castling is only tried then), what
/// castling asks.
pub open spec fn gen_ok(b: BoardModel, t: Tables) -> bool {
    &&& b.bb(b.white_to_move, PieceType::King) != 0
    &&& !in_check_spec(b, t, b.white_to_move) ==> castle_ok(b)
}

/// Appends the castling moves of `white`.
fn castle_moves(board: &BoardState, tables: &Tables, white: bool, moves: &mut Vec<MoveRep>)
    requires
        tables.wf(),
        castle_ok(board@),
        board@.white_to_move == white,
    ensures
        final(moves)@ == old(moves)@ + castle_moves_spec(board@, *tables, white),
{
    let ghost m0 = moves@;
    let k = if white {
        board.white_king
    } else {
        board.black_king
    };
    let (queenside, kingside) = if white {
        (board.white_queenside_castle_rights, board.white_kingside_castle_rights)
    } else {
        (board.black_queenside_castle_rights, board.black_kingside_castle_rights)
    };
    let (queen_gap, king_gap): (u64, u64) = if white {
        (0x70, 0x6)
    } else {
        (0x7000000000000000, 0x600000000000000)
    };
    let (start, queen_end, king_end): (u64, u64, u64) = if white {
        (1 << Tables::E1, 1 << Tables::C1, 1 << Tables::G1)
    } else {
        (1 << Tables::E8, 1 << Tables::C8, 1 << Tables::G8)
    };
    if queenside || kingside {
        if queenside && board.attacking_for_side(tables, !white, k) == 0
            && board.attacking_for_side(tables, !white, k << 1) == 0
            && board.attacking_for_side(tables, !white, k << 2) == 0 && board.occupancy()
            & queen_gap == 0 {
            let mv = MoveRep::new(start, queen_end, Some(Promotion::Castle), PieceType::King, None);
            moves.push(mv);
        }
        let ghost m1 = moves@;
        if kingside && board.attacking_for_side(tables, !white, k) == 0
            && board.attacking_for_side(tables, !white, k >> 1) == 0
            && board.attacking_for_side(tables, !white, k >> 2) == 0 && board.occupancy()
            & king_gap == 0 {
            let mv = MoveRep::new(start, king_end, Some(Promotion::Castle), PieceType::King, None);
            moves.push(mv);
        }
    }
    assert(moves@ =~= m0 + castle_moves_spec(board@, *tables, white));
}


/// Kinds of per-square step when answering a check.
pub const ATTACK_STEP: u8 = 0;
pub const BLOCK_STEP: u8 = 1;
pub const EN_PASSANT_STEP: u8 = 2;
pub const ESCAPE_STEP: u8 = 3;

/// The side to move's king.
pub open spec fn own_king(b: BoardModel) -> u64 {
    b.bb(b.white_to_move, PieceType::King)
}

/// The four promotions of a move: queen, rook, bishop, knight.
pub open spec fn promotions(mv: MoveRep) -> Seq<MoveRep> {
    seq![
        MoveRep { promotion: Some(Promotion::Queen), ..mv },
        MoveRep { promotion: Some(Promotion::Rook), ..mv },
        MoveRep { promotion: Some(Promotion::Bishop), ..mv },
        MoveRep { promotion: Some(Promotion::Knight), ..mv },
    ]
}

/// The moves that a piece on square `s` contributes, by kind of step:
/// capturing `target` (kings aside; pawns promote on the last rank), moving
/// onto `target` without capture, capturing en passant onto the target, or
/// the king escaping to `s`.
pub open spec fn square_step(
    b: BoardModel,
    t: Tables,
    pinned: u64,
    king: u64,
    target: u64,
    mode: int,
    s: int,
) -> Seq<MoveRep> {
    let w = b.white_to_move;
    let from = sq_bit(s);
    if mode == ATTACK_STEP || mode == BLOCK_STEP {
        match b.piece_type_at(from) {
            Some(p) => {
                let mv = MoveRep {
                    starting_square: from,
                    ending_square: target,
                    promotion: None,
                    moved_type: p,
                    attacked_type: b.piece_type_at(target),
                };
                if mode == BLOCK_STEP {
                    if pin_ok(b, t, pinned, king, mv) {
                        seq![mv]
                    } else {
                        seq![]
                    }
                } else if p == PieceType::King || !pin_ok(b, t, pinned, king, mv) {
                    seq![]
                } else if p == PieceType::Pawn {
                    (if w && target & Tables::RANK_8 != 0 {
                        promotions(mv)
                    } else {
                        seq![]
                    }) + (if !w && target & Tables::RANK_1 != 0 {
                        promotions(mv)
                    } else {
                        seq![]
                    }) + (if target & (Tables::RANK_1 | Tables::RANK_8) == 0 {
                        seq![mv]
                    } else {
                        seq![]
                    })
                } else {
                    seq![mv]
                }
            },
            None => seq![],
        }
    } else if mode == EN_PASSANT_STEP {
        let mv = MoveRep {
            starting_square: from,
            ending_square: b.en_passant_target,
            promotion: None,
            moved_type: PieceType::Pawn,
            attacked_type: Some(PieceType::Pawn),
        };
        if pin_safe_spec(b, t, king, mv) {
            seq![mv]
        } else {
            seq![]
        }
    } else {
        seq![
            MoveRep {
                starting_square: king,
                ending_square: from,
                promotion: None,
                moved_type: PieceType::King,
                attacked_type: b.piece_type_at(from),
            },
        ]
    }
}

/// The steps of the squares of `bb`, lowest first.
pub open spec fn over_squares(
    b: BoardModel,
    t: Tables,
    pinned: u64,
    king: u64,
    target: u64,
    mode: int,
    bb: u64,
) -> Seq<MoveRep>
    decreases bb,
{
    if bb == 0 {
        seq![]
    } else {
        proof {
            lemma_clear_lsb_smaller(bb);
        }
        square_step(b, t, pinned, king, target, mode, lsb(bb)) + over_squares(
            b,
            t,
            pinned,
            king,
            target,
            mode,
            clear_lsb(bb),
        )
    }
}

/// The side to move's captures of the piece on `target`, kings aside.
pub open spec fn attacking_moves_spec(b: BoardModel, t: Tables, target: u64) -> Seq<MoveRep> {
    let w = b.white_to_move;
    let king = own_king(b);
    let pinned = pin_mask_spec(b, t, king, w);
    over_squares(b, t, pinned, king, target, ATTACK_STEP as int, attackers_spec(b, t, w, target))
}

/// The side to move's non-capturing moves onto `target`, the piece on
/// `protect_target` not counted.
pub open spec fn target_blocking_spec(
    b: BoardModel,
    t: Tables,
    target: u64,
    protect_target: u64,
) -> Seq<MoveRep> {
    let w = b.white_to_move;
    let king = own_king(b);
    let pinned = pin_mask_spec(b, t, king, w);
    over_squares(
        b,
        t,
        pinned,
        king,
        target,
        BLOCK_STEP as int,
        blockers_spec(b, t, w, target) & !protect_target,
    )
}

/// The squares between a sliding attacker and the piece it attacks: the
/// attacker's ray met with the same kind of ray from the attacked square
/// (for a queen, rook-like when its rook ray reaches the attacked square).
pub open spec fn blockable_spec(b: BoardModel, t: Tables, protect_target: u64, attacking_target: u64) -> u64 {
    let a = lsb(attacking_target);
    let p = lsb(protect_target);
    let occ = b.occupancy();
    match b.piece_type_at(attacking_target) {
        Some(PieceType::Rook) => t.rook_lookup(a, occ) & t.rook_lookup(p, occ),
        Some(PieceType::Bishop) => t.bishop_lookup(a, occ) & t.bishop_lookup(p, occ),
        Some(PieceType::Queen) => if t.rook_lookup(a, occ) & protect_target != 0 {
            t.rook_lookup(a, occ) & t.rook_lookup(p, occ)
        } else {
            t.bishop_lookup(a, occ) & t.bishop_lookup(p, occ)
        },
        _ => 0,
    }
}

/// The blocking moves for each blockable square, lowest first.
pub open spec fn over_blockable(b: BoardModel, t: Tables, protect_target: u64, bb: u64) -> Seq<
    MoveRep,
>
    decreases bb,
{
    if bb == 0 {
        seq![]
    } else {
        proof {
            lemma_clear_lsb_smaller(bb);
        }
        target_blocking_spec(b, t, sq_bit(lsb(bb)), protect_target) + over_blockable(
            b,
            t,
            protect_target,
            clear_lsb(bb),
        )
    }
}

/// The side to move's moves that block the attack of the piece on
/// `attacking_target` against `protect_target`.
pub open spec fn blocking_moves_spec(
    b: BoardModel,
    t: Tables,
    protect_target: u64,
    attacking_target: u64,
) -> Seq<MoveRep> {
    over_blockable(b, t, protect_target, blockable_spec(b, t, protect_target, attacking_target))
}

/// The squares next to the side to move's king that it may step to: not
/// attacked once the king no longer blocks, and not holding its own piece.
pub open spec fn escape_squares_spec(b: BoardModel, t: Tables) -> u64 {
    let w = b.white_to_move;
    let king = own_king(b);
    king_attack_spec(lsb(king)) & !attack_mask_spec(b, t, !w, b.occupancy() & !king)
        & !own_occupancy(b, w)
}

/// The king's moves to safety, captures of adjacent pieces included.
pub open spec fn king_safety_spec(b: BoardModel, t: Tables) -> Seq<MoveRep> {
    over_squares(b, t, 0, own_king(b), 0, ESCAPE_STEP as int, escape_squares_spec(b, t))
}

/// The en passant captures of a checking pawn: the side to move's pawns
/// that attack the en passant target, when the pawn that just moved is the
/// checker.
pub open spec fn en_passant_answers_spec(b: BoardModel, t: Tables, target: u64) -> Seq<MoveRep> {
    let w = b.white_to_move;
    let ep = b.en_passant_target;
    let behind = if w {
        ep >> 8u64
    } else {
        ep << 8u64
    };
    let sources = if w {
        black_pawn_attack_spec(lsb(ep)) & b.white_pawns
    } else {
        white_pawn_attack_spec(lsb(ep)) & b.black_pawns
    };
    if behind == target {
        over_squares(b, t, 0, own_king(b), target, EN_PASSANT_STEP as int, sources)
    } else {
        seq![]
    }
}

/// Every move the side to move may make. Out of check: pawn moves, then
/// knight, rook, bishop, queen and king moves, then castling. In check: when
/// a single piece gives check, its captures, en passant captures of it, and
/// blocks; then the king's moves to safety.
pub open spec fn gen_spec(b: BoardModel, t: Tables) -> Seq<MoveRep> {
    let w = b.white_to_move;
    let king = own_king(b);
    let pinned = pin_mask_spec(b, t, king, w);
    if !in_check_spec(b, t, w) {
        pawn_moves_spec(b, t, pinned, king, w) + piece_moves_spec(b, t, pinned, king, w)
            + castle_moves_spec(b, t, w)
    } else {
        let target = attackers_spec(b, t, !w, king);
        (if popcount(target) == 1 {
            attacking_moves_spec(b, t, target) + en_passant_answers_spec(b, t, target)
                + blocking_moves_spec(b, t, king, target)
        } else {
            seq![]
        }) + king_safety_spec(b, t)
    }
}

/// Appends the moves a piece on square `s` contributes.
fn square_moves(
    board: &BoardState,
    tables: &Tables,
    pinned: u64,
    king: u64,
    target: u64,
    mode: u8,
    s: usize,
    moves: &mut Vec<MoveRep>,
)
    requires
        tables.wf(),
        s < 64,
        king != 0,
    ensures
        final(moves)@ == old(moves)@ + square_step(
            board@,
            *tables,
            pinned,
            king,
            target,
            mode as int,
            s as int,
        ),
{
    let ghost m0 = moves@;
    let ghost expected = square_step(board@, *tables, pinned, king, target, mode as int, s as int);
    let from: u64 = 1 << s;
    if mode == ATTACK_STEP || mode == BLOCK_STEP {
        let piece_type = board.get_piece_type(from);
        let target_piece_type = board.get_piece_type(target);
        match piece_type {
            Some(p) => {
                let mv = MoveRep {
                    starting_square: from,
                    ending_square: target,
                    promotion: None,
                    moved_type: p,
                    attacked_type: target_piece_type,
                };
                if mode == BLOCK_STEP {
                    if mv.starting_square & pinned == 0 || board.pin_safe(tables, king, &mv) {
                        moves.push(mv);
                    }
                    assert(moves@ =~= m0 + expected);
                } else if mv.moved_type == PieceType::King {
                    // King captures come with the moves to safety
                } else if mv.starting_square & pinned == 0 || board.pin_safe(tables, king, &mv) {
                    if mv.moved_type == PieceType::Pawn {
                        let ghost w = board.white_to_move;
                        let ghost a = if w && target & Tables::RANK_8 != 0 {
                            promotions(mv)
                        } else {
                            seq![]
                        };
                        let ghost c = if !w && target & Tables::RANK_1 != 0 {
                            promotions(mv)
                        } else {
                            seq![]
                        };
                        let ghost d = if target & (Tables::RANK_1 | Tables::RANK_8) == 0 {
                            seq![mv]
                        } else {
                            seq![]
                        };
                        if board.white_to_move && mv.ending_square & Tables::RANK_8 != 0 {
                            push_promotions(mv, moves);
                        }
                        assert(moves@ =~= m0 + a);
                        if !board.white_to_move && mv.ending_square & Tables::RANK_1 != 0 {
                            push_promotions(mv, moves);
                        }
                        assert(moves@ =~= m0 + a + c);
                        if (mv.ending_square & (Tables::RANK_1 | Tables::RANK_8)) == 0 {
                            moves.push(mv);
                        }
                        assert(moves@ =~= m0 + a + c + d);
                        assert(m0 + a + c + d =~= m0 + (a + c + d));
                        assert(expected == a + c + d);
                    } else {
                        moves.push(mv);
                        assert(moves@ =~= m0 + expected);
                    }
                }
            },
            None => {
                assert(moves@ =~= m0 + expected);
            },
        }
    } else if mode == EN_PASSANT_STEP {
        let mv = MoveRep::new(
            from,
            board.en_passant_target,
            None,
            PieceType::Pawn,
            Some(PieceType::Pawn),
        );
        if board.pin_safe(tables, king, &mv) {
            moves.push(mv);
        }
        assert(moves@ =~= m0 + expected);
    } else {
        let attacked_type = board.get_piece_type(from);
        let mv = MoveRep::new(king, from, None, PieceType::King, attacked_type);
        moves.push(mv);
        assert(moves@ =~= m0 + expected);
    }
    assert(moves@ =~= m0 + square_step(
        board@,
        *tables,
        pinned,
        king,
        target,
        mode as int,
        s as int,
    ));
}

/// Appends the four promotions of the move.
fn push_promotions(mv: MoveRep, moves: &mut Vec<MoveRep>)
    ensures
        final(moves)@ == old(moves)@ + promotions(mv),
{
    let mut queen_promotion = mv;
    queen_promotion.promotion = Some(Promotion::Queen);
    let mut rook_promotion = mv;
    rook_promotion.promotion = Some(Promotion::Rook);
    let mut bishop_promotion = mv;
    bishop_promotion.promotion = Some(Promotion::Bishop);
    let mut knight_promotion = mv;
    knight_promotion.promotion = Some(Promotion::Knight);
    moves.push(queen_promotion);
    moves.push(rook_promotion);
    moves.push(bishop_promotion);
    moves.push(knight_promotion);
    assert(final(moves)@ =~= old(moves)@ + promotions(mv));
}

/// Appends the steps of the squares of `bb`, lowest first.
fn collect(
    board: &BoardState,
    tables: &Tables,
    pinned: u64,
    king: u64,
    target: u64,
    mode: u8,
    bb: u64,
    moves: &mut Vec<MoveRep>,
)
    requires
        tables.wf(),
        king != 0,
    ensures
        final(moves)@ == old(moves)@ + over_squares(
            board@,
            *tables,
            pinned,
            king,
            target,
            mode as int,
            bb,
        ),
{
    let ghost b = board@;
    let ghost t = *tables;
    let ghost m0 = moves@;
    let mut rest = bb;
    while rest != 0
        invariant
            tables.wf(),
            king != 0,
            b == board@,
            t == *tables,
            m0 + over_squares(b, t, pinned, king, target, mode as int, bb) == moves@
                + over_squares(b, t, pinned, king, target, mode as int, rest),
        decreases rest,
    {
        let ghost mb = moves@;
        let square = pop_lsb(&mut rest);
        square_moves(board, tables, pinned, king, target, mode, square, moves);
        proof {
            let st = square_step(b, t, pinned, king, target, mode as int, square as int);
            let more = over_squares(b, t, pinned, king, target, mode as int, rest);
            assert(mb + (st + more) =~= (mb + st) + more);
        }
    }
    assert(moves@ =~= m0 + over_squares(b, t, pinned, king, target, mode as int, bb));
}

/// The side to move's king.
fn side_king(board: &BoardState) -> (r: u64)
    ensures
        r == own_king(board@),
{
    if board.white_to_move {
        board.white_king
    } else {
        board.black_king
    }
}

/// Generates the moves that capture the piece on `target`.
pub fn generate_attacking_moves(board: &BoardState, tables: &Tables, target: u64) -> (moves: Vec<
    MoveRep,
>)
    requires
        tables.wf(),
        target != 0,
        own_king(board@) != 0,
    ensures
        moves@ == attacking_moves_spec(board@, *tables, target),
{
    let mut moves: Vec<MoveRep> = Vec::new();
    let king = side_king(board);
    let pinned_pieces = board.pin_mask(tables, king, board.white_to_move);
    let possible_attacks = if board.white_to_move {
        board.white_attacking(tables, target)
    } else {
        board.black_attacking(tables, target)
    };
    collect(board, tables, pinned_pieces, king, target, ATTACK_STEP, possible_attacks, &mut moves);
    assert(moves@ =~= attacking_moves_spec(board@, *tables, target));
    moves
}

/// Generates the moves that move onto (without capturing) the lowest square
/// of `target`, the piece on `protect_target` not counted.
pub fn generate_target_blocking(
    board: &BoardState,
    tables: &Tables,
    target: u64,
    protect_target: u64,
) -> (moves: Vec<MoveRep>)
    requires
        tables.wf(),
        target != 0,
        own_king(board@) != 0,
    ensures
        moves@ == target_blocking_spec(board@, *tables, target, protect_target),
{
    let mut moves: Vec<MoveRep> = Vec::new();
    let king = side_king(board);
    let pinned_pieces = board.pin_mask(tables, king, board.white_to_move);
    let possible = if board.white_to_move {
        board.white_blocking(tables, target)
    } else {
        board.black_blocking(tables, target)
    };
    // The protected piece cannot protect itself
    collect(
        board,
        tables,
        pinned_pieces,
        king,
        target,
        BLOCK_STEP,
        possible & !protect_target,
        &mut moves,
    );
    assert(moves@ =~= target_blocking_spec(board@, *tables, target, protect_target));
    moves
}

/// Generates the moves that block the attack of the piece on
/// `attacking_target` against the piece on `protect_target`.
pub fn generate_blocking_moves(
    board: &BoardState,
    tables: &Tables,
    protect_target: u64,
    attacking_target: u64,
) -> (moves: Vec<MoveRep>)
    requires
        tables.wf(),
        protect_target != 0,
        attacking_target != 0,
        own_king(board@) != 0,
    ensures
        moves@ == blocking_moves_spec(board@, *tables, protect_target, attacking_target),
{
    let ghost b = board@;
    let ghost t = *tables;
    let mut moves: Vec<MoveRep> = Vec::new();
    let attacking_target_index = attacking_target.trailing_zeros() as usize;
    let protect_target_index = protect_target.trailing_zeros() as usize;
    let occupancy = board.occupancy();
    let blockable = match board.get_piece_type(attacking_target) {
        Some(PieceType::Rook) => {
            tables.get_rook_attack(attacking_target_index, occupancy) & tables.get_rook_attack(
                protect_target_index,
                occupancy,
            )
        },
        Some(PieceType::Bishop) => {
            tables.get_bishop_attack(attacking_target_index, occupancy)
                & tables.get_bishop_attack(protect_target_index, occupancy)
        },
        Some(PieceType::Queen) => {
            let attackers_mask_rook = tables.get_rook_attack(attacking_target_index, occupancy);
            // Rook-like when the rook ray reaches the protected piece
            if attackers_mask_rook & protect_target != 0 {
                attackers_mask_rook & tables.get_rook_attack(protect_target_index, occupancy)
            } else {
                tables.get_bishop_attack(attacking_target_index, occupancy)
                    & tables.get_bishop_attack(protect_target_index, occupancy)
            }
        },
        _ => 0,
    };
    assert(blockable == blockable_spec(b, t, protect_target, attacking_target));
    let mut rest = blockable;
    while rest != 0
        invariant
            tables.wf(),
            own_king(board@) != 0,
            b == board@,
            t == *tables,
            over_blockable(b, t, protect_target, blockable) == moves@ + over_blockable(
                b,
                t,
                protect_target,
                rest,
            ),
        decreases rest,
    {
        let ghost mb = moves@;
        let square = pop_lsb(&mut rest);
        let square_mask: u64 = 1 << square;
        assert(square_mask != 0) by (bit_vector)
            requires
                square_mask == 1u64 << square,
                square < 64,
        ;
        let mut more = generate_target_blocking(board, tables, square_mask, protect_target);
        moves.append(&mut more);
        proof {
            let st = target_blocking_spec(b, t, sq_bit(square as int), protect_target);
            let tail = over_blockable(b, t, protect_target, rest);
            assert(mb + (st + tail) =~= (mb + st) + tail);
        }
    }
    assert(moves@ =~= blocking_moves_spec(board@, *tables, protect_target, attacking_target));
    moves
}

/// Generates the king's moves to squares where it is not attacked, captures
/// of adjacent pieces included.
pub fn move_king_to_safety(board: &BoardState, tables: &Tables) -> (moves: Vec<MoveRep>)
    requires
        tables.wf(),
        own_king(board@) != 0,
    ensures
        moves@ == king_safety_spec(board@, *tables),
{
    let mut moves: Vec<MoveRep> = Vec::new();
    let king = side_king(board);
    let king_index = king.trailing_zeros() as usize;
    let safe_squares = if board.white_to_move {
        tables.king_attacks[king_index] & !board.black_attack_mask_with_transparency(tables, king)
            & !board.white_occupancy()
    } else {
        tables.king_attacks[king_index] & !board.white_attack_mask_with_transparency(tables, king)
            & !board.black_occupancy()
    };
    collect(board, tables, 0, king, 0, ESCAPE_STEP, safe_squares, &mut moves);
    assert(moves@ =~= king_safety_spec(board@, *tables));
    moves
}


/// Generates every move the side to move may make.
pub fn generate(board: &BoardState, tables: &Tables) -> (moves: Vec<MoveRep>)
    requires
        tables.wf(),
        gen_ok(board@, *tables),
    ensures
        moves@ == gen_spec(board@, *tables),
{
    let ghost b = board@;
    let ghost t = *tables;
    let mut moves: Vec<MoveRep> = Vec::new();
    let white = board.white_to_move;
    let king = side_king(board);
    // The pieces pinned to the king
    let pinned_pieces = board.pin_mask(tables, king, white);
    let in_check = if white {
        board.white_in_check(tables)
    } else {
        board.black_in_check(tables)
    };
    if !in_check {
        if white {
            white_pawn_moves(board, tables, pinned_pieces, king, &mut moves);
        } else {
            black_pawn_moves(board, tables, pinned_pieces, king, &mut moves);
        }
        let ghost m1 = moves@;
        piece_moves(board, tables, pinned_pieces, king, white, &mut moves);
        let ghost m2 = moves@;
        castle_moves(board, tables, white, &mut moves);
        proof {
            let p1 = pawn_moves_spec(b, t, pinned_pieces, king, white);
            let p2 = piece_moves_spec(b, t, pinned_pieces, king, white);
            let p3 = castle_moves_spec(b, t, white);
            assert(moves@ =~= p1 + p2 + p3);
        }
    } else {
        // In check: capture or block a single checker, or move the king
        let target = board.attacking_for_side(tables, !white, king);
        if target.count_ones() == 1 {
            let ghost target_count = popcount(target);
            assert(target != 0) by {
                if target == 0 {
                    assert(popcount(0) == 0);
                }
            }
            let mut attacks = generate_attacking_moves(board, tables, target);
            moves.append(&mut attacks);
            let ghost m1 = moves@;
            // En passant captures of the checking pawn
            let behind = if white {
                board.en_passant_target >> 8
            } else {
                board.en_passant_target << 8
            };
            if behind == target {
                let ep = board.en_passant_target;
                assert(ep != 0) by {
                    assert(ep >> 8u64 != 0 ==> ep != 0) by (bit_vector);
                    assert(ep << 8u64 != 0 ==> ep != 0) by (bit_vector);
                }
                let en_passant_index = ep.trailing_zeros() as usize;
                let sources = if white {
                    tables.black_pawn_attacks[en_passant_index] & board.white_pawns
                } else {
                    tables.white_pawn_attacks[en_passant_index] & board.black_pawns
                };
                collect(board, tables, 0, king, target, EN_PASSANT_STEP, sources, &mut moves);
            }
            let ghost m2 = moves@;
            let mut blocks = generate_blocking_moves(board, tables, king, target);
            moves.append(&mut blocks);
            proof {
                let a1 = attacking_moves_spec(b, t, target);
                let a2 = en_passant_answers_spec(b, t, target);
                let a3 = blocking_moves_spec(b, t, king, target);
                assert(m1 =~= a1);
                assert(m2 =~= a1 + a2);
                assert(moves@ =~= a1 + a2 + a3);
            }
        }
        let ghost m3 = moves@;
        let mut escapes = move_king_to_safety(board, tables);
        moves.append(&mut escapes);
        assert(moves@ =~= m3 + king_safety_spec(b, t));
    }
    moves
}

/// Gets and removes the lowest set bit, as a square index.
pub fn pop_lsb(bb: &mut u64) -> (r: usize)
    requires
        *old(bb) != 0,
    ensures
        r == lsb(*old(bb)),
        r < 64,
        *final(bb) == clear_lsb(*old(bb)),
        *final(bb) < *old(bb),
{
    proof {
        lemma_lsb_split(*bb);
        lemma_clear_lsb_smaller(*bb);
    }
    let lsb = bb.trailing_zeros() as usize;
    *bb = *bb ^ (1 << lsb);
    lsb
}

} // verus!
