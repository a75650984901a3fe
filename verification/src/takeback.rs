//! Which generated moves `unmake` gives back exactly. On a sound board (each
//! square holds at most one piece, the en passant target and the castling
//! rights agree with the pieces) this holds of every move that generation
//! gives out of check, and in check of every capture of the checking piece,
//! en passant capture of it and king step to safety. Of the moves that block
//! a check nothing is proved here.

use vstd::prelude::*;
use crate::bitboard::{
    lemma_mask_facts,
    lemma_square_facts,
    sq_bit,
    lsb,
    clear_lsb,
    popcount,
    lemma_lsb_split,
    lemma_clear_lsb_smaller,
    lemma_popcount_nonzero,
    lemma_popcount_clear_lsb,
};
use crate::board::{
    BoardModel,
    MoveRep,
    PieceType,
    pieces_apart,
    squares_empty,
    make_undo_ok,
    plain_undo_ok,
    castle_undo_ok,
    make_spec,
    unmake_spec,
    lemma_unmake_undoes_make,
};
use crate::tables::{
    Tables,
    lemma_or_zero,
    white_pawn_push_spec,
    black_pawn_push_spec,
    white_pawn_attack_spec,
    black_pawn_attack_spec,
    knight_attack_spec,
    king_attack_spec,
};
use crate::attacks::{own_occupancy, in_check_spec, attackers_spec, pin_mask_spec};
use crate::generate::{
    targets_spec,
    step_spec,
    over_targets,
    over_sources,
    pawn_moves_spec,
    piece_moves_spec,
    castle_moves_spec,
    gen_spec,
    square_step,
    over_squares,
    own_king,
    attacking_moves_spec,
    en_passant_answers_spec,
    blocking_moves_spec,
    king_safety_spec,
    escape_squares_spec,
    ATTACK_STEP,
    EN_PASSANT_STEP,
    ESCAPE_STEP,
    PUSH_TARGETS,
    CAPTURE_TARGETS,
    EN_PASSANT_TARGETS,
    KNIGHT_TARGETS,
    ROOK_TARGETS,
    BISHOP_TARGETS,
    KING_TARGETS,
};

verus! {

/// Each castling right still held has its king and rook on their home
/// squares.
pub open spec fn rights_sound(b: BoardModel) -> bool {
    &&& b.white_kingside_castle_rights ==> b.white_king & (1u64 << Tables::E1) == (1u64
        << Tables::E1) && b.white_rooks & (1u64 << Tables::H1) == (1u64 << Tables::H1)
    &&& b.white_queenside_castle_rights ==> b.white_king & (1u64 << Tables::E1) == (1u64
        << Tables::E1) && b.white_rooks & (1u64 << Tables::A1) == (1u64 << Tables::A1)
    &&& b.black_kingside_castle_rights ==> b.black_king & (1u64 << Tables::E8) == (1u64
        << Tables::E8) && b.black_rooks & (1u64 << Tables::H8) == (1u64 << Tables::H8)
    &&& b.black_queenside_castle_rights ==> b.black_king & (1u64 << Tables::E8) == (1u64
        << Tables::E8) && b.black_rooks & (1u64 << Tables::A8) == (1u64 << Tables::A8)
}

/// The square behind the en passant target, seen from the side to move:
/// where the pawn that may be taken en passant stands.
pub open spec fn behind_target(b: BoardModel) -> u64 {
    if b.white_to_move {
        b.en_passant_target >> 8u64
    } else {
        b.en_passant_target << 8u64
    }
}

/// The en passant target is empty, or one empty square with an opponent
/// pawn on the square behind it.
pub open spec fn en_passant_sound(b: BoardModel) -> bool {
    let ep = b.en_passant_target;
    ep != 0 ==> {
        &&& 0 <= lsb(ep) < 64
        &&& ep == sq_bit(lsb(ep))
        &&& squares_empty(b, ep)
        &&& behind_target(b) != 0
        &&& b.opponent_bb(PieceType::Pawn) & behind_target(b) == behind_target(b)
    }
}

/// A board that taking back a generated move can rely on: no two pieces on
/// one square, a sound en passant target and sound castling rights, and
/// room on the move stack for one more move.
pub open spec fn board_sound(b: BoardModel) -> bool {
    &&& pieces_apart(b)
    &&& en_passant_sound(b)
    &&& rights_sound(b)
    &&& b.move_stack_pointer < usize::MAX
}

/// Two bitboards sharing no square: one holding all of `e` means the other
/// holds none of it.
proof fn lemma_apart_square(x: u64, y: u64, e: u64)
    requires
        x & y == 0,
        y & e == e,
    ensures
        x & e == 0,
{
    lemma_mask_facts(x, y, 0, 0, e, 0, 0, 0, 0, 0, 0, 0, 0, 0, 0, 0, 0);
}

/// A square's mask is not empty, and a bitboard meeting it holds it.
proof fn lemma_one_square(k: int, x: u64)
    requires
        0 <= k < 64,
    ensures
        sq_bit(k) != 0,
        x & sq_bit(k) != 0 ==> x & sq_bit(k) == sq_bit(k),
{
    lemma_square_facts(k as u64, 0, 0, x);
}

/// A side's occupancy misses `e` exactly when each of its six bitboards
/// does.
proof fn lemma_side_misses(b: BoardModel, w: bool, e: u64)
    ensures
        (own_occupancy(b, w) & e == 0) == (forall|t: PieceType| #[trigger] b.bb(w, t) & e == 0),
{
    lemma_mask_facts(
        0,
        0,
        0,
        0,
        e,
        b.bb(w, PieceType::Pawn),
        b.bb(w, PieceType::Knight),
        b.bb(w, PieceType::Bishop),
        b.bb(w, PieceType::Rook),
        b.bb(w, PieceType::Queen),
        b.bb(w, PieceType::King),
        0,
        0,
        0,
        0,
        0,
        0,
    );
    if own_occupancy(b, w) & e == 0 {
        assert forall|t: PieceType| #[trigger] b.bb(w, t) & e == 0 by {
            match t {
                PieceType::Pawn => {},
                PieceType::Knight => {},
                PieceType::Bishop => {},
                PieceType::Rook => {},
                PieceType::Queen => {},
                PieceType::King => {},
            }
        }
    } else {
        if forall|t: PieceType| #[trigger] b.bb(w, t) & e == 0 {
            assert(b.bb(w, PieceType::Pawn) & e == 0);
            assert(b.bb(w, PieceType::Knight) & e == 0);
            assert(b.bb(w, PieceType::Bishop) & e == 0);
            assert(b.bb(w, PieceType::Rook) & e == 0);
            assert(b.bb(w, PieceType::Queen) & e == 0);
            assert(b.bb(w, PieceType::King) & e == 0);
        }
    }
}

/// On a board with each square holding at most one piece, the kind found on
/// a square the side to move does not occupy is the opponent's piece there,
/// and no other kind of the opponent's stands there.
proof fn lemma_found_is_opponent(b: BoardModel, k: int)
    requires
        pieces_apart(b),
        0 <= k < 64,
        own_occupancy(b, b.white_to_move) & sq_bit(k) == 0,
    ensures
        forall|t: PieceType|
            if b.piece_type_at(sq_bit(k)) == Some(t) {
                #[trigger] b.opponent_bb(t) & sq_bit(k) == sq_bit(k)
            } else {
                b.opponent_bb(t) & sq_bit(k) == 0
            },
{
    let e = sq_bit(k);
    let w = b.white_to_move;
    lemma_side_misses(b, w, e);
    assert(b.bb(w, PieceType::Pawn) & e == 0);
    assert(b.bb(w, PieceType::Knight) & e == 0);
    assert(b.bb(w, PieceType::Bishop) & e == 0);
    assert(b.bb(w, PieceType::Rook) & e == 0);
    assert(b.bb(w, PieceType::Queen) & e == 0);
    assert(b.bb(w, PieceType::King) & e == 0);
    lemma_one_square(k, b.opponent_bb(PieceType::Pawn));
    lemma_one_square(k, b.opponent_bb(PieceType::Knight));
    lemma_one_square(k, b.opponent_bb(PieceType::Bishop));
    lemma_one_square(k, b.opponent_bb(PieceType::Rook));
    lemma_one_square(k, b.opponent_bb(PieceType::Queen));
    lemma_one_square(k, b.opponent_bb(PieceType::King));
    assert forall|t: PieceType|
        if b.piece_type_at(e) == Some(t) {
            #[trigger] b.opponent_bb(t) & e == e
        } else {
            b.opponent_bb(t) & e == 0
        } by {
        match b.piece_type_at(e) {
            Some(u) => {
                if u != t && b.opponent_bb(t) & e != 0 {
                    assert(b.bb(!w, t) & b.bb(!w, u) == 0);
                    lemma_apart_square(b.opponent_bb(t), b.opponent_bb(u), e);
                }
            },
            None => {},
        }
    }
}

/// A move that is not en passant, of the mover's piece on its starting
/// square onto a square the mover does not occupy, naming the kind found
/// there as captured, meets what taking back asks.
proof fn lemma_plain_undo(b: BoardModel, m: MoveRep, k: int)
    requires
        pieces_apart(b),
        0 <= k < 64,
        m.ending_square == sq_bit(k),
        b.bb(b.white_to_move, m.moved_type) & m.starting_square == m.starting_square,
        own_occupancy(b, b.white_to_move) & sq_bit(k) == 0,
        m.attacked_type == b.piece_type_at(sq_bit(k)),
        !b.is_en_passant(m),
    ensures
        plain_undo_ok(b, m),
{
    lemma_side_misses(b, b.white_to_move, sq_bit(k));
    lemma_found_is_opponent(b, k);
}

/// An en passant capture of the mover's pawn onto a sound en passant
/// target meets what taking back asks.
proof fn lemma_en_passant_undo(b: BoardModel, m: MoveRep)
    requires
        pieces_apart(b),
        en_passant_sound(b),
        b.en_passant_target != 0,
        m.ending_square == b.en_passant_target,
        m.moved_type == PieceType::Pawn,
        m.attacked_type == Some(PieceType::Pawn),
        b.bb(b.white_to_move, PieceType::Pawn) & m.starting_square == m.starting_square,
    ensures
        plain_undo_ok(b, m),
{
    let w = b.white_to_move;
    let cap = behind_target(b);
    assert(b.captured_square(m) == cap);
    assert forall|t: PieceType| #[trigger] b.bb(w, t) & m.ending_square == 0 && b.bb(w, t) & cap == 0 by {
        assert(b.bb(w, t) & b.bb(!w, PieceType::Pawn) == 0);
        lemma_apart_square(b.bb(w, t), b.bb(!w, PieceType::Pawn), cap);
    }
    assert forall|t: PieceType|
        if m.attacked_type == Some(t) {
            #[trigger] b.opponent_bb(t) & cap == cap
        } else {
            b.opponent_bb(t) & cap == 0
        } by {
        if t != PieceType::Pawn {
            assert(b.bb(!w, t) & b.bb(!w, PieceType::Pawn) == 0);
            lemma_apart_square(b.bb(!w, t), b.bb(!w, PieceType::Pawn), cap);
        }
    }
}

/// Where a pawn push from `s` can land: one rank forward, or two from the
/// home rank.
proof fn lemma_push_square(white: bool, s: int, k: int)
    requires
        0 <= s < 64,
        0 <= k < 64,
        sq_bit(k) & (if white {
            white_pawn_push_spec(s)
        } else {
            black_pawn_push_spec(s)
        }) == sq_bit(k),
    ensures
        white ==> k == s + 8 || (k == s + 16 && s / 8 == 1),
        !white ==> k == s - 8 || (k == s - 16 && s / 8 == 6),
{
    let e = sq_bit(k);
    let r = s / 8;
    lemma_one_square(k, 0);
    lemma_mask_facts(e, 0, 0, 0, 0, 0, 0, 0, 0, 0, 0, 0, 0, 0, 0, 0, 0);
    assert(s == 8 * r + s % 8);
    if white {
        if r == 0 || r == 7 {
            assert(white_pawn_push_spec(s) == 0);
        } else if r == 1 {
            let a = sq_bit(s + 16);
            let c = sq_bit(s + 8);
            assert(white_pawn_push_spec(s) == a | c);
            lemma_mask_facts(0, 0, a, c, e, 0, 0, 0, 0, 0, 0, 0, 0, 0, 0, 0, 0);
            lemma_square_facts(k as u64, (s + 16) as u64, 0, 0);
            lemma_square_facts(k as u64, (s + 8) as u64, 0, 0);
        } else {
            assert(white_pawn_push_spec(s) == sq_bit(s + 8));
            lemma_square_facts(k as u64, (s + 8) as u64, 0, 0);
        }
    } else {
        if r == 0 || r == 7 {
            assert(black_pawn_push_spec(s) == 0);
        } else if r == 6 {
            let a = sq_bit(s - 16);
            let c = sq_bit(s - 8);
            assert(black_pawn_push_spec(s) == a | c);
            lemma_mask_facts(0, 0, a, c, e, 0, 0, 0, 0, 0, 0, 0, 0, 0, 0, 0, 0);
            lemma_square_facts(k as u64, (s - 16) as u64, 0, 0);
            lemma_square_facts(k as u64, (s - 8) as u64, 0, 0);
        } else {
            assert(black_pawn_push_spec(s) == sq_bit(s - 8));
            lemma_square_facts(k as u64, (s - 8) as u64, 0, 0);
        }
    }
}

/// The square the side to move does not occupy when it lands on a square
/// its opponent occupies.
proof fn lemma_lands_on_opponent(b: BoardModel, k: int)
    requires
        pieces_apart(b),
        0 <= k < 64,
        sq_bit(k) & own_occupancy(b, !b.white_to_move) == sq_bit(k),
    ensures
        own_occupancy(b, b.white_to_move) & sq_bit(k) == 0,
        exists|u: PieceType| #[trigger] b.opponent_bb(u) & sq_bit(k) == sq_bit(k),
{
    let w = b.white_to_move;
    let to = sq_bit(k);
    let opp = own_occupancy(b, !w);
    lemma_one_square(k, 0);
    lemma_mask_facts(to, opp, 0, 0, 0, 0, 0, 0, 0, 0, 0, 0, 0, 0, 0, 0, 0);
    let ow = !w;
    lemma_side_misses(b, ow, to);
    assert(exists|u: PieceType| #[trigger] b.opponent_bb(u) & to != 0) by {
        if forall|u: PieceType| #[trigger] b.opponent_bb(u) & to == 0 {
            assert forall|v: PieceType| #[trigger] b.bb(ow, v) & to == 0 by {
                assert(b.opponent_bb(v) & to == 0);
            }
        }
    }
    let u = choose|u: PieceType| #[trigger] b.opponent_bb(u) & to != 0;
    lemma_one_square(k, b.bb(!w, u));
    assert forall|v: PieceType| #[trigger] b.bb(w, v) & to == 0 by {
        assert(b.bb(w, v) & b.bb(!w, u) == 0);
        lemma_apart_square(b.bb(w, v), b.bb(!w, u), to);
    }
    lemma_side_misses(b, w, to);
    assert(b.opponent_bb(u) & to == to);
}

/// Every move a piece of the side to move on square `s` contributes
/// towards square `k` of its targets meets what taking back asks.
proof fn lemma_step_undo(
    b: BoardModel,
    t: Tables,
    pinned: u64,
    king: u64,
    white: bool,
    mode: int,
    kind: PieceType,
    s: int,
    k: int,
)
    requires
        board_sound(b),
        white == b.white_to_move,
        0 <= s < 64,
        0 <= k < 64,
        0 <= mode <= 6,
        (mode <= 2) == (kind == PieceType::Pawn),
        mode == EN_PASSANT_TARGETS ==> b.en_passant_target != 0,
        b.bb(white, kind) & sq_bit(s) == sq_bit(s),
        sq_bit(k) & targets_spec(b, t, white, mode, s) == sq_bit(k),
    ensures
        forall|i: int|
            0 <= i < step_spec(b, t, pinned, king, white, mode, kind, s, k).len() ==> make_undo_ok(
                b,
                #[trigger] step_spec(b, t, pinned, king, white, mode, kind, s, k)[i],
            ),
{
    let w = white;
    let from = sq_bit(s);
    let to = sq_bit(k);
    let occ = b.occupancy();
    let own = own_occupancy(b, w);
    let ep = b.en_passant_target;
    let steps = step_spec(b, t, pinned, king, white, mode, kind, s, k);
    lemma_one_square(k, 0);
    lemma_one_square(s, 0);
    if steps.len() == 0 {
    } else if mode == PUSH_TARGETS {
        let jumps = if white {
            to >> 16u64 == from && (to >> 8u64) & occ != 0
        } else {
            to << 16u64 == from && (to << 8u64) & occ != 0
        };
        assert(!jumps && to & occ == 0);
        lemma_mask_facts(to, occ, 0, 0, 0, 0, 0, 0, 0, 0, 0, 0, 0, 0, 0, 0, 0);
        lemma_mask_facts(
            0,
            0,
            0,
            0,
            to,
            b.white_pawns,
            b.white_knights,
            b.white_bishops,
            b.white_rooks,
            b.white_queens,
            b.white_king,
            b.black_pawns,
            b.black_knights,
            b.black_bishops,
            b.black_rooks,
            b.black_queens,
            b.black_king,
        );
        assert(own & to == 0);
        if ep != 0 && to == ep {
            let behind = behind_target(b);
            lemma_push_square(w, s, k);
            lemma_square_facts(0, 0, s as u64, 0);
            if w {
                if k == s + 8 {
                    assert(behind == from);
                    assert(b.bb(w, PieceType::Pawn) & b.bb(!w, PieceType::Pawn) == 0);
                    lemma_apart_square(b.bb(w, PieceType::Pawn), b.bb(!w, PieceType::Pawn), from);
                } else {
                    assert(to >> 16u64 == from);
                    lemma_mask_facts(
                        0,
                        0,
                        0,
                        0,
                        behind,
                        b.white_pawns,
                        b.white_knights,
                        b.white_bishops,
                        b.white_rooks,
                        b.white_queens,
                        b.white_king,
                        b.black_pawns,
                        b.black_knights,
                        b.black_bishops,
                        b.black_rooks,
                        b.black_queens,
                        b.black_king,
                    );
                    lemma_mask_facts(behind, occ, 0, 0, 0, 0, 0, 0, 0, 0, 0, 0, 0, 0, 0, 0, 0);
                }
            } else {
                if k == s - 8 {
                    assert(behind == from);
                    assert(b.bb(w, PieceType::Pawn) & b.bb(!w, PieceType::Pawn) == 0);
                    lemma_apart_square(b.bb(w, PieceType::Pawn), b.bb(!w, PieceType::Pawn), from);
                } else {
                    assert(to << 16u64 == from);
                    lemma_mask_facts(
                        0,
                        0,
                        0,
                        0,
                        behind,
                        b.white_pawns,
                        b.white_knights,
                        b.white_bishops,
                        b.white_rooks,
                        b.white_queens,
                        b.white_king,
                        b.black_pawns,
                        b.black_knights,
                        b.black_bishops,
                        b.black_rooks,
                        b.black_queens,
                        b.black_king,
                    );
                    lemma_mask_facts(behind, occ, 0, 0, 0, 0, 0, 0, 0, 0, 0, 0, 0, 0, 0, 0, 0);
                }
            }
        }
        assert forall|i: int| 0 <= i < steps.len() implies make_undo_ok(b, #[trigger] steps[i]) by {
            lemma_plain_undo(b, steps[i], k);
        }
    } else if mode == CAPTURE_TARGETS {
        let pawn_attacks = if w {
            white_pawn_attack_spec(s)
        } else {
            black_pawn_attack_spec(s)
        };
        lemma_mask_facts(pawn_attacks, own_occupancy(b, !w), 0, 0, to, 0, 0, 0, 0, 0, 0, 0, 0, 0, 0, 0, 0);
        lemma_lands_on_opponent(b, k);
        let u = choose|u: PieceType| #[trigger] b.opponent_bb(u) & to == to;
        if ep != 0 && to == ep {
            assert(b.bb(!w, u) & ep == 0);
        }
        assert forall|i: int| 0 <= i < steps.len() implies make_undo_ok(b, #[trigger] steps[i]) by {
            lemma_plain_undo(b, steps[i], k);
        }
    } else if mode == EN_PASSANT_TARGETS {
        let pawn_attacks = if w {
            white_pawn_attack_spec(s)
        } else {
            black_pawn_attack_spec(s)
        };
        lemma_mask_facts(pawn_attacks, ep, 0, 0, to, 0, 0, 0, 0, 0, 0, 0, 0, 0, 0, 0, 0);
        lemma_square_facts(k as u64, lsb(ep) as u64, 0, 0);
        assert(to == ep);
        assert forall|i: int| 0 <= i < steps.len() implies make_undo_ok(b, #[trigger] steps[i]) by {
            lemma_en_passant_undo(b, steps[i]);
        }
    } else {
        let x = if mode == KNIGHT_TARGETS {
            knight_attack_spec(s)
        } else if mode == ROOK_TARGETS {
            t.rook_lookup(s, occ)
        } else if mode == BISHOP_TARGETS {
            t.bishop_lookup(s, occ)
        } else {
            king_attack_spec(s)
        };
        assert(targets_spec(b, t, w, mode, s) == x & !own);
        lemma_mask_facts(x, own, 0, 0, to, 0, 0, 0, 0, 0, 0, 0, 0, 0, 0, 0, 0);
        lemma_mask_facts(to, own, 0, 0, 0, 0, 0, 0, 0, 0, 0, 0, 0, 0, 0, 0, 0);
        assert forall|i: int| 0 <= i < steps.len() implies make_undo_ok(b, #[trigger] steps[i]) by {
            lemma_plain_undo(b, steps[i], k);
        }
    }
}

/// Every move of the sequence meets what taking back asks.
pub open spec fn all_undo(b: BoardModel, ms: Seq<MoveRep>) -> bool {
    forall|i: int| 0 <= i < ms.len() ==> make_undo_ok(b, #[trigger] ms[i])
}

/// Two sequences whose moves can each be taken back make one.
proof fn lemma_all_undo_concat(b: BoardModel, x: Seq<MoveRep>, y: Seq<MoveRep>)
    requires
        all_undo(b, x),
        all_undo(b, y),
    ensures
        all_undo(b, x + y),
{
    assert forall|i: int| 0 <= i < (x + y).len() implies make_undo_ok(b, #[trigger] (x + y)[i]) by {
        if i < x.len() {
            assert((x + y)[i] == x[i]);
        } else {
            assert((x + y)[i] == y[i - x.len()]);
        }
    }
}

/// The moves of a piece on `s` to each square of `targets`, all among its
/// target squares, can each be taken back.
proof fn lemma_over_targets_undo(
    b: BoardModel,
    t: Tables,
    pinned: u64,
    king: u64,
    white: bool,
    mode: int,
    kind: PieceType,
    s: int,
    targets: u64,
)
    requires
        board_sound(b),
        white == b.white_to_move,
        0 <= s < 64,
        0 <= mode <= 6,
        (mode <= 2) == (kind == PieceType::Pawn),
        mode == EN_PASSANT_TARGETS ==> b.en_passant_target != 0,
        b.bb(white, kind) & sq_bit(s) == sq_bit(s),
        targets & targets_spec(b, t, white, mode, s) == targets,
    ensures
        all_undo(b, over_targets(b, t, pinned, king, white, mode, kind, s, targets)),
    decreases targets,
{
    if targets != 0 {
        lemma_lsb_split(targets);
        lemma_clear_lsb_smaller(targets);
        let k = lsb(targets);
        let rest = clear_lsb(targets);
        let all = targets_spec(b, t, white, mode, s);
        lemma_mask_facts(0, all, sq_bit(k), rest, 0, 0, 0, 0, 0, 0, 0, 0, 0, 0, 0, 0, 0);
        lemma_step_undo(b, t, pinned, king, white, mode, kind, s, k);
        lemma_over_targets_undo(b, t, pinned, king, white, mode, kind, s, rest);
        lemma_all_undo_concat(
            b,
            step_spec(b, t, pinned, king, white, mode, kind, s, k),
            over_targets(b, t, pinned, king, white, mode, kind, s, rest),
        );
    }
}

/// The moves of the pieces of kind `kind` on the squares of `froms` can
/// each be taken back.
proof fn lemma_over_sources_undo(
    b: BoardModel,
    t: Tables,
    pinned: u64,
    king: u64,
    white: bool,
    mode: int,
    kind: PieceType,
    froms: u64,
)
    requires
        board_sound(b),
        white == b.white_to_move,
        0 <= mode <= 6,
        (mode <= 2) == (kind == PieceType::Pawn),
        mode == EN_PASSANT_TARGETS ==> b.en_passant_target != 0,
        froms & b.bb(white, kind) == froms,
    ensures
        all_undo(b, over_sources(b, t, pinned, king, white, mode, kind, froms)),
    decreases froms,
{
    if froms != 0 {
        lemma_lsb_split(froms);
        lemma_clear_lsb_smaller(froms);
        let s = lsb(froms);
        let rest = clear_lsb(froms);
        let pieces = b.bb(white, kind);
        let all = targets_spec(b, t, white, mode, s);
        lemma_mask_facts(0, pieces, sq_bit(s), rest, 0, 0, 0, 0, 0, 0, 0, 0, 0, 0, 0, 0, 0);
        lemma_mask_facts(sq_bit(s), pieces, 0, 0, 0, 0, 0, 0, 0, 0, 0, 0, 0, 0, 0, 0, 0);
        lemma_mask_facts(all, 0, 0, 0, 0, 0, 0, 0, 0, 0, 0, 0, 0, 0, 0, 0, 0);
        lemma_over_targets_undo(b, t, pinned, king, white, mode, kind, s, all);
        lemma_over_sources_undo(b, t, pinned, king, white, mode, kind, rest);
        lemma_all_undo_concat(
            b,
            over_targets(b, t, pinned, king, white, mode, kind, s, all),
            over_sources(b, t, pinned, king, white, mode, kind, rest),
        );
    }
}

/// All the pieces of one kind: their moves can each be taken back.
proof fn lemma_kind_undo(
    b: BoardModel,
    t: Tables,
    pinned: u64,
    king: u64,
    mode: int,
    kind: PieceType,
)
    requires
        board_sound(b),
        3 <= mode <= 6,
        kind != PieceType::Pawn,
    ensures
        all_undo(
            b,
            over_sources(b, t, pinned, king, b.white_to_move, mode, kind, b.bb(b.white_to_move, kind)),
        ),
{
    let pieces = b.bb(b.white_to_move, kind);
    lemma_mask_facts(pieces, 0, 0, 0, 0, 0, 0, 0, 0, 0, 0, 0, 0, 0, 0, 0, 0);
    lemma_over_sources_undo(b, t, pinned, king, b.white_to_move, mode, kind, pieces);
}

/// The pawn moves of the side to move can each be taken back.
proof fn lemma_pawn_moves_undo(b: BoardModel, t: Tables, pinned: u64, king: u64)
    requires
        board_sound(b),
    ensures
        all_undo(b, pawn_moves_spec(b, t, pinned, king, b.white_to_move)),
{
    let w = b.white_to_move;
    let pawns = b.bb(w, PieceType::Pawn);
    let ep = b.en_passant_target;
    let ep_sources = if w {
        black_pawn_attack_spec(lsb(ep))
    } else {
        white_pawn_attack_spec(lsb(ep))
    };
    lemma_mask_facts(pawns, ep_sources, 0, 0, 0, 0, 0, 0, 0, 0, 0, 0, 0, 0, 0, 0, 0);
    let pushes = over_sources(b, t, pinned, king, w, PUSH_TARGETS as int, PieceType::Pawn, pawns);
    let captures = over_sources(b, t, pinned, king, w, CAPTURE_TARGETS as int, PieceType::Pawn, pawns);
    let passant = if ep != 0 {
        over_sources(b, t, pinned, king, w, EN_PASSANT_TARGETS as int, PieceType::Pawn, pawns & ep_sources)
    } else {
        seq![]
    };
    lemma_over_sources_undo(b, t, pinned, king, w, PUSH_TARGETS as int, PieceType::Pawn, pawns);
    lemma_over_sources_undo(b, t, pinned, king, w, CAPTURE_TARGETS as int, PieceType::Pawn, pawns);
    if ep != 0 {
        lemma_over_sources_undo(b, t, pinned, king, w, EN_PASSANT_TARGETS as int, PieceType::Pawn, pawns & ep_sources);
    }
    lemma_all_undo_concat(b, pushes, captures);
    lemma_all_undo_concat(b, pushes + captures, passant);
    assert(pawn_moves_spec(b, t, pinned, king, w) == pushes + captures + passant);
}

/// The knight, rook, bishop, queen and king moves of the side to move can
/// each be taken back.
proof fn lemma_piece_moves_undo(b: BoardModel, t: Tables, pinned: u64, king: u64)
    requires
        board_sound(b),
    ensures
        all_undo(b, piece_moves_spec(b, t, pinned, king, b.white_to_move)),
{
    let w = b.white_to_move;
    let n = over_sources(b, t, pinned, king, w, KNIGHT_TARGETS as int, PieceType::Knight, b.bb(w, PieceType::Knight));
    let r = over_sources(b, t, pinned, king, w, ROOK_TARGETS as int, PieceType::Rook, b.bb(w, PieceType::Rook));
    let bi = over_sources(b, t, pinned, king, w, BISHOP_TARGETS as int, PieceType::Bishop, b.bb(w, PieceType::Bishop));
    let qr = over_sources(b, t, pinned, king, w, ROOK_TARGETS as int, PieceType::Queen, b.bb(w, PieceType::Queen));
    let qb = over_sources(b, t, pinned, king, w, BISHOP_TARGETS as int, PieceType::Queen, b.bb(w, PieceType::Queen));
    let k = over_sources(b, t, pinned, king, w, KING_TARGETS as int, PieceType::King, b.bb(w, PieceType::King));
    lemma_kind_undo(b, t, pinned, king, KNIGHT_TARGETS as int, PieceType::Knight);
    lemma_kind_undo(b, t, pinned, king, ROOK_TARGETS as int, PieceType::Rook);
    lemma_kind_undo(b, t, pinned, king, BISHOP_TARGETS as int, PieceType::Bishop);
    lemma_kind_undo(b, t, pinned, king, ROOK_TARGETS as int, PieceType::Queen);
    lemma_kind_undo(b, t, pinned, king, BISHOP_TARGETS as int, PieceType::Queen);
    lemma_kind_undo(b, t, pinned, king, KING_TARGETS as int, PieceType::King);
    lemma_all_undo_concat(b, n, r);
    lemma_all_undo_concat(b, n + r, bi);
    lemma_all_undo_concat(b, n + r + bi, qr);
    lemma_all_undo_concat(b, n + r + bi + qr, qb);
    lemma_all_undo_concat(b, n + r + bi + qr + qb, k);
    assert(piece_moves_spec(b, t, pinned, king, w) == n + r + bi + qr + qb + k);
}

/// The castling moves of the side to move can each be taken back: a right
/// still held has king and rook at home, and the squares the two land on
/// lie in the gap that castling asks to be empty.
proof fn lemma_castles_undo(b: BoardModel, t: Tables)
    requires
        board_sound(b),
    ensures
        all_undo(b, castle_moves_spec(b, t, b.white_to_move)),
{
    let w = b.white_to_move;
    let (queen_gap, king_gap) = if w {
        (0x70u64, 0x6u64)
    } else {
        (0x7000000000000000u64, 0x600000000000000u64)
    };
    let king = b.bb(w, PieceType::King);
    let rook = b.bb(w, PieceType::Rook);
    lemma_square_facts(0, 0, 0, 0);
    lemma_mask_facts(
        0,
        0,
        0,
        0,
        queen_gap,
        b.white_pawns,
        b.white_knights,
        b.white_bishops,
        b.white_rooks,
        b.white_queens,
        b.white_king,
        b.black_pawns,
        b.black_knights,
        b.black_bishops,
        b.black_rooks,
        b.black_queens,
        b.black_king,
    );
    lemma_mask_facts(
        0,
        0,
        0,
        0,
        king_gap,
        b.white_pawns,
        b.white_knights,
        b.white_bishops,
        b.white_rooks,
        b.white_queens,
        b.white_king,
        b.black_pawns,
        b.black_knights,
        b.black_bishops,
        b.black_rooks,
        b.black_queens,
        b.black_king,
    );
    lemma_side_misses(b, w, queen_gap);
    lemma_side_misses(b, w, king_gap);
    lemma_mask_facts(king, 0, 0, 0, 0, 0, 0, 0, 0, 0, 0, 0, 0, 0, 0, 0, 0);
    lemma_mask_facts(rook, 0, 0, 0, 0, 0, 0, 0, 0, 0, 0, 0, 0, 0, 0, 0, 0);
    let ms = castle_moves_spec(b, t, w);
    assert forall|i: int| 0 <= i < ms.len() implies make_undo_ok(b, #[trigger] ms[i]) by {
        assert(castle_undo_ok(b, ms[i]));
    }
}

/// Taking back any move generated while the side to move is not in check
/// gives back exactly the board it was played on, when that board is
/// sound.
pub proof fn lemma_quiet_moves_taken_back(b: BoardModel, t: Tables)
    requires
        board_sound(b),
        !in_check_spec(b, t, b.white_to_move),
    ensures
        forall|i: int|
            0 <= i < gen_spec(b, t).len() ==> make_undo_ok(b, #[trigger] gen_spec(b, t)[i])
                && unmake_spec(make_spec(b, gen_spec(b, t)[i]), gen_spec(b, t)[i]) == b,
{
    let w = b.white_to_move;
    let king = b.bb(w, PieceType::King);
    let pinned = pin_mask_spec(b, t, king, w);
    lemma_pawn_moves_undo(b, t, pinned, king);
    lemma_piece_moves_undo(b, t, pinned, king);
    lemma_castles_undo(b, t);
    let p = pawn_moves_spec(b, t, pinned, king, w);
    let q = piece_moves_spec(b, t, pinned, king, w);
    let c = castle_moves_spec(b, t, w);
    lemma_all_undo_concat(b, p, q);
    lemma_all_undo_concat(b, p + q, c);
    assert(gen_spec(b, t) == p + q + c);
    assert forall|i: int| 0 <= i < gen_spec(b, t).len() implies make_undo_ok(
        b,
        #[trigger] gen_spec(b, t)[i],
    ) && unmake_spec(make_spec(b, gen_spec(b, t)[i]), gen_spec(b, t)[i]) == b by {
        lemma_unmake_undoes_make(b, gen_spec(b, t)[i]);
    }
}

/// A square among the attackers of one colour holds a piece of that colour.
proof fn lemma_attacker_is_piece(b: BoardModel, t: Tables, white: bool, target: u64, k: int)
    requires
        0 <= k < 64,
        sq_bit(k) & attackers_spec(b, t, white, target) == sq_bit(k),
    ensures
        exists|u: PieceType| #[trigger] b.bb(white, u) & sq_bit(k) == sq_bit(k),
{
    let e = sq_bit(k);
    let i = lsb(target);
    let occ = b.occupancy();
    let pawn_sources = if white {
        black_pawn_attack_spec(i)
    } else {
        white_pawn_attack_spec(i)
    };
    lemma_one_square(k, 0);
    lemma_mask_facts(
        pawn_sources,
        knight_attack_spec(i),
        t.rook_lookup(i, occ),
        t.bishop_lookup(i, occ),
        e,
        b.bb(white, PieceType::Pawn),
        b.bb(white, PieceType::Knight),
        b.bb(white, PieceType::Bishop),
        b.bb(white, PieceType::Rook),
        b.bb(white, PieceType::Queen),
        b.bb(white, PieceType::King),
        king_attack_spec(i),
        0,
        0,
        0,
        0,
        0,
    );
    lemma_one_square(k, b.bb(white, PieceType::Pawn));
    lemma_one_square(k, b.bb(white, PieceType::Knight));
    lemma_one_square(k, b.bb(white, PieceType::Bishop));
    lemma_one_square(k, b.bb(white, PieceType::Rook));
    lemma_one_square(k, b.bb(white, PieceType::Queen));
    lemma_one_square(k, b.bb(white, PieceType::King));
    lemma_mask_facts(e, b.bb(white, PieceType::Pawn), 0, 0, 0, 0, 0, 0, 0, 0, 0, 0, 0, 0, 0, 0, 0);
    lemma_mask_facts(e, b.bb(white, PieceType::Knight), 0, 0, 0, 0, 0, 0, 0, 0, 0, 0, 0, 0, 0, 0, 0);
    lemma_mask_facts(e, b.bb(white, PieceType::Bishop), 0, 0, 0, 0, 0, 0, 0, 0, 0, 0, 0, 0, 0, 0, 0);
    lemma_mask_facts(e, b.bb(white, PieceType::Rook), 0, 0, 0, 0, 0, 0, 0, 0, 0, 0, 0, 0, 0, 0, 0);
    lemma_mask_facts(e, b.bb(white, PieceType::Queen), 0, 0, 0, 0, 0, 0, 0, 0, 0, 0, 0, 0, 0, 0, 0);
    lemma_mask_facts(e, b.bb(white, PieceType::King), 0, 0, 0, 0, 0, 0, 0, 0, 0, 0, 0, 0, 0, 0, 0);
}

/// The kind found on a square holding a piece of the side to move is that
/// piece's kind.
proof fn lemma_found_is_own(b: BoardModel, k: int)
    requires
        pieces_apart(b),
        0 <= k < 64,
        exists|u: PieceType| #[trigger] b.bb(b.white_to_move, u) & sq_bit(k) == sq_bit(k),
    ensures
        b.piece_type_at(sq_bit(k)) matches Some(p) && b.bb(b.white_to_move, p) & sq_bit(k) == sq_bit(k),
{
    let w = b.white_to_move;
    let e = sq_bit(k);
    let u = choose|u: PieceType| #[trigger] b.bb(w, u) & e == e;
    lemma_one_square(k, 0);
    assert forall|v: PieceType| #[trigger] b.opponent_bb(v) & e == 0 by {
        assert(b.bb(!w, v) & b.bb(w, u) == 0);
        lemma_apart_square(b.bb(!w, v), b.bb(w, u), e);
    }
    assert(b.opponent_bb(PieceType::Pawn) & e == 0);
    assert(b.opponent_bb(PieceType::Knight) & e == 0);
    assert(b.opponent_bb(PieceType::Bishop) & e == 0);
    assert(b.opponent_bb(PieceType::Rook) & e == 0);
    assert(b.opponent_bb(PieceType::Queen) & e == 0);
    assert(b.opponent_bb(PieceType::King) & e == 0);
    lemma_one_square(k, b.bb(w, PieceType::Pawn));
    lemma_one_square(k, b.bb(w, PieceType::Knight));
    lemma_one_square(k, b.bb(w, PieceType::Bishop));
    lemma_one_square(k, b.bb(w, PieceType::Rook));
    lemma_one_square(k, b.bb(w, PieceType::Queen));
    lemma_one_square(k, b.bb(w, PieceType::King));
    assert(b.bb(w, u) & e != 0);
}

/// The captures of the checking piece on `target` by the pieces of the side
/// to move on the squares of `froms` can each be taken back.
proof fn lemma_attack_steps_undo(
    b: BoardModel,
    t: Tables,
    pinned: u64,
    king: u64,
    target: u64,
    j: int,
    froms: u64,
)
    requires
        board_sound(b),
        0 <= j < 64,
        target == sq_bit(j),
        target & own_occupancy(b, !b.white_to_move) == target,
        froms & attackers_spec(b, t, b.white_to_move, target) == froms,
    ensures
        all_undo(b, over_squares(b, t, pinned, king, target, ATTACK_STEP as int, froms)),
    decreases froms,
{
    if froms != 0 {
        let w = b.white_to_move;
        lemma_lsb_split(froms);
        lemma_clear_lsb_smaller(froms);
        let s = lsb(froms);
        let rest = clear_lsb(froms);
        let from = sq_bit(s);
        let all = attackers_spec(b, t, w, target);
        lemma_mask_facts(0, all, from, rest, 0, 0, 0, 0, 0, 0, 0, 0, 0, 0, 0, 0, 0);
        lemma_attacker_is_piece(b, t, w, target, s);
        lemma_found_is_own(b, s);
        lemma_lands_on_opponent(b, j);
        let u = choose|u: PieceType| #[trigger] b.opponent_bb(u) & target == target;
        lemma_one_square(j, 0);
        if b.en_passant_target != 0 && target == b.en_passant_target {
            assert(b.bb(!w, u) & b.en_passant_target == 0);
        }
        let steps = square_step(b, t, pinned, king, target, ATTACK_STEP as int, s);
        assert forall|i: int| 0 <= i < steps.len() implies make_undo_ok(b, #[trigger] steps[i]) by {
            lemma_plain_undo(b, steps[i], j);
        }
        lemma_attack_steps_undo(b, t, pinned, king, target, j, rest);
        lemma_all_undo_concat(b, steps, over_squares(b, t, pinned, king, target, ATTACK_STEP as int, rest));
    }
}

/// The en passant captures by the pawns on the squares of `froms`, all
/// pawns of the side to move, can each be taken back.
proof fn lemma_passant_steps_undo(b: BoardModel, t: Tables, king: u64, target: u64, froms: u64)
    requires
        board_sound(b),
        b.en_passant_target != 0,
        froms & b.bb(b.white_to_move, PieceType::Pawn) == froms,
    ensures
        all_undo(b, over_squares(b, t, 0, king, target, EN_PASSANT_STEP as int, froms)),
    decreases froms,
{
    if froms != 0 {
        let w = b.white_to_move;
        lemma_lsb_split(froms);
        lemma_clear_lsb_smaller(froms);
        let s = lsb(froms);
        let rest = clear_lsb(froms);
        let pawns = b.bb(w, PieceType::Pawn);
        lemma_mask_facts(0, pawns, sq_bit(s), rest, 0, 0, 0, 0, 0, 0, 0, 0, 0, 0, 0, 0, 0);
        lemma_mask_facts(sq_bit(s), pawns, 0, 0, 0, 0, 0, 0, 0, 0, 0, 0, 0, 0, 0, 0, 0);
        let steps = square_step(b, t, 0, king, target, EN_PASSANT_STEP as int, s);
        assert forall|i: int| 0 <= i < steps.len() implies make_undo_ok(b, #[trigger] steps[i]) by {
            lemma_en_passant_undo(b, steps[i]);
        }
        lemma_passant_steps_undo(b, t, king, target, rest);
        lemma_all_undo_concat(b, steps, over_squares(b, t, 0, king, target, EN_PASSANT_STEP as int, rest));
    }
}

/// The king's steps to the squares of `tos`, none held by the side to move,
/// can each be taken back.
proof fn lemma_escape_steps_undo(b: BoardModel, t: Tables, tos: u64)
    requires
        board_sound(b),
        tos & own_occupancy(b, b.white_to_move) == 0,
    ensures
        all_undo(b, over_squares(b, t, 0, own_king(b), 0, ESCAPE_STEP as int, tos)),
    decreases tos,
{
    if tos != 0 {
        let w = b.white_to_move;
        let own = own_occupancy(b, w);
        lemma_lsb_split(tos);
        lemma_clear_lsb_smaller(tos);
        let s = lsb(tos);
        let rest = clear_lsb(tos);
        let to = sq_bit(s);
        lemma_mask_facts(0, tos, to, rest, 0, 0, 0, 0, 0, 0, 0, 0, 0, 0, 0, 0, 0);
        lemma_mask_facts(tos, tos, 0, 0, 0, 0, 0, 0, 0, 0, 0, 0, 0, 0, 0, 0, 0);
        lemma_mask_facts(to, tos, 0, 0, 0, 0, 0, 0, 0, 0, 0, 0, 0, 0, 0, 0, 0);
        lemma_mask_facts(tos, own, 0, 0, to, 0, 0, 0, 0, 0, 0, 0, 0, 0, 0, 0, 0);
        lemma_mask_facts(own, tos, 0, 0, to, 0, 0, 0, 0, 0, 0, 0, 0, 0, 0, 0, 0);
        lemma_mask_facts(rest, tos, 0, 0, 0, 0, 0, 0, 0, 0, 0, 0, 0, 0, 0, 0, 0);
        lemma_mask_facts(own, tos, 0, 0, rest, 0, 0, 0, 0, 0, 0, 0, 0, 0, 0, 0, 0);
        lemma_mask_facts(rest, own, 0, 0, 0, 0, 0, 0, 0, 0, 0, 0, 0, 0, 0, 0, 0);
        lemma_mask_facts(own_king(b), 0, 0, 0, 0, 0, 0, 0, 0, 0, 0, 0, 0, 0, 0, 0, 0);
        assert(own & to == 0);
        assert(rest & own == 0);
        let steps = square_step(b, t, 0, own_king(b), 0, ESCAPE_STEP as int, s);
        assert forall|i: int| 0 <= i < steps.len() implies make_undo_ok(b, #[trigger] steps[i]) by {
            lemma_plain_undo(b, steps[i], s);
        }
        lemma_escape_steps_undo(b, t, rest);
        lemma_all_undo_concat(b, steps, over_squares(b, t, 0, own_king(b), 0, ESCAPE_STEP as int, rest));
    }
}

/// A single checker is one square, held by the opponent.
proof fn lemma_single_checker(b: BoardModel, t: Tables)
    requires
        pieces_apart(b),
        popcount(attackers_spec(b, t, !b.white_to_move, own_king(b))) == 1,
    ensures
        ({
            let target = attackers_spec(b, t, !b.white_to_move, own_king(b));
            &&& 0 <= lsb(target) < 64
            &&& target == sq_bit(lsb(target))
            &&& target & own_occupancy(b, !b.white_to_move) == target
        }),
{
    let w = b.white_to_move;
    let ow = !w;
    let target = attackers_spec(b, t, ow, own_king(b));
    assert(target != 0);
    lemma_lsb_split(target);
    lemma_popcount_clear_lsb(target);
    if clear_lsb(target) != 0 {
        lemma_popcount_nonzero(clear_lsb(target));
    }
    lemma_or_zero(sq_bit(lsb(target)));
    let j = lsb(target);
    lemma_mask_facts(target, 0, 0, 0, 0, 0, 0, 0, 0, 0, 0, 0, 0, 0, 0, 0, 0);
    lemma_attacker_is_piece(b, t, ow, own_king(b), j);
    let opp = own_occupancy(b, ow);
    lemma_side_misses(b, ow, target);
    lemma_one_square(j, opp);
    lemma_mask_facts(target, opp, 0, 0, 0, 0, 0, 0, 0, 0, 0, 0, 0, 0, 0, 0, 0);
}

/// Whether `m` is one of the moves that generation gives to block the
/// check of a single piece.
pub open spec fn is_blocking_answer(b: BoardModel, t: Tables, m: MoveRep) -> bool {
    let w = b.white_to_move;
    let king = own_king(b);
    let target = attackers_spec(b, t, !w, king);
    &&& in_check_spec(b, t, w)
    &&& popcount(target) == 1
    &&& blocking_moves_spec(b, t, king, target).contains(m)
}

/// Taking back a generated move gives back exactly the board it was
/// played on, when that board is sound, for every move but those that block
/// a check: out of check every move; in check the captures of the checking
/// piece, the en passant captures of it and the king's steps to safety.
pub proof fn lemma_generated_moves_taken_back(b: BoardModel, t: Tables)
    requires
        board_sound(b),
    ensures
        forall|i: int|
            0 <= i < gen_spec(b, t).len() && !is_blocking_answer(b, t, #[trigger] gen_spec(b, t)[i])
                ==> make_undo_ok(b, gen_spec(b, t)[i]) && unmake_spec(
                make_spec(b, gen_spec(b, t)[i]),
                gen_spec(b, t)[i],
            ) == b,
{
    let w = b.white_to_move;
    let g = gen_spec(b, t);
    if !in_check_spec(b, t, w) {
        lemma_quiet_moves_taken_back(b, t);
    } else {
        let king = own_king(b);
        let pinned = pin_mask_spec(b, t, king, w);
        let target = attackers_spec(b, t, !w, king);
        let single = popcount(target) == 1;
        let a = attacking_moves_spec(b, t, target);
        let e = en_passant_answers_spec(b, t, target);
        let bl = blocking_moves_spec(b, t, king, target);
        let ks = king_safety_spec(b, t);
        let front = if single {
            a + e + bl
        } else {
            seq![]
        };
        assert(g == front + ks);
        let esc = escape_squares_spec(b, t);
        let own = own_occupancy(b, w);
        lemma_mask_facts(esc, 0, 0, 0, 0, 0, 0, 0, 0, 0, 0, 0, 0, 0, 0, 0, 0);
        let x = king_attack_spec(lsb(king)) & !crate::attacks::attack_mask_spec(b, t, !w, b.occupancy() & !king);
        assert(esc == x & !own);
        lemma_mask_facts(x, own, 0, 0, esc, 0, 0, 0, 0, 0, 0, 0, 0, 0, 0, 0, 0);
        lemma_mask_facts(esc, own, 0, 0, 0, 0, 0, 0, 0, 0, 0, 0, 0, 0, 0, 0, 0);
        lemma_escape_steps_undo(b, t, esc);
        if single {
            lemma_single_checker(b, t);
            let j = lsb(target);
            let attackers = attackers_spec(b, t, w, target);
            lemma_mask_facts(attackers, 0, 0, 0, 0, 0, 0, 0, 0, 0, 0, 0, 0, 0, 0, 0, 0);
            lemma_attack_steps_undo(b, t, pinned, king, target, j, attackers);
            let ep = b.en_passant_target;
            let behind = if w {
                ep >> 8u64
            } else {
                ep << 8u64
            };
            if behind == target {
                let pawns = b.bb(w, PieceType::Pawn);
                let x = if w {
                    black_pawn_attack_spec(lsb(ep))
                } else {
                    white_pawn_attack_spec(lsb(ep))
                };
                lemma_mask_facts(x, pawns, 0, 0, 0, 0, 0, 0, 0, 0, 0, 0, 0, 0, 0, 0, 0);
                lemma_mask_facts(pawns, x, 0, 0, 0, 0, 0, 0, 0, 0, 0, 0, 0, 0, 0, 0, 0);
                lemma_square_facts(0, 0, 0, 0);
                lemma_one_square(j, 0);
                assert(ep != 0);
                lemma_passant_steps_undo(b, t, king, target, x & pawns);
            }
            lemma_all_undo_concat(b, a, e);
        }
        assert forall|i: int|
            0 <= i < g.len() && !is_blocking_answer(b, t, #[trigger] g[i]) implies make_undo_ok(
            b,
            g[i],
        ) by {
            if i < front.len() {
                assert(single);
                assert(g[i] == front[i]);
                if i >= (a + e).len() {
                    assert(front[i] == bl[i - (a + e).len()]);
                    assert(bl.contains(g[i]));
                } else {
                    assert(front[i] == (a + e)[i]);
                }
            } else {
                assert(g[i] == ks[i - front.len()]);
            }
        }
        assert forall|i: int|
            0 <= i < g.len() && !is_blocking_answer(b, t, #[trigger] g[i]) implies unmake_spec(
            make_spec(b, g[i]),
            g[i],
        ) == b by {
            lemma_unmake_undoes_make(b, g[i]);
        }
    }
}

} // verus!
