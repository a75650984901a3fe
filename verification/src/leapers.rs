//! Symmetry of the leaper tables: knights and kings attack each other's
//! squares alike, and white and black pawn captures mirror each other.

use vstd::prelude::*;
use crate::bitboard::{sq_bit, lemma_mask_facts, lemma_square_facts, lemma_xor_union_facts};
use crate::tables::{
    Tables,
    step_bit,
    on_board,
    lemma_step,
    knight_attack_spec,
    king_attack_spec,
    white_pawn_attack_spec,
    black_pawn_attack_spec,
};

verus! {

/// A step from `s` by `(dr, df)` lands on `q` exactly when the opposite step
/// from `q` lands on `s`.
proof fn lemma_step_meets(s: int, q: int, dr: int, df: int)
    requires
        0 <= s < 64,
        0 <= q < 64,
    ensures
        (step_bit(s, dr, df) & sq_bit(q) != 0) == (step_bit(q, -dr, -df) & sq_bit(s) != 0),
{
    lemma_step(s, dr, df);
    lemma_step(q, -dr, -df);
    lemma_xor_union_facts(0, 0, 0, sq_bit(q), 0, 0, 0, 0, 0, 0, 0, 0);
    lemma_xor_union_facts(0, 0, 0, sq_bit(s), 0, 0, 0, 0, 0, 0, 0, 0);
    lemma_square_facts(q as u64, s as u64, 0, 0);
    lemma_square_facts(s as u64, q as u64, 0, 0);
    lemma_mask_facts(sq_bit(q), 0, 0, 0, 0, 0, 0, 0, 0, 0, 0, 0, 0, 0, 0, 0, 0);
    lemma_mask_facts(sq_bit(s), 0, 0, 0, 0, 0, 0, 0, 0, 0, 0, 0, 0, 0, 0, 0, 0);
    let t1 = s + 8 * dr + df;
    let t2 = q - 8 * dr - df;
    if on_board(s / 8 + dr, s % 8 + df) {
        lemma_square_facts(t1 as u64, q as u64, 0, 0);
        if t1 == q {
            assert(q / 8 == s / 8 + dr && q % 8 == s % 8 + df);
        }
    }
    if on_board(q / 8 - dr, q % 8 - df) {
        lemma_square_facts(t2 as u64, s as u64, 0, 0);
        if t2 == s {
            assert(s / 8 == q / 8 - dr && s % 8 == q % 8 - df);
        }
    }
}

/// Knight moves are symmetric: a knight on `s` attacks `q` exactly when a
/// knight on `q` attacks `s`.
pub proof fn lemma_knight_symmetric(s: int, q: int)
    requires
        0 <= s < 64,
        0 <= q < 64,
    ensures
        (knight_attack_spec(s) & sq_bit(q) != 0) == (knight_attack_spec(q) & sq_bit(s) != 0),
{
    lemma_xor_union_facts(0, 0, 0, sq_bit(q), step_bit(s, 2, -1), step_bit(s, 1, -2), step_bit(s, -1, -2),
        step_bit(s, -2, -1), step_bit(s, -2, 1), step_bit(s, -1, 2), step_bit(s, 1, 2), step_bit(s, 2, 1));
    lemma_xor_union_facts(0, 0, 0, sq_bit(s), step_bit(q, 2, -1), step_bit(q, 1, -2), step_bit(q, -1, -2),
        step_bit(q, -2, -1), step_bit(q, -2, 1), step_bit(q, -1, 2), step_bit(q, 1, 2), step_bit(q, 2, 1));
    lemma_step_meets(s, q, 2, -1);
    lemma_step_meets(s, q, 1, -2);
    lemma_step_meets(s, q, -1, -2);
    lemma_step_meets(s, q, -2, -1);
    lemma_step_meets(s, q, -2, 1);
    lemma_step_meets(s, q, -1, 2);
    lemma_step_meets(s, q, 1, 2);
    lemma_step_meets(s, q, 2, 1);
}

/// King moves are symmetric: a king on `s` attacks `q` exactly when a king
/// on `q` attacks `s`.
pub proof fn lemma_king_symmetric(s: int, q: int)
    requires
        0 <= s < 64,
        0 <= q < 64,
    ensures
        (king_attack_spec(s) & sq_bit(q) != 0) == (king_attack_spec(q) & sq_bit(s) != 0),
{
    lemma_xor_union_facts(0, 0, 0, sq_bit(q), step_bit(s, 1, 0), step_bit(s, 1, -1), step_bit(s, 0, -1),
        step_bit(s, -1, -1), step_bit(s, -1, 0), step_bit(s, -1, 1), step_bit(s, 0, 1), step_bit(s, 1, 1));
    lemma_xor_union_facts(0, 0, 0, sq_bit(s), step_bit(q, 1, 0), step_bit(q, 1, -1), step_bit(q, 0, -1),
        step_bit(q, -1, -1), step_bit(q, -1, 0), step_bit(q, -1, 1), step_bit(q, 0, 1), step_bit(q, 1, 1));
    lemma_step_meets(s, q, 1, 0);
    lemma_step_meets(s, q, 1, -1);
    lemma_step_meets(s, q, 0, -1);
    lemma_step_meets(s, q, -1, -1);
    lemma_step_meets(s, q, -1, 0);
    lemma_step_meets(s, q, -1, 1);
    lemma_step_meets(s, q, 0, 1);
    lemma_step_meets(s, q, 1, 1);
}

/// Pawn captures mirror each other: a white pawn on `s` attacks `q` exactly
/// when a black pawn on `q` attacks `s`.
pub proof fn lemma_pawn_attacks_mirror(s: int, q: int)
    requires
        0 <= s < 64,
        0 <= q < 64,
    ensures
        (white_pawn_attack_spec(s) & sq_bit(q) != 0) == (black_pawn_attack_spec(q) & sq_bit(s) != 0),
{
    lemma_xor_union_facts(0, 0, 0, sq_bit(q), step_bit(s, 1, 1), step_bit(s, 1, -1), 0, 0, 0, 0, 0, 0);
    lemma_xor_union_facts(0, 0, 0, sq_bit(s), step_bit(q, -1, 1), step_bit(q, -1, -1), 0, 0, 0, 0, 0, 0);
    lemma_step_meets(s, q, 1, 1);
    lemma_step_meets(s, q, 1, -1);
    lemma_step(s, 1, 1);
    lemma_step(s, 1, -1);
    lemma_step(q, -1, 1);
    lemma_step(q, -1, -1);
}

/// The leaper tables are symmetric: in tables that `Tables::new` builds, a
/// knight (or king) on `s` attacks `q` exactly when one on `q` attacks `s`,
/// and a white pawn on `s` attacks `q` exactly when a black pawn on `q`
/// attacks `s`.
pub proof fn lemma_leaper_tables_symmetric(t: Tables, s: int, q: int)
    requires
        t.wf(),
        0 <= s < 64,
        0 <= q < 64,
    ensures
        (t.knight_attacks@[s] & sq_bit(q) != 0) == (t.knight_attacks@[q] & sq_bit(s) != 0),
        (t.king_attacks@[s] & sq_bit(q) != 0) == (t.king_attacks@[q] & sq_bit(s) != 0),
        (t.white_pawn_attacks@[s] & sq_bit(q) != 0) == (t.black_pawn_attacks@[q] & sq_bit(s) != 0),
{
    lemma_knight_symmetric(s, q);
    lemma_king_symmetric(s, q);
    lemma_pawn_attacks_mirror(s, q);
}

} // verus!
