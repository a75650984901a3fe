//! The relevant-occupancy masks of the sliders lie within what they attack
//! on an empty board: each is the empty-board attack set without the last
//! square of each ray. A bishop's mask has at most nine squares.

use vstd::prelude::*;
use crate::bitboard::{sq_bit, popcount, lemma_square_facts, lemma_xor_union_facts};
use crate::tables::{
    on_board,
    sq,
    ray,
    inner_ray,
    walk_measure,
    rook_attack_spec,
    bishop_attack_spec,
    rook_mask_spec,
    bishop_mask_spec,
    inner_len,
    Tables,
    lemma_inner_ray_count,
    lemma_popcount_or,
};

verus! {

/// `x` lies within `y`.
pub open spec fn within(x: u64, y: u64) -> bool {
    x & y == x
}

/// Facts of lying within.
proof fn lemma_within(x: u64, y: u64, z: u64)
    ensures
        within(x, z) && within(y, z) ==> within(x | y, z),
        within(x, y) && within(y, z) ==> within(x, z),
        within(x, x | y),
        within(y, x | y),
        within(0, x),
        x & 0u64 == 0,
{
    lemma_square_facts(0, z, y, x);
    lemma_square_facts(0, y, z, x);
    lemma_square_facts(0, 0, x, y);
    lemma_xor_union_facts(0, 0, 0, x, 0, 0, 0, 0, 0, 0, 0, 0);
}

/// The inner part of a walk lies within the walk on an empty board.
proof fn lemma_inner_within_ray(r: int, f: int, dr: int, df: int)
    requires
        on_board(r, f),
        -1 <= dr <= 1,
        -1 <= df <= 1,
    ensures
        within(inner_ray(r, f, dr, df), ray(r, f, dr, df, 0)),
    decreases walk_measure(r, f, dr, df),
{
    lemma_within(ray(r, f, dr, df, 0), 0, 0);
    if !((dr == 0 && df == 0) || !on_board(r + 2 * dr, f + 2 * df)) {
        let b = sq_bit(sq(r + dr, f + df));
        let next = ray(r + dr, f + df, dr, df, 0);
        let inner = inner_ray(r + dr, f + df, dr, df);
        lemma_inner_within_ray(r + dr, f + df, dr, df);
        lemma_within(b, 0, 0);
        assert(ray(r, f, dr, df, 0) == b | next);
        lemma_within(b, next, 0);
        lemma_within(inner, next, b | next);
        lemma_within(b, inner, b | next);
    }
}

/// Four parts each within one of four wholes lie, together, within the
/// four wholes together.
proof fn lemma_union_within(a: u64, b: u64, c: u64, d: u64, x: u64, y: u64, z: u64, w: u64)
    requires
        within(a, x),
        within(b, y),
        within(c, z),
        within(d, w),
    ensures
        within(a | b | c | d, x | y | z | w),
{
    let u = x | y | z | w;
    lemma_within(x, y, 0);
    lemma_within(x | y, z, 0);
    lemma_within(x | y | z, w, 0);
    lemma_within(a, x, x | y);
    lemma_within(a, x | y, x | y | z);
    lemma_within(a, x | y | z, u);
    lemma_within(b, y, x | y);
    lemma_within(b, x | y, x | y | z);
    lemma_within(b, x | y | z, u);
    lemma_within(c, z, x | y | z);
    lemma_within(c, x | y | z, u);
    lemma_within(d, w, u);
    lemma_within(a, b, u);
    lemma_within(a | b, c, u);
    lemma_within(a | b | c, d, u);
}

/// A rook's relevant-occupancy mask lies within what it attacks on an empty
/// board, and so does a bishop's.
pub proof fn lemma_masks_within_empty_board_attacks(i: int)
    requires
        0 <= i < 64,
    ensures
        within(rook_mask_spec(i), rook_attack_spec(i, 0)),
        within(bishop_mask_spec(i), bishop_attack_spec(i, 0)),
{
    let r = i / 8;
    let f = i % 8;
    lemma_inner_within_ray(r, f, 1, 0);
    lemma_inner_within_ray(r, f, 0, -1);
    lemma_inner_within_ray(r, f, -1, 0);
    lemma_inner_within_ray(r, f, 0, 1);
    lemma_union_within(
        inner_ray(r, f, 1, 0),
        inner_ray(r, f, 0, -1),
        inner_ray(r, f, -1, 0),
        inner_ray(r, f, 0, 1),
        ray(r, f, 1, 0, 0),
        ray(r, f, 0, -1, 0),
        ray(r, f, -1, 0, 0),
        ray(r, f, 0, 1, 0),
    );
    lemma_inner_within_ray(r, f, 1, -1);
    lemma_inner_within_ray(r, f, -1, -1);
    lemma_inner_within_ray(r, f, -1, 1);
    lemma_inner_within_ray(r, f, 1, 1);
    lemma_union_within(
        inner_ray(r, f, 1, -1),
        inner_ray(r, f, -1, -1),
        inner_ray(r, f, -1, 1),
        inner_ray(r, f, 1, 1),
        ray(r, f, 1, -1, 0),
        ray(r, f, -1, -1, 0),
        ray(r, f, -1, 1, 0),
        ray(r, f, 1, 1, 0),
    );
}


/// A bishop's relevant-occupancy mask has at most nine squares.
pub proof fn lemma_bishop_mask_at_most_nine(i: int)
    requires
        0 <= i < 64,
    ensures
        popcount(bishop_mask_spec(i)) <= 9,
{
    let r = i / 8;
    let f = i % 8;
    let a = inner_ray(r, f, 1, -1);
    let b = inner_ray(r, f, -1, -1);
    let c = inner_ray(r, f, -1, 1);
    let d = inner_ray(r, f, 1, 1);
    lemma_inner_ray_count(r, f, 1, -1);
    lemma_inner_ray_count(r, f, -1, -1);
    lemma_inner_ray_count(r, f, -1, 1);
    lemma_inner_ray_count(r, f, 1, 1);
    lemma_popcount_or(a, b);
    lemma_popcount_or(a | b, c);
    lemma_popcount_or((a | b) | c, d);
    assert(inner_len(r, f, 1, -1) + inner_len(r, f, -1, -1) + inner_len(r, f, -1, 1) + inner_len(
        r,
        f,
        1,
        1,
    ) <= 9);
}

/// In built tables each bishop square's count of relevant squares is at
/// most nine.
pub proof fn lemma_bishop_counts_at_most_nine(t: Tables, i: int)
    requires
        t.wf(),
        0 <= i < 64,
    ensures
        t.relevent_bishop_count@[i] <= 9,
{
    lemma_bishop_mask_at_most_nine(i);
}

} // verus!
