//! Bit-level facts about 64-bit bitboards used throughout the engine.
//! Square `i` (0..64) is represented by the mask `1 << i`.

use vstd::prelude::*;
use vstd::std_specs::bits::*;

verus! {

broadcast use axiom_u64_trailing_zeros;

/// The mask of square `i`.
pub open spec fn sq_bit(i: int) -> u64 {
    1u64 << (i as u64)
}

/// The index of the lowest set bit (64 for the empty board).
pub open spec fn lsb(bb: u64) -> int {
    u64_trailing_zeros(bb) as int
}

/// The board with its lowest set bit removed.
pub open spec fn clear_lsb(bb: u64) -> u64 {
    bb & ((bb as int - 1) as u64)
}

pub proof fn lemma_clear_lsb_smaller(bb: u64)
    requires
        bb != 0,
    ensures
        clear_lsb(bb) < bb,
{
    assert(bb != 0 ==> bb & ((bb - 1) as u64) < bb) by (bit_vector);
    assert((bb as int - 1) as u64 == ((bb - 1) as u64));
}

/// Splitting a nonempty board into its lowest bit and the rest.
pub proof fn lemma_lsb_split(bb: u64)
    requires
        bb != 0,
    ensures
        0 <= lsb(bb) < 64,
        bb ^ sq_bit(lsb(bb)) == clear_lsb(bb),
        bb == sq_bit(lsb(bb)) | clear_lsb(bb),
        sq_bit(lsb(bb)) & clear_lsb(bb) == 0,
        bb & sq_bit(lsb(bb)) != 0,
{
    let t = u64_trailing_zeros(bb) as u64;
    assert(t < 64);
    assert((bb >> t) & 1u64 == 1u64);
    assert(bb << ((64 - t) as u64) == 0);
    assert((bb as int - 1) as u64 == ((bb - 1) as u64));
    assert(bb ^ (1u64 << t) == bb & ((bb - 1) as u64) && bb == (1u64 << t) | (bb & ((bb - 1) as u64))
        && (1u64 << t) & (bb & ((bb - 1) as u64)) == 0 && bb & (1u64 << t) != 0) by (bit_vector)
        requires
            t < 64,
            (bb >> t) & 1u64 == 1u64,
            bb << ((64 - t) as u64) == 0,
    ;
}


/// The number of one bits.
pub open spec fn popcount(x: u64) -> nat
    decreases x,
{
    if x == 0 {
        0
    } else {
        (x % 2) as nat + popcount(x / 2)
    }
}

/// `u64::count_ones` returns the number of one bits of its argument.
pub assume_specification[ u64::count_ones ](i: u64) -> (r: u32)
    ensures
        r as nat == popcount(i),
;


pub proof fn lemma_popcount_nonzero(x: u64)
    requires
        x != 0,
    ensures
        popcount(x) >= 1,
    decreases x,
{
    if x % 2 == 0 {
        assert(x / 2 != 0);
        lemma_popcount_nonzero(x / 2);
    }
}

/// The count of two boards with no common square adds up.
pub proof fn lemma_popcount_disjoint(a: u64, b: u64)
    requires
        a & b == 0,
    ensures
        popcount(a | b) == popcount(a) + popcount(b),
    decreases a + b,
{
    if a != 0 || b != 0 {
        let c = a | b;
        assert(c >> 1u64 == (a >> 1u64) | (b >> 1u64) && (a & b == 0 ==> c & 1u64 == (a & 1u64) + (
        b & 1u64)) && (a & b == 0 ==> (a >> 1u64) & (b >> 1u64) == 0) && a >> 1u64 == a / 2 && a
            & 1u64 == a % 2 && b >> 1u64 == b / 2 && b & 1u64 == b % 2 && c >> 1u64 == c / 2 && c
            & 1u64 == c % 2 && (a != 0 || b != 0 ==> c != 0)) by (bit_vector)
            requires
                c == a | b,
        ;
        assert(a / 2 + b / 2 < a + b);
        lemma_popcount_disjoint(a / 2, b / 2);
        if a == 0 {
            assert(a / 2 == 0);
        }
        if b == 0 {
            assert(b / 2 == 0);
        }
    } else {
        assert(a | b == 0) by (bit_vector)
            requires
                a == 0 && b == 0,
        ;
    }
}

/// Removing the lowest set bit takes one from the count.
pub proof fn lemma_popcount_clear_lsb(x: u64)
    requires
        x != 0,
    ensures
        popcount(x) == 1 + popcount(clear_lsb(x)),
{
    lemma_lsb_split(x);
    crate::tables::lemma_popcount_bit(lsb(x));
    lemma_popcount_disjoint(sq_bit(lsb(x)), clear_lsb(x));
}

/// A board with no bits from `k` upward counts at most `k`.
pub proof fn lemma_popcount_below(x: u64, k: u64)
    requires
        k <= 64,
        x >> k == 0,
    ensures
        popcount(x) <= k,
    decreases k,
{
    if x != 0 {
        let km = (k - 1) as u64;
        assert(x >> 0u64 == x && x / 2 == x >> 1u64 && x % 2 == x & 1u64 && x & 1u64 <= 1 && (
        1 <= k <= 64 ==> (x >> 1u64) >> km == x >> k)) by (bit_vector)
            requires
                km == (k - 1) as u64,
        ;
        lemma_popcount_below(x / 2, km);
    }
}

/// A board counts at most 64.
pub proof fn lemma_popcount_bound(x: u64)
    ensures
        popcount(x) <= 64,
{
    assert(x >> 64u64 == 0) by (bit_vector);
    lemma_popcount_below(x, 64);
}

/// Facts of `&`, `|` and `!` on bitboards.
pub proof fn lemma_mask_facts(
    x: u64,
    y: u64,
    a: u64,
    c: u64,
    e: u64,
    p1: u64,
    p2: u64,
    p3: u64,
    p4: u64,
    p5: u64,
    p6: u64,
    q1: u64,
    q2: u64,
    q3: u64,
    q4: u64,
    q5: u64,
    q6: u64,
)
    by (bit_vector)
    ensures
        x & x == x,
        x & 0 == 0,
        x & y == y & x,
        (x & y) & x == x & y,
        (a | c) & y == (a | c) ==> a & y == a && c & y == c,
        x & y == 0 && y & e == e ==> x & e == 0,
        e & (x & y) == e ==> e & y == e,
        e & (x & !y) == e ==> e & y == 0,
        e & (a | c) != 0 ==> e & a != 0 || e & c != 0,
        e & ((x & p1) | (y & p2) | (a & p4) | (c & p3) | (a & p5) | (c & p5) | (q1 & p6)) != 0
            ==> e & p1 != 0 || e & p2 != 0 || e & p3 != 0 || e & p4 != 0 || e & p5 != 0 || e & p6
            != 0,
        ((p1 | p2 | p3 | p4 | p5 | p6) & e == 0) == (p1 & e == 0 && p2 & e == 0 && p3 & e == 0
            && p4 & e == 0 && p5 & e == 0 && p6 & e == 0),
        (p1 | p2 | p3 | p4 | p5 | p6 | q1 | q2 | q3 | q4 | q5 | q6) & e == 0 ==> (p1 | p2 | p3
            | p4 | p5 | p6) & e == 0 && (q1 | q2 | q3 | q4 | q5 | q6) & e == 0,
        (p1 & e == e || q1 & e == e) && e != 0 ==> (p1 | p2 | p3 | p4 | p5 | p6 | q1 | q2 | q3
            | q4 | q5 | q6) & e != 0,
        x & 0x6u64 == 0 ==> x & (1u64 << 1u64) == 0 && x & (1u64 << 2u64) == 0,
        x & 0x70u64 == 0 ==> x & (1u64 << 5u64) == 0 && x & (1u64 << 4u64) == 0,
        x & 0x600000000000000u64 == 0 ==> x & (1u64 << 57u64) == 0 && x & (1u64 << 58u64) == 0,
        x & 0x7000000000000000u64 == 0 ==> x & (1u64 << 61u64) == 0 && x & (1u64 << 60u64) == 0,
{
}

/// Facts of one-square masks and of shifting them by a rank or two.
pub proof fn lemma_square_facts(k: u64, j: u64, s: u64, x: u64)
    by (bit_vector)
    ensures
        k < 64 ==> (1u64 << k) != 0,
        k < 64 && x & (1u64 << k) != 0 ==> x & (1u64 << k) == (1u64 << k),
        k < 64 && j < 64 && (1u64 << k) & (1u64 << j) != 0 ==> k == j,
        s + 8 < 64 ==> (1u64 << ((s + 8) as u64)) >> 8u64 == 1u64 << s,
        s + 16 < 64 ==> (1u64 << ((s + 16) as u64)) >> 16u64 == 1u64 << s && (1u64 << ((s
            + 16) as u64)) >> 8u64 == 1u64 << ((s + 8) as u64),
        8 <= s < 64 ==> (1u64 << ((s - 8) as u64)) << 8u64 == 1u64 << s,
        16 <= s < 64 ==> (1u64 << ((s - 16) as u64)) << 16u64 == 1u64 << s && (1u64 << ((s
            - 16) as u64)) << 8u64 == 1u64 << ((s - 8) as u64),
        0u64 >> 8u64 == 0,
        0u64 << 8u64 == 0,
        x & j == x && s & j == s ==> (x | s) & j == (x | s),
        x & j == x && j & s == j ==> x & s == x,
        x & (x | s) == x,
        x & (s | x) == x,
        x & 0u64 == 0,
        1u64 << 1u64 == 2,
        1u64 << 3u64 == 8,
        1u64 << 5u64 == 32,
        1u64 << 57u64 == 0x200000000000000u64,
        1u64 << 59u64 == 0x800000000000000u64,
        1u64 << 61u64 == 0x2000000000000000u64,
{
}


/// Facts of `^` on bitboards, and of meeting a union of up to eight.
pub proof fn lemma_xor_union_facts(
    x: u64,
    y: u64,
    z: u64,
    e: u64,
    a1: u64,
    a2: u64,
    a3: u64,
    a4: u64,
    a5: u64,
    a6: u64,
    a7: u64,
    a8: u64,
)
    by (bit_vector)
    ensures
        (x ^ y) ^ z == (x ^ z) ^ y,
        (x ^ y) ^ y == x,
        x ^ 0 == x,
        0 ^ x == x,
        ((a1 | a2 | a3 | a4 | a5 | a6 | a7 | a8) & e != 0) == (a1 & e != 0 || a2 & e != 0 || a3 & e
            != 0 || a4 & e != 0 || a5 & e != 0 || a6 & e != 0 || a7 & e != 0 || a8 & e != 0),
        ((a1 | a2) & e != 0) == (a1 & e != 0 || a2 & e != 0),
        0u64 & e == 0,
{
}

} // verus!
