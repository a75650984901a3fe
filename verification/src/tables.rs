//! Precomputed attack tables: pawn, knight and king attacks by square, the
//! relevant-occupancy masks of rooks and bishops, and magic-indexed tables of
//! sliding attacks.

use vstd::prelude::*;
use rand_xorshift::XorShiftRng;
use crate::random::{get_random_u64, draws, seeded_draws, seeded_rng};
use vstd::arithmetic::power2::{pow2, lemma2_to64, lemma2_to64_rest, lemma_pow2_pos, lemma_pow2_strictly_increases, lemma_pow2_unfold};
use crate::bitboard::{sq_bit, popcount, lsb, clear_lsb, lemma_popcount_nonzero};

verus! {

/// The square with this rank and file (file 0 is the h-file).
pub open spec fn sq(rank: int, file: int) -> int {
    file + 8 * rank
}

/// Whether a rank and file lie on the board.
pub open spec fn on_board(rank: int, file: int) -> bool {
    0 <= rank < 8 && 0 <= file < 8
}

/// The square `(rank, file)` moved by `(dr, df)`, as a mask, or the empty
/// board when it falls off the board.
pub open spec fn step_bit(i: int, dr: int, df: int) -> u64 {
    let r = i / 8 + dr;
    let f = i % 8 + df;
    if on_board(r, f) {
        sq_bit(sq(r, f))
    } else {
        0
    }
}

/// White pawn captures from square `i`: none from the last rank.
pub open spec fn white_pawn_attack_spec(i: int) -> u64 {
    if i / 8 == 7 {
        0
    } else {
        step_bit(i, 1, 1) | step_bit(i, 1, -1)
    }
}

/// Black pawn captures from square `i`: none from the first rank.
pub open spec fn black_pawn_attack_spec(i: int) -> u64 {
    if i / 8 == 0 {
        0
    } else {
        step_bit(i, -1, 1) | step_bit(i, -1, -1)
    }
}

/// White pawn pushes from square `i`: one step, and two from the second rank;
/// none from the first or last rank.
pub open spec fn white_pawn_push_spec(i: int) -> u64 {
    if i / 8 == 7 || i / 8 == 0 {
        0
    } else if i / 8 == 1 {
        step_bit(i, 2, 0) | step_bit(i, 1, 0)
    } else {
        step_bit(i, 1, 0)
    }
}

/// Black pawn pushes from square `i`: one step, and two from the seventh
/// rank; none from the first or last rank.
pub open spec fn black_pawn_push_spec(i: int) -> u64 {
    if i / 8 == 7 || i / 8 == 0 {
        0
    } else if i / 8 == 6 {
        step_bit(i, -2, 0) | step_bit(i, -1, 0)
    } else {
        step_bit(i, -1, 0)
    }
}

/// The eight squares around square `i`.
pub open spec fn king_attack_spec(i: int) -> u64 {
    step_bit(i, 1, 0) | step_bit(i, 1, -1) | step_bit(i, 0, -1) | step_bit(i, -1, -1) | step_bit(
        i,
        -1,
        0,
    ) | step_bit(i, -1, 1) | step_bit(i, 0, 1) | step_bit(i, 1, 1)
}

/// The knight jumps from square `i`.
pub open spec fn knight_attack_spec(i: int) -> u64 {
    step_bit(i, 2, -1) | step_bit(i, 1, -2) | step_bit(i, -1, -2) | step_bit(i, -2, -1) | step_bit(
        i,
        -2,
        1,
    ) | step_bit(i, -1, 2) | step_bit(i, 1, 2) | step_bit(i, 2, 1)
}

/// What a square's mask says about its rank and file.
pub proof fn lemma_square_masks(i: u64)
    requires
        i < 64,
    ensures
        ((1u64 << i) & Tables::FILE_A == 0) == (i % 8 != 7),
        ((1u64 << i) & Tables::FILE_H == 0) == (i % 8 != 0),
        ((1u64 << i) & Tables::FILE_AB == 0) == (i % 8 < 6),
        ((1u64 << i) & Tables::FILE_GH == 0) == (i % 8 >= 2),
        ((1u64 << i) & Tables::RANK_1 == 0) == (i >= 8),
        ((1u64 << i) & Tables::RANK_2 == 0) == !(8 <= i < 16),
        ((1u64 << i) & Tables::RANK_7 == 0) == !(48 <= i < 56),
        ((1u64 << i) & Tables::RANK_8 == 0) == (i < 56),
        ((1u64 << i) & Tables::RANK_12 == 0) == (i >= 16),
        ((1u64 << i) & Tables::RANK_78 == 0) == (i < 48),
{
    assert(((1u64 << i) & 0x8080808080808080u64 == 0) == (i % 8 != 7) && ((1u64 << i)
        & 0x101010101010101u64 == 0) == (i % 8 != 0) && ((1u64 << i) & 0xc0c0c0c0c0c0c0c0u64 == 0)
        == (i % 8 < 6) && ((1u64 << i) & 0x303030303030303u64 == 0) == (i % 8 >= 2) && ((1u64 << i)
        & 0xffu64 == 0) == (i >= 8) && ((1u64 << i) & 0xff00u64 == 0) == !(8 <= i < 16) && ((1u64
        << i) & 0xff000000000000u64 == 0) == !(48 <= i < 56) && ((1u64 << i) & 0xff00000000000000u64
        == 0) == (i < 56) && ((1u64 << i) & 0xffffu64 == 0) == (i >= 16) && ((1u64 << i)
        & 0xffff000000000000u64 == 0) == (i < 48)) by (bit_vector)
        requires
            i < 64,
    ;
}

pub struct Tables {
    // Look up tables for attack bitboards
    pub white_pawn_attacks: [u64; 64],
    pub black_pawn_attacks: [u64; 64],
    pub white_pawn_push: [u64; 64],
    pub black_pawn_push: [u64; 64],
    pub knight_attacks: [u64; 64],
    pub rook_occupancy: [u64; 64],
    pub bishop_occupancy: [u64; 64],
    pub queen_occupancy: [u64; 64],
    pub king_attacks: [u64; 64],
    pub relevent_rook_count: [u64; 64],
    pub relevent_bishop_count: [u64; 64],
    pub rook_magics: [u64; 64],
    pub bishop_magics: [u64; 64],
    pub rook_attacks: Vec<Vec<u64>>,
    pub bishop_attacks: Vec<Vec<u64>>,
}

impl Tables {
    // Board indices; rank 1
    pub const A1: u64 = 7;
    pub const B1: u64 = 6;
    pub const C1: u64 = 5;
    pub const D1: u64 = 4;
    pub const E1: u64 = 3;
    pub const F1: u64 = 2;
    pub const G1: u64 = 1;
    pub const H1: u64 = 0;
    // rank 2
    pub const A2: u64 = 15;
    pub const B2: u64 = 14;
    pub const C2: u64 = 13;
    pub const D2: u64 = 12;
    pub const E2: u64 = 11;
    pub const F2: u64 = 10;
    pub const G2: u64 = 9;
    pub const H2: u64 = 8;
    // rank 3
    pub const A3: u64 = 23;
    pub const B3: u64 = 22;
    pub const C3: u64 = 21;
    pub const D3: u64 = 20;
    pub const E3: u64 = 19;
    pub const F3: u64 = 18;
    pub const G3: u64 = 17;
    pub const H3: u64 = 16;
    // rank 4
    pub const A4: u64 = 31;
    pub const B4: u64 = 30;
    pub const C4: u64 = 29;
    pub const D4: u64 = 28;
    pub const E4: u64 = 27;
    pub const F4: u64 = 26;
    pub const G4: u64 = 25;
    pub const H4: u64 = 24;
    // rank 5
    pub const A5: u64 = 39;
    pub const B5: u64 = 38;
    pub const C5: u64 = 37;
    pub const D5: u64 = 36;
    pub const E5: u64 = 35;
    pub const F5: u64 = 34;
    pub const G5: u64 = 33;
    pub const H5: u64 = 32;
    // rank 6
    pub const A6: u64 = 47;
    pub const B6: u64 = 46;
    pub const C6: u64 = 45;
    pub const D6: u64 = 44;
    pub const E6: u64 = 43;
    pub const F6: u64 = 42;
    pub const G6: u64 = 41;
    pub const H6: u64 = 40;
    // rank 7
    pub const A7: u64 = 55;
    pub const B7: u64 = 54;
    pub const C7: u64 = 53;
    pub const D7: u64 = 52;
    pub const E7: u64 = 51;
    pub const F7: u64 = 50;
    pub const G7: u64 = 49;
    pub const H7: u64 = 48;
    // rank 8
    pub const A8: u64 = 63;
    pub const B8: u64 = 62;
    pub const C8: u64 = 61;
    pub const D8: u64 = 60;
    pub const E8: u64 = 59;
    pub const F8: u64 = 58;
    pub const G8: u64 = 57;
    pub const H8: u64 = 56;
    // Files
    pub const FILE_A: u64 = 0x8080808080808080;
    pub const FILE_B: u64 = 0x4040404040404040;
    pub const FILE_C: u64 = 0x2020202020202020;
    pub const FILE_D: u64 = 0x1010101010101010;
    pub const FILE_E: u64 = 0x808080808080808;
    pub const FILE_F: u64 = 0x404040404040404;
    pub const FILE_G: u64 = 0x202020202020202;
    pub const FILE_H: u64 = 0x101010101010101;
    // Ranks
    pub const RANK_1: u64 = 0xff;
    pub const RANK_2: u64 = 0xff00;
    pub const RANK_3: u64 = 0xff0000;
    pub const RANK_4: u64 = 0xff000000;
    pub const RANK_5: u64 = 0xff00000000;
    pub const RANK_6: u64 = 0xff0000000000;
    pub const RANK_7: u64 = 0xff000000000000;
    pub const RANK_8: u64 = 0xff00000000000000;
    // Double files and ranks (useful for knights)
    pub const FILE_AB: u64 = 0xc0c0c0c0c0c0c0c0;
    pub const FILE_GH: u64 = 0x303030303030303;
    pub const RANK_12: u64 = 0xffff;
    pub const RANK_78: u64 = 0xffff000000000000;

    fn generate_white_pawn_attacks(table: &mut [u64; 64])
        ensures
            forall|i: int|
                0 <= i < 64 ==> #[trigger] final(table)@[i] == if i / 8 == 7 {
                    0
                } else {
                    old(table)@[i] | white_pawn_attack_spec(i)
                },
    {
        for shift_value in 0..64u64
            invariant
                forall|i: int|
                    0 <= i < shift_value ==> #[trigger] table@[i] == if i / 8 == 7 {
                        0
                    } else {
                        old(table)@[i] | white_pawn_attack_spec(i)
                    },
                forall|i: int| shift_value <= i < 64 ==> #[trigger] table@[i] == old(table)@[i],
        {
            let mask: u64 = 1 << shift_value;
            let ghost i = shift_value as int;
            proof {
                lemma_square_masks(shift_value);
                lemma_or_facts();
                lemma_step(i, 1, 1);
                lemma_step(i, 1, -1);
            }
            // A pawn on the last rank attacks nothing
            if mask & Self::RANK_8 != 0 {
                table[shift_value as usize] = 0;
            } else {
                let ghost start = table@[i];
                if mask & Self::FILE_A == 0 {
                    table[shift_value as usize] = table[shift_value as usize] | (1 << (shift_value
                        + 9));
                }
                assert(table@[i] == start | step_bit(i, 1, 1));
                if mask & Self::FILE_H == 0 {
                    table[shift_value as usize] = table[shift_value as usize] | (1 << (shift_value
                        + 7));
                }
                assert(table@[i] == (start | step_bit(i, 1, 1)) | step_bit(i, 1, -1));
            }
        }
    }

    fn generate_black_pawn_attacks(table: &mut [u64; 64])
        ensures
            forall|i: int|
                0 <= i < 64 ==> #[trigger] final(table)@[i] == if i / 8 == 0 {
                    0
                } else {
                    old(table)@[i] | black_pawn_attack_spec(i)
                },
    {
        for shift_value in 0..64u64
            invariant
                forall|i: int|
                    0 <= i < shift_value ==> #[trigger] table@[i] == if i / 8 == 0 {
                        0
                    } else {
                        old(table)@[i] | black_pawn_attack_spec(i)
                    },
                forall|i: int| shift_value <= i < 64 ==> #[trigger] table@[i] == old(table)@[i],
        {
            let mask: u64 = 1 << shift_value;
            let ghost i = shift_value as int;
            proof {
                lemma_square_masks(shift_value);
                lemma_or_facts();
                lemma_step(i, -1, 1);
                lemma_step(i, -1, -1);
            }
            // A pawn on the first rank attacks nothing
            if mask & Self::RANK_1 != 0 {
                table[shift_value as usize] = 0;
            } else {
                let ghost start = table@[i];
                if mask & Self::FILE_A == 0 {
                    table[shift_value as usize] = table[shift_value as usize] | (1 << (shift_value
                        - 7));
                }
                assert(table@[i] == start | step_bit(i, -1, 1));
                if mask & Self::FILE_H == 0 {
                    table[shift_value as usize] = table[shift_value as usize] | (1 << (shift_value
                        - 9));
                }
                assert(table@[i] == (start | step_bit(i, -1, 1)) | step_bit(i, -1, -1));
            }
        }
    }

    fn generate_white_pawn_push(table: &mut [u64; 64])
        ensures
            forall|i: int|
                0 <= i < 64 ==> #[trigger] final(table)@[i] == if i / 8 == 7 || i / 8 == 0 {
                    0
                } else {
                    old(table)@[i] | white_pawn_push_spec(i)
                },
    {
        for shift_value in 0..64u64
            invariant
                forall|i: int|
                    0 <= i < shift_value ==> #[trigger] table@[i] == if i / 8 == 7 || i / 8 == 0 {
                        0
                    } else {
                        old(table)@[i] | white_pawn_push_spec(i)
                    },
                forall|i: int| shift_value <= i < 64 ==> #[trigger] table@[i] == old(table)@[i],
        {
            let mask: u64 = 1 << shift_value;
            let ghost i = shift_value as int;
            proof {
                lemma_square_masks(shift_value);
                lemma_or_facts();
                lemma_step(i, 2, 0);
                lemma_step(i, 1, 0);
            }
            // A pawn on the first or last rank cannot be pushed
            if mask & Self::RANK_8 != 0 || mask & Self::RANK_1 != 0 {
                table[shift_value as usize] = 0;
            } else {
                let ghost start = table@[i];
                // The double push from the second rank
                if mask & Self::RANK_2 != 0 {
                    table[shift_value as usize] = table[shift_value as usize] | (1 << (shift_value
                        + 16));
                }
                // The single push
                table[shift_value as usize] = table[shift_value as usize] | (1 << (shift_value
                    + 8));
                proof {
                    if i / 8 == 1 {
                        assert(table@[i] == (start | step_bit(i, 2, 0)) | step_bit(i, 1, 0));
                    } else {
                        assert(table@[i] == start | step_bit(i, 1, 0));
                    }
                }
            }
        }
    }

    fn generate_black_pawn_push(table: &mut [u64; 64])
        ensures
            forall|i: int|
                0 <= i < 64 ==> #[trigger] final(table)@[i] == if i / 8 == 7 || i / 8 == 0 {
                    0
                } else {
                    old(table)@[i] | black_pawn_push_spec(i)
                },
    {
        for shift_value in 0..64u64
            invariant
                forall|i: int|
                    0 <= i < shift_value ==> #[trigger] table@[i] == if i / 8 == 7 || i / 8 == 0 {
                        0
                    } else {
                        old(table)@[i] | black_pawn_push_spec(i)
                    },
                forall|i: int| shift_value <= i < 64 ==> #[trigger] table@[i] == old(table)@[i],
        {
            let mask: u64 = 1 << shift_value;
            let ghost i = shift_value as int;
            proof {
                lemma_square_masks(shift_value);
                lemma_or_facts();
                lemma_step(i, -2, 0);
                lemma_step(i, -1, 0);
            }
            // A pawn on the first or last rank cannot be pushed
            if mask & Self::RANK_8 != 0 || mask & Self::RANK_1 != 0 {
                table[shift_value as usize] = 0;
            } else {
                let ghost start = table@[i];
                // The double push from the seventh rank
                if mask & Self::RANK_7 != 0 {
                    table[shift_value as usize] = table[shift_value as usize] | (1 << (shift_value
                        - 16));
                }
                // The single push
                table[shift_value as usize] = table[shift_value as usize] | (1 << (shift_value
                    - 8));
                proof {
                    if i / 8 == 6 {
                        assert(table@[i] == (start | step_bit(i, -2, 0)) | step_bit(i, -1, 0));
                    } else {
                        assert(table@[i] == start | step_bit(i, -1, 0));
                    }
                }
            }
        }
    }
    fn generate_king_attacks(table: &mut [u64; 64])
        ensures
            forall|i: int|
                0 <= i < 64 ==> #[trigger] final(table)@[i] == old(table)@[i] | king_attack_spec(i),
    {
        for shift_value in 0..64u64
            invariant
                forall|i: int|
                    0 <= i < shift_value ==> #[trigger] table@[i] == old(table)@[i] | king_attack_spec(i),
                forall|i: int| shift_value <= i < 64 ==> #[trigger] table@[i] == old(table)@[i],
        {
            let mask: u64 = 1 << shift_value;
            let ghost i = shift_value as int;
            let ghost start = table@[i];
            let ghost mut prev = start;
            proof {
                lemma_square_masks(shift_value);
            }
            // North
            proof { prev = table@[i]; }
            if mask & Self::RANK_8 == 0 {
                proof { lemma_step(i, 1, 0); }
                table[shift_value as usize] = table[shift_value as usize] | (1 << (shift_value + 8));
            }
            assert(table@[i] == start | step_bit(i, 1, 0)) by { lemma_step(i, 1, 0); lemma_or_zero(start); }
            // North east
            proof { prev = table@[i]; }
            if mask & Self::RANK_8 == 0 && mask & Self::FILE_H == 0 {
                proof { lemma_step(i, 1, -1); }
                table[shift_value as usize] = table[shift_value as usize] | (1 << (shift_value + 7));
            }
            assert(table@[i] == prev | step_bit(i, 1, -1)) by { lemma_step(i, 1, -1); lemma_or_zero(prev); }
            assert(table@[i] == start | (step_bit(i, 1, 0) | step_bit(i, 1, -1))) by { lemma_or_assoc(start, step_bit(i, 1, 0), step_bit(i, 1, -1)); }
            // East
            proof { prev = table@[i]; }
            if mask & Self::FILE_H == 0 {
                proof { lemma_step(i, 0, -1); }
                table[shift_value as usize] = table[shift_value as usize] | (1 << (shift_value - 1));
            }
            assert(table@[i] == prev | step_bit(i, 0, -1)) by { lemma_step(i, 0, -1); lemma_or_zero(prev); }
            assert(table@[i] == start | (step_bit(i, 1, 0) | step_bit(i, 1, -1) | step_bit(i, 0, -1))) by { lemma_or_assoc(start, step_bit(i, 1, 0) | step_bit(i, 1, -1), step_bit(i, 0, -1)); }
            // South east
            proof { prev = table@[i]; }
            if mask & Self::RANK_1 == 0 && mask & Self::FILE_H == 0 {
                proof { lemma_step(i, -1, -1); }
                table[shift_value as usize] = table[shift_value as usize] | (1 << (shift_value - 9));
            }
            assert(table@[i] == prev | step_bit(i, -1, -1)) by { lemma_step(i, -1, -1); lemma_or_zero(prev); }
            assert(table@[i] == start | (step_bit(i, 1, 0) | step_bit(i, 1, -1) | step_bit(i, 0, -1) | step_bit(i, -1, -1))) by { lemma_or_assoc(start, step_bit(i, 1, 0) | step_bit(i, 1, -1) | step_bit(i, 0, -1), step_bit(i, -1, -1)); }
            // South
            proof { prev = table@[i]; }
            if mask & Self::RANK_1 == 0 {
                proof { lemma_step(i, -1, 0); }
                table[shift_value as usize] = table[shift_value as usize] | (1 << (shift_value - 8));
            }
            assert(table@[i] == prev | step_bit(i, -1, 0)) by { lemma_step(i, -1, 0); lemma_or_zero(prev); }
            assert(table@[i] == start | (step_bit(i, 1, 0) | step_bit(i, 1, -1) | step_bit(i, 0, -1) | step_bit(i, -1, -1) | step_bit(i, -1, 0))) by { lemma_or_assoc(start, step_bit(i, 1, 0) | step_bit(i, 1, -1) | step_bit(i, 0, -1) | step_bit(i, -1, -1), step_bit(i, -1, 0)); }
            // South west
            proof { prev = table@[i]; }
            if mask & Self::RANK_1 == 0 && mask & Self::FILE_A == 0 {
                proof { lemma_step(i, -1, 1); }
                table[shift_value as usize] = table[shift_value as usize] | (1 << (shift_value - 7));
            }
            assert(table@[i] == prev | step_bit(i, -1, 1)) by { lemma_step(i, -1, 1); lemma_or_zero(prev); }
            assert(table@[i] == start | (step_bit(i, 1, 0) | step_bit(i, 1, -1) | step_bit(i, 0, -1) | step_bit(i, -1, -1) | step_bit(i, -1, 0) | step_bit(i, -1, 1))) by { lemma_or_assoc(start, step_bit(i, 1, 0) | step_bit(i, 1, -1) | step_bit(i, 0, -1) | step_bit(i, -1, -1) | step_bit(i, -1, 0), step_bit(i, -1, 1)); }
            // West
            proof { prev = table@[i]; }
            if mask & Self::FILE_A == 0 {
                proof { lemma_step(i, 0, 1); }
                table[shift_value as usize] = table[shift_value as usize] | (1 << (shift_value + 1));
            }
            assert(table@[i] == prev | step_bit(i, 0, 1)) by { lemma_step(i, 0, 1); lemma_or_zero(prev); }
            assert(table@[i] == start | (step_bit(i, 1, 0) | step_bit(i, 1, -1) | step_bit(i, 0, -1) | step_bit(i, -1, -1) | step_bit(i, -1, 0) | step_bit(i, -1, 1) | step_bit(i, 0, 1))) by { lemma_or_assoc(start, step_bit(i, 1, 0) | step_bit(i, 1, -1) | step_bit(i, 0, -1) | step_bit(i, -1, -1) | step_bit(i, -1, 0) | step_bit(i, -1, 1), step_bit(i, 0, 1)); }
            // North west
            proof { prev = table@[i]; }
            if mask & Self::FILE_A == 0 && mask & Self::RANK_8 == 0 {
                proof { lemma_step(i, 1, 1); }
                table[shift_value as usize] = table[shift_value as usize] | (1 << (shift_value + 9));
            }
            assert(table@[i] == prev | step_bit(i, 1, 1)) by { lemma_step(i, 1, 1); lemma_or_zero(prev); }
            assert(table@[i] == start | (step_bit(i, 1, 0) | step_bit(i, 1, -1) | step_bit(i, 0, -1) | step_bit(i, -1, -1) | step_bit(i, -1, 0) | step_bit(i, -1, 1) | step_bit(i, 0, 1) | step_bit(i, 1, 1))) by { lemma_or_assoc(start, step_bit(i, 1, 0) | step_bit(i, 1, -1) | step_bit(i, 0, -1) | step_bit(i, -1, -1) | step_bit(i, -1, 0) | step_bit(i, -1, 1) | step_bit(i, 0, 1), step_bit(i, 1, 1)); }
        }
    }

    #[verifier::rlimit(40)]
    fn generate_knight_attacks(table: &mut [u64; 64])
        ensures
            forall|i: int|
                0 <= i < 64 ==> #[trigger] final(table)@[i] == old(table)@[i] | knight_attack_spec(i),
    {
        for shift_value in 0..64u64
            invariant
                forall|i: int|
                    0 <= i < shift_value ==> #[trigger] table@[i] == old(table)@[i] | knight_attack_spec(i),
                forall|i: int| shift_value <= i < 64 ==> #[trigger] table@[i] == old(table)@[i],
        {
            let mask: u64 = 1 << shift_value;
            let ghost i = shift_value as int;
            let ghost start = table@[i];
            let ghost mut prev = start;
            proof {
                lemma_square_masks(shift_value);
            }
            // North north east
            proof { prev = table@[i]; }
            if mask & Self::RANK_78 == 0 && mask & Self::FILE_H == 0 {
                proof { lemma_step(i, 2, -1); }
                table[shift_value as usize] = table[shift_value as usize] | (1 << (shift_value + 15));
            }
            assert(table@[i] == start | step_bit(i, 2, -1)) by { lemma_step(i, 2, -1); lemma_or_zero(start); }
            // North east east
            proof { prev = table@[i]; }
            if mask & Self::RANK_8 == 0 && mask & Self::FILE_GH == 0 {
                proof { lemma_step(i, 1, -2); }
                table[shift_value as usize] = table[shift_value as usize] | (1 << (shift_value + 6));
            }
            assert(table@[i] == prev | step_bit(i, 1, -2)) by { lemma_step(i, 1, -2); lemma_or_zero(prev); }
            assert(table@[i] == start | (step_bit(i, 2, -1) | step_bit(i, 1, -2))) by { lemma_or_assoc(start, step_bit(i, 2, -1), step_bit(i, 1, -2)); }
            // South east east
            proof { prev = table@[i]; }
            if mask & Self::RANK_1 == 0 && mask & Self::FILE_GH == 0 {
                proof { lemma_step(i, -1, -2); }
                table[shift_value as usize] = table[shift_value as usize] | (1 << (shift_value - 10));
            }
            assert(table@[i] == prev | step_bit(i, -1, -2)) by { lemma_step(i, -1, -2); lemma_or_zero(prev); }
            assert(table@[i] == start | (step_bit(i, 2, -1) | step_bit(i, 1, -2) | step_bit(i, -1, -2))) by { lemma_or_assoc(start, step_bit(i, 2, -1) | step_bit(i, 1, -2), step_bit(i, -1, -2)); }
            // South south east
            proof { prev = table@[i]; }
            if mask & Self::RANK_12 == 0 && mask & Self::FILE_H == 0 {
                proof { lemma_step(i, -2, -1); }
                table[shift_value as usize] = table[shift_value as usize] | (1 << (shift_value - 17));
            }
            assert(table@[i] == prev | step_bit(i, -2, -1)) by { lemma_step(i, -2, -1); lemma_or_zero(prev); }
            assert(table@[i] == start | (step_bit(i, 2, -1) | step_bit(i, 1, -2) | step_bit(i, -1, -2) | step_bit(i, -2, -1))) by { lemma_or_assoc(start, step_bit(i, 2, -1) | step_bit(i, 1, -2) | step_bit(i, -1, -2), step_bit(i, -2, -1)); }
            // South south west
            proof { prev = table@[i]; }
            if mask & Self::RANK_12 == 0 && mask & Self::FILE_A == 0 {
                proof { lemma_step(i, -2, 1); }
                table[shift_value as usize] = table[shift_value as usize] | (1 << (shift_value - 15));
            }
            assert(table@[i] == prev | step_bit(i, -2, 1)) by { lemma_step(i, -2, 1); lemma_or_zero(prev); }
            assert(table@[i] == start | (step_bit(i, 2, -1) | step_bit(i, 1, -2) | step_bit(i, -1, -2) | step_bit(i, -2, -1) | step_bit(i, -2, 1))) by { lemma_or_assoc(start, step_bit(i, 2, -1) | step_bit(i, 1, -2) | step_bit(i, -1, -2) | step_bit(i, -2, -1), step_bit(i, -2, 1)); }
            // South west west
            proof { prev = table@[i]; }
            if mask & Self::RANK_1 == 0 && mask & Self::FILE_AB == 0 {
                proof { lemma_step(i, -1, 2); }
                table[shift_value as usize] = table[shift_value as usize] | (1 << (shift_value - 6));
            }
            assert(table@[i] == prev | step_bit(i, -1, 2)) by { lemma_step(i, -1, 2); lemma_or_zero(prev); }
            assert(table@[i] == start | (step_bit(i, 2, -1) | step_bit(i, 1, -2) | step_bit(i, -1, -2) | step_bit(i, -2, -1) | step_bit(i, -2, 1) | step_bit(i, -1, 2))) by { lemma_or_assoc(start, step_bit(i, 2, -1) | step_bit(i, 1, -2) | step_bit(i, -1, -2) | step_bit(i, -2, -1) | step_bit(i, -2, 1), step_bit(i, -1, 2)); }
            // North west west
            proof { prev = table@[i]; }
            if mask & Self::RANK_8 == 0 && mask & Self::FILE_AB == 0 {
                proof { lemma_step(i, 1, 2); }
                table[shift_value as usize] = table[shift_value as usize] | (1 << (shift_value + 10));
            }
            assert(table@[i] == prev | step_bit(i, 1, 2)) by { lemma_step(i, 1, 2); lemma_or_zero(prev); }
            assert(table@[i] == start | (step_bit(i, 2, -1) | step_bit(i, 1, -2) | step_bit(i, -1, -2) | step_bit(i, -2, -1) | step_bit(i, -2, 1) | step_bit(i, -1, 2) | step_bit(i, 1, 2))) by { lemma_or_assoc(start, step_bit(i, 2, -1) | step_bit(i, 1, -2) | step_bit(i, -1, -2) | step_bit(i, -2, -1) | step_bit(i, -2, 1) | step_bit(i, -1, 2), step_bit(i, 1, 2)); }
            // North north west
            proof { prev = table@[i]; }
            if mask & Self::RANK_78 == 0 && mask & Self::FILE_A == 0 {
                proof { lemma_step(i, 2, 1); }
                table[shift_value as usize] = table[shift_value as usize] | (1 << (shift_value + 17));
            }
            assert(table@[i] == prev | step_bit(i, 2, 1)) by { lemma_step(i, 2, 1); lemma_or_zero(prev); }
            assert(table@[i] == start | (step_bit(i, 2, -1) | step_bit(i, 1, -2) | step_bit(i, -1, -2) | step_bit(i, -2, -1) | step_bit(i, -2, 1) | step_bit(i, -1, 2) | step_bit(i, 1, 2) | step_bit(i, 2, 1))) by { lemma_or_assoc(start, step_bit(i, 2, -1) | step_bit(i, 1, -2) | step_bit(i, -1, -2) | step_bit(i, -2, -1) | step_bit(i, -2, 1) | step_bit(i, -1, 2) | step_bit(i, 1, 2), step_bit(i, 2, 1)); }
        }
    }

}

/// The distance a walk from `(r, f)` in direction `(dr, df)` can still go.
pub open spec fn walk_measure(r: int, f: int, dr: int, df: int) -> int {
    (if dr > 0 {
        8 - r
    } else if dr < 0 {
        r + 1
    } else {
        0
    }) + (if df > 0 {
        8 - f
    } else if df < 0 {
        f + 1
    } else {
        0
    })
}

/// The squares a slider on `(r, f)` reaches in direction `(dr, df)`: each
/// square up to the board's edge, stopping at (and including) the first
/// square that holds a blocker.
pub open spec fn ray(r: int, f: int, dr: int, df: int, blockers: u64) -> u64
    decreases walk_measure(r, f, dr, df),
{
    if (dr == 0 && df == 0) || !on_board(r + dr, f + df) {
        0
    } else {
        let b = sq_bit(sq(r + dr, f + df));
        if b & blockers != 0 {
            b
        } else {
            b | ray(r + dr, f + df, dr, df, blockers)
        }
    }
}

/// The squares strictly inside the board that a slider on `(r, f)` passes in
/// direction `(dr, df)`: the walk without its last square on the edge.
pub open spec fn inner_ray(r: int, f: int, dr: int, df: int) -> u64
    decreases walk_measure(r, f, dr, df),
{
    if (dr == 0 && df == 0) || !on_board(r + 2 * dr, f + 2 * df) {
        0
    } else {
        sq_bit(sq(r + dr, f + df)) | inner_ray(r + dr, f + df, dr, df)
    }
}

/// What a rook on square `i` attacks given the blockers.
pub open spec fn rook_attack_spec(i: int, blockers: u64) -> u64 {
    let r = i / 8;
    let f = i % 8;
    ray(r, f, 1, 0, blockers) | ray(r, f, 0, -1, blockers) | ray(r, f, -1, 0, blockers) | ray(
        r,
        f,
        0,
        1,
        blockers,
    )
}

/// What a bishop on square `i` attacks given the blockers.
pub open spec fn bishop_attack_spec(i: int, blockers: u64) -> u64 {
    let r = i / 8;
    let f = i % 8;
    ray(r, f, 1, -1, blockers) | ray(r, f, -1, -1, blockers) | ray(r, f, -1, 1, blockers) | ray(
        r,
        f,
        1,
        1,
        blockers,
    )
}

/// The squares whose occupancy can change a rook's attacks from square `i`.
pub open spec fn rook_mask_spec(i: int) -> u64 {
    let r = i / 8;
    let f = i % 8;
    inner_ray(r, f, 1, 0) | inner_ray(r, f, 0, -1) | inner_ray(r, f, -1, 0) | inner_ray(r, f, 0, 1)
}

/// The squares whose occupancy can change a bishop's attacks from square `i`.
pub open spec fn bishop_mask_spec(i: int) -> u64 {
    let r = i / 8;
    let f = i % 8;
    inner_ray(r, f, 1, -1) | inner_ray(r, f, -1, -1) | inner_ray(r, f, -1, 1) | inner_ray(
        r,
        f,
        1,
        1,
    )
}

/// The square index of a rank and file.
fn rf_to_index(rank: i64, file: i64) -> (r: u64)
    requires
        on_board(rank as int, file as int),
    ensures
        r == sq(rank as int, file as int),
        r < 64,
{
    (file + 8 * rank) as u64
}

/// Walks from `(rank, file)` in direction `(dr, df)`, collecting squares up to
/// and including the first blocker.
fn ray_mask(rank: i64, file: i64, dr: i64, df: i64, blockers: u64) -> (r: u64)
    requires
        on_board(rank as int, file as int),
        -1 <= dr <= 1,
        -1 <= df <= 1,
        !(dr == 0 && df == 0),
    ensures
        r == ray(rank as int, file as int, dr as int, df as int, blockers),
{
    let mut loop_rank = rank;
    let mut loop_file = file;
    let mut relevent: u64 = 0;
    proof {
        lemma_zero_or(ray(rank as int, file as int, dr as int, df as int, blockers));
    }
    while 0 <= loop_rank + dr && loop_rank + dr < 8 && 0 <= loop_file + df && loop_file + df < 8
        invariant_except_break
            on_board(loop_rank as int, loop_file as int),
            -1 <= dr <= 1,
            -1 <= df <= 1,
            !(dr == 0 && df == 0),
            relevent | ray(loop_rank as int, loop_file as int, dr as int, df as int, blockers)
                == ray(rank as int, file as int, dr as int, df as int, blockers),
        ensures
            relevent == ray(rank as int, file as int, dr as int, df as int, blockers) || (relevent
                | ray(loop_rank as int, loop_file as int, dr as int, df as int, blockers) == ray(
                rank as int,
                file as int,
                dr as int,
                df as int,
                blockers,
            ) && !on_board(loop_rank + dr, loop_file + df)),
        decreases walk_measure(loop_rank as int, loop_file as int, dr as int, df as int),
    {
        let ghost prev = relevent;
        let ghost (r0, f0) = (loop_rank as int, loop_file as int);
        loop_rank = loop_rank + dr;
        loop_file = loop_file + df;
        let mask: u64 = 1 << rf_to_index(loop_rank, loop_file);
        if mask & blockers != 0 {
            relevent = relevent | mask;
            break;
        }
        relevent = relevent | mask;
        proof {
            lemma_or_assoc(prev, mask, ray(loop_rank as int, loop_file as int, dr as int, df as int, blockers));
        }
    }
    proof {
        lemma_or_zero(relevent);
    }
    relevent
}

/// The squares strictly inside the board passed by a walk from
/// `(rank, file)` in direction `(dr, df)`.
fn inner_ray_mask(rank: i64, file: i64, dr: i64, df: i64) -> (r: u64)
    requires
        on_board(rank as int, file as int),
        -1 <= dr <= 1,
        -1 <= df <= 1,
        !(dr == 0 && df == 0),
    ensures
        r == inner_ray(rank as int, file as int, dr as int, df as int),
{
    let mut loop_rank = rank;
    let mut loop_file = file;
    let mut mask: u64 = 0;
    proof {
        lemma_zero_or(inner_ray(rank as int, file as int, dr as int, df as int));
    }
    while 0 <= loop_rank + 2 * dr && loop_rank + 2 * dr < 8 && 0 <= loop_file + 2 * df && loop_file + 2
        * df < 8
        invariant
            on_board(loop_rank as int, loop_file as int),
            -1 <= dr <= 1,
            -1 <= df <= 1,
            !(dr == 0 && df == 0),
            mask | inner_ray(loop_rank as int, loop_file as int, dr as int, df as int)
                == inner_ray(rank as int, file as int, dr as int, df as int),
        decreases walk_measure(loop_rank as int, loop_file as int, dr as int, df as int),
    {
        let ghost prev = mask;
        loop_rank = loop_rank + dr;
        loop_file = loop_file + df;
        let bit: u64 = 1 << rf_to_index(loop_rank, loop_file);
        mask = mask | bit;
        proof {
            lemma_or_assoc(prev, bit, inner_ray(loop_rank as int, loop_file as int, dr as int, df as int));
        }
    }
    proof {
        lemma_or_zero(mask);
    }
    mask
}

/// The empty board `|` anything is that thing.
pub proof fn lemma_zero_or(a: u64)
    ensures
        0u64 | a == a,
{
    assert(0u64 | a == a) by (bit_vector);
}

/// `|` with the empty board changes nothing.
pub proof fn lemma_or_zero(a: u64)
    ensures
        a | 0u64 == a,
{
    assert(a | 0u64 == a) by (bit_vector);
}

/// `|` is associative.
pub proof fn lemma_or_assoc(a: u64, b: u64, c: u64)
    ensures
        (a | b) | c == a | (b | c),
{
    assert((a | b) | c == a | (b | c)) by (bit_vector);
}

impl Tables {
    /// Builds the rook's relevant-occupancy masks into `table`.
    pub fn generate_rook_occupancy_mask(table: &mut [u64; 64])
        ensures
            forall|i: int|
                0 <= i < 64 ==> #[trigger] final(table)@[i] == old(table)@[i] | rook_mask_spec(i),
    {
        for shift_value in 0..64usize
            invariant
                forall|i: int|
                    0 <= i < shift_value ==> #[trigger] table@[i] == old(table)@[i]
                        | rook_mask_spec(i),
                forall|i: int| shift_value <= i < 64 ==> #[trigger] table@[i] == old(table)@[i],
        {
            let rank = (shift_value / 8) as i64;
            let file = (shift_value % 8) as i64;
            // North, east, south and west
            let north = inner_ray_mask(rank, file, 1, 0);
            let east = inner_ray_mask(rank, file, 0, -1);
            let south = inner_ray_mask(rank, file, -1, 0);
            let west = inner_ray_mask(rank, file, 0, 1);
            table[shift_value] = table[shift_value] | (north | east | south | west);
        }
    }

    /// Builds the bishop's relevant-occupancy masks into `table`.
    pub fn generate_bishop_occupancy_mask(table: &mut [u64; 64])
        ensures
            forall|i: int|
                0 <= i < 64 ==> #[trigger] final(table)@[i] == old(table)@[i] | bishop_mask_spec(i),
    {
        for shift_value in 0..64usize
            invariant
                forall|i: int|
                    0 <= i < shift_value ==> #[trigger] table@[i] == old(table)@[i]
                        | bishop_mask_spec(i),
                forall|i: int| shift_value <= i < 64 ==> #[trigger] table@[i] == old(table)@[i],
        {
            let rank = (shift_value / 8) as i64;
            let file = (shift_value % 8) as i64;
            // North east, south east, south west and north west
            let north_east = inner_ray_mask(rank, file, 1, -1);
            let south_east = inner_ray_mask(rank, file, -1, -1);
            let south_west = inner_ray_mask(rank, file, -1, 1);
            let north_west = inner_ray_mask(rank, file, 1, 1);
            table[shift_value] = table[shift_value] | (north_east | south_east | south_west
                | north_west);
        }
    }

    /// Builds the union of the rook's and the bishop's masks into `table`.
    fn generate_queen_occupancy_mask(table: &mut [u64; 64])
        ensures
            forall|i: int|
                0 <= i < 64 ==> #[trigger] final(table)@[i] == (old(table)@[i] | rook_mask_spec(i))
                    | bishop_mask_spec(i),
    {
        Tables::generate_rook_occupancy_mask(table);
        Tables::generate_bishop_occupancy_mask(table);
    }

    /// The squares a rook on `index` attacks, stopping at the first blocker in
    /// each direction (the blocker's square included).
    pub fn calculate_relevent_rook_occupancy(index: usize, blockers: u64) -> (r: u64)
        requires
            index < 64,
        ensures
            r == rook_attack_spec(index as int, blockers),
    {
        let rank = (index / 8) as i64;
        let file = (index % 8) as i64;
        let north = ray_mask(rank, file, 1, 0, blockers);
        let east = ray_mask(rank, file, 0, -1, blockers);
        let south = ray_mask(rank, file, -1, 0, blockers);
        let west = ray_mask(rank, file, 0, 1, blockers);
        north | east | south | west
    }

    /// The squares a bishop on `index` attacks, stopping at the first blocker
    /// in each direction (the blocker's square included).
    pub fn calculate_relevent_bishop_occupancy(index: usize, blockers: u64) -> (r: u64)
        requires
            index < 64,
        ensures
            r == bishop_attack_spec(index as int, blockers),
    {
        let rank = (index / 8) as i64;
        let file = (index % 8) as i64;
        let north_east = ray_mask(rank, file, 1, -1, blockers);
        let south_east = ray_mask(rank, file, -1, -1, blockers);
        let south_west = ray_mask(rank, file, -1, 1, blockers);
        let north_west = ray_mask(rank, file, 1, 1, blockers);
        north_east | south_east | south_west | north_west
    }
}

/// The bits of `n`, lowest first, placed on the set squares of `occ` from
/// square `s` upward (a parallel bit deposit).
pub open spec fn deposit(n: u64, occ: u64, s: int) -> u64
    decreases 64 - s,
{
    if s >= 64 || s < 0 {
        0
    } else if occ & sq_bit(s) != 0 {
        ((n & 1) << (s as u64)) | deposit(n >> 1u64, occ, s + 1)
    } else {
        deposit(n, occ, s + 1)
    }
}

/// The wrapping product of a masked occupancy and a magic number.
#[verifier::opaque]
pub open spec fn magic_product(magic: u64, mask: u64) -> u64 {
    mask.wrapping_mul(magic)
}

/// The magic hash of a masked occupancy: the top `bit_count` bits of the
/// wrapping product.
pub open spec fn magic_hash(magic: u64, bit_count: u64, mask: u64) -> u64 {
    magic_product(magic, mask) >> ((64 - bit_count) as u64)
}

/// The attack set of a slider (a rook when `rook` holds, else a bishop).
pub open spec fn slider_attack_spec(rook: bool, i: int, blockers: u64) -> u64 {
    if rook {
        rook_attack_spec(i, blockers)
    } else {
        bishop_attack_spec(i, blockers)
    }
}

/// The entry at `hash` of square `i`'s column after the first `n` blocker
/// patterns of `mask` have each been written at their own hash, starting from
/// `base`: the attack set of the last pattern with that hash.
pub open spec fn slot_after(
    rook: bool,
    magic: u64,
    count: u64,
    mask: u64,
    i: int,
    hash: u64,
    n: nat,
    base: u64,
) -> u64
    decreases n,
{
    if n == 0 {
        base
    } else {
        let occ = deposit((n - 1) as u64, mask, 0);
        if magic_hash(magic, count, occ) == hash {
            slider_attack_spec(rook, i, occ)
        } else {
            slot_after(rook, magic, count, mask, i, hash, (n - 1) as nat, base)
        }
    }
}

/// The number of blocker patterns of a mask with `count` squares.
pub open spec fn patterns(count: u64) -> nat {
    (1u64 << count) as nat
}

/// Facts about the hash of a mask with one to twelve squares.
pub proof fn lemma_hash_bound(magic: u64, count: u64, occ: u64)
    requires
        1 <= count <= 12,
    ensures
        magic_hash(magic, count, occ) < patterns(count),
        patterns(count) <= 4096,
{
    let x = magic_product(magic, occ);
    assert(x >> ((64 - count) as u64) < (1u64 << count)) by (bit_vector)
        requires
            1 <= count <= 12,
    ;
    assert((1u64 << count) <= 4096) by (bit_vector)
        requires
            1 <= count <= 12,
    ;
}

impl Tables {
    /// Places the bits of `number`, lowest first, on the set squares of
    /// `occupancy`, lowest first.
    pub fn map_number_to_occupancy(number: u64, occupancy: u64) -> (r: u64)
        ensures
            r == deposit(number, occupancy, 0),
    {
        let mut number = number;
        let mut mapped: u64 = 0;
        let ghost total = deposit(number, occupancy, 0);
        proof {
            lemma_zero_or(total);
        }
        for shift_value in 0..64u64
            invariant
                mapped | deposit(number, occupancy, shift_value as int) == total,
        {
            let ghost prev_mapped = mapped;
            let ghost prev_number = number;
            if occupancy & (1 << shift_value) != 0 {
                let bit: u64 = match number & 1 {
                    0 => 0,
                    _ => 1,
                };
                assert(bit == prev_number & 1) by {
                    assert(prev_number & 1u64 <= 1) by (bit_vector);
                }
                number = number >> 1;
                mapped = mapped | (bit << shift_value);
                proof {
                    lemma_or_assoc(
                        prev_mapped,
                        (prev_number & 1) << shift_value,
                        deposit(number, occupancy, shift_value + 1),
                    );
                }
            }
        }
        proof {
            lemma_or_zero(mapped);
        }
        mapped
    }

    /// The top `bit_count` bits of `mask * magic` (wrapping).
    pub fn apply_magic_hash(magic: u64, bit_count: u64, mask: u64) -> (r: u64)
        requires
            1 <= bit_count <= 64,
        ensures
            r == magic_hash(magic, bit_count, mask),
    {
        reveal(magic_product);
        mask.wrapping_mul(magic) >> (64 - bit_count)
    }
}

/// The magic number of each square for rook lookups.
pub const ROOK_MAGICS: [u64; 64] = [
    0x0880001080204000u64, 0x0040004010002003u64, 0x2a00201082004008u64, 0x0600040940201200u64,
    0x0a00084c62005020u64, 0x0e00040810820011u64, 0x0c80008021000200u64, 0x01000c8041000032u64,
    0x0000800080204008u64, 0x0401802000400082u64, 0x2002002842008010u64, 0x001100081001a302u64,
    0x0446000a00041020u64, 0x0802000804020010u64, 0x3362004108020044u64, 0x0902000410920041u64,
    0x80008a8002400220u64, 0x0700404010002004u64, 0x2401010020004010u64, 0x0c20210008100100u64,
    0x0004008080080004u64, 0x2001010002080400u64, 0x4890a40032011810u64, 0x0640120000510084u64,
    0x0040208080004000u64, 0x2520004140003000u64, 0x4000200280100088u64, 0x823c100080080280u64,
    0x0060050100100800u64, 0x2052000a00100834u64, 0x0824010400489022u64, 0x026028820000490cu64,
    0x0020804010800020u64, 0x0000200081804000u64, 0x0020006081801000u64, 0x0010100101002008u64,
    0x0004004008080080u64, 0x2411002803000400u64, 0x4040080104001002u64, 0x210051004a000084u64,
    0x0080102000484004u64, 0x1000500020004002u64, 0x8020420480220012u64, 0x8800100409010020u64,
    0x0048008004008008u64, 0x0802000804020010u64, 0x3362004108020044u64, 0x4800804081220004u64,
    0x0000400080002080u64, 0x7280409022010200u64, 0x0001004020081100u64, 0x8540880280100480u64,
    0x0100080080040280u64, 0x0000020004008080u64, 0x1100014810024400u64, 0x2e51000882004900u64,
    0x1041490150220082u64, 0x0042102100804003u64, 0x2800408020081202u64, 0x00d0000810210105u64,
    0x82020008102004aau64, 0x000100084c000229u64, 0x10081710080a9204u64, 0x0824010400489022u64,
];

/// The magic number of each square for bishop lookups.
pub const BISHOP_MAGICS: [u64; 64] = [
    0x3e02280111020200u64, 0x3e02280111020200u64, 0x0026082a00820a10u64, 0x22080605c0100041u64,
    0x4204152001005800u64, 0x0a408820086002a8u64, 0x3000888410421000u64, 0x0020804108202281u64,
    0x010ad02002040068u64, 0x0041083000808904u64, 0x2080100122002000u64, 0x2080040506030407u64,
    0x2000021210000000u64, 0x9108021104200090u64, 0x0400004104202101u64, 0x0802042488280848u64,
    0x9044202084140800u64, 0x2050000450108101u64, 0x0201000802040010u64, 0x8414045803a84c04u64,
    0x0041010820081000u64, 0x008a000422012022u64, 0x0110820400841100u64, 0x0001020480881180u64,
    0x1d20b00160040920u64, 0x0001080004284804u64, 0x020910080c404200u64, 0x6014080080202040u64,
    0x1801010040104000u64, 0x1000808108080410u64, 0x0001040040440405u64, 0x2061020000524c01u64,
    0x9418080a0040c210u64, 0x0082101000030200u64, 0x0041004100080808u64, 0x9800400820060200u64,
    0x0020062081040084u64, 0x2000a10100020080u64, 0x0008420090704810u64, 0x2000a10100020080u64,
    0x4001101822082480u64, 0x0204088208811000u64, 0x8000501090001800u64, 0x4200022104002042u64,
    0x00001c3008840400u64, 0x206000a100404200u64, 0x2804080204200040u64, 0x0224008212040050u64,
    0x3000888410421000u64, 0x3000888410421000u64, 0x2010020100882211u64, 0x0000000084041280u64,
    0x0000002082440009u64, 0x30181004a8082850u64, 0xc042080244004000u64, 0x3e02280111020200u64,
    0x0020804108202281u64, 0x0802042488280848u64, 0x0080004301084903u64, 0x00001c3008840400u64,
    0x9a020c4040050100u64, 0x1404800504080204u64, 0x010ad02002040068u64, 0x3e02280111020200u64,
];

/// The shape of a table of slider attacks: 4096 hashes by 64 squares.
pub open spec fn attack_table_shape(t: Seq<Vec<u64>>) -> bool {
    &&& t.len() == 4096
    &&& forall|h: int| 0 <= h < 4096 ==> (#[trigger] t[h])@.len() == 64
}

impl Tables {
    /// Writes, for every square and every blocker pattern of its mask, the
    /// slider's attack set at the pattern's magic hash.
    fn generate_slider_attacks(
        tables: &mut Vec<Vec<u64>>,
        count: [u64; 64],
        magics: [u64; 64],
        occupancy: [u64; 64],
        rook: bool,
    )
        requires
            attack_table_shape(old(tables)@),
            forall|i: int| 0 <= i < 64 ==> 1 <= #[trigger] count[i] <= 12,
        ensures
            attack_table_shape(final(tables)@),
            forall|h: int, i: int|
                0 <= h < 4096 && 0 <= i < 64 ==> #[trigger] final(tables)@[h]@[i] == slot_after(
                    rook,
                    magics[i],
                    count[i],
                    occupancy[i],
                    i,
                    h as u64,
                    patterns(count[i]),
                    old(tables)@[h]@[i],
                ),
    {
        for square in 0..64usize
            invariant
                attack_table_shape(tables@),
                forall|i: int| 0 <= i < 64 ==> 1 <= #[trigger] count[i] <= 12,
                forall|h: int, i: int|
                    0 <= h < 4096 && 0 <= i < square ==> #[trigger] tables@[h]@[i] == slot_after(
                        rook,
                        magics[i],
                        count[i],
                        occupancy[i],
                        i,
                        h as u64,
                        patterns(count[i]),
                        old(tables)@[h]@[i],
                    ),
                forall|h: int, i: int|
                    0 <= h < 4096 && square <= i < 64 ==> #[trigger] tables@[h]@[i] == old(
                        tables,
                    )@[h]@[i],
        {
            let c = count[square];
            proof {
                lemma_hash_bound(0, c, 0);
            }
            let total: u64 = 1 << c;
            for permutation in 0..total
                invariant
                    square < 64,
                    c == count[square as int],
                    1 <= c <= 12,
                    total == patterns(c),
                    attack_table_shape(tables@),
                    forall|i: int| 0 <= i < 64 ==> 1 <= #[trigger] count[i] <= 12,
                    forall|h: int, i: int|
                        0 <= h < 4096 && 0 <= i < square ==> #[trigger] tables@[h]@[i]
                            == slot_after(
                            rook,
                            magics[i],
                            count[i],
                            occupancy[i],
                            i,
                            h as u64,
                            patterns(count[i]),
                            old(tables)@[h]@[i],
                        ),
                    forall|h: int, i: int|
                        0 <= h < 4096 && square < i < 64 ==> #[trigger] tables@[h]@[i] == old(
                            tables,
                        )@[h]@[i],
                    forall|h: int|
                        0 <= h < 4096 ==> #[trigger] tables@[h]@[square as int] == slot_after(
                            rook,
                            magics[square as int],
                            c,
                            occupancy[square as int],
                            square as int,
                            h as u64,
                            permutation as nat,
                            old(tables)@[h]@[square as int],
                        ),
            {
                let occ = Tables::map_number_to_occupancy(permutation, occupancy[square]);
                let hash = Tables::apply_magic_hash(magics[square], c, occ);
                proof {
                    lemma_hash_bound(magics[square as int], c, occ);
                }
                let attack = if rook {
                    Tables::calculate_relevent_rook_occupancy(square, occ)
                } else {
                    Tables::calculate_relevent_bishop_occupancy(square, occ)
                };
                let mut row = tables[hash as usize].clone();
                assert(row@ == tables@[hash as int]@);
                row.set(square, attack);
                tables.set(hash as usize, row);
            }
        }
    }

    /// Fills the magic-indexed table of rook attacks.
    fn generate_rook_attacks(
        tables: &mut Vec<Vec<u64>>,
        count: [u64; 64],
        magics: [u64; 64],
        occupancy: [u64; 64],
    )
        requires
            attack_table_shape(old(tables)@),
            forall|i: int| 0 <= i < 64 ==> 1 <= #[trigger] count[i] <= 12,
        ensures
            attack_table_shape(final(tables)@),
            forall|h: int, i: int|
                0 <= h < 4096 && 0 <= i < 64 ==> #[trigger] final(tables)@[h]@[i] == slot_after(
                    true,
                    magics[i],
                    count[i],
                    occupancy[i],
                    i,
                    h as u64,
                    patterns(count[i]),
                    old(tables)@[h]@[i],
                ),
    {
        Tables::generate_slider_attacks(tables, count, magics, occupancy, true);
    }

    /// Fills the magic-indexed table of bishop attacks.
    fn generate_bishop_attacks(
        tables: &mut Vec<Vec<u64>>,
        count: [u64; 64],
        magics: [u64; 64],
        occupancy: [u64; 64],
    )
        requires
            attack_table_shape(old(tables)@),
            forall|i: int| 0 <= i < 64 ==> 1 <= #[trigger] count[i] <= 12,
        ensures
            attack_table_shape(final(tables)@),
            forall|h: int, i: int|
                0 <= h < 4096 && 0 <= i < 64 ==> #[trigger] final(tables)@[h]@[i] == slot_after(
                    false,
                    magics[i],
                    count[i],
                    occupancy[i],
                    i,
                    h as u64,
                    patterns(count[i]),
                    old(tables)@[h]@[i],
                ),
    {
        Tables::generate_slider_attacks(tables, count, magics, occupancy, false);
    }

    /// Fills `table` with the number of squares of each mask.
    fn generate_count_table(table: &mut [u64; 64], occupancy_masks: [u64; 64])
        ensures
            forall|i: int|
                0 <= i < 64 ==> #[trigger] final(table)@[i] == popcount(occupancy_masks[i]),
    {
        for shift_value in 0..64usize
            invariant
                forall|i: int|
                    0 <= i < shift_value ==> #[trigger] table@[i] == popcount(occupancy_masks[i]),
        {
            table[shift_value] = occupancy_masks[shift_value].count_ones() as u64;
        }
    }
}

impl Tables {
    /// What the tables hold once built: each table is what its name says.
    pub open spec fn wf(&self) -> bool {
        &&& forall|i: int| 0 <= i < 64 ==> #[trigger] self.white_pawn_attacks@[i] == white_pawn_attack_spec(i)
        &&& forall|i: int| 0 <= i < 64 ==> #[trigger] self.black_pawn_attacks@[i] == black_pawn_attack_spec(i)
        &&& forall|i: int| 0 <= i < 64 ==> #[trigger] self.white_pawn_push@[i] == white_pawn_push_spec(i)
        &&& forall|i: int| 0 <= i < 64 ==> #[trigger] self.black_pawn_push@[i] == black_pawn_push_spec(i)
        &&& forall|i: int| 0 <= i < 64 ==> #[trigger] self.knight_attacks@[i] == knight_attack_spec(i)
        &&& forall|i: int| 0 <= i < 64 ==> #[trigger] self.king_attacks@[i] == king_attack_spec(i)
        &&& forall|i: int| 0 <= i < 64 ==> #[trigger] self.rook_occupancy@[i] == rook_mask_spec(i)
        &&& forall|i: int| 0 <= i < 64 ==> #[trigger] self.bishop_occupancy@[i] == bishop_mask_spec(i)
        &&& forall|i: int|
            0 <= i < 64 ==> #[trigger] self.queen_occupancy@[i] == rook_mask_spec(i) | bishop_mask_spec(i)
        &&& forall|i: int|
            0 <= i < 64 ==> #[trigger] self.relevent_rook_count@[i] == popcount(rook_mask_spec(i))
                && 1 <= self.relevent_rook_count@[i] <= 12
        &&& forall|i: int|
            0 <= i < 64 ==> #[trigger] self.relevent_bishop_count@[i] == popcount(bishop_mask_spec(i))
                && 1 <= self.relevent_bishop_count@[i] <= 12
        &&& attack_table_shape(self.rook_attacks@)
        &&& attack_table_shape(self.bishop_attacks@)
        &&& forall|h: int, i: int|
            0 <= h < 4096 && 0 <= i < 64 ==> #[trigger] self.rook_attacks@[h]@[i] == slot_after(
                true,
                self.rook_magics@[i],
                self.relevent_rook_count@[i],
                self.rook_occupancy@[i],
                i,
                h as u64,
                patterns(self.relevent_rook_count@[i]),
                0,
            )
        &&& forall|h: int, i: int|
            0 <= h < 4096 && 0 <= i < 64 ==> #[trigger] self.bishop_attacks@[h]@[i] == slot_after(
                false,
                self.bishop_magics@[i],
                self.relevent_bishop_count@[i],
                self.bishop_occupancy@[i],
                i,
                h as u64,
                patterns(self.relevent_bishop_count@[i]),
                0,
            )
    }

    /// The rook entry that a lookup from square `i` with `occupancy` reads:
    /// the attack set of the last blocker pattern of the square's mask that
    /// shares the occupancy's magic hash.
    pub open spec fn rook_lookup(&self, i: int, occupancy: u64) -> u64 {
        slot_after(
            true,
            self.rook_magics@[i],
            self.relevent_rook_count@[i],
            self.rook_occupancy@[i],
            i,
            magic_hash(
                self.rook_magics@[i],
                self.relevent_rook_count@[i],
                occupancy & self.rook_occupancy@[i],
            ),
            patterns(self.relevent_rook_count@[i]),
            0,
        )
    }

    /// The bishop entry that a lookup from square `i` with `occupancy` reads.
    pub open spec fn bishop_lookup(&self, i: int, occupancy: u64) -> u64 {
        slot_after(
            false,
            self.bishop_magics@[i],
            self.relevent_bishop_count@[i],
            self.bishop_occupancy@[i],
            i,
            magic_hash(
                self.bishop_magics@[i],
                self.relevent_bishop_count@[i],
                occupancy & self.bishop_occupancy@[i],
            ),
            patterns(self.relevent_bishop_count@[i]),
            0,
        )
    }

    /// Builds every table, with the magic numbers `ROOK_MAGICS` and
    /// `BISHOP_MAGICS`. Whether each rook and bishop lookup of the result
    /// gives the real attack set is what `lookups_exact` decides.
    pub fn new() -> (t: Tables)
        ensures
            t.wf(),
            t.rook_magics@ == ROOK_MAGICS@,
            t.bishop_magics@ == BISHOP_MAGICS@,
    {
        let mut white_pawn_attacks: [u64; 64] = [0u64; 64];
        let mut black_pawn_attacks: [u64; 64] = [0u64; 64];
        let mut white_pawn_push: [u64; 64] = [0u64; 64];
        let mut black_pawn_push: [u64; 64] = [0u64; 64];
        let mut knight_attacks: [u64; 64] = [0u64; 64];
        let mut rook_occupancy: [u64; 64] = [0u64; 64];
        let mut bishop_occupancy: [u64; 64] = [0u64; 64];
        let mut queen_occupancy: [u64; 64] = [0u64; 64];
        let mut king_attacks: [u64; 64] = [0u64; 64];
        let mut relevent_rook_count: [u64; 64] = [0u64; 64];
        let mut relevent_bishop_count: [u64; 64] = [0u64; 64];
        let mut rook_attacks: Vec<Vec<u64>> = Tables::empty_attack_table();
        let mut bishop_attacks: Vec<Vec<u64>> = Tables::empty_attack_table();

        let rook_magics: [u64; 64] = ROOK_MAGICS;

        let bishop_magics: [u64; 64] = BISHOP_MAGICS;

        Tables::generate_white_pawn_push(&mut white_pawn_push);
        Tables::generate_black_pawn_push(&mut black_pawn_push);
        Tables::generate_white_pawn_attacks(&mut white_pawn_attacks);
        Tables::generate_black_pawn_attacks(&mut black_pawn_attacks);
        Tables::generate_king_attacks(&mut king_attacks);
        Tables::generate_knight_attacks(&mut knight_attacks);
        Tables::generate_rook_occupancy_mask(&mut rook_occupancy);
        Tables::generate_bishop_occupancy_mask(&mut bishop_occupancy);
        Tables::generate_queen_occupancy_mask(&mut queen_occupancy);
        proof {
            assert forall|i: int| 0 <= i < 64 implies #[trigger] rook_occupancy@[i]
                == rook_mask_spec(i) && 1 <= popcount(rook_mask_spec(i)) <= 12 by {
                lemma_zero_or(rook_mask_spec(i));
                lemma_rook_mask_count(i);
            }
            assert forall|i: int| 0 <= i < 64 implies #[trigger] bishop_occupancy@[i]
                == bishop_mask_spec(i) && 1 <= popcount(bishop_mask_spec(i)) <= 12 by {
                lemma_zero_or(bishop_mask_spec(i));
                lemma_bishop_mask_count(i);
            }
            assert forall|i: int| 0 <= i < 64 implies #[trigger] queen_occupancy@[i]
                == rook_mask_spec(i) | bishop_mask_spec(i) by {
                lemma_zero_or(rook_mask_spec(i));
            }
            assert forall|i: int| 0 <= i < 64 implies #[trigger] white_pawn_attacks@[i]
                == white_pawn_attack_spec(i) by {
                lemma_zero_or(white_pawn_attack_spec(i));
            }
            assert forall|i: int| 0 <= i < 64 implies #[trigger] black_pawn_attacks@[i]
                == black_pawn_attack_spec(i) by {
                lemma_zero_or(black_pawn_attack_spec(i));
            }
            assert forall|i: int| 0 <= i < 64 implies #[trigger] white_pawn_push@[i]
                == white_pawn_push_spec(i) by {
                lemma_zero_or(white_pawn_push_spec(i));
            }
            assert forall|i: int| 0 <= i < 64 implies #[trigger] black_pawn_push@[i]
                == black_pawn_push_spec(i) by {
                lemma_zero_or(black_pawn_push_spec(i));
            }
            assert forall|i: int| 0 <= i < 64 implies #[trigger] knight_attacks@[i]
                == knight_attack_spec(i) by {
                lemma_zero_or(knight_attack_spec(i));
            }
            assert forall|i: int| 0 <= i < 64 implies #[trigger] king_attacks@[i]
                == king_attack_spec(i) by {
                lemma_zero_or(king_attack_spec(i));
            }
        }
        Tables::generate_count_table(&mut relevent_rook_count, rook_occupancy);
        Tables::generate_count_table(&mut relevent_bishop_count, bishop_occupancy);
        assert forall|i: int| 0 <= i < 64 implies 1 <= #[trigger] relevent_rook_count@[i] <= 12
            && relevent_rook_count@[i] == popcount(rook_mask_spec(i)) by {
            assert(rook_occupancy@[i] == rook_mask_spec(i));
        }
        assert forall|i: int| 0 <= i < 64 implies 1 <= #[trigger] relevent_bishop_count@[i] <= 12
            && relevent_bishop_count@[i] == popcount(bishop_mask_spec(i)) by {
            assert(bishop_occupancy@[i] == bishop_mask_spec(i));
        }
        Tables::generate_rook_attacks(
            &mut rook_attacks,
            relevent_rook_count,
            rook_magics,
            rook_occupancy,
        );
        Tables::generate_bishop_attacks(
            &mut bishop_attacks,
            relevent_bishop_count,
            bishop_magics,
            bishop_occupancy,
        );

        Tables {
            white_pawn_attacks,
            black_pawn_attacks,
            white_pawn_push,
            black_pawn_push,
            knight_attacks,
            rook_occupancy,
            bishop_occupancy,
            queen_occupancy,
            king_attacks,
            relevent_rook_count,
            relevent_bishop_count,
            rook_magics,
            bishop_magics,
            rook_attacks,
            bishop_attacks,
        }
    }

    /// A table of 4096 rows of 64 zeros.
    fn empty_attack_table() -> (t: Vec<Vec<u64>>)
        ensures
            attack_table_shape(t@),
            forall|h: int, i: int| 0 <= h < 4096 && 0 <= i < 64 ==> #[trigger] t@[h]@[i] == 0,
    {
        let mut t: Vec<Vec<u64>> = Vec::new();
        for h in 0..4096usize
            invariant
                t@.len() == h,
                forall|k: int| 0 <= k < h ==> (#[trigger] t@[k])@.len() == 64,
                forall|k: int, i: int| 0 <= k < h && 0 <= i < 64 ==> #[trigger] t@[k]@[i] == 0,
        {
            let mut row: Vec<u64> = Vec::new();
            for i in 0..64usize
                invariant
                    row@.len() == i,
                    forall|j: int| 0 <= j < i ==> #[trigger] row@[j] == 0,
            {
                row.push(0);
            }
            t.push(row);
        }
        t
    }

    /// The squares a rook on `square` attacks given the board's occupancy,
    /// read from the magic table.
    pub fn get_rook_attack(&self, square: usize, occupancy: u64) -> (r: u64)
        requires
            self.wf(),
            square < 64,
        ensures
            r == self.rook_lookup(square as int, occupancy),
    {
        let magic = self.rook_magics[square];
        let count = self.relevent_rook_count[square];
        let hash = Tables::apply_magic_hash(magic, count, occupancy & self.rook_occupancy[square]);
        proof {
            lemma_hash_bound(magic, count, occupancy & self.rook_occupancy@[square as int]);
        }
        self.rook_attacks[hash as usize][square]
    }

    /// The squares a bishop on `square` attacks given the board's occupancy,
    /// read from the magic table.
    pub fn get_bishop_attack(&self, square: usize, occupancy: u64) -> (r: u64)
        requires
            self.wf(),
            square < 64,
        ensures
            r == self.bishop_lookup(square as int, occupancy),
    {
        let magic = self.bishop_magics[square];
        let count = self.relevent_bishop_count[square];
        let hash = Tables::apply_magic_hash(
            magic,
            count,
            occupancy & self.bishop_occupancy[square],
        );
        proof {
            lemma_hash_bound(magic, count, occupancy & self.bishop_occupancy@[square as int]);
        }
        self.bishop_attacks[hash as usize][square]
    }

    /// Draws a candidate magic number: the `&` of three draws, so that few
    /// bits are set.
    pub fn get_possible_magic(rng: &mut XorShiftRng) -> (r: u64)
        ensures
            r == draws(*old(rng))[0] & draws(*old(rng))[1] & draws(*old(rng))[2],
            forall|i: nat| #[trigger] draws(*final(rng))[i] == draws(*old(rng))[i + 3],
    {
        let ghost start = *rng;
        let first = get_random_u64(rng);
        let second = get_random_u64(rng);
        let third = get_random_u64(rng);
        proof {
            assert(draws(start)[1] == draws(start)[0 + 1]);
            assert(second == draws(start)[1]);
            assert(third == draws(start)[2]);
            assert forall|i: nat| #[trigger] draws(*rng)[i] == draws(start)[i + 3] by {
                assert(draws(start)[i + 3] == draws(start)[(i + 2) + 1]);
            }
        }
        first & second & third
    }

    /// The index of the lowest set bit, or -1 for the empty board.
    pub fn get_index(bb: u64) -> (r: i64)
        ensures
            bb == 0 ==> r == -1,
            bb != 0 ==> r == lsb(bb),
    {
        if bb == 0 {
            return -1;
        }
        bb.trailing_zeros() as i64
    }
}

/// How many more steps a walk along one coordinate can take while staying
/// strictly inside the board (large when the coordinate does not move).
pub open spec fn room(x: int, d: int) -> int {
    if d == 1 {
        6 - x
    } else if d == -1 {
        x - 1
    } else {
        100
    }
}

/// The number of squares an inner ray holds.
pub open spec fn inner_len(r: int, f: int, dr: int, df: int) -> int {
    let m = if room(r, dr) < room(f, df) {
        room(r, dr)
    } else {
        room(f, df)
    };
    if m < 0 {
        0
    } else {
        m
    }
}

/// `|` counts at most the bits of both sides.
pub proof fn lemma_popcount_or(a: u64, b: u64)
    ensures
        popcount(a | b) <= popcount(a) + popcount(b),
        a != 0 ==> a | b != 0,
        b != 0 ==> a | b != 0,
    decreases a + b,
{
    let c = a | b;
    assert((a != 0 ==> c != 0) && (b != 0 ==> c != 0) && c >> 1u64 == (a >> 1u64) | (b >> 1u64) && c
        & 1u64 <= (a & 1u64) + (b & 1u64) && a >> 1u64 == a / 2 && a & 1u64 == a % 2 && b >> 1u64
        == b / 2 && b & 1u64 == b % 2 && c >> 1u64 == c / 2 && c & 1u64 == c % 2) by (bit_vector)
        requires
            c == a | b,
    ;
    if a != 0 || b != 0 {
        assert(a / 2 + b / 2 < a + b);
        lemma_popcount_or(a / 2, b / 2);
        if a == 0 {
            assert(a / 2 == 0);
        }
        if b == 0 {
            assert(b / 2 == 0);
        }
    } else {
        assert(a | b == 0) by (bit_vector)
            requires
                a == 0 && b == 0,
        ;
    }
}

/// A single square counts one.
pub proof fn lemma_popcount_bit(k: int)
    requires
        0 <= k < 64,
    ensures
        popcount(sq_bit(k)) == 1,
        sq_bit(k) != 0,
    decreases k,
{
    let ku = k as u64;
    assert((1u64 << ku) != 0) by (bit_vector)
        requires
            ku < 64,
    ;
    if k == 0 {
        assert(1u64 << 0u64 == 1) by (bit_vector);
        assert(1u64 / 2 == 0 && 1u64 % 2 == 1);
        assert(popcount(0) == 0);
    } else {
        let km = (k - 1) as u64;
        assert((1u64 << ku) % 2 == 0 && (1u64 << ku) / 2 == 1u64 << km) by (bit_vector)
            requires
                ku < 64,
                ku == km + 1,
        ;
        lemma_popcount_bit(k - 1);
    }
}

/// An inner ray holds at most `inner_len` squares, and is nonempty when
/// there is room for a step.
pub proof fn lemma_inner_ray_count(r: int, f: int, dr: int, df: int)
    requires
        on_board(r, f),
        -1 <= dr <= 1,
        -1 <= df <= 1,
        !(dr == 0 && df == 0),
    ensures
        popcount(inner_ray(r, f, dr, df)) <= inner_len(r, f, dr, df),
        inner_len(r, f, dr, df) > 0 ==> inner_ray(r, f, dr, df) != 0,
    decreases walk_measure(r, f, dr, df),
{
    if !on_board(r + 2 * dr, f + 2 * df) {
        assert(popcount(0) == 0);
    } else {
        lemma_inner_ray_count(r + dr, f + df, dr, df);
        lemma_popcount_bit(sq(r + dr, f + df));
        lemma_popcount_or(sq_bit(sq(r + dr, f + df)), inner_ray(r + dr, f + df, dr, df));
    }
}

/// Each rook mask has between one and twelve squares.
pub proof fn lemma_rook_mask_count(i: int)
    requires
        0 <= i < 64,
    ensures
        1 <= popcount(rook_mask_spec(i)) <= 12,
{
    let r = i / 8;
    let f = i % 8;
    let n = inner_ray(r, f, 1, 0);
    let e = inner_ray(r, f, 0, -1);
    let s = inner_ray(r, f, -1, 0);
    let w = inner_ray(r, f, 0, 1);
    lemma_inner_ray_count(r, f, 1, 0);
    lemma_inner_ray_count(r, f, 0, -1);
    lemma_inner_ray_count(r, f, -1, 0);
    lemma_inner_ray_count(r, f, 0, 1);
    lemma_popcount_or(n, e);
    lemma_popcount_or(n | e, s);
    lemma_popcount_or((n | e) | s, w);
    lemma_popcount_nonzero(rook_mask_spec(i));
}

/// Each bishop mask has between one and twelve squares.
pub proof fn lemma_bishop_mask_count(i: int)
    requires
        0 <= i < 64,
    ensures
        1 <= popcount(bishop_mask_spec(i)) <= 12,
{
    let r = i / 8;
    let f = i % 8;
    let a = inner_ray(r, f, 1, -1);
    let b = inner_ray(r, f, -1, -1);
    let c = inner_ray(r, f, -1, 1);
    let d = inner_ray(r, f, 1, 1);
    lemma_inner_ray_count(r, f, 1, -1);
    lemma_inner_ray_count(r, f, -1, -1);
    lemma_inner_ray_count(r, f, -1, 1);
    lemma_inner_ray_count(r, f, 1, 1);
    lemma_popcount_or(a, b);
    lemma_popcount_or(a | b, c);
    lemma_popcount_or((a | b) | c, d);
    lemma_popcount_nonzero(bishop_mask_spec(i));
}

/// What one step of a leaper from square `i` gives.
pub proof fn lemma_step(i: int, dr: int, df: int)
    requires
        0 <= i < 64,
    ensures
        on_board(i / 8 + dr, i % 8 + df) ==> 0 <= i + 8 * dr + df < 64 && step_bit(i, dr, df) == (
        1u64 << ((i + 8 * dr + df) as u64)),
        !on_board(i / 8 + dr, i % 8 + df) ==> step_bit(i, dr, df) == 0,
{
    assert(sq(i / 8 + dr, i % 8 + df) == i + 8 * dr + df);
}

/// Facts about `|` with the empty board.
pub proof fn lemma_or_facts()
    ensures
        forall|a: u64| #[trigger] (a | 0u64) == a,
        forall|a: u64, b: u64, c: u64| #[trigger] ((a | b) | c) == (a | (b | c)),
{
    assert forall|a: u64| #[trigger] (a | 0u64) == a by {
        lemma_or_zero(a);
    }
    assert forall|a: u64, b: u64, c: u64| #[trigger] ((a | b) | c) == (a | (b | c)) by {
        lemma_or_assoc(a, b, c);
    }
}

/// The `k`-th blocker pattern of a mask: the bits of `k` placed on its squares.
pub open spec fn pattern(mask: u64, k: int) -> u64 {
    deposit(k as u64, mask, 0)
}

/// Whether a candidate magic number is kept for square `i` (a rook square
/// when `rook` holds, else a bishop square) with a mask of `count` squares:
/// the product of the mask and the magic has at least six bits in its top
/// byte, and any two blocker patterns with one hash give the same attack set
/// (when the earlier one's is not empty, as an empty entry counts as free).
pub open spec fn magic_ok(rook: bool, magic: u64, count: u64, mask: u64, i: int) -> bool {
    &&& popcount(magic_product(magic, mask) & 0xFF00_0000_0000_0000u64) >= 6
    &&& forall|a: int, b: int|
        0 <= a < b < patterns(count) && magic_hash(magic, count, #[trigger] pattern(mask, a))
            == magic_hash(magic, count, #[trigger] pattern(mask, b)) && slider_attack_spec(
            rook,
            i,
            pattern(mask, a),
        ) != 0 ==> slider_attack_spec(rook, i, pattern(mask, a)) == slider_attack_spec(
            rook,
            i,
            pattern(mask, b),
        )
}

impl Tables {
    /// The blocker patterns of a mask of `bit_count` squares, the `k`-th
    /// holding the bits of `k`.
    pub fn magic_occupancies(attack_mask: u64, bit_count: u64) -> (r: Vec<u64>)
        requires
            1 <= bit_count <= 12,
        ensures
            r@.len() == patterns(bit_count),
            forall|k: int| 0 <= k < r@.len() ==> #[trigger] r@[k] == pattern(attack_mask, k),
    {
        proof {
            lemma_hash_bound(0, bit_count, 0);
        }
        let attack_permutations: u64 = 1u64 << bit_count;
        let mut occupancies: Vec<u64> = Vec::new();
        let mut index: u64 = 0;
        while index < attack_permutations
            invariant
                attack_permutations == patterns(bit_count),
                attack_permutations <= 4096,
                index <= attack_permutations,
                occupancies@.len() == index,
                forall|k: int|
                    0 <= k < index ==> #[trigger] occupancies@[k] == pattern(attack_mask, k),
            decreases attack_permutations - index,
        {
            occupancies.push(Tables::map_number_to_occupancy(index, attack_mask));
            index = index + 1;
        }
        occupancies
    }

    /// Whether a candidate magic number is kept: the check of one candidate
    /// in the search for magic numbers, against the blocker patterns that
    /// `magic_occupancies` gives.
    #[verifier::rlimit(40)]
    pub fn magic_works(
        magic: u64,
        attack_mask: u64,
        square_index: usize,
        bit_count: u64,
        rook: bool,
        occupancies: &Vec<u64>,
    ) -> (r: bool)
        requires
            1 <= bit_count <= 12,
            square_index < 64,
            occupancies@.len() == patterns(bit_count),
            forall|k: int|
                0 <= k < occupancies@.len() ==> #[trigger] occupancies@[k] == pattern(
                    attack_mask,
                    k,
                ),
        ensures
            r == magic_ok(rook, magic, bit_count, attack_mask, square_index as int),
    {
        let ghost i = square_index as int;
        proof {
            reveal(magic_product);
            lemma_hash_bound(magic, bit_count, 0);
        }
        if (attack_mask.wrapping_mul(magic) & 0xFF00_0000_0000_0000u64).count_ones() < 6 {
            return false;
        }
        let n = occupancies.len();
        let mut table: Vec<u64> = Vec::new();
        while table.len() < n
            invariant
                table@.len() <= n,
                forall|h: int| 0 <= h < table@.len() ==> #[trigger] table@[h] == 0,
            decreases n - table@.len(),
        {
            table.push(0);
        }
        let mut j: usize = 0;
        while j < n
            invariant
                1 <= bit_count <= 12,
                square_index < 64,
                i == square_index as int,
                n == occupancies@.len(),
                n == patterns(bit_count),
                n <= 4096,
                table@.len() == n,
                j <= n,
                forall|k: int|
                    0 <= k < occupancies@.len() ==> #[trigger] occupancies@[k] == pattern(
                        attack_mask,
                        k,
                    ),
                popcount(magic_product(magic, attack_mask) & 0xFF00_0000_0000_0000u64) >= 6,
                forall|k: int|
                    0 <= k < j && slider_attack_spec(rook, i, #[trigger] pattern(attack_mask, k))
                        != 0 ==> table@[magic_hash(magic, bit_count, pattern(attack_mask, k)) as int]
                        == slider_attack_spec(rook, i, pattern(attack_mask, k)),
                forall|h: int|
                    0 <= h < n && #[trigger] table@[h] != 0 ==> exists|k: int|
                        0 <= k < j && magic_hash(magic, bit_count, #[trigger] pattern(attack_mask, k))
                            == h && slider_attack_spec(rook, i, pattern(attack_mask, k))
                            == table@[h],
                forall|a: int, b: int|
                    0 <= a < b < j && magic_hash(magic, bit_count, #[trigger] pattern(attack_mask, a))
                        == magic_hash(magic, bit_count, #[trigger] pattern(attack_mask, b))
                        && slider_attack_spec(rook, i, pattern(attack_mask, a)) != 0
                        ==> slider_attack_spec(rook, i, pattern(attack_mask, a))
                        == slider_attack_spec(rook, i, pattern(attack_mask, b)),
            decreases n - j,
        {
            let occupancy = occupancies[j];
            proof {
                lemma_hash_bound(magic, bit_count, occupancy);
            }
            let hash = Tables::apply_magic_hash(magic, bit_count, occupancy);
            let relevent_blockers = if rook {
                Tables::calculate_relevent_rook_occupancy(square_index, occupancy)
            } else {
                Tables::calculate_relevent_bishop_occupancy(square_index, occupancy)
            };
            let ghost pj = pattern(attack_mask, j as int);
            assert(occupancy == pj);
            assert(relevent_blockers == slider_attack_spec(rook, i, pj));
            let entry = table[hash as usize];
            if entry == 0 {
                proof {
                    assert forall|a: int|
                        0 <= a < j && magic_hash(magic, bit_count, #[trigger] pattern(attack_mask, a))
                            == hash implies slider_attack_spec(rook, i, pattern(attack_mask, a)) == 0 by {
                        if slider_attack_spec(rook, i, pattern(attack_mask, a)) != 0 {
                            assert(table@[hash as int] == slider_attack_spec(rook, i, pattern(attack_mask, a)));
                        }
                    }
                }
                table.set(hash as usize, relevent_blockers);
                proof {
                    assert forall|k: int|
                        0 <= k < j + 1 && slider_attack_spec(rook, i, #[trigger] pattern(attack_mask, k))
                            != 0 implies table@[magic_hash(magic, bit_count, pattern(attack_mask, k)) as int]
                        == slider_attack_spec(rook, i, pattern(attack_mask, k)) by {
                        lemma_hash_bound(magic, bit_count, pattern(attack_mask, k));
                    }
                }
            } else if entry != relevent_blockers {
                proof {
                    let k = choose|k: int|
                        0 <= k < j && magic_hash(magic, bit_count, #[trigger] pattern(attack_mask, k))
                            == hash && slider_attack_spec(rook, i, pattern(attack_mask, k)) == entry;
                    assert(magic_hash(magic, bit_count, pattern(attack_mask, k)) == magic_hash(
                        magic,
                        bit_count,
                        pattern(attack_mask, j as int),
                    ));
                }
                return false;
            } else {
                proof {
                    assert forall|a: int|
                        0 <= a < j && magic_hash(magic, bit_count, #[trigger] pattern(attack_mask, a))
                            == hash && slider_attack_spec(rook, i, pattern(attack_mask, a)) != 0
                            implies slider_attack_spec(rook, i, pattern(attack_mask, a))
                        == relevent_blockers by {
                        assert(table@[hash as int] == slider_attack_spec(rook, i, pattern(attack_mask, a)));
                    }
                }
            }
            j = j + 1;
        }
        true
    }
}


/// Facts about `|` and the mask of one square.
proof fn lemma_or_bits(a: u64, b: u64, c: u64, d: u64, k: u64)
    by (bit_vector)
    requires
        k < 64,
    ensures
        (1u64 << k) != 0,
        a != 0 ==> a | b != 0,
        (a != 0 || b != 0 || c != 0 || d != 0) ==> a | b | c | d != 0,
{
}

/// A ray with a first square on the board is not empty.
proof fn lemma_ray_nonempty(r: int, f: int, dr: int, df: int, blockers: u64)
    requires
        on_board(r + dr, f + df),
        !(dr == 0 && df == 0),
    ensures
        ray(r, f, dr, df, blockers) != 0,
{
    let j = sq(r + dr, f + df);
    lemma_or_bits(sq_bit(j), ray(r + dr, f + df, dr, df, blockers), 0, 0, j as u64);
}

/// A rook or a bishop always attacks some square.
pub proof fn lemma_slider_nonempty(rook: bool, i: int, blockers: u64)
    requires
        0 <= i < 64,
    ensures
        slider_attack_spec(rook, i, blockers) != 0,
{
    let r = i / 8;
    let f = i % 8;
    if rook {
        if r < 7 {
            lemma_ray_nonempty(r, f, 1, 0, blockers);
        } else {
            lemma_ray_nonempty(r, f, -1, 0, blockers);
        }
        lemma_or_bits(
            ray(r, f, 1, 0, blockers),
            ray(r, f, 0, -1, blockers),
            ray(r, f, -1, 0, blockers),
            ray(r, f, 0, 1, blockers),
            0,
        );
    } else {
        if r < 7 && f > 0 {
            lemma_ray_nonempty(r, f, 1, -1, blockers);
        } else if r > 0 && f > 0 {
            lemma_ray_nonempty(r, f, -1, -1, blockers);
        } else if r > 0 {
            lemma_ray_nonempty(r, f, -1, 1, blockers);
        } else {
            lemma_ray_nonempty(r, f, 1, 1, blockers);
        }
        lemma_or_bits(
            ray(r, f, 1, -1, blockers),
            ray(r, f, -1, -1, blockers),
            ray(r, f, -1, 1, blockers),
            ray(r, f, 1, 1, blockers),
            0,
        );
    }
}

/// Reading back the table entry of the `k`-th blocker pattern gives its
/// attack set, when the magic number passed the candidate check: the entry
/// holds the last pattern with the same hash, and the check makes all those
/// attack sets equal.
proof fn lemma_slot_after_exact(
    rook: bool,
    magic: u64,
    count: u64,
    mask: u64,
    i: int,
    k: int,
    n: nat,
)
    requires
        0 <= i < 64,
        magic_ok(rook, magic, count, mask, i),
        0 <= k < n <= patterns(count),
    ensures
        slot_after(rook, magic, count, mask, i, magic_hash(magic, count, pattern(mask, k)), n, 0)
            == slider_attack_spec(rook, i, pattern(mask, k)),
    decreases n,
{
    let last = n - 1;
    assert(pattern(mask, last) == deposit((n - 1) as u64, mask, 0));
    if last > k {
        lemma_slider_nonempty(rook, i, pattern(mask, k));
        lemma_slot_after_exact(rook, magic, count, mask, i, k, (n - 1) as nat);
    }
}

/// The `k`-th candidate of the magic-number search: the `&` of the draws
/// `3k`, `3k + 1` and `3k + 2` of the generator seeded with 0.
pub open spec fn magic_candidate(k: nat) -> u64 {
    seeded_draws(0)[3 * k] & seeded_draws(0)[3 * k + 1] & seeded_draws(0)[3 * k + 2]
}

impl Tables {
    /// Searches for a magic number for a square: draws candidates from the
    /// xorshift generator seeded with 0 and gives the first that passes the
    /// candidate check, or `None` when none of the first `u64::MAX` does.
    pub fn generate_magic(attack_mask: u64, square_index: usize, bit_count: u64, rook: bool) -> (r:
        Option<u64>)
        requires
            1 <= bit_count <= 12,
            square_index < 64,
        ensures
            match r {
                Some(m) => exists|k: nat|
                    k < u64::MAX && m == magic_candidate(k) && magic_ok(
                        rook,
                        m,
                        bit_count,
                        attack_mask,
                        square_index as int,
                    ) && forall|j: nat|
                        j < k ==> !magic_ok(
                            rook,
                            #[trigger] magic_candidate(j),
                            bit_count,
                            attack_mask,
                            square_index as int,
                        ),
                None => forall|j: nat|
                    j < u64::MAX ==> !magic_ok(
                        rook,
                        #[trigger] magic_candidate(j),
                        bit_count,
                        attack_mask,
                        square_index as int,
                    ),
            },
    {
        let occupancies = Tables::magic_occupancies(attack_mask, bit_count);
        let mut rng = seeded_rng(0);
        let mut tries: u64 = 0;
        while tries < u64::MAX
            invariant
                1 <= bit_count <= 12,
                square_index < 64,
                occupancies@.len() == patterns(bit_count),
                forall|k: int|
                    0 <= k < occupancies@.len() ==> #[trigger] occupancies@[k] == pattern(
                        attack_mask,
                        k,
                    ),
                forall|i: nat| #[trigger] draws(rng)[i] == seeded_draws(0)[3 * (tries as nat) + i],
                forall|j: nat|
                    j < tries ==> !magic_ok(
                        rook,
                        #[trigger] magic_candidate(j),
                        bit_count,
                        attack_mask,
                        square_index as int,
                    ),
            decreases u64::MAX - tries,
        {
            let ghost before = rng;
            let magic = Tables::get_possible_magic(&mut rng);
            proof {
                assert(draws(before)[0] == seeded_draws(0)[3 * (tries as nat) + 0]);
                assert(draws(before)[1] == seeded_draws(0)[3 * (tries as nat) + 1]);
                assert(draws(before)[2] == seeded_draws(0)[3 * (tries as nat) + 2]);
                assert(magic == magic_candidate(tries as nat));
                assert forall|i: nat| #[trigger] draws(rng)[i] == seeded_draws(0)[3 * ((tries + 1) as nat) + i] by {
                    assert(draws(before)[i + 3] == seeded_draws(0)[3 * (tries as nat) + (i + 3)]);
                }
            }
            if Tables::magic_works(magic, attack_mask, square_index, bit_count, rook, &occupancies) {
                return Some(magic);
            }
            tries = tries + 1;
        }
        None
    }
}


/// The bits of `x` from square `s` up (none from 64 on).
pub open spec fn bits_from(x: u64, s: int) -> u64 {
    if s >= 64 {
        0
    } else if s <= 0 {
        x
    } else {
        x & !(((1u64 << (s as u64)) - 1) as u64)
    }
}

/// The bits of `x` on the squares of `m` from square `s` up, gathered
/// into the low bits, lowest first (the inverse of a deposit).
pub open spec fn extract(x: u64, m: u64, s: int) -> u64
    decreases 64 - s,
{
    if s >= 64 || s < 0 {
        0
    } else if m & sq_bit(s) != 0 {
        ((x >> (s as u64)) & 1) | (extract(x, m, s + 1) << 1u64)
    } else {
        extract(x, m, s + 1)
    }
}

/// The number of squares of `m` from square `s` up.
pub open spec fn count_from(m: u64, s: int) -> nat
    decreases 64 - s,
{
    if s >= 64 || s < 0 {
        0
    } else {
        (if m & sq_bit(s) != 0 {
            1nat
        } else {
            0nat
        }) + count_from(m, s + 1)
    }
}

/// Bit facts behind gathering and depositing bits, and behind masked
/// occupancies.
proof fn lemma_gather_bits(x: u64, m: u64, e: u64, s: u64, occ: u64, b: u64, r: u64, c: u64, d: u64)
    by (bit_vector)
    ensures
        e < 0x8000_0000_0000_0000u64 ==> ((((x >> s) & 1) | (e << 1u64)) & 1) == (x >> s) & 1 && (((
        x >> s) & 1) | (e << 1u64)) >> 1u64 == e && (((x >> s) & 1) | (e << 1u64)) == ((x >> s) & 1)
            + 2 * e,
        s < 63 ==> x & !(((1u64 << s) - 1) as u64) == (((x >> s) & 1) << s) | (x & !(((1u64 << (s
            + 1)) - 1) as u64)),
        s == 63 ==> x & !(((1u64 << s) - 1) as u64) == ((x >> s) & 1) << s,
        s < 64 && x & m == x && m & (1u64 << s) == 0 ==> (x >> s) & 1 == 0,
        (x >> s) & 1 == 0 || (x >> s) & 1 == 1,
        s < 63 ==> (m >> s) / 2 == m >> (s + 1) && (m >> s) % 2 == (if m & (1u64 << s) != 0 {
            1u64
        } else {
            0u64
        }),
        s == 63 ==> (m >> s) / 2 == 0 && (m >> s) % 2 == (if m & (1u64 << s) != 0 {
            1u64
        } else {
            0u64
        }),
        b & m == b ==> ((b & (occ & m)) != 0) == ((b & occ) != 0),
        (b | r) & m == b | r ==> b & m == b && r & m == r,
        b & (b | r | c | d) == b && r & (b | r | c | d) == r && c & (b | r | c | d) == c && d & (b
            | r | c | d) == d,
        (x & m) & m == x & m,
        x & !(((1u64 << 0u64) - 1) as u64) == x,
        0u64 << s == 0,
{
}


/// The squares of `m` from square `s` up number as many as the set bits of
/// `m >> s`.
proof fn lemma_count_from_popcount(m: u64, s: int)
    requires
        0 <= s <= 63,
    ensures
        count_from(m, s) == popcount(m >> (s as u64)),
    decreases 64 - s,
{
    let su = s as u64;
    lemma_gather_bits(0, m, 0, su, 0, 0, 0, 0, 0);
    assert(sq_bit(s) == 1u64 << su);
    if s < 63 {
        lemma_count_from_popcount(m, s + 1);
        assert((s + 1) as u64 == su + 1);
    } else {
        assert(count_from(m, 64) == 0);
        assert(popcount(0) == 0);
    }
}

/// Gathering the bits on the squares of `m` from `s` up gives a number
/// below two to the number of those squares.
proof fn lemma_extract_bound(x: u64, m: u64, s: int)
    requires
        0 <= s <= 64,
    ensures
        extract(x, m, s) < pow2(count_from(m, s)),
        count_from(m, s) <= 64 - s,
    decreases 64 - s,
{
    lemma_pow2_pos(count_from(m, s));
    if s < 64 {
        lemma_extract_bound(x, m, s + 1);
        let c = count_from(m, s + 1);
        let e = extract(x, m, s + 1);
        if m & sq_bit(s) != 0 {
            lemma2_to64();
            lemma2_to64_rest();
            if c < 63 {
                lemma_pow2_strictly_increases(c, 63);
            }
            assert(e < 0x8000_0000_0000_0000u64);
            lemma_gather_bits(x, m, e, s as u64, 0, 0, 0, 0, 0);
            lemma_pow2_unfold(c + 1);
        }
    }
}

/// Depositing the gathered bits of `x` back on the squares of `m` from `s`
/// up gives the bits of `x` from `s` up, when `x` lies within `m`.
proof fn lemma_deposit_extract(x: u64, m: u64, s: int)
    requires
        x & m == x,
        0 <= s <= 64,
    ensures
        deposit(extract(x, m, s), m, s) == bits_from(x, s),
    decreases 64 - s,
{
    if s < 64 {
        lemma_deposit_extract(x, m, s + 1);
        lemma_extract_bound(x, m, s + 1);
        let c = count_from(m, s + 1);
        let e = extract(x, m, s + 1);
        let su = s as u64;
        lemma2_to64();
        lemma2_to64_rest();
        if c < 63 {
            lemma_pow2_strictly_increases(c, 63);
        }
        lemma_gather_bits(x, m, e, su, 0, 0, 0, 0, 0);
        assert(sq_bit(s) == 1u64 << su);
        let b = (x >> su) & 1;
        let rest = deposit(e, m, s + 1);
        assert(rest == bits_from(x, s + 1));
        // the bits of `x` from `s` up: its bit `s`, then the bits above
        let whole = x & !(((1u64 << su) - 1) as u64);
        if s < 63 {
            assert((s + 1) as u64 == su + 1);
            assert(whole == (b << su) | bits_from(x, s + 1));
        } else {
            assert(bits_from(x, s + 1) == 0);
            assert(whole == b << su);
            lemma_or_zero(b << su);
        }
        assert(bits_from(x, s) == whole);
        if m & sq_bit(s) != 0 {
            let n = b | (e << 1u64);
            assert(extract(x, m, s) == n);
            assert(n & 1 == b && n >> 1u64 == e);
            assert(deposit(n, m, s) == ((n & 1) << su) | deposit(n >> 1u64, m, s + 1));
        } else {
            assert(b == 0);
            assert(extract(x, m, s) == e);
            assert(deposit(e, m, s) == rest);
            lemma_zero_or(rest);
        }
    }
}


/// A ray sees only the occupancy on the squares of `m` when `m` holds the
/// ray's inner squares: the last square before the edge ends the ray anyway.
proof fn lemma_ray_relevant(r: int, f: int, dr: int, df: int, occ: u64, m: u64)
    requires
        inner_ray(r, f, dr, df) & m == inner_ray(r, f, dr, df),
    ensures
        ray(r, f, dr, df, occ) == ray(r, f, dr, df, occ & m),
    decreases walk_measure(r, f, dr, df),
{
    if !((dr == 0 && df == 0) || !on_board(r + dr, f + df)) {
        let b = sq_bit(sq(r + dr, f + df));
        if on_board(r + 2 * dr, f + 2 * df) {
            let inner = inner_ray(r + dr, f + df, dr, df);
            assert(inner_ray(r, f, dr, df) == b | inner);
            lemma_gather_bits(0, m, 0, 0, occ, b, inner, 0, 0);
            lemma_ray_relevant(r + dr, f + df, dr, df, occ, m);
        } else {
            assert(ray(r + dr, f + df, dr, df, occ) == 0);
            assert(ray(r + dr, f + df, dr, df, occ & m) == 0);
            lemma_or_zero(b);
        }
    }
}

/// A rook's or a bishop's attacks depend only on the occupancy within its
/// mask.
proof fn lemma_slider_relevant(rook: bool, i: int, occ: u64)
    requires
        0 <= i < 64,
    ensures
        slider_attack_spec(rook, i, occ) == slider_attack_spec(
            rook,
            i,
            occ & (if rook {
                rook_mask_spec(i)
            } else {
                bishop_mask_spec(i)
            }),
        ),
{
    let r = i / 8;
    let f = i % 8;
    if rook {
        let m = rook_mask_spec(i);
        lemma_gather_bits(
            0,
            0,
            0,
            0,
            0,
            inner_ray(r, f, 1, 0),
            inner_ray(r, f, 0, -1),
            inner_ray(r, f, -1, 0),
            inner_ray(r, f, 0, 1),
        );
        lemma_ray_relevant(r, f, 1, 0, occ, m);
        lemma_ray_relevant(r, f, 0, -1, occ, m);
        lemma_ray_relevant(r, f, -1, 0, occ, m);
        lemma_ray_relevant(r, f, 0, 1, occ, m);
    } else {
        let m = bishop_mask_spec(i);
        lemma_gather_bits(
            0,
            0,
            0,
            0,
            0,
            inner_ray(r, f, 1, -1),
            inner_ray(r, f, -1, -1),
            inner_ray(r, f, -1, 1),
            inner_ray(r, f, 1, 1),
        );
        lemma_ray_relevant(r, f, 1, -1, occ, m);
        lemma_ray_relevant(r, f, -1, -1, occ, m);
        lemma_ray_relevant(r, f, -1, 1, occ, m);
        lemma_ray_relevant(r, f, 1, 1, occ, m);
    }
}

/// Every occupancy within a mask is one of its blocker patterns.
proof fn lemma_pattern_of(x: u64, m: u64, count: u64)
    requires
        x & m == x,
        count == popcount(m),
        count <= 12,
    ensures
        extract(x, m, 0) < patterns(count),
        pattern(m, extract(x, m, 0) as int) == x,
{
    lemma_deposit_extract(x, m, 0);
    lemma_extract_bound(x, m, 0);
    lemma_count_from_popcount(m, 0);
    vstd::bits::lemma_u64_shr_is_div(m, 0);
    lemma2_to64();
    assert(m >> 0u64 == m);
    if count < 12 {
        lemma_pow2_strictly_increases(count as nat, 12);
    }
    vstd::bits::lemma_u64_shl_is_mul(1, count);
}

/// What a slider lookup reads, for the square's table, mask and magic.
proof fn lemma_lookup_exact(
    rook: bool,
    magic: u64,
    count: u64,
    mask: u64,
    i: int,
    occ: u64,
)
    requires
        0 <= i < 64,
        mask == (if rook {
            rook_mask_spec(i)
        } else {
            bishop_mask_spec(i)
        }),
        count == popcount(mask),
        1 <= count <= 12,
        magic_ok(rook, magic, count, mask, i),
    ensures
        slot_after(
            rook,
            magic,
            count,
            mask,
            i,
            magic_hash(magic, count, occ & mask),
            patterns(count),
            0,
        ) == slider_attack_spec(rook, i, occ),
{
    let x = occ & mask;
    lemma_gather_bits(occ, mask, 0, 0, 0, 0, 0, 0, 0);
    lemma_pattern_of(x, mask, count);
    let k = extract(x, mask, 0) as int;
    lemma_slot_after_exact(rook, magic, count, mask, i, k, patterns(count));
    lemma_slider_relevant(rook, i, occ);
}

/// The rook table is exact for every occupancy of a square whose magic
/// number passes the candidate check: the lookup gives the rook's attack
/// set.
pub proof fn lemma_rook_lookup_every(t: Tables, i: int, occ: u64)
    requires
        t.wf(),
        0 <= i < 64,
        magic_ok(
            true,
            t.rook_magics@[i],
            t.relevent_rook_count@[i],
            t.rook_occupancy@[i],
            i,
        ),
    ensures
        t.rook_lookup(i, occ) == rook_attack_spec(i, occ),
{
    lemma_lookup_exact(
        true,
        t.rook_magics@[i],
        t.relevent_rook_count@[i],
        t.rook_occupancy@[i],
        i,
        occ,
    );
}

/// The bishop table is exact for every occupancy of a square whose magic
/// number passes the candidate check: the lookup gives the bishop's attack
/// set.
pub proof fn lemma_bishop_lookup_every(t: Tables, i: int, occ: u64)
    requires
        t.wf(),
        0 <= i < 64,
        magic_ok(
            false,
            t.bishop_magics@[i],
            t.relevent_bishop_count@[i],
            t.bishop_occupancy@[i],
            i,
        ),
    ensures
        t.bishop_lookup(i, occ) == bishop_attack_spec(i, occ),
{
    lemma_lookup_exact(
        false,
        t.bishop_magics@[i],
        t.relevent_bishop_count@[i],
        t.bishop_occupancy@[i],
        i,
        occ,
    );
}



} // verus!
