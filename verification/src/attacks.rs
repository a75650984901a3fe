//! Attack maps, the pieces that attack or can move to a square, pins, and
//! check: everything the move generator asks of a board and the tables.

use vstd::prelude::*;
use crate::bitboard::{lsb, clear_lsb, lemma_clear_lsb_smaller, popcount};
use crate::board::{BoardState, BoardModel, MoveRep, PieceType, make_spec, unmake_spec};
use crate::tables::{
    Tables,
    white_pawn_attack_spec,
    black_pawn_attack_spec,
    knight_attack_spec,
    king_attack_spec,
    lemma_or_assoc,
    lemma_or_zero,
    lemma_zero_or,
};
use crate::generate::pop_lsb;

verus! {

/// Kinds of attacking piece, as the tables see them.
pub const WHITE_PAWN_KIND: u8 = 0;
pub const BLACK_PAWN_KIND: u8 = 1;
pub const KNIGHT_KIND: u8 = 2;
pub const KING_KIND: u8 = 3;
pub const BISHOP_KIND: u8 = 4;
pub const ROOK_KIND: u8 = 5;

/// What a piece of kind `k` on square `s` attacks with occupancy `occ`.
pub open spec fn attack_of(t: Tables, k: int, s: int, occ: u64) -> u64 {
    if k == WHITE_PAWN_KIND {
        white_pawn_attack_spec(s)
    } else if k == BLACK_PAWN_KIND {
        black_pawn_attack_spec(s)
    } else if k == KNIGHT_KIND {
        knight_attack_spec(s)
    } else if k == KING_KIND {
        king_attack_spec(s)
    } else if k == BISHOP_KIND {
        t.bishop_lookup(s, occ)
    } else {
        t.rook_lookup(s, occ)
    }
}

/// The union of what pieces of kind `k` standing on the squares of `bb`
/// attack with occupancy `occ`.
pub open spec fn union_of(t: Tables, k: int, bb: u64, occ: u64) -> u64
    decreases bb,
{
    if bb == 0 {
        0
    } else {
        proof {
            lemma_clear_lsb_smaller(bb);
        }
        attack_of(t, k, lsb(bb), occ) | union_of(t, k, clear_lsb(bb), occ)
    }
}

/// Every square attacked by one colour's pieces, sliders seeing `occ`.
pub open spec fn attack_mask_spec(b: BoardModel, t: Tables, white: bool, occ: u64) -> u64 {
    let pawn_kind = if white {
        WHITE_PAWN_KIND
    } else {
        BLACK_PAWN_KIND
    };
    union_of(t, pawn_kind as int, b.bb(white, PieceType::Pawn), occ) | union_of(
        t,
        KNIGHT_KIND as int,
        b.bb(white, PieceType::Knight),
        occ,
    ) | union_of(t, BISHOP_KIND as int, b.bb(white, PieceType::Bishop), occ) | union_of(
        t,
        ROOK_KIND as int,
        b.bb(white, PieceType::Rook),
        occ,
    ) | union_of(t, BISHOP_KIND as int, b.bb(white, PieceType::Queen), occ) | union_of(
        t,
        ROOK_KIND as int,
        b.bb(white, PieceType::Queen),
        occ,
    ) | union_of(t, KING_KIND as int, b.bb(white, PieceType::King), occ)
}

/// Every square attacked by one colour's pawns and knights.
pub open spec fn leaper_mask_spec(b: BoardModel, t: Tables, white: bool) -> u64 {
    let pawn_kind = if white {
        WHITE_PAWN_KIND
    } else {
        BLACK_PAWN_KIND
    };
    union_of(t, pawn_kind as int, b.bb(white, PieceType::Pawn), 0) | union_of(
        t,
        KNIGHT_KIND as int,
        b.bb(white, PieceType::Knight),
        0,
    )
}

/// The pieces of one colour that attack the lowest square of `target`.
pub open spec fn attackers_spec(b: BoardModel, t: Tables, white: bool, target: u64) -> u64 {
    let i = lsb(target);
    let occ = b.occupancy();
    let pawn_sources = if white {
        black_pawn_attack_spec(i)
    } else {
        white_pawn_attack_spec(i)
    };
    (pawn_sources & b.bb(white, PieceType::Pawn)) | (knight_attack_spec(i) & b.bb(
        white,
        PieceType::Knight,
    )) | (t.rook_lookup(i, occ) & b.bb(white, PieceType::Rook)) | (t.bishop_lookup(i, occ)
        & b.bb(white, PieceType::Bishop)) | (t.rook_lookup(i, occ) & b.bb(white, PieceType::Queen))
        | (t.bishop_lookup(i, occ) & b.bb(white, PieceType::Queen)) | (king_attack_spec(i) & b.bb(
        white,
        PieceType::King,
    ))
}

/// The pieces of one colour, kings aside, that can move onto the lowest
/// square of `target` without capturing: pawns by a push (a double push
/// from the home rank over an empty square), the others as they attack.
pub open spec fn blockers_spec(b: BoardModel, t: Tables, white: bool, target: u64) -> u64 {
    let i = lsb(target);
    let occ = b.occupancy();
    let pawns = b.bb(white, PieceType::Pawn);
    let one = if white {
        target >> 8u64
    } else {
        target << 8u64
    };
    let two = if white {
        target >> 16u64
    } else {
        target << 16u64
    };
    let home = if white {
        Tables::RANK_2
    } else {
        Tables::RANK_7
    };
    let single = one & pawns;
    let double = if two & pawns != 0 && one & occ == 0 && two & home != 0 {
        two & pawns
    } else {
        0
    };
    single | double | (knight_attack_spec(i) & b.bb(white, PieceType::Knight)) | (t.rook_lookup(
        i,
        occ,
    ) & b.bb(white, PieceType::Rook)) | (t.bishop_lookup(i, occ) & b.bb(white, PieceType::Bishop))
        | (t.rook_lookup(i, occ) & b.bb(white, PieceType::Queen)) | (t.bishop_lookup(i, occ)
        & b.bb(white, PieceType::Queen))
}

/// The pieces of one colour.
pub open spec fn own_occupancy(b: BoardModel, white: bool) -> u64 {
    if white {
        b.white_occupancy()
    } else {
        b.black_occupancy()
    }
}

/// The pins found along rays from the target: for each sliding attacker on
/// the squares of `connected` (lowest first), the squares between it and the
/// target, when exactly one piece stands there and it belongs to `white`.
pub open spec fn pin_part(
    b: BoardModel,
    t: Tables,
    white: bool,
    rook: bool,
    ray: u64,
    connected: u64,
    target: u64,
) -> u64
    decreases connected,
{
    if connected == 0 {
        0
    } else {
        proof {
            lemma_clear_lsb_smaller(connected);
        }
        let s = lsb(connected);
        let attacker_ray = if rook {
            t.rook_lookup(s, target)
        } else {
            t.bishop_lookup(s, target)
        };
        let blocker_mask = ray & attacker_ray;
        let found = if popcount(blocker_mask & b.occupancy()) == 1 {
            blocker_mask & own_occupancy(b, white)
        } else {
            0
        };
        found | pin_part(b, t, white, rook, ray, clear_lsb(connected), target)
    }
}

/// The pieces of `white` pinned to the lowest square of `target` by the
/// other colour's sliders.
pub open spec fn pin_mask_spec(b: BoardModel, t: Tables, target: u64, white: bool) -> u64 {
    let i = lsb(target);
    let rook_like = b.bb(!white, PieceType::Rook) | b.bb(!white, PieceType::Queen);
    let bishop_like = b.bb(!white, PieceType::Bishop) | b.bb(!white, PieceType::Queen);
    let rook_ray = t.rook_lookup(i, rook_like);
    let bishop_ray = t.bishop_lookup(i, bishop_like);
    pin_part(b, t, white, true, rook_ray, rook_ray & rook_like, target) | pin_part(
        b,
        t,
        white,
        false,
        bishop_ray,
        bishop_ray & bishop_like,
        target,
    )
}

/// Whether the lowest square of `target` is safe from the other side's
/// sliders once the move is made: the occupancy after the move (the pawn
/// taken en passant removed too) shows no rook-like or bishop-like attacker,
/// those on the move's ending square not counted.
pub open spec fn pin_safe_spec(b: BoardModel, t: Tables, target: u64, mv: MoveRep) -> bool {
    let after = if mv.ending_square == b.en_passant_target {
        let taken = if b.white_to_move {
            mv.ending_square >> 8u64
        } else {
            mv.ending_square << 8u64
        };
        b.occupancy() & !mv.starting_square & !taken | mv.ending_square
    } else {
        b.occupancy() & !mv.starting_square | mv.ending_square
    };
    let i = lsb(target);
    let them = !b.white_to_move;
    let rook_like = (b.bb(them, PieceType::Rook) | b.bb(them, PieceType::Queen))
        & !mv.ending_square;
    let bishop_like = (b.bb(them, PieceType::Bishop) | b.bb(them, PieceType::Queen))
        & !mv.ending_square;
    t.rook_lookup(i, after) & rook_like == 0 && t.bishop_lookup(i, after) & bishop_like == 0
}

/// Whether the king of `white` stands on a square the other side attacks.
pub open spec fn in_check_spec(b: BoardModel, t: Tables, white: bool) -> bool {
    attack_mask_spec(b, t, !white, b.occupancy()) & b.bb(white, PieceType::King) != 0
}

/// What a piece of kind `k` on `square` attacks.
fn piece_attack(tables: &Tables, k: u8, square: usize, occ: u64) -> (r: u64)
    requires
        tables.wf(),
        square < 64,
    ensures
        r == attack_of(*tables, k as int, square as int, occ),
{
    if k == WHITE_PAWN_KIND {
        tables.white_pawn_attacks[square]
    } else if k == BLACK_PAWN_KIND {
        tables.black_pawn_attacks[square]
    } else if k == KNIGHT_KIND {
        tables.knight_attacks[square]
    } else if k == KING_KIND {
        tables.king_attacks[square]
    } else if k == BISHOP_KIND {
        tables.get_bishop_attack(square, occ)
    } else {
        tables.get_rook_attack(square, occ)
    }
}

/// The union of what pieces of kind `k` on the squares of `bb` attack.
fn union_attacks(tables: &Tables, k: u8, bb: u64, occ: u64) -> (r: u64)
    requires
        tables.wf(),
    ensures
        r == union_of(*tables, k as int, bb, occ),
{
    let mut rest = bb;
    let mut attack_mask: u64 = 0;
    proof {
        lemma_zero_or(union_of(*tables, k as int, bb, occ));
    }
    while rest != 0
        invariant
            tables.wf(),
            attack_mask | union_of(*tables, k as int, rest, occ) == union_of(
                *tables,
                k as int,
                bb,
                occ,
            ),
        decreases rest,
    {
        let ghost prev = attack_mask;
        let start_square = pop_lsb(&mut rest);
        let a = piece_attack(tables, k, start_square, occ);
        attack_mask = attack_mask | a;
        proof {
            lemma_or_assoc(prev, a, union_of(*tables, k as int, rest, occ));
        }
    }
    proof {
        lemma_or_zero(attack_mask);
    }
    attack_mask
}

impl BoardState {
    /// Every square one colour attacks, sliders seeing `occ`.
    fn attack_mask_for(&self, tables: &Tables, white: bool, occ: u64) -> (r: u64)
        requires
            tables.wf(),
        ensures
            r == attack_mask_spec(self@, *tables, white, occ),
    {
        let pawn_kind = if white {
            WHITE_PAWN_KIND
        } else {
            BLACK_PAWN_KIND
        };
        let (pawns, knights, bishops, rooks, queens, king) = if white {
            (
                self.white_pawns,
                self.white_knights,
                self.white_bishops,
                self.white_rooks,
                self.white_queens,
                self.white_king,
            )
        } else {
            (
                self.black_pawns,
                self.black_knights,
                self.black_bishops,
                self.black_rooks,
                self.black_queens,
                self.black_king,
            )
        };
        union_attacks(tables, pawn_kind, pawns, occ) | union_attacks(tables, KNIGHT_KIND, knights, occ)
            | union_attacks(tables, BISHOP_KIND, bishops, occ) | union_attacks(
            tables,
            ROOK_KIND,
            rooks,
            occ,
        ) | union_attacks(tables, BISHOP_KIND, queens, occ) | union_attacks(
            tables,
            ROOK_KIND,
            queens,
            occ,
        ) | union_attacks(tables, KING_KIND, king, occ)
    }

    /// Every square white attacks.
    pub fn white_attack_mask(&self, tables: &Tables) -> (r: u64)
        requires
            tables.wf(),
        ensures
            r == attack_mask_spec(self@, *tables, true, self@.occupancy()),
    {
        self.attack_mask_for(tables, true, self.occupancy())
    }

    /// Every square white attacks, sliders seeing through `transparency`.
    pub fn white_attack_mask_with_transparency(&self, tables: &Tables, transparency: u64) -> (r:
        u64)
        requires
            tables.wf(),
        ensures
            r == attack_mask_spec(self@, *tables, true, self@.occupancy() & !transparency),
    {
        self.attack_mask_for(tables, true, self.occupancy() & !transparency)
    }

    /// Every square white's pawns and knights attack.
    pub fn white_leaper_attack_mask(&self, tables: &Tables) -> (r: u64)
        requires
            tables.wf(),
        ensures
            r == leaper_mask_spec(self@, *tables, true),
    {
        union_attacks(tables, WHITE_PAWN_KIND, self.white_pawns, 0) | union_attacks(
            tables,
            KNIGHT_KIND,
            self.white_knights,
            0,
        )
    }

    /// Every square black attacks.
    pub fn black_attack_mask(&self, table: &Tables) -> (r: u64)
        requires
            table.wf(),
        ensures
            r == attack_mask_spec(self@, *table, false, self@.occupancy()),
    {
        self.attack_mask_for(table, false, self.occupancy())
    }

    /// Every square black attacks, sliders seeing through `transparency`.
    pub fn black_attack_mask_with_transparency(&self, table: &Tables, transparency: u64) -> (r:
        u64)
        requires
            table.wf(),
        ensures
            r == attack_mask_spec(self@, *table, false, self@.occupancy() & !transparency),
    {
        self.attack_mask_for(table, false, self.occupancy() & !transparency)
    }

    /// Every square black's pawns and knights attack.
    pub fn black_leaper_attack_mask(&self, tables: &Tables) -> (r: u64)
        requires
            tables.wf(),
        ensures
            r == leaper_mask_spec(self@, *tables, false),
    {
        union_attacks(tables, BLACK_PAWN_KIND, self.black_pawns, 0) | union_attacks(
            tables,
            KNIGHT_KIND,
            self.black_knights,
            0,
        )
    }

    /// The pieces of one colour that attack the lowest square of `target`.
    fn attacking_for(&self, tables: &Tables, white: bool, target: u64) -> (r: u64)
        requires
            tables.wf(),
            target != 0,
        ensures
            r == attackers_spec(self@, *tables, white, target),
    {
        let piece_index = target.trailing_zeros() as usize;
        let occ = self.occupancy();
        let pawn_sources = if white {
            tables.black_pawn_attacks[piece_index]
        } else {
            tables.white_pawn_attacks[piece_index]
        };
        let (pawns, knights, bishops, rooks, queens, king) = if white {
            (
                self.white_pawns,
                self.white_knights,
                self.white_bishops,
                self.white_rooks,
                self.white_queens,
                self.white_king,
            )
        } else {
            (
                self.black_pawns,
                self.black_knights,
                self.black_bishops,
                self.black_rooks,
                self.black_queens,
                self.black_king,
            )
        };
        let rook_ray = tables.get_rook_attack(piece_index, occ);
        let bishop_ray = tables.get_bishop_attack(piece_index, occ);
        (pawn_sources & pawns) | (tables.knight_attacks[piece_index] & knights) | (rook_ray & rooks)
            | (bishop_ray & bishops) | (rook_ray & queens) | (bishop_ray & queens) | (
        tables.king_attacks[piece_index] & king)
    }

    /// The pieces of one colour that attack the lowest square of `target`.
    pub(crate) fn attacking_for_side(&self, tables: &Tables, white: bool, target: u64) -> (r: u64)
        requires
            tables.wf(),
            target != 0,
        ensures
            r == attackers_spec(self@, *tables, white, target),
    {
        self.attacking_for(tables, white, target)
    }

    /// The white pieces that attack the lowest square of `target`.
    pub fn white_attacking(&self, tables: &Tables, target: u64) -> (r: u64)
        requires
            tables.wf(),
            target != 0,
        ensures
            r == attackers_spec(self@, *tables, true, target),
    {
        self.attacking_for(tables, true, target)
    }

    /// The black pieces that attack the lowest square of `target`.
    pub fn black_attacking(&self, tables: &Tables, target: u64) -> (r: u64)
        requires
            tables.wf(),
            target != 0,
        ensures
            r == attackers_spec(self@, *tables, false, target),
    {
        self.attacking_for(tables, false, target)
    }

    /// The pieces of one colour, kings aside, that can move onto the lowest
    /// square of `target` without capturing.
    fn blocking_for(&self, tables: &Tables, white: bool, target: u64) -> (r: u64)
        requires
            tables.wf(),
            target != 0,
        ensures
            r == blockers_spec(self@, *tables, white, target),
    {
        let piece_index = target.trailing_zeros() as usize;
        let occ = self.occupancy();
        let (pawns, knights, bishops, rooks, queens) = if white {
            (
                self.white_pawns,
                self.white_knights,
                self.white_bishops,
                self.white_rooks,
                self.white_queens,
            )
        } else {
            (
                self.black_pawns,
                self.black_knights,
                self.black_bishops,
                self.black_rooks,
                self.black_queens,
            )
        };
        let one = if white {
            target >> 8
        } else {
            target << 8
        };
        let two = if white {
            target >> 16
        } else {
            target << 16
        };
        let home = if white {
            Tables::RANK_2
        } else {
            Tables::RANK_7
        };
        let mut blocking_mask: u64 = 0;
        // Single push
        if one & pawns != 0 {
            blocking_mask = blocking_mask | (one & pawns);
        }
        proof {
            lemma_zero_or(one & pawns);
        }
        assert(blocking_mask == one & pawns);
        // Double push
        let ghost single = blocking_mask;
        if two & pawns != 0 && one & occ == 0 && two & home != 0 {
            blocking_mask = blocking_mask | (two & pawns);
        }
        proof {
            lemma_or_zero(single);
        }
        let rook_ray = tables.get_rook_attack(piece_index, occ);
        let bishop_ray = tables.get_bishop_attack(piece_index, occ);
        blocking_mask | (tables.knight_attacks[piece_index] & knights) | (rook_ray & rooks) | (
        bishop_ray & bishops) | (rook_ray & queens) | (bishop_ray & queens)
    }

    /// The white pieces, king aside, that can move onto the lowest square of
    /// `target` without capturing.
    pub fn white_blocking(&self, tables: &Tables, target: u64) -> (r: u64)
        requires
            tables.wf(),
            target != 0,
        ensures
            r == blockers_spec(self@, *tables, true, target),
    {
        self.blocking_for(tables, true, target)
    }

    /// The black pieces, king aside, that can move onto the lowest square of
    /// `target` without capturing.
    pub fn black_blocking(&self, tables: &Tables, target: u64) -> (r: u64)
        requires
            tables.wf(),
            target != 0,
        ensures
            r == blockers_spec(self@, *tables, false, target),
    {
        self.blocking_for(tables, false, target)
    }

    /// The pins along rays of one kind from the target.
    fn pins_along(
        &self,
        tables: &Tables,
        white: bool,
        rook: bool,
        ray: u64,
        connected: u64,
        target: u64,
    ) -> (r: u64)
        requires
            tables.wf(),
        ensures
            r == pin_part(self@, *tables, white, rook, ray, connected, target),
    {
        let mut rest = connected;
        let mut mask: u64 = 0;
        let occ = self.occupancy();
        let own = if white {
            self.white_occupancy()
        } else {
            self.black_occupancy()
        };
        proof {
            lemma_zero_or(pin_part(self@, *tables, white, rook, ray, connected, target));
        }
        while rest != 0
            invariant
                tables.wf(),
                occ == self@.occupancy(),
                own == own_occupancy(self@, white),
                mask | pin_part(self@, *tables, white, rook, ray, rest, target) == pin_part(
                    self@,
                    *tables,
                    white,
                    rook,
                    ray,
                    connected,
                    target,
                ),
            decreases rest,
        {
            let ghost prev = mask;
            let attacker_index = pop_lsb(&mut rest);
            // Look back to the target without any blockers
            let attacker_ray = if rook {
                tables.get_rook_attack(attacker_index, target)
            } else {
                tables.get_bishop_attack(attacker_index, target)
            };
            // The squares that stand between attacker and target
            let blocker_mask = ray & attacker_ray;
            let found = if (blocker_mask & occ).count_ones() == 1 {
                blocker_mask & own
            } else {
                0
            };
            mask = mask | found;
            proof {
                lemma_or_assoc(prev, found, pin_part(self@, *tables, white, rook, ray, rest, target));
            }
        }
        proof {
            lemma_or_zero(mask);
        }
        mask
    }

    /// The pieces of `white_to_move`'s colour pinned to the lowest square of
    /// `target`.
    pub fn pin_mask(&self, tables: &Tables, target: u64, white_to_move: bool) -> (r: u64)
        requires
            tables.wf(),
            target != 0,
        ensures
            r == pin_mask_spec(self@, *tables, target, white_to_move),
    {
        let target_index = target.trailing_zeros() as usize;
        let (rook_like, bishop_like) = if white_to_move {
            (self.black_rooks | self.black_queens, self.black_bishops | self.black_queens)
        } else {
            (self.white_rooks | self.white_queens, self.white_bishops | self.white_queens)
        };
        // Project the rays without any blockers but the attackers themselves
        let rook_ray = tables.get_rook_attack(target_index, rook_like);
        let rook_pins = self.pins_along(
            tables,
            white_to_move,
            true,
            rook_ray,
            rook_ray & rook_like,
            target,
        );
        let bishop_ray = tables.get_bishop_attack(target_index, bishop_like);
        let bishop_pins = self.pins_along(
            tables,
            white_to_move,
            false,
            bishop_ray,
            bishop_ray & bishop_like,
            target,
        );
        rook_pins | bishop_pins
    }

    /// Whether the lowest square of `target` is safe from ray attacks after
    /// the move.
    pub fn pin_safe(&self, tables: &Tables, target: u64, mv: &MoveRep) -> (r: bool)
        requires
            tables.wf(),
            target != 0,
        ensures
            r == pin_safe_spec(self@, *tables, target, *mv),
    {
        // The occupancy after the move would be made
        let after_occupancy = if mv.ending_square == self.en_passant_target {
            let en_passant_attacked = if self.white_to_move {
                mv.ending_square >> 8
            } else {
                mv.ending_square << 8
            };
            self.occupancy() & !mv.starting_square & !en_passant_attacked | mv.ending_square
        } else {
            self.occupancy() & !mv.starting_square | mv.ending_square
        };
        let target_index = target.trailing_zeros() as usize;
        // Attackers captured by the move do not count
        let rook_like_mask = if self.white_to_move {
            (self.black_rooks | self.black_queens) & !mv.ending_square
        } else {
            (self.white_rooks | self.white_queens) & !mv.ending_square
        };
        let bishop_like_mask = if self.white_to_move {
            (self.black_bishops | self.black_queens) & !mv.ending_square
        } else {
            (self.white_bishops | self.white_queens) & !mv.ending_square
        };
        let rook_ray = tables.get_rook_attack(target_index, after_occupancy);
        if rook_ray & rook_like_mask != 0 {
            return false;
        }
        let bishop_ray = tables.get_bishop_attack(target_index, after_occupancy);
        if bishop_ray & bishop_like_mask != 0 {
            return false;
        }
        true
    }

    /// Whether the white king is attacked.
    pub fn white_in_check(&self, table: &Tables) -> (r: bool)
        requires
            table.wf(),
        ensures
            r == in_check_spec(self@, *table, true),
    {
        let black_attack_mask = self.black_attack_mask(table);
        black_attack_mask & self.white_king != 0
    }

    /// Whether the black king is attacked.
    pub fn black_in_check(&self, table: &Tables) -> (r: bool)
        requires
            table.wf(),
        ensures
            r == in_check_spec(self@, *table, false),
    {
        let white_attack_mask = self.white_attack_mask(table);
        white_attack_mask & self.black_king != 0
    }

    /// Whether the move leaves the mover's king unattacked; the board is
    /// played forward and taken back.
    pub fn move_safe_for_king(&mut self, table: &Tables, play: &MoveRep) -> (r: bool)
        requires
            table.wf(),
            old(self).move_stack_pointer < usize::MAX,
        ensures
            r == !in_check_spec(
                make_spec(old(self)@, *play),
                *table,
                !make_spec(old(self)@, *play).white_to_move,
            ),
            final(self)@ == unmake_spec(make_spec(old(self)@, *play), *play),
    {
        self.make(play);
        proof {
            crate::board::lemma_make_stack(old(self)@, *play);
        }
        let is_safe = if self.white_to_move {
            !self.black_in_check(table)
        } else {
            !self.white_in_check(table)
        };
        self.unmake(play);
        is_safe
    }
}

} // verus!
