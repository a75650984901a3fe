//! A check on built tables whose passing proves every rook and bishop lookup
//! exact: the magic number of each square passes the candidate check, and
//! then the lookup gives the real attack set for every occupancy.

use vstd::prelude::*;
use crate::tables::{
    Tables,
    magic_ok,
    rook_attack_spec,
    bishop_attack_spec,
    lemma_rook_lookup_every,
    lemma_bishop_lookup_every,
};

verus! {

/// Whether the rook and the bishop magic numbers of square `i` both pass the
/// candidate check.
pub open spec fn magics_pass(t: Tables, i: int) -> bool {
    &&& magic_ok(true, t.rook_magics@[i], t.relevent_rook_count@[i], t.rook_occupancy@[i], i)
    &&& magic_ok(false, t.bishop_magics@[i], t.relevent_bishop_count@[i], t.bishop_occupancy@[i], i)
}

impl Tables {
    /// Whether every rook and bishop magic number of the tables passes the
    /// candidate check. When it does, every lookup gives the real attack set
    /// of its square, whatever the occupancy.
    pub fn lookups_exact(&self) -> (r: bool)
        requires
            self.wf(),
        ensures
            r == (forall|i: int| 0 <= i < 64 ==> #[trigger] magics_pass(*self, i)),
            r ==> forall|i: int, occ: u64|
                0 <= i < 64 ==> #[trigger] self.rook_lookup(i, occ) == rook_attack_spec(i, occ)
                    && self.bishop_lookup(i, occ) == bishop_attack_spec(i, occ),
    {
        let mut square: usize = 0;
        while square < 64
            invariant
                self.wf(),
                square <= 64,
                forall|i: int| 0 <= i < square ==> #[trigger] magics_pass(*self, i),
            decreases 64 - square,
        {
            let ghost i = square as int;
            let rook_count = self.relevent_rook_count[square];
            let rook_mask = self.rook_occupancy[square];
            assert(1 <= rook_count <= 12);
            let rook_patterns = Tables::magic_occupancies(rook_mask, rook_count);
            let rook_passes = Tables::magic_works(
                self.rook_magics[square],
                rook_mask,
                square,
                rook_count,
                true,
                &rook_patterns,
            );
            if !rook_passes {
                assert(!magics_pass(*self, i));
                return false;
            }
            let bishop_count = self.relevent_bishop_count[square];
            let bishop_mask = self.bishop_occupancy[square];
            assert(1 <= bishop_count <= 12);
            let bishop_patterns = Tables::magic_occupancies(bishop_mask, bishop_count);
            let bishop_passes = Tables::magic_works(
                self.bishop_magics[square],
                bishop_mask,
                square,
                bishop_count,
                false,
                &bishop_patterns,
            );
            if !bishop_passes {
                assert(!magics_pass(*self, i));
                return false;
            }
            assert(magics_pass(*self, i));
            square = square + 1;
        }
        proof {
            assert forall|i: int, occ: u64| 0 <= i < 64 implies #[trigger] self.rook_lookup(i, occ)
                == rook_attack_spec(i, occ) && self.bishop_lookup(i, occ) == bishop_attack_spec(
                i,
                occ,
            ) by {
                assert(magics_pass(*self, i));
                lemma_rook_lookup_every(*self, i, occ);
                lemma_bishop_lookup_every(*self, i, occ);
            }
        }
        true
    }
}

} // verus!
