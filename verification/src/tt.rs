//! Zobrist keys and the hash of a board: the exclusive or of a key for each
//! piece on its square, the side to move, each castling right and the en
//! passant target.

use vstd::prelude::*;
use crate::board::{BoardState, BoardModel, MoveRep, PieceType, make_spec, unmake_spec, make_undo_ok, lemma_unmake_undoes_make};
use crate::bitboard::{sq_bit, lsb, lemma_xor_union_facts};
use crate::random::{seeded_rng, get_random_u64, draws, seeded_draws};

verus! {

/// The random keys of a Zobrist hash.
pub struct ZobKeys {
    pub piece_keys: [[u64; 64]; 12],
    pub enpassant_keys: [u64; 64],
    pub castle_keys: [u64; 4],
    pub side_key: u64,
}

/// The key index of a piece of a colour: white pawn to king 0 to 5, black
/// pawn to king 6 to 11.
pub open spec fn piece_index(piece: PieceType, white: bool) -> int {
    let base = match piece {
        PieceType::Pawn => 0,
        PieceType::Knight => 1,
        PieceType::Bishop => 2,
        PieceType::Rook => 3,
        PieceType::Queen => 4,
        PieceType::King => 5,
    };
    if white {
        base
    } else {
        base + 6
    }
}

/// The keys of the pieces on squares `0..n` folded into `h`, lowest square
/// first.
pub open spec fn pieces_hash(keys: ZobKeys, b: BoardModel, h: u64, n: nat) -> u64
    decreases n,
{
    if n == 0 {
        h
    } else {
        let prev = pieces_hash(keys, b, h, (n - 1) as nat);
        match b.piece_and_color_at(sq_bit(n - 1)) {
            Some((p, w)) => prev ^ keys.piece_keys@[piece_index(p, w)]@[n - 1],
            None => prev,
        }
    }
}

/// The en passant targets that enter the hash: those on the third and sixth
/// ranks.
pub const EN_PASSANT_RANKS: u64 = 0xff0000ff0000;

/// The hash of a board: the side key when white is to move, a key per
/// castling right (white kingside, white queenside, black kingside, black
/// queenside), a key per piece on its square, and the key of an en passant
/// target on the third or sixth rank, combined by exclusive or.
pub open spec fn hash_spec(keys: ZobKeys, b: BoardModel) -> u64 {
    let h1 = if b.white_to_move {
        0 ^ keys.side_key
    } else {
        0
    };
    let h2 = if b.white_kingside_castle_rights {
        h1 ^ keys.castle_keys@[0]
    } else {
        h1
    };
    let h3 = if b.white_queenside_castle_rights {
        h2 ^ keys.castle_keys@[1]
    } else {
        h2
    };
    let h4 = if b.black_kingside_castle_rights {
        h3 ^ keys.castle_keys@[2]
    } else {
        h3
    };
    let h5 = if b.black_queenside_castle_rights {
        h4 ^ keys.castle_keys@[3]
    } else {
        h4
    };
    let h6 = pieces_hash(keys, b, h5, 64);
    if b.en_passant_target & EN_PASSANT_RANKS != 0 {
        h6 ^ keys.enpassant_keys@[lsb(b.en_passant_target)]
    } else {
        h6
    }
}

/// Taking back a move restores the board's hash, when taking it back
/// restores the board.
pub proof fn lemma_hash_restored(keys: ZobKeys, b: BoardModel, m: MoveRep)
    requires
        make_undo_ok(b, m),
    ensures
        hash_spec(keys, unmake_spec(make_spec(b, m), m)) == hash_spec(keys, b),
{
    lemma_unmake_undoes_make(b, m);
}

/// Two boards with the same pieces on the same squares.
pub open spec fn same_placement(a: BoardModel, b: BoardModel) -> bool {
    &&& a.white_pawns == b.white_pawns
    &&& a.white_knights == b.white_knights
    &&& a.white_bishops == b.white_bishops
    &&& a.white_rooks == b.white_rooks
    &&& a.white_queens == b.white_queens
    &&& a.white_king == b.white_king
    &&& a.black_pawns == b.black_pawns
    &&& a.black_knights == b.black_knights
    &&& a.black_bishops == b.black_bishops
    &&& a.black_rooks == b.black_rooks
    &&& a.black_queens == b.black_queens
    &&& a.black_king == b.black_king
}

/// Folding the piece keys into a value that differs by `k` gives results
/// that differ by `k`, on boards with the same pieces.
proof fn lemma_pieces_hash_shift(keys: ZobKeys, a: BoardModel, b: BoardModel, h: u64, k: u64, n: nat)
    requires
        same_placement(a, b),
    ensures
        pieces_hash(keys, a, h ^ k, n) == pieces_hash(keys, b, h, n) ^ k,
    decreases n,
{
    if n > 0 {
        lemma_pieces_hash_shift(keys, a, b, h, k, (n - 1) as nat);
        let prev = pieces_hash(keys, b, h, (n - 1) as nat);
        assert(a.piece_and_color_at(sq_bit(n - 1)) == b.piece_and_color_at(sq_bit(n - 1)));
        match b.piece_and_color_at(sq_bit(n - 1)) {
            Some((p, w)) => {
                lemma_xor_union_facts(prev, k, keys.piece_keys@[piece_index(p, w)]@[n - 1], 0, 0, 0, 0,
                    0, 0, 0, 0, 0);
            },
            None => {},
        }
    }
}

/// The hash from the castling rights on, given the value before them.
pub open spec fn hash_from_rights(keys: ZobKeys, b: BoardModel, h1: u64) -> u64 {
    let h2 = if b.white_kingside_castle_rights {
        h1 ^ keys.castle_keys@[0]
    } else {
        h1
    };
    let h3 = if b.white_queenside_castle_rights {
        h2 ^ keys.castle_keys@[1]
    } else {
        h2
    };
    let h4 = if b.black_kingside_castle_rights {
        h3 ^ keys.castle_keys@[2]
    } else {
        h3
    };
    let h5 = if b.black_queenside_castle_rights {
        h4 ^ keys.castle_keys@[3]
    } else {
        h4
    };
    let h6 = pieces_hash(keys, b, h5, 64);
    if b.en_passant_target & EN_PASSANT_RANKS != 0 {
        h6 ^ keys.enpassant_keys@[lsb(b.en_passant_target)]
    } else {
        h6
    }
}

/// Changing the value the castling rights start from by `k` changes the
/// hash by `k`.
proof fn lemma_hash_from_rights_shift(keys: ZobKeys, a: BoardModel, b: BoardModel, h: u64, k: u64)
    requires
        same_placement(a, b),
        a.white_kingside_castle_rights == b.white_kingside_castle_rights,
        a.white_queenside_castle_rights == b.white_queenside_castle_rights,
        a.black_kingside_castle_rights == b.black_kingside_castle_rights,
        a.black_queenside_castle_rights == b.black_queenside_castle_rights,
        a.en_passant_target == b.en_passant_target,
    ensures
        hash_from_rights(keys, a, h ^ k) == hash_from_rights(keys, b, h) ^ k,
{
    let c = keys.castle_keys@;
    let h2 = if b.white_kingside_castle_rights { h ^ c[0] } else { h };
    let h3 = if b.white_queenside_castle_rights { h2 ^ c[1] } else { h2 };
    let h4 = if b.black_kingside_castle_rights { h3 ^ c[2] } else { h3 };
    let h5 = if b.black_queenside_castle_rights { h4 ^ c[3] } else { h4 };
    lemma_xor_union_facts(h, k, c[0], 0, 0, 0, 0, 0, 0, 0, 0, 0);
    lemma_xor_union_facts(h2, k, c[1], 0, 0, 0, 0, 0, 0, 0, 0, 0);
    lemma_xor_union_facts(h3, k, c[2], 0, 0, 0, 0, 0, 0, 0, 0, 0);
    lemma_xor_union_facts(h4, k, c[3], 0, 0, 0, 0, 0, 0, 0, 0, 0);
    lemma_pieces_hash_shift(keys, a, b, h5, k, 64);
    let h6 = pieces_hash(keys, b, h5, 64);
    lemma_xor_union_facts(h6, k, keys.enpassant_keys@[lsb(b.en_passant_target)], 0, 0, 0, 0, 0, 0, 0,
        0, 0);
}

/// The hash of a board is the hash from its castling rights on, started
/// from the side key when white is to move.
proof fn lemma_hash_split(keys: ZobKeys, b: BoardModel)
    ensures
        hash_spec(keys, b) == hash_from_rights(
            keys,
            b,
            if b.white_to_move {
                0 ^ keys.side_key
            } else {
                0
            },
        ),
{
}

/// Handing the move to the other side changes the hash by the side key.
pub proof fn lemma_hash_side_key(keys: ZobKeys, b: BoardModel)
    ensures
        hash_spec(keys, BoardModel { white_to_move: !b.white_to_move, ..b }) == hash_spec(keys, b)
            ^ keys.side_key,
{
    let f = BoardModel { white_to_move: !b.white_to_move, ..b };
    let k = keys.side_key;
    lemma_hash_split(keys, b);
    lemma_hash_split(keys, f);
    lemma_hash_from_rights_shift(keys, f, b, 0, k);
    lemma_hash_from_rights_shift(keys, b, f, 0, k);
    lemma_xor_union_facts(hash_from_rights(keys, b, 0), k, 0, 0, 0, 0, 0, 0, 0, 0, 0, 0);
    lemma_xor_union_facts(hash_from_rights(keys, f, 0), k, 0, 0, 0, 0, 0, 0, 0, 0, 0, 0);
}

/// Clearing an en passant target on the third or sixth rank changes the
/// hash by that square's key; one elsewhere does not enter the hash.
pub proof fn lemma_hash_en_passant_key(keys: ZobKeys, b: BoardModel)
    ensures
        hash_spec(keys, b) == if b.en_passant_target & EN_PASSANT_RANKS != 0 {
            hash_spec(keys, BoardModel { en_passant_target: 0, ..b })
                ^ keys.enpassant_keys@[lsb(b.en_passant_target)]
        } else {
            hash_spec(keys, BoardModel { en_passant_target: 0, ..b })
        },
{
    let c = BoardModel { en_passant_target: 0, ..b };
    lemma_xor_union_facts(0, 0, 0, EN_PASSANT_RANKS, 0, 0, 0, 0, 0, 0, 0, 0);
    let h1 = if b.white_to_move { 0 ^ keys.side_key } else { 0 };
    let ck = keys.castle_keys@;
    let h2 = if b.white_kingside_castle_rights { h1 ^ ck[0] } else { h1 };
    let h3 = if b.white_queenside_castle_rights { h2 ^ ck[1] } else { h2 };
    let h4 = if b.black_kingside_castle_rights { h3 ^ ck[2] } else { h3 };
    let h5 = if b.black_queenside_castle_rights { h4 ^ ck[3] } else { h4 };
    lemma_pieces_hash_shift(keys, c, b, h5, 0, 64);
    lemma_xor_union_facts(h5, 0, 0, 0, 0, 0, 0, 0, 0, 0, 0, 0);
    lemma_xor_union_facts(pieces_hash(keys, b, h5, 64), 0, 0, 0, 0, 0, 0, 0, 0, 0, 0, 0);
}

/// Whether a board holds castling right `i` (white kingside, white
/// queenside, black kingside, black queenside).
pub open spec fn right_held(b: BoardModel, i: int) -> bool {
    if i == 0 {
        b.white_kingside_castle_rights
    } else if i == 1 {
        b.white_queenside_castle_rights
    } else if i == 2 {
        b.black_kingside_castle_rights
    } else {
        b.black_queenside_castle_rights
    }
}

/// The board with castling right `i` given up.
pub open spec fn without_right(b: BoardModel, i: int) -> BoardModel {
    if i == 0 {
        BoardModel { white_kingside_castle_rights: false, ..b }
    } else if i == 1 {
        BoardModel { white_queenside_castle_rights: false, ..b }
    } else if i == 2 {
        BoardModel { black_kingside_castle_rights: false, ..b }
    } else {
        BoardModel { black_queenside_castle_rights: false, ..b }
    }
}

/// The hash from castling right `i` on, given the value before it.
pub open spec fn rights_tail(keys: ZobKeys, b: BoardModel, h: u64, i: nat) -> u64
    decreases 4 - i,
{
    if i >= 4 {
        let h6 = pieces_hash(keys, b, h, 64);
        if b.en_passant_target & EN_PASSANT_RANKS != 0 {
            h6 ^ keys.enpassant_keys@[lsb(b.en_passant_target)]
        } else {
            h6
        }
    } else {
        rights_tail(
            keys,
            b,
            if right_held(b, i as int) {
                h ^ keys.castle_keys@[i as int]
            } else {
                h
            },
            i + 1,
        )
    }
}

/// Starting the tail from a value that differs by `k` gives a result that
/// differs by `k`, on boards alike from right `i` on.
proof fn lemma_rights_tail_shift(keys: ZobKeys, a: BoardModel, b: BoardModel, h: u64, k: u64, i: nat)
    requires
        same_placement(a, b),
        a.en_passant_target == b.en_passant_target,
        forall|j: int| i <= j < 4 ==> right_held(a, j) == right_held(b, j),
    ensures
        rights_tail(keys, a, h ^ k, i) == rights_tail(keys, b, h, i) ^ k,
    decreases 4 - i,
{
    if i >= 4 {
        lemma_pieces_hash_shift(keys, a, b, h, k, 64);
        let h6 = pieces_hash(keys, b, h, 64);
        lemma_xor_union_facts(h6, k, keys.enpassant_keys@[lsb(b.en_passant_target)], 0, 0, 0, 0, 0,
            0, 0, 0, 0);
    } else {
        let c = keys.castle_keys@[i as int];
        lemma_xor_union_facts(h, k, c, 0, 0, 0, 0, 0, 0, 0, 0, 0);
        assert(right_held(a, i as int) == right_held(b, i as int));
        if right_held(b, i as int) {
            lemma_rights_tail_shift(keys, a, b, h ^ c, k, i + 1);
        } else {
            lemma_rights_tail_shift(keys, a, b, h, k, i + 1);
        }
    }
}

/// Giving up a held right changes the tail, from where that right is
/// folded in, by the right's key.
proof fn lemma_rights_tail_drop(keys: ZobKeys, b: BoardModel, h: u64, r: int, i: nat)
    requires
        0 <= r < 4,
        i <= r,
        right_held(b, r),
    ensures
        rights_tail(keys, b, h, i) == rights_tail(keys, without_right(b, r), h, i)
            ^ keys.castle_keys@[r],
    decreases 4 - i,
{
    let c = without_right(b, r);
    if i == r {
        assert forall|j: int| i + 1 <= j < 4 implies right_held(b, j) == right_held(c, j) by {}
        lemma_rights_tail_shift(keys, b, c, h, keys.castle_keys@[r], i + 1);
    } else {
        assert(right_held(b, i as int) == right_held(c, i as int));
        let h2 = if right_held(b, i as int) {
            h ^ keys.castle_keys@[i as int]
        } else {
            h
        };
        lemma_rights_tail_drop(keys, b, h2, r, i + 1);
    }
}

/// Giving up a held castling right changes the hash by that right's key.
pub proof fn lemma_hash_castle_key(keys: ZobKeys, b: BoardModel, r: int)
    requires
        0 <= r < 4,
        right_held(b, r),
    ensures
        hash_spec(keys, b) == hash_spec(keys, without_right(b, r)) ^ keys.castle_keys@[r],
{
    let c = without_right(b, r);
    let h1 = if b.white_to_move {
        0 ^ keys.side_key
    } else {
        0
    };
    assert(hash_spec(keys, b) == rights_tail(keys, b, h1, 0)) by {
        reveal_with_fuel(rights_tail, 5);
    }
    assert(hash_spec(keys, c) == rights_tail(keys, c, h1, 0)) by {
        reveal_with_fuel(rights_tail, 5);
    }
    lemma_rights_tail_drop(keys, b, h1, r, 0);
}

impl ZobKeys {
    pub const WHITE_PAWN_INDEX: usize = 0;
    pub const WHITE_KNIGHT_INDEX: usize = 1;
    pub const WHITE_BISHOP_INDEX: usize = 2;
    pub const WHITE_ROOK_INDEX: usize = 3;
    pub const WHITE_QUEEN_INDEX: usize = 4;
    pub const WHITE_KING_INDEX: usize = 5;
    pub const BLACK_PAWN_INDEX: usize = 6;
    pub const BLACK_KNIGHT_INDEX: usize = 7;
    pub const BLACK_BISHOP_INDEX: usize = 8;
    pub const BLACK_ROOK_INDEX: usize = 9;
    pub const BLACK_QUEEN_INDEX: usize = 10;
    pub const BLACK_KING_INDEX: usize = 11;

    pub const WHITE_KINGSIDE_INDEX: usize = 0;
    pub const WHITE_QUEENSIDE_INDEX: usize = 1;
    pub const BLACK_KINGSIDE_INDEX: usize = 2;
    pub const BLACK_QUEENSIDE_INDEX: usize = 3;

    /// Draws the keys from the xorshift generator seeded with 0: for each
    /// square, the twelve piece keys, then the en passant keys, the castling
    /// keys and the side key.
    pub fn new() -> (r: ZobKeys)
        ensures
            forall|p: int, q: int|
                0 <= p < 12 && 0 <= q < 64 ==> #[trigger] r.piece_keys@[p]@[q] == seeded_draws(
                    0,
                )[(12 * q + p) as nat],
            forall|q: int|
                0 <= q < 64 ==> #[trigger] r.enpassant_keys@[q] == seeded_draws(0)[(768 + q) as nat],
            forall|c: int|
                0 <= c < 4 ==> #[trigger] r.castle_keys@[c] == seeded_draws(0)[(832 + c) as nat],
            r.side_key == seeded_draws(0)[836],
    {
        let mut keys = ZobKeys {
            piece_keys: [[0u64; 64]; 12],
            enpassant_keys: [0u64; 64],
            castle_keys: [0u64; 4],
            side_key: 0,
        };
        let mut rng = seeded_rng(0);
        let ghost mut count: nat = 0;
        let mut square: usize = 0;
        while square < 64
            invariant
                square <= 64,
                count == 12 * square,
                forall|i: nat| #[trigger] draws(rng)[i] == seeded_draws(0)[count + i],
                forall|p: int, q: int|
                    0 <= p < 12 && 0 <= q < square ==> #[trigger] keys.piece_keys@[p]@[q]
                        == seeded_draws(0)[(12 * q + p) as nat],
            decreases 64 - square,
        {
            let mut piece_index: usize = 0;
            while piece_index < 12
                invariant
                    square < 64,
                    piece_index <= 12,
                    count == 12 * square + piece_index,
                    forall|i: nat| #[trigger] draws(rng)[i] == seeded_draws(0)[count + i],
                    forall|p: int, q: int|
                        0 <= p < 12 && 0 <= q < square ==> #[trigger] keys.piece_keys@[p]@[q]
                            == seeded_draws(0)[(12 * q + p) as nat],
                    forall|p: int|
                        0 <= p < piece_index ==> #[trigger] keys.piece_keys@[p]@[square as int]
                            == seeded_draws(0)[(12 * square + p) as nat],
                decreases 12 - piece_index,
            {
                let ghost before = rng;
                let key = get_random_u64(&mut rng);
                assert(key == seeded_draws(0)[count + 0]);
                proof {
                    assert forall|i: nat| #[trigger] draws(rng)[i] == seeded_draws(0)[(count + 1)
                        + i] by {
                        assert(draws(before)[i + 1] == seeded_draws(0)[count + (i + 1)]);
                    }
                    count = count + 1;
                }
                let mut row = keys.piece_keys[piece_index];
                row[square] = key;
                keys.piece_keys[piece_index] = row;
                piece_index = piece_index + 1;
            }
            square = square + 1;
        }
        let mut square: usize = 0;
        while square < 64
            invariant
                square <= 64,
                count == 768 + square,
                forall|i: nat| #[trigger] draws(rng)[i] == seeded_draws(0)[count + i],
                forall|p: int, q: int|
                    0 <= p < 12 && 0 <= q < 64 ==> #[trigger] keys.piece_keys@[p]@[q]
                        == seeded_draws(0)[(12 * q + p) as nat],
                forall|q: int|
                    0 <= q < square ==> #[trigger] keys.enpassant_keys@[q] == seeded_draws(0)[(768
                        + q) as nat],
            decreases 64 - square,
        {
            let ghost before = rng;
            let key = get_random_u64(&mut rng);
            assert(key == seeded_draws(0)[count + 0]);
            proof {
                assert forall|i: nat| #[trigger] draws(rng)[i] == seeded_draws(0)[(count + 1) + i] by {
                    assert(draws(before)[i + 1] == seeded_draws(0)[count + (i + 1)]);
                }
                count = count + 1;
            }
            keys.enpassant_keys[square] = key;
            square = square + 1;
        }
        let mut castle_state: usize = 0;
        while castle_state < 4
            invariant
                castle_state <= 4,
                count == 832 + castle_state,
                forall|i: nat| #[trigger] draws(rng)[i] == seeded_draws(0)[count + i],
                forall|p: int, q: int|
                    0 <= p < 12 && 0 <= q < 64 ==> #[trigger] keys.piece_keys@[p]@[q]
                        == seeded_draws(0)[(12 * q + p) as nat],
                forall|q: int|
                    0 <= q < 64 ==> #[trigger] keys.enpassant_keys@[q] == seeded_draws(0)[(768
                        + q) as nat],
                forall|c: int|
                    0 <= c < castle_state ==> #[trigger] keys.castle_keys@[c] == seeded_draws(0)[(832
                        + c) as nat],
            decreases 4 - castle_state,
        {
            let ghost before = rng;
            let key = get_random_u64(&mut rng);
            assert(key == seeded_draws(0)[count + 0]);
            proof {
                assert forall|i: nat| #[trigger] draws(rng)[i] == seeded_draws(0)[(count + 1) + i] by {
                    assert(draws(before)[i + 1] == seeded_draws(0)[count + (i + 1)]);
                }
                count = count + 1;
            }
            keys.castle_keys[castle_state] = key;
            castle_state = castle_state + 1;
        }
        let key = get_random_u64(&mut rng);
        assert(key == seeded_draws(0)[count + 0]);
        keys.side_key = key;
        keys
    }

    /// The key index of a piece of a colour.
    pub fn match_to_index(piece: PieceType, white_to_move: bool) -> (r: usize)
        ensures
            r == piece_index(piece, white_to_move),
    {
        match (piece, white_to_move) {
            (PieceType::Pawn, true) => ZobKeys::WHITE_PAWN_INDEX,
            (PieceType::Knight, true) => ZobKeys::WHITE_KNIGHT_INDEX,
            (PieceType::Bishop, true) => ZobKeys::WHITE_BISHOP_INDEX,
            (PieceType::Rook, true) => ZobKeys::WHITE_ROOK_INDEX,
            (PieceType::Queen, true) => ZobKeys::WHITE_QUEEN_INDEX,
            (PieceType::King, true) => ZobKeys::WHITE_KING_INDEX,
            (PieceType::Pawn, false) => ZobKeys::BLACK_PAWN_INDEX,
            (PieceType::Knight, false) => ZobKeys::BLACK_KNIGHT_INDEX,
            (PieceType::Bishop, false) => ZobKeys::BLACK_BISHOP_INDEX,
            (PieceType::Rook, false) => ZobKeys::BLACK_ROOK_INDEX,
            (PieceType::Queen, false) => ZobKeys::BLACK_QUEEN_INDEX,
            (PieceType::King, false) => ZobKeys::BLACK_KING_INDEX,
        }
    }

    /// The Zobrist hash of the board.
    pub fn generate_hash(&self, board: &BoardState) -> (r: u64)
        ensures
            r == hash_spec(*self, board@),
    {
        let mut hash: u64 = 0;
        if board.white_to_move {
            hash = hash ^ self.side_key;
        }
        if board.white_kingside_castle_rights {
            hash = hash ^ self.castle_keys[0];
        }
        if board.white_queenside_castle_rights {
            hash = hash ^ self.castle_keys[1];
        }
        if board.black_kingside_castle_rights {
            hash = hash ^ self.castle_keys[2];
        }
        if board.black_queenside_castle_rights {
            hash = hash ^ self.castle_keys[3];
        }
        let ghost h5 = hash;
        for index in 0..64usize
            invariant
                hash == pieces_hash(*self, board@, h5, index as nat),
        {
            if let Some((piece, white)) = board.get_piece_and_color(1 << index) {
                let piece_type_offset = ZobKeys::match_to_index(piece, white);
                hash = hash ^ self.piece_keys[piece_type_offset][index];
            }
        }
        let ep = board.en_passant_target;
        if ep & EN_PASSANT_RANKS != 0 {
            assert(ep != 0) by (bit_vector)
                requires
                    ep & 0xff0000ff0000u64 != 0,
            ;
            hash = hash ^ self.enpassant_keys[board.en_passant_target.trailing_zeros() as usize];
        }
        hash
    }
}

} // verus!
