//! Static evaluation: material balance, piece-square scores, and the change
//! of a move's piece-square score.

use vstd::prelude::*;
use crate::bitboard::{sq_bit, lsb, clear_lsb, lemma_clear_lsb_smaller, lemma_lsb_split, popcount, lemma_popcount_clear_lsb, lemma_popcount_bound, lemma_popcount_disjoint};
use crate::board::{
    BoardState,
    BoardModel,
    MoveRep,
    PieceType,
    Promotion,
    make_spec,
    make_undo_ok,
    is_castle,
    castle_rook_squares,
    lemma_make_plain_bitboards,
    lemma_make_castle_bitboards,
};
use crate::generate::pop_lsb;
use crate::tables::Tables;

verus! {

/// The score of a won position.
pub const WIN: isize = 10000;
/// The score of a drawn position.
pub const DRAW: isize = 0;

/// Material values.
pub const KING: isize = 20000;
pub const QUEEN: isize = 900;
pub const ROOK: isize = 500;
pub const BISHOP: isize = 330;
pub const KNIGHT: isize = 320;
pub const PAWN: isize = 100;

/// Piece-square values for a pawn, a8 first, from the mover's side.
pub const PAWN_TABLE: [isize; 64] = [
    0, 0, 0, 0, 0, 0, 0, 0,
    50, 50, 50, 50, 50, 50, 50, 50,
    10, 10, 20, 30, 30, 20, 10, 10,
    5, 5, 10, 25, 25, 10, 5, 5,
    0, 0, 0, 20, 20, 0, 0, 0,
    5, -5, -10, 0, 0, -10, -5, 5,
    5, 10, 10, -20, -20, 10, 10, 5,
    0, 0, 0, 0, 0, 0, 0, 0,
];

/// Piece-square values for a knight, a8 first, from the mover's side.
pub const KNIGHT_TABLE: [isize; 64] = [
    -50, -40, -30, -30, -30, -30, -40, -50,
    -40, -20, 0, 0, 0, 0, -20, -40,
    -30, 0, 10, 15, 15, 10, 0, -30,
    -30, 5, 15, 20, 20, 15, 5, -30,
    -30, 0, 15, 20, 20, 15, 0, -30,
    -30, 5, 10, 15, 15, 10, 5, -30,
    -40, -20, 0, 5, 5, 0, -20, -40,
    -50, -40, -30, -30, -30, -30, -40, -50,
];

/// Piece-square values for a bishop, a8 first, from the mover's side.
pub const BISHOP_TABLE: [isize; 64] = [
    -20, -10, -10, -10, -10, -10, -10, -20,
    -10, 0, 0, 0, 0, 0, 0, -10,
    -10, 0, 5, 10, 10, 5, 0, -10,
    -10, 5, 5, 10, 10, 5, 5, -10,
    -10, 0, 10, 10, 10, 10, 0, -10,
    -10, 10, 10, 10, 10, 10, 10, -10,
    -10, 5, 0, 0, 0, 0, 5, -10,
    -20, -10, -10, -10, -10, -10, -10, -20,
];

/// Piece-square values for a rook, a8 first, from the mover's side.
pub const ROOK_TABLE: [isize; 64] = [
    0, 0, 0, 0, 0, 0, 0, 0,
    5, 10, 10, 10, 10, 10, 10, 5,
    -5, 0, 0, 0, 0, 0, 0, -5,
    -5, 0, 0, 0, 0, 0, 0, -5,
    -5, 0, 0, 0, 0, 0, 0, -5,
    -5, 0, 0, 0, 0, 0, 0, -5,
    -5, 0, 0, 0, 0, 0, 0, -5,
    0, 0, 0, 5, 5, 0, 0, 0,
];

/// Piece-square values for a queen, a8 first, from the mover's side.
pub const QUEEN_TABLE: [isize; 64] = [
    -20, -10, -10, -5, -5, -10, -10, -20,
    -10, 0, 0, 0, 0, 0, 0, -10,
    -10, 0, 5, 5, 5, 5, 0, -10,
    -5, 0, 5, 5, 5, 5, 0, -5,
    0, 0, 5, 5, 5, 5, 0, -5,
    -10, 5, 5, 5, 5, 5, 0, -10,
    -10, 0, 5, 0, 0, 0, 0, -10,
    -20, -10, -10, -5, -5, -10, -10, -20,
];

/// Piece-square values for a king, a8 first, from the mover's side.
pub const KING_TABLE: [isize; 64] = [
    -30, -40, -40, -50, -50, -40, -40, -30,
    -30, -40, -40, -50, -50, -40, -40, -30,
    -30, -40, -40, -50, -50, -40, -40, -30,
    -30, -40, -40, -50, -50, -40, -40, -30,
    -20, -30, -30, -40, -40, -30, -30, -20,
    -10, -20, -20, -20, -20, -20, -20, -10,
    20, 20, 0, 0, 0, 0, 20, 20,
    20, 30, 10, 0, 0, 10, 30, 20,
];

/// The piece-square index of each square for white.
pub const WHITE_MAP: [usize; 64] = [
    63, 62, 61, 60, 59, 58, 57, 56,
    55, 54, 53, 52, 51, 50, 49, 48,
    47, 46, 45, 44, 43, 42, 41, 40,
    39, 38, 37, 36, 35, 34, 33, 32,
    31, 30, 29, 28, 27, 26, 25, 24,
    23, 22, 21, 20, 19, 18, 17, 16,
    15, 14, 13, 12, 11, 10, 9, 8,
    7, 6, 5, 4, 3, 2, 1, 0,
];

/// The piece-square index of each square for black.
pub const BLACK_MAP: [usize; 64] = [
    7, 6, 5, 5, 3, 2, 1, 0,
    15, 14, 13, 12, 11, 10, 9, 8,
    23, 22, 21, 20, 19, 18, 17, 16,
    31, 30, 29, 28, 27, 26, 25, 24,
    39, 38, 37, 36, 35, 34, 33, 32,
    47, 46, 45, 44, 43, 42, 41, 40,
    55, 54, 53, 52, 51, 50, 49, 48,
    63, 62, 61, 60, 59, 58, 57, 56,
];


/// The table entries lie within fifty of zero, and the maps stay on the board.
pub proof fn lemma_table_bounds()
    ensures
        forall|i: int| 0 <= i < 64 ==> -50 <= #[trigger] PAWN_TABLE@[i] <= 50,
        forall|i: int| 0 <= i < 64 ==> -50 <= #[trigger] KNIGHT_TABLE@[i] <= 50,
        forall|i: int| 0 <= i < 64 ==> -50 <= #[trigger] BISHOP_TABLE@[i] <= 50,
        forall|i: int| 0 <= i < 64 ==> -50 <= #[trigger] ROOK_TABLE@[i] <= 50,
        forall|i: int| 0 <= i < 64 ==> -50 <= #[trigger] QUEEN_TABLE@[i] <= 50,
        forall|i: int| 0 <= i < 64 ==> -50 <= #[trigger] KING_TABLE@[i] <= 50,
        forall|i: int| 0 <= i < 64 ==> #[trigger] WHITE_MAP@[i] < 64,
        forall|i: int| 0 <= i < 64 ==> #[trigger] BLACK_MAP@[i] < 64,
{
}

/// The piece-square value of a piece of kind `p` at table index `k`.
pub open spec fn table_value(p: PieceType, k: int) -> int {
    match p {
        PieceType::Pawn => PAWN_TABLE@[k] as int,
        PieceType::Knight => KNIGHT_TABLE@[k] as int,
        PieceType::Bishop => BISHOP_TABLE@[k] as int,
        PieceType::Rook => ROOK_TABLE@[k] as int,
        PieceType::Queen => QUEEN_TABLE@[k] as int,
        PieceType::King => KING_TABLE@[k] as int,
    }
}

/// The table index of square `s` for one colour.
pub open spec fn map_index(white: bool, s: int) -> int {
    if white {
        WHITE_MAP@[s] as int
    } else {
        BLACK_MAP@[s] as int
    }
}

/// The sum of the piece-square values of pieces of kind `p` and colour
/// `white` on the squares of `bb`.
pub open spec fn square_sum(p: PieceType, white: bool, bb: u64) -> int
    decreases bb,
{
    if bb == 0 {
        0
    } else {
        proof {
            lemma_clear_lsb_smaller(bb);
        }
        table_value(p, map_index(white, lsb(bb))) + square_sum(p, white, clear_lsb(bb))
    }
}

/// The piece-square score of one colour's pieces.
pub open spec fn colour_score(b: BoardModel, white: bool) -> int {
    square_sum(PieceType::Pawn, white, b.bb(white, PieceType::Pawn)) + square_sum(
        PieceType::Knight,
        white,
        b.bb(white, PieceType::Knight),
    ) + square_sum(PieceType::Rook, white, b.bb(white, PieceType::Rook)) + square_sum(
        PieceType::Bishop,
        white,
        b.bb(white, PieceType::Bishop),
    ) + square_sum(PieceType::Queen, white, b.bb(white, PieceType::Queen)) + square_sum(
        PieceType::King,
        white,
        b.bb(white, PieceType::King),
    )
}

/// The side to move's piece-square score less the other side's.
pub open spec fn piece_square_spec(b: BoardModel) -> int {
    if b.white_to_move {
        colour_score(b, true) - colour_score(b, false)
    } else {
        colour_score(b, false) - colour_score(b, true)
    }
}

/// The material of white less that of black, by piece counts.
pub open spec fn white_material(b: BoardModel) -> int {
    KING * (popcount(b.white_king) - popcount(b.black_king)) + QUEEN * (popcount(b.white_queens)
        - popcount(b.black_queens)) + ROOK * (popcount(b.white_rooks) - popcount(b.black_rooks))
        + BISHOP * (popcount(b.white_bishops) - popcount(b.black_bishops)) + KNIGHT * (popcount(
        b.white_knights,
    ) - popcount(b.black_knights)) + PAWN * (popcount(b.white_pawns) - popcount(b.black_pawns))
}

/// The side to move's material balance.
pub open spec fn material_spec(b: BoardModel) -> int {
    if b.white_to_move {
        white_material(b)
    } else {
        -white_material(b)
    }
}

/// What one piece of each kind is worth in the material balance: a pawn
/// 100, a knight 320, a bishop 330, a rook 500, a queen 900 and a king
/// 20000.
pub open spec fn piece_worth(p: PieceType) -> int {
    match p {
        PieceType::Pawn => 100,
        PieceType::Knight => 320,
        PieceType::Bishop => 330,
        PieceType::Rook => 500,
        PieceType::Queen => 900,
        PieceType::King => 20000,
    }
}

/// Every piece counts at its worth: adding one piece of any kind, of the
/// side to move, on a square where it has none of that kind raises the
/// material balance by exactly that piece's worth, and adding one of the
/// other side's lowers it by exactly that much.
pub proof fn lemma_material_counts_each_piece(b: BoardModel, white: bool, p: PieceType, k: int)
    requires
        0 <= k < 64,
        b.bb(white, p) & sq_bit(k) == 0,
    ensures
        material_spec(b.with_bb(white, p, b.bb(white, p) | sq_bit(k))) == material_spec(b) + (if white
            == b.white_to_move {
            piece_worth(p)
        } else {
            -piece_worth(p)
        }),
{
    lemma_popcount_disjoint(b.bb(white, p), sq_bit(k));
    crate::tables::lemma_popcount_bit(k);
    let c = b.with_bb(white, p, b.bb(white, p) | sq_bit(k));
    assert(popcount(c.bb(white, p)) == popcount(b.bb(white, p)) + 1);
    match p {
        PieceType::Pawn => {},
        PieceType::Knight => {},
        PieceType::Bishop => {},
        PieceType::Rook => {},
        PieceType::Queen => {},
        PieceType::King => {},
    }
}

/// A board without pieces has a material balance of zero.
pub proof fn lemma_material_of_no_pieces(b: BoardModel)
    requires
        forall|c: bool, p: PieceType| #[trigger] b.bb(c, p) == 0,
    ensures
        material_spec(b) == 0,
{
    assert(b.bb(true, PieceType::Pawn) == 0 && b.bb(false, PieceType::Pawn) == 0);
    assert(b.bb(true, PieceType::Knight) == 0 && b.bb(false, PieceType::Knight) == 0);
    assert(b.bb(true, PieceType::Bishop) == 0 && b.bb(false, PieceType::Bishop) == 0);
    assert(b.bb(true, PieceType::Rook) == 0 && b.bb(false, PieceType::Rook) == 0);
    assert(b.bb(true, PieceType::Queen) == 0 && b.bb(false, PieceType::Queen) == 0);
    assert(b.bb(true, PieceType::King) == 0 && b.bb(false, PieceType::King) == 0);
    assert(popcount(0) == 0);
}

/// A sum of piece-square values is at most fifty per piece.
pub proof fn lemma_square_sum_bound(p: PieceType, white: bool, bb: u64)
    ensures
        -50 * popcount(bb) <= square_sum(p, white, bb) <= 50 * popcount(bb),
    decreases bb,
{
    if bb != 0 {
        lemma_table_bounds();
        lemma_clear_lsb_smaller(bb);
        lemma_popcount_clear_lsb(bb);
        lemma_square_sum_bound(p, white, clear_lsb(bb));
        crate::bitboard::lemma_lsb_split(bb);
        assert(0 <= map_index(white, lsb(bb)) < 64);
    }
}

/// The material balance is at most 1,417,600 either way.
pub proof fn lemma_material_bound(b: BoardModel)
    ensures
        -1417600 <= material_spec(b) <= 1417600,
{
    lemma_popcount_bound(b.white_king);
    lemma_popcount_bound(b.black_king);
    lemma_popcount_bound(b.white_queens);
    lemma_popcount_bound(b.black_queens);
    lemma_popcount_bound(b.white_rooks);
    lemma_popcount_bound(b.black_rooks);
    lemma_popcount_bound(b.white_bishops);
    lemma_popcount_bound(b.black_bishops);
    lemma_popcount_bound(b.white_knights);
    lemma_popcount_bound(b.black_knights);
    lemma_popcount_bound(b.white_pawns);
    lemma_popcount_bound(b.black_pawns);
}

/// A piece-square score is at most 19200 either way.
pub proof fn lemma_colour_score_bound(b: BoardModel, white: bool)
    ensures
        -19200 <= colour_score(b, white) <= 19200,
{
    let ps = seq![
        PieceType::Pawn,
        PieceType::Knight,
        PieceType::Rook,
        PieceType::Bishop,
        PieceType::Queen,
        PieceType::King,
    ];
    assert forall|k: int| 0 <= k < 6 implies -3200 <= #[trigger] square_sum(
        ps[k],
        white,
        b.bb(white, ps[k]),
    ) <= 3200 by {
        lemma_square_sum_bound(ps[k], white, b.bb(white, ps[k]));
        lemma_popcount_bound(b.bb(white, ps[k]));
    }
    assert(ps[0] == PieceType::Pawn && ps[1] == PieceType::Knight && ps[2] == PieceType::Rook);
    assert(ps[3] == PieceType::Bishop && ps[4] == PieceType::Queen && ps[5] == PieceType::King);
}

/// The piece-square value of a piece of kind `p` at table index `k`.
fn table_lookup(p: PieceType, k: usize) -> (r: isize)
    requires
        k < 64,
    ensures
        r == table_value(p, k as int),
{
    match p {
        PieceType::Pawn => PAWN_TABLE[k],
        PieceType::Knight => KNIGHT_TABLE[k],
        PieceType::Bishop => BISHOP_TABLE[k],
        PieceType::Rook => ROOK_TABLE[k],
        PieceType::Queen => QUEEN_TABLE[k],
        PieceType::King => KING_TABLE[k],
    }
}

/// The table index of square `s` for one colour.
fn map_lookup(white: bool, s: usize) -> (r: usize)
    requires
        s < 64,
    ensures
        r == map_index(white, s as int),
        r < 64,
{
    proof {
        lemma_table_bounds();
    }
    if white {
        WHITE_MAP[s]
    } else {
        BLACK_MAP[s]
    }
}

/// The sum of the piece-square values of the pieces on the squares of `bb`.
fn sum_squares(p: PieceType, white: bool, bb: u64) -> (r: isize)
    ensures
        r == square_sum(p, white, bb),
        -3200 <= r <= 3200,
{
    let mut rest = bb;
    let mut score: isize = 0;
    proof {
        lemma_square_sum_bound(p, white, bb);
        lemma_popcount_bound(bb);
    }
    while rest != 0
        invariant
            score + square_sum(p, white, rest) == square_sum(p, white, bb),
            -50 * (popcount(bb) - popcount(rest)) <= score <= 50 * (popcount(bb) - popcount(rest)),
            popcount(rest) <= popcount(bb) <= 64,
        decreases rest,
    {
        proof {
            lemma_popcount_clear_lsb(rest);
            lemma_table_bounds();
        }
        let square = pop_lsb(&mut rest);
        let value = table_lookup(p, map_lookup(white, square));
        score = score + value;
    }
    score
}

/// The side to move's material balance.
pub fn material_value(board: &BoardState) -> (r: isize)
    ensures
        r == material_spec(board@),
{
    proof {
        lemma_popcount_bound(board.white_king);
        lemma_popcount_bound(board.black_king);
        lemma_popcount_bound(board.white_queens);
        lemma_popcount_bound(board.black_queens);
        lemma_popcount_bound(board.white_rooks);
        lemma_popcount_bound(board.black_rooks);
        lemma_popcount_bound(board.white_bishops);
        lemma_popcount_bound(board.black_bishops);
        lemma_popcount_bound(board.white_knights);
        lemma_popcount_bound(board.black_knights);
        lemma_popcount_bound(board.white_pawns);
        lemma_popcount_bound(board.black_pawns);
    }
    let king_delta = board.white_king.count_ones() as isize - board.black_king.count_ones() as isize;
    let queen_delta = board.white_queens.count_ones() as isize
        - board.black_queens.count_ones() as isize;
    let rook_delta = board.white_rooks.count_ones() as isize - board.black_rooks.count_ones() as isize;
    let bishop_delta = board.white_bishops.count_ones() as isize
        - board.black_bishops.count_ones() as isize;
    let knight_delta = board.white_knights.count_ones() as isize
        - board.black_knights.count_ones() as isize;
    let pawn_delta = board.white_pawns.count_ones() as isize - board.black_pawns.count_ones() as isize;
    let white_relative_value = KING * king_delta + QUEEN * queen_delta + ROOK * rook_delta + BISHOP
        * bishop_delta + KNIGHT * knight_delta + PAWN * pawn_delta;
    if board.white_to_move {
        white_relative_value
    } else {
        -white_relative_value
    }
}

/// The side to move's piece-square score less the other side's.
pub fn piece_square_score(board: &BoardState) -> (r: isize)
    ensures
        r == piece_square_spec(board@),
{
    proof {
        lemma_colour_score_bound(board@, true);
        lemma_colour_score_bound(board@, false);
    }
    let white_score = sum_squares(PieceType::Pawn, true, board.white_pawns) + sum_squares(
        PieceType::Knight,
        true,
        board.white_knights,
    ) + sum_squares(PieceType::Rook, true, board.white_rooks) + sum_squares(
        PieceType::Bishop,
        true,
        board.white_bishops,
    ) + sum_squares(PieceType::Queen, true, board.white_queens) + sum_squares(
        PieceType::King,
        true,
        board.white_king,
    );
    let black_score = sum_squares(PieceType::Pawn, false, board.black_pawns) + sum_squares(
        PieceType::Knight,
        false,
        board.black_knights,
    ) + sum_squares(PieceType::Rook, false, board.black_rooks) + sum_squares(
        PieceType::Bishop,
        false,
        board.black_bishops,
    ) + sum_squares(PieceType::Queen, false, board.black_queens) + sum_squares(
        PieceType::King,
        false,
        board.black_king,
    );
    if board.white_to_move {
        white_score - black_score
    } else {
        black_score - white_score
    }
}


/// The piece-square value of the piece under `mask`, from its own side, or
/// zero for an empty square.
pub open spec fn piece_value_spec(b: BoardModel, mask: u64) -> int {
    match b.piece_and_color_at(mask) {
        Some((p, w)) => table_value(p, map_index(w, lsb(mask))),
        None => 0,
    }
}

/// The piece a promotion makes.
pub open spec fn promoted_piece(p: Promotion) -> PieceType {
    match p {
        Promotion::Queen => PieceType::Queen,
        Promotion::Rook => PieceType::Rook,
        Promotion::Bishop => PieceType::Bishop,
        _ => PieceType::Knight,
    }
}

/// The change of the mover's piece-square score a castling move makes: the
/// king's and the rook's old values leave, their new values come in.
pub open spec fn castle_delta(mv: MoveRep) -> int {
    let e = mv.ending_square;
    let white = e == 1u64 << Tables::G1 || e == 1u64 << Tables::C1;
    let (rook_from, rook_to) = if e == 1u64 << Tables::G1 {
        (Tables::H1, Tables::F1)
    } else if e == 1u64 << Tables::C1 {
        (Tables::A1, Tables::D1)
    } else if e == 1u64 << Tables::G8 {
        (Tables::H8, Tables::F8)
    } else {
        (Tables::A8, Tables::D8)
    };
    -table_value(PieceType::King, map_index(white, lsb(mv.starting_square))) + table_value(
        PieceType::King,
        map_index(white, lsb(e)),
    ) - table_value(PieceType::Rook, map_index(white, rook_from as int)) + table_value(
        PieceType::Rook,
        map_index(white, rook_to as int),
    )
}

/// The change of the mover's piece-square score a move makes: the moved
/// piece's value on its starting square leaves, its value (or that of the
/// promoted piece) on the ending square comes in, and the captured piece's
/// value is gained (a pawn captured while an en passant target stands is
/// valued on that target, from the side to move's table).
pub open spec fn delta_spec(b: BoardModel, mv: MoveRep) -> int {
    if mv.promotion == Some(Promotion::Castle) {
        castle_delta(mv)
    } else {
        let (p, w) = b.piece_and_color_at(mv.starting_square).unwrap();
        let start = map_index(w, lsb(mv.starting_square));
        let end = map_index(w, lsb(mv.ending_square));
        let gained = match mv.promotion {
            None => table_value(p, end),
            Some(q) => table_value(promoted_piece(q), end),
        };
        let captured = match b.piece_and_color_at(mv.ending_square) {
            Some((ap, ac)) => {
                let ai = map_index(ac, lsb(mv.ending_square));
                if ap == PieceType::Pawn {
                    if b.en_passant_target == 0 {
                        table_value(PieceType::Pawn, ai)
                    } else {
                        table_value(
                            PieceType::Pawn,
                            map_index(b.white_to_move, lsb(b.en_passant_target)),
                        )
                    }
                } else {
                    table_value(ap, ai)
                }
            },
            None => 0,
        };
        -table_value(p, start) + gained + captured
    }
}

/// What `delta_ps_score` asks of a move: a castling move ends on one of the
/// four castling squares; any other move starts on a piece and ends on a
/// square.
pub open spec fn delta_ok(b: BoardModel, mv: MoveRep) -> bool {
    if mv.promotion == Some(Promotion::Castle) {
        mv.starting_square != 0 && (mv.ending_square == 1u64 << Tables::G1 || mv.ending_square
            == 1u64 << Tables::C1 || mv.ending_square == 1u64 << Tables::G8 || mv.ending_square
            == 1u64 << Tables::C8)
    } else {
        b.piece_and_color_at(mv.starting_square).is_some() && mv.ending_square != 0
    }
}

/// The move-count term of the evaluation: a tenth of the change in the
/// number of moves, truncated toward zero and held within `isize`.
pub open spec fn mobility_spec(number_moves: nat, last_number_moves: nat) -> int {
    let m = if number_moves >= last_number_moves {
        (number_moves - last_number_moves) / 10
    } else {
        -((last_number_moves - number_moves) / 10)
    };
    if m > isize::MAX {
        isize::MAX as int
    } else if m < isize::MIN {
        isize::MIN as int
    } else {
        m
    }
}

/// A nonempty board is not zero, and the piece under an empty mask is none.
proof fn lemma_piece_nonzero(b: BoardModel, mask: u64)
    ensures
        b.piece_and_color_at(mask).is_some() ==> mask != 0,
{
    assert(forall|x: u64| #[trigger] (x & 0u64) == 0) by {
        assert forall|x: u64| #[trigger] (x & 0u64) == 0 by {
            assert(x & 0u64 == 0) by (bit_vector);
        }
    }
}

/// The piece-square value of the piece under `mask`.
pub fn get_piece_value(board: &BoardState, mask: u64) -> (r: isize)
    ensures
        r == piece_value_spec(board@, mask),
{
    proof {
        lemma_piece_nonzero(board@, mask);
    }
    let piece_color = board.get_piece_and_color(mask);
    if let Some((piece, white)) = piece_color {
        let index = mask.trailing_zeros() as usize;
        table_lookup(piece, map_lookup(white, index))
    } else {
        0
    }
}

/// The table value of the piece a promotion makes.
fn promotion_value(p: Promotion, index: usize) -> (r: isize)
    requires
        index < 64,
    ensures
        r == table_value(promoted_piece(p), index as int),
{
    match p {
        Promotion::Queen => QUEEN_TABLE[index],
        Promotion::Rook => ROOK_TABLE[index],
        Promotion::Bishop => BISHOP_TABLE[index],
        _ => KNIGHT_TABLE[index],
    }
}

/// The change of the mover's piece-square score the move makes.
pub fn delta_ps_score(board: &BoardState, mv: &MoveRep) -> (r: isize)
    requires
        delta_ok(board@, *mv),
    ensures
        r == delta_spec(board@, *mv),
{
    proof {
        lemma_table_bounds();
        lemma_piece_nonzero(board@, mv.starting_square);
        lemma_piece_nonzero(board@, mv.ending_square);
    }
    if matches!(mv.promotion, Some(Promotion::Castle)) {
        castle_delta_score(mv)
    } else {
        plain_delta_score(board, mv)
    }
}

/// The change of the mover's piece-square score a castling move makes.
fn castle_delta_score(mv: &MoveRep) -> (r: isize)
    requires
        mv.starting_square != 0,
        mv.ending_square == 1u64 << Tables::G1 || mv.ending_square == 1u64 << Tables::C1
            || mv.ending_square == 1u64 << Tables::G8 || mv.ending_square == 1u64 << Tables::C8,
    ensures
        r == castle_delta(*mv),
{
    proof {
        lemma_table_bounds();
    }
    let e = mv.ending_square;
    assert(e != 0) by (bit_vector)
        requires
            e == 1u64 << 1u64 || e == 1u64 << 5u64 || e == 1u64 << 57u64 || e == 1u64 << 61u64,
    ;
    let white = e == 1 << Tables::G1 || e == 1 << Tables::C1;
    let (rook_from, rook_to) = if e == 1 << Tables::G1 {
        (Tables::H1, Tables::F1)
    } else if e == 1 << Tables::C1 {
        (Tables::A1, Tables::D1)
    } else if e == 1 << Tables::G8 {
        (Tables::H8, Tables::F8)
    } else {
        (Tables::A8, Tables::D8)
    };
    let start_index = map_lookup(white, mv.starting_square.trailing_zeros() as usize);
    let end_index = map_lookup(white, e.trailing_zeros() as usize);
    let mut score: isize = 0;
    score = score - KING_TABLE[start_index];
    score = score + KING_TABLE[end_index];
    score = score - ROOK_TABLE[map_lookup(white, rook_from as usize)];
    score = score + ROOK_TABLE[map_lookup(white, rook_to as usize)];
    score
}

/// The value a capture on the move's ending square gains.
fn capture_score(board: &BoardState, mv: &MoveRep) -> (r: isize)
    requires
        mv.ending_square != 0,
    ensures
        r == (match board@.piece_and_color_at(mv.ending_square) {
            Some((ap, ac)) => {
                let ai = map_index(ac, lsb(mv.ending_square));
                if ap == PieceType::Pawn {
                    if board@.en_passant_target == 0 {
                        table_value(PieceType::Pawn, ai)
                    } else {
                        table_value(
                            PieceType::Pawn,
                            map_index(board@.white_to_move, lsb(board@.en_passant_target)),
                        )
                    }
                } else {
                    table_value(ap, ai)
                }
            },
            None => 0,
        }),
        -50 <= r <= 50,
{
    proof {
        lemma_table_bounds();
    }
    if let Some((attacked_piece, attacked_color)) = board.get_piece_and_color(mv.ending_square) {
        let attack_index = map_lookup(attacked_color, mv.ending_square.trailing_zeros() as usize);
        if attacked_piece == PieceType::Pawn {
            if board.en_passant_target == 0 {
                PAWN_TABLE[attack_index]
            } else {
                let en_passant_index = map_lookup(
                    board.white_to_move,
                    board.en_passant_target.trailing_zeros() as usize,
                );
                PAWN_TABLE[en_passant_index]
            }
        } else {
            table_lookup(attacked_piece, attack_index)
        }
    } else {
        0
    }
}

/// The change of the mover's piece-square score a move other than castling
/// makes.
fn plain_delta_score(board: &BoardState, mv: &MoveRep) -> (r: isize)
    requires
        mv.promotion != Some(Promotion::Castle),
        board@.piece_and_color_at(mv.starting_square).is_some(),
        mv.ending_square != 0,
    ensures
        r == delta_spec(board@, *mv),
{
    proof {
        lemma_table_bounds();
        lemma_piece_nonzero(board@, mv.starting_square);
    }
    let mut score: isize = 0;
    let (moved_piece, moved_color) = board.get_piece_and_color(mv.starting_square).unwrap();
    let move_start = map_lookup(moved_color, mv.starting_square.trailing_zeros() as usize);
    let move_end = map_lookup(moved_color, mv.ending_square.trailing_zeros() as usize);
    score = score - table_lookup(moved_piece, move_start);
    match mv.promotion {
        None => {
            score = score + table_lookup(moved_piece, move_end);
        },
        Some(q) => {
            score = score + promotion_value(q, move_end);
        },
    }
    score = score + capture_score(board, mv);
    score
}

/// The static evaluation from the side to move's view: material, a tenth
/// of the change in the number of moves, and the piece-square score.
pub fn eval(board: &BoardState, tables: &Tables, number_moves: usize, last_number_moves: usize) -> (r:
    isize)
    ensures
        r == material_spec(board@) + mobility_spec(number_moves as nat, last_number_moves as nat)
            + piece_square_spec(board@),
{
    let mobility: isize = if number_moves >= last_number_moves {
        let m = (number_moves - last_number_moves) / 10;
        if m > isize::MAX as usize {
            isize::MAX
        } else {
            m as isize
        }
    } else {
        let m = (last_number_moves - number_moves) / 10;
        if m > isize::MAX as usize {
            isize::MIN
        } else {
            -(m as isize)
        }
    };
    let material = material_value(board);
    let squares = piece_square_score(board);
    proof {
        lemma_colour_score_bound(board@, true);
        lemma_colour_score_bound(board@, false);
        lemma_material_bound(board@);
        assert(-(usize::MAX / 10) <= mobility <= usize::MAX / 10);
        assert(usize::MAX / 10 + 1500000 <= isize::MAX);
    }
    material + mobility + squares
}


/// The piece-square values of the squares of `bb` below `n`, taken square by
/// square.
spec fn indexed_sum(p: PieceType, white: bool, bb: u64, n: nat) -> int
    decreases n,
{
    if n == 0 {
        0
    } else {
        let k = (n - 1) as int;
        indexed_sum(p, white, bb, (n - 1) as nat) + if bb & sq_bit(k) != 0 {
            table_value(p, map_index(white, k))
        } else {
            0
        }
    }
}

/// Taking square `i` off a board that holds it takes its value off the sum.
proof fn lemma_indexed_sum_remove(p: PieceType, white: bool, bb: u64, i: int, n: nat)
    requires
        0 <= i < 64,
        n <= 64,
        bb & sq_bit(i) != 0,
    ensures
        indexed_sum(p, white, bb & !sq_bit(i), n) == indexed_sum(p, white, bb, n) - if i < n {
            table_value(p, map_index(white, i))
        } else {
            0
        },
    decreases n,
{
    if n > 0 {
        lemma_indexed_sum_remove(p, white, bb, i, (n - 1) as nat);
        let k = (n - 1) as int;
        let iu = i as u64;
        let ku = k as u64;
        assert((bb & !(1u64 << iu)) & (1u64 << ku) == if ku == iu {
            0
        } else {
            bb & (1u64 << ku)
        }) by (bit_vector)
            requires
                iu < 64,
                ku < 64,
        ;
    }
}

/// The sum by lowest bits is the sum square by square.
proof fn lemma_square_sum_indexed(p: PieceType, white: bool, bb: u64)
    ensures
        square_sum(p, white, bb) == indexed_sum(p, white, bb, 64),
    decreases bb,
{
    if bb == 0 {
        lemma_indexed_sum_zero(p, white, 64);
    } else {
        lemma_clear_lsb_smaller(bb);
        lemma_lsb_split(bb);
        lemma_square_sum_indexed(p, white, clear_lsb(bb));
        let k = lsb(bb) as u64;
        let t = sq_bit(lsb(bb));
        assert(t == 1u64 << k);
        assert(bb & t != 0 ==> bb ^ t == bb & !t) by (bit_vector)
            requires
                t == 1u64 << k,
                k < 64,
        ;
        lemma_indexed_sum_remove(p, white, bb, lsb(bb), 64);
    }
}

proof fn lemma_indexed_sum_zero(p: PieceType, white: bool, n: nat)
    ensures
        indexed_sum(p, white, 0, n) == 0,
    decreases n,
{
    if n > 0 {
        lemma_indexed_sum_zero(p, white, (n - 1) as nat);
        let ku = (n - 1) as u64;
        assert(0u64 & (1u64 << ku) == 0) by (bit_vector);
    }
}

/// Taking square `i` off a board that holds it takes its value off the sum.
proof fn lemma_square_sum_remove(p: PieceType, white: bool, bb: u64, i: int)
    requires
        0 <= i < 64,
        bb & sq_bit(i) != 0,
    ensures
        square_sum(p, white, bb & !sq_bit(i)) == square_sum(p, white, bb) - table_value(
            p,
            map_index(white, i),
        ),
{
    lemma_square_sum_indexed(p, white, bb);
    lemma_square_sum_indexed(p, white, bb & !sq_bit(i));
    lemma_indexed_sum_remove(p, white, bb, i, 64);
}

/// Putting square `i` on a board without it adds its value to the sum.
proof fn lemma_square_sum_add(p: PieceType, white: bool, bb: u64, i: int)
    requires
        0 <= i < 64,
        bb & sq_bit(i) == 0,
    ensures
        square_sum(p, white, bb | sq_bit(i)) == square_sum(p, white, bb) + table_value(
            p,
            map_index(white, i),
        ),
{
    let iu = i as u64;
    assert(bb & (1u64 << iu) == 0 ==> (bb | (1u64 << iu)) & (1u64 << iu) != 0 && (bb | (1u64
        << iu)) & !(1u64 << iu) == bb) by (bit_vector)
        requires
            iu < 64,
    ;
    lemma_square_sum_remove(p, white, bb | sq_bit(i), i);
}


/// A mask of exactly one square.
pub open spec fn one_square(mask: u64) -> bool {
    lsb(mask) < 64 && mask == sq_bit(lsb(mask))
}

/// The lowest set bit of the mask of square `i` is `i`.
proof fn lemma_lsb_of_square(i: int)
    requires
        0 <= i < 64,
    ensures
        lsb(sq_bit(i)) == i,
        one_square(sq_bit(i)),
{
    let iu = i as u64;
    assert((1u64 << iu) != 0) by (bit_vector)
        requires
            iu < 64,
    ;
    lemma_lsb_split(sq_bit(i));
    let j = lsb(sq_bit(i)) as u64;
    assert(sq_bit(i) & sq_bit(lsb(sq_bit(i))) != 0);
    assert((1u64 << iu) & (1u64 << j) != 0 ==> iu == j) by (bit_vector)
        requires
            iu < 64,
            j < 64,
    ;
}

/// The sum of one kind of the mover's pieces after the piece on `s` leaves
/// (when `moved`) and the square `e` is cleared and filled (when `placed`).
proof fn lemma_sum_mover(x: PieceType, white: bool, bb: u64, s: u64, e: u64, moved: bool, placed: bool)
    requires
        one_square(s),
        one_square(e),
        bb & e == 0,
        moved ==> bb & s == s,
    ensures
        ({
            let left = if moved {
                bb & !s
            } else {
                bb
            };
            let after = if placed {
                (left & !e) | e
            } else {
                left & !e
            };
            &&& left & !e == left
            &&& square_sum(x, white, after) == square_sum(x, white, bb) - (if moved {
                table_value(x, map_index(white, lsb(s)))
            } else {
                0
            }) + (if placed {
                table_value(x, map_index(white, lsb(e)))
            } else {
                0
            })
        }),
{
    let si = lsb(s) as u64;
    let ei = lsb(e) as u64;
    assert(s == 1u64 << si && e == 1u64 << ei);
    assert((bb & e == 0 ==> bb & !e == bb && (bb & !s) & !e == bb & !s && (bb & !s) & e == 0) && (
    bb & s == s && s == 1u64 << si && si < 64 ==> bb & s != 0)) by (bit_vector);
    let left = if moved {
        bb & !s
    } else {
        bb
    };
    if moved {
        lemma_square_sum_remove(x, white, bb, lsb(s));
    }
    if placed {
        lemma_square_sum_add(x, white, left, lsb(e));
    }
}

/// The sum of one kind of the opponent's pieces after the square `e` is
/// cleared, which holds that kind exactly when `taken`.
proof fn lemma_sum_taken(x: PieceType, white: bool, bb: u64, e: u64, taken: bool)
    requires
        one_square(e),
        taken ==> bb & e == e,
        !taken ==> bb & e == 0,
    ensures
        square_sum(x, white, bb & !e) == square_sum(x, white, bb) - (if taken {
            table_value(x, map_index(white, lsb(e)))
        } else {
            0
        }),
{
    let ei = lsb(e) as u64;
    assert(e == 1u64 << ei);
    assert((bb & e == 0 ==> bb & !e == bb) && (bb & e == e && e == 1u64 << ei && ei < 64 ==> bb & e
        != 0)) by (bit_vector);
    if taken {
        lemma_square_sum_remove(x, white, bb, lsb(e));
    }
}

/// How one kind of piece's sums change with a move other than castling.
proof fn lemma_plain_type(b: BoardModel, m: MoveRep, x: PieceType)
    requires
        delta_law_ok(b, m),
        !is_castle(m),
    ensures
        ({
            let w = b.white_to_move;
            let s = m.starting_square;
            let e = m.ending_square;
            let a = make_spec(b, m);
            &&& square_sum(x, w, a.bb(w, x)) == square_sum(x, w, b.bb(w, x)) - (if x
                == m.moved_type {
                table_value(x, map_index(w, lsb(s)))
            } else {
                0
            }) + (if BoardModel::placed_piece(m) == Some(x) {
                table_value(x, map_index(w, lsb(e)))
            } else {
                0
            })
            &&& square_sum(x, !w, a.bb(!w, x)) == square_sum(x, !w, b.bb(!w, x)) - (if m.attacked_type
                == Some(x) {
                table_value(x, map_index(!w, lsb(e)))
            } else {
                0
            })
        }),
{
    let w = b.white_to_move;
    let s = m.starting_square;
    let e = m.ending_square;
    lemma_make_plain_bitboards(b, m, x);
    assert(b.captured_square(m) == e);
    assert(b.bb(w, x) & e == 0);
    assert(x == m.moved_type ==> b.bb(w, m.moved_type) & s == s);
    let y = b.opponent_bb(x);
    assert(y == b.bb(!w, x));
    lemma_sum_mover(
        x,
        w,
        b.bb(w, x),
        s,
        e,
        x == m.moved_type,
        BoardModel::placed_piece(m) == Some(x),
    );
    lemma_sum_taken(x, !w, b.bb(!w, x), e, m.attacked_type == Some(x));
}

/// How one kind of piece's sums change with a castling move.
proof fn lemma_castle_type(b: BoardModel, m: MoveRep, x: PieceType)
    requires
        delta_law_ok(b, m),
        is_castle(m),
    ensures
        ({
            let w = b.white_to_move;
            let s = m.starting_square;
            let e = m.ending_square;
            let (rook_from, rook_to) = castle_rook_squares(e);
            let a = make_spec(b, m);
            &&& one_square(rook_from)
            &&& one_square(rook_to)
            &&& square_sum(x, w, a.bb(w, x)) == square_sum(x, w, b.bb(w, x)) + (if x
                == PieceType::King {
                -table_value(x, map_index(w, lsb(s))) + table_value(x, map_index(w, lsb(e)))
            } else if x == PieceType::Rook {
                -table_value(x, map_index(w, lsb(rook_from))) + table_value(
                    x,
                    map_index(w, lsb(rook_to)),
                )
            } else {
                0
            })
            &&& a.bb(!w, x) == b.bb(!w, x)
        }),
{
    let w = b.white_to_move;
    let s = m.starting_square;
    let e = m.ending_square;
    let (rook_from, rook_to) = castle_rook_squares(e);
    lemma_lsb_of_square(Tables::H1 as int);
    lemma_lsb_of_square(Tables::F1 as int);
    lemma_lsb_of_square(Tables::A1 as int);
    lemma_lsb_of_square(Tables::D1 as int);
    lemma_lsb_of_square(Tables::H8 as int);
    lemma_lsb_of_square(Tables::F8 as int);
    lemma_lsb_of_square(Tables::A8 as int);
    lemma_lsb_of_square(Tables::D8 as int);
    lemma_make_castle_bitboards(b, m, x);
    if x == PieceType::King {
        lemma_sum_mover(x, w, b.bb(w, x), s, e, true, true);
    } else if x == PieceType::Rook {
        lemma_sum_mover(x, w, b.bb(w, x), rook_from, rook_to, true, true);
    }
}

/// What the move-by-move score asks to agree with the board scores: the
/// move is given back exactly, its masks are single squares, and either it
/// castles with the side to move's king, or the mover's piece is the one
/// found on its starting square, it is no en passant capture, and it does
/// not capture a pawn while an en passant target stands.
pub open spec fn delta_law_ok(b: BoardModel, m: MoveRep) -> bool {
    &&& make_undo_ok(b, m)
    &&& one_square(m.starting_square)
    &&& one_square(m.ending_square)
    &&& if is_castle(m) {
        (m.ending_square == 1u64 << Tables::G1 || m.ending_square == 1u64 << Tables::C1)
            == b.white_to_move
    } else {
        &&& b.piece_and_color_at(m.starting_square) == Some((m.moved_type, b.white_to_move))
        &&& !b.is_en_passant(m)
        &&& !(m.attacked_type == Some(PieceType::Pawn) && b.en_passant_target != 0)
    }
}

/// The piece a capture on the ending square takes, and its colour.
proof fn lemma_plain_capture(b: BoardModel, m: MoveRep)
    requires
        delta_law_ok(b, m),
        !is_castle(m),
    ensures
        b.piece_and_color_at(m.ending_square) == match m.attacked_type {
            Some(t) => Some((t, !b.white_to_move)),
            None => None,
        },
{
    let w = b.white_to_move;
    let e = m.ending_square;
    assert(b.captured_square(m) == e);
    assert(e != 0);
    assert(b.bb(w, PieceType::Pawn) & e == 0);
    assert(b.bb(w, PieceType::Knight) & e == 0);
    assert(b.bb(w, PieceType::Bishop) & e == 0);
    assert(b.bb(w, PieceType::Rook) & e == 0);
    assert(b.bb(w, PieceType::Queen) & e == 0);
    assert(b.bb(w, PieceType::King) & e == 0);
    assert(b.opponent_bb(PieceType::Pawn) & e == (if m.attacked_type == Some(PieceType::Pawn) { e } else { 0 }));
    assert(b.opponent_bb(PieceType::Knight) & e == (if m.attacked_type == Some(PieceType::Knight) { e } else { 0 }));
    assert(b.opponent_bb(PieceType::Bishop) & e == (if m.attacked_type == Some(PieceType::Bishop) { e } else { 0 }));
    assert(b.opponent_bb(PieceType::Rook) & e == (if m.attacked_type == Some(PieceType::Rook) { e } else { 0 }));
    assert(b.opponent_bb(PieceType::Queen) & e == (if m.attacked_type == Some(PieceType::Queen) { e } else { 0 }));
    assert(b.opponent_bb(PieceType::King) & e == (if m.attacked_type == Some(PieceType::King) { e } else { 0 }));
}

/// The law for a move other than castling.
proof fn lemma_delta_plain(b: BoardModel, m: MoveRep)
    requires
        delta_law_ok(b, m),
        !is_castle(m),
    ensures
        delta_spec(b, m) == -(piece_square_spec(b) + piece_square_spec(make_spec(b, m))),
{
    let w = b.white_to_move;
    let s = m.starting_square;
    let e = m.ending_square;
    let a = make_spec(b, m);
    lemma_make_plain_bitboards(b, m, PieceType::Pawn);
    lemma_plain_type(b, m, PieceType::Pawn);
    lemma_plain_type(b, m, PieceType::Knight);
    lemma_plain_type(b, m, PieceType::Bishop);
    lemma_plain_type(b, m, PieceType::Rook);
    lemma_plain_type(b, m, PieceType::Queen);
    lemma_plain_type(b, m, PieceType::King);
    lemma_plain_capture(b, m);
    let p = m.moved_type;
    let q = BoardModel::placed_piece(m).unwrap();
    assert(BoardModel::placed_piece(m) == Some(q));
    assert(colour_score(a, w) - colour_score(b, w) == -table_value(p, map_index(w, lsb(s)))
        + table_value(q, map_index(w, lsb(e))));
    let taken = match m.attacked_type {
        Some(t) => table_value(t, map_index(!w, lsb(e))),
        None => 0,
    };
    assert(colour_score(a, !w) - colour_score(b, !w) == -taken);
    assert(piece_square_spec(b) == colour_score(b, w) - colour_score(b, !w));
    assert(piece_square_spec(a) == colour_score(a, !w) - colour_score(a, w));
}

/// The law for a castling move.
proof fn lemma_delta_castle(b: BoardModel, m: MoveRep)
    requires
        delta_law_ok(b, m),
        is_castle(m),
    ensures
        delta_spec(b, m) == -(piece_square_spec(b) + piece_square_spec(make_spec(b, m))),
{
    let w = b.white_to_move;
    let a = make_spec(b, m);
    lemma_make_castle_bitboards(b, m, PieceType::Pawn);
    lemma_castle_type(b, m, PieceType::Pawn);
    lemma_castle_type(b, m, PieceType::Knight);
    lemma_castle_type(b, m, PieceType::Bishop);
    lemma_castle_type(b, m, PieceType::Rook);
    lemma_castle_type(b, m, PieceType::Queen);
    lemma_castle_type(b, m, PieceType::King);
    lemma_lsb_of_square(Tables::H1 as int);
    lemma_lsb_of_square(Tables::F1 as int);
    lemma_lsb_of_square(Tables::A1 as int);
    lemma_lsb_of_square(Tables::D1 as int);
    lemma_lsb_of_square(Tables::H8 as int);
    lemma_lsb_of_square(Tables::F8 as int);
    lemma_lsb_of_square(Tables::A8 as int);
    lemma_lsb_of_square(Tables::D8 as int);
    assert(colour_score(a, !w) == colour_score(b, !w));
    assert(piece_square_spec(b) == colour_score(b, w) - colour_score(b, !w));
    assert(piece_square_spec(a) == colour_score(a, !w) - colour_score(a, w));
}

/// The change a move makes to its mover's piece-square score is what the
/// scores before and after the move give: the score of the board after the
/// move (from the other side's view) added to the score before is the
/// negated change.
pub proof fn lemma_delta_matches_scores(b: BoardModel, m: MoveRep)
    requires
        delta_law_ok(b, m),
    ensures
        delta_ok(b, m),
        delta_spec(b, m) == -(piece_square_spec(b) + piece_square_spec(make_spec(b, m))),
{
    if is_castle(m) {
        lemma_delta_castle(b, m);
    } else {
        lemma_delta_plain(b, m);
    }
}

} // verus!
