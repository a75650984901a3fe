//! The board: twelve bitboards plus the side to move, castling rights, the
//! en passant target, the move counters and a stack of the state that a move
//! cannot give back by itself.

use vstd::prelude::*;
use crate::tables::Tables;

verus! {

/// The piece a pawn becomes; `Castle` marks a castling move instead.
#[derive(Copy, Clone, Debug, PartialEq, Eq, Structural)]
pub enum Promotion {
    Queen,
    Bishop,
    Rook,
    Knight,
    Castle,
}

/// Tells the move maker which bitboard to manipulate.
#[derive(Copy, Clone, Debug, PartialEq, Eq, Structural)]
pub enum PieceType {
    Pawn,
    Knight,
    Bishop,
    Rook,
    Queen,
    King,
}

/// A move: one-square masks for where the piece starts and ends, an optional
/// promotion (or the castling marker), the moving piece and the captured one.
#[derive(Debug, PartialEq, Eq, Clone, Copy)]
pub struct MoveRep {
    pub starting_square: u64,
    pub ending_square: u64,
    pub promotion: Option<Promotion>,
    pub moved_type: PieceType,
    pub attacked_type: Option<PieceType>,
}

impl MoveRep {
    pub fn new(
        starting_square: u64,
        ending_square: u64,
        promotion: Option<Promotion>,
        piece_hint: PieceType,
        attacked_type: Option<PieceType>,
    ) -> (r: MoveRep)
        ensures
            r == (MoveRep {
                starting_square,
                ending_square,
                promotion,
                moved_type: piece_hint,
                attacked_type,
            }),
    {
        MoveRep { starting_square, ending_square, promotion, moved_type: piece_hint, attacked_type }
    }
}

/// The part of the board state that unmaking a move cannot recover.
#[derive(Copy, Clone, Debug, PartialEq, Eq)]
pub struct MoveStackFrame {
    en_passant_target: u64,
    reversable_move_counter: u8,
    fullmove_counter: u16,
    white_queenside_castle_rights: bool,
    white_kingside_castle_rights: bool,
    black_queenside_castle_rights: bool,
    black_kingside_castle_rights: bool,
}

#[derive(Clone, Debug, PartialEq, Eq)]
pub struct BoardState {
    pub white_pawns: u64,
    pub white_knights: u64,
    pub white_rooks: u64,
    pub white_bishops: u64,
    pub white_queens: u64,
    pub white_king: u64,
    pub white_queenside_castle_rights: bool,
    pub white_kingside_castle_rights: bool,
    pub black_pawns: u64,
    pub black_knights: u64,
    pub black_rooks: u64,
    pub black_bishops: u64,
    pub black_queens: u64,
    pub black_king: u64,
    pub black_queenside_castle_rights: bool,
    pub black_kingside_castle_rights: bool,
    pub white_to_move: bool,
    pub en_passant_target: u64,
    pub reversable_move_counter: u8,
    pub full_move_counter: u16,
    pub move_stack: Vec<MoveStackFrame>,
    pub move_stack_pointer: usize,
}

/// The mathematical value of a board: its fields, with the move stack as a
/// sequence of frames.
#[verifier::ext_equal]
pub struct BoardModel {
    pub white_pawns: u64,
    pub white_knights: u64,
    pub white_rooks: u64,
    pub white_bishops: u64,
    pub white_queens: u64,
    pub white_king: u64,
    pub white_queenside_castle_rights: bool,
    pub white_kingside_castle_rights: bool,
    pub black_pawns: u64,
    pub black_knights: u64,
    pub black_rooks: u64,
    pub black_bishops: u64,
    pub black_queens: u64,
    pub black_king: u64,
    pub black_queenside_castle_rights: bool,
    pub black_kingside_castle_rights: bool,
    pub white_to_move: bool,
    pub en_passant_target: u64,
    pub reversable_move_counter: u8,
    pub full_move_counter: u16,
    pub move_stack: Seq<MoveStackFrame>,
    pub move_stack_pointer: usize,
}

impl View for BoardState {
    type V = BoardModel;

    open spec fn view(&self) -> BoardModel {
        BoardModel {
            white_pawns: self.white_pawns,
            white_knights: self.white_knights,
            white_rooks: self.white_rooks,
            white_bishops: self.white_bishops,
            white_queens: self.white_queens,
            white_king: self.white_king,
            white_queenside_castle_rights: self.white_queenside_castle_rights,
            white_kingside_castle_rights: self.white_kingside_castle_rights,
            black_pawns: self.black_pawns,
            black_knights: self.black_knights,
            black_rooks: self.black_rooks,
            black_bishops: self.black_bishops,
            black_queens: self.black_queens,
            black_king: self.black_king,
            black_queenside_castle_rights: self.black_queenside_castle_rights,
            black_kingside_castle_rights: self.black_kingside_castle_rights,
            white_to_move: self.white_to_move,
            en_passant_target: self.en_passant_target,
            reversable_move_counter: self.reversable_move_counter,
            full_move_counter: self.full_move_counter,
            move_stack: self.move_stack@,
            move_stack_pointer: self.move_stack_pointer,
        }
    }
}

/// The frame that records the irreversible part of a board.
pub closed spec fn frame_of(b: BoardModel) -> MoveStackFrame {
    MoveStackFrame {
        en_passant_target: b.en_passant_target,
        reversable_move_counter: b.reversable_move_counter,
        fullmove_counter: b.full_move_counter,
        white_queenside_castle_rights: b.white_queenside_castle_rights,
        white_kingside_castle_rights: b.white_kingside_castle_rights,
        black_queenside_castle_rights: b.black_queenside_castle_rights,
        black_kingside_castle_rights: b.black_kingside_castle_rights,
    }
}

impl BoardModel {
    /// The bitboard of one kind of piece of one colour.
    pub open spec fn bb(self, white: bool, p: PieceType) -> u64 {
        if white {
            match p {
                PieceType::Pawn => self.white_pawns,
                PieceType::Knight => self.white_knights,
                PieceType::Bishop => self.white_bishops,
                PieceType::Rook => self.white_rooks,
                PieceType::Queen => self.white_queens,
                PieceType::King => self.white_king,
            }
        } else {
            match p {
                PieceType::Pawn => self.black_pawns,
                PieceType::Knight => self.black_knights,
                PieceType::Bishop => self.black_bishops,
                PieceType::Rook => self.black_rooks,
                PieceType::Queen => self.black_queens,
                PieceType::King => self.black_king,
            }
        }
    }

    /// The bitboard of one kind of piece of the side not to move.
    pub open spec fn opponent_bb(self, p: PieceType) -> u64 {
        self.bb(!self.white_to_move, p)
    }

    /// This board with the bitboard of one kind of piece of one colour replaced.
    pub open spec fn with_bb(self, white: bool, p: PieceType, v: u64) -> BoardModel {
        if white {
            match p {
                PieceType::Pawn => BoardModel { white_pawns: v, ..self },
                PieceType::Knight => BoardModel { white_knights: v, ..self },
                PieceType::Bishop => BoardModel { white_bishops: v, ..self },
                PieceType::Rook => BoardModel { white_rooks: v, ..self },
                PieceType::Queen => BoardModel { white_queens: v, ..self },
                PieceType::King => BoardModel { white_king: v, ..self },
            }
        } else {
            match p {
                PieceType::Pawn => BoardModel { black_pawns: v, ..self },
                PieceType::Knight => BoardModel { black_knights: v, ..self },
                PieceType::Bishop => BoardModel { black_bishops: v, ..self },
                PieceType::Rook => BoardModel { black_rooks: v, ..self },
                PieceType::Queen => BoardModel { black_queens: v, ..self },
                PieceType::King => BoardModel { black_king: v, ..self },
            }
        }
    }

    /// Removes `mask` from the side to move's bitboard of `piece`.
    pub open spec fn clear_spec(self, mask: u64, piece: Option<PieceType>) -> BoardModel {
        match piece {
            Some(p) => self.with_bb(self.white_to_move, p, self.bb(self.white_to_move, p) & !mask),
            None => self,
        }
    }

    /// Adds `mask` to the side to move's bitboard of `piece`.
    pub open spec fn set_spec(self, mask: u64, piece: Option<PieceType>) -> BoardModel {
        match piece {
            Some(p) => self.with_bb(self.white_to_move, p, self.bb(self.white_to_move, p) | mask),
            None => self,
        }
    }

    /// Removes `mask` from all twelve bitboards.
    pub open spec fn clear_all_spec(self, m: u64) -> BoardModel {
        BoardModel {
            white_pawns: self.white_pawns & !m,
            white_knights: self.white_knights & !m,
            white_bishops: self.white_bishops & !m,
            white_rooks: self.white_rooks & !m,
            white_queens: self.white_queens & !m,
            white_king: self.white_king & !m,
            black_pawns: self.black_pawns & !m,
            black_knights: self.black_knights & !m,
            black_bishops: self.black_bishops & !m,
            black_rooks: self.black_rooks & !m,
            black_queens: self.black_queens & !m,
            black_king: self.black_king & !m,
            ..self
        }
    }

    /// Pushes the irreversible state onto the move stack.
    pub open spec fn push_spec(self) -> BoardModel {
        BoardModel {
            move_stack: self.move_stack.push(frame_of(self)),
            move_stack_pointer: (self.move_stack_pointer + 1) as usize,
            ..self
        }
    }

    /// Pops the irreversible state from the move stack.
    pub closed spec fn pop_spec(self) -> BoardModel {
        let f = self.move_stack.last();
        BoardModel {
            move_stack: self.move_stack.drop_last(),
            move_stack_pointer: (self.move_stack_pointer - 1) as usize,
            en_passant_target: f.en_passant_target,
            reversable_move_counter: f.reversable_move_counter,
            full_move_counter: f.fullmove_counter,
            white_queenside_castle_rights: f.white_queenside_castle_rights,
            white_kingside_castle_rights: f.white_kingside_castle_rights,
            black_queenside_castle_rights: f.black_queenside_castle_rights,
            black_kingside_castle_rights: f.black_kingside_castle_rights,
            ..self
        }
    }

    pub open spec fn white_occupancy(self) -> u64 {
        self.white_pawns | self.white_knights | self.white_bishops | self.white_rooks
            | self.white_queens | self.white_king
    }

    pub open spec fn black_occupancy(self) -> u64 {
        self.black_pawns | self.black_knights | self.black_bishops | self.black_rooks
            | self.black_queens | self.black_king
    }

    pub open spec fn occupancy(self) -> u64 {
        self.white_pawns | self.white_knights | self.white_bishops | self.white_rooks
            | self.white_queens | self.white_king | self.black_pawns | self.black_knights
            | self.black_bishops | self.black_rooks | self.black_queens | self.black_king
    }

    /// The kind of piece found under `mask`, looked up in the order pawn,
    /// knight, bishop, rook, queen, king, either colour.
    pub open spec fn piece_type_at(self, mask: u64) -> Option<PieceType> {
        if self.white_pawns & mask != 0 || self.black_pawns & mask != 0 {
            Some(PieceType::Pawn)
        } else if self.white_knights & mask != 0 || self.black_knights & mask != 0 {
            Some(PieceType::Knight)
        } else if self.white_bishops & mask != 0 || self.black_bishops & mask != 0 {
            Some(PieceType::Bishop)
        } else if self.white_rooks & mask != 0 || self.black_rooks & mask != 0 {
            Some(PieceType::Rook)
        } else if self.white_queens & mask != 0 || self.black_queens & mask != 0 {
            Some(PieceType::Queen)
        } else if self.white_king & mask != 0 || self.black_king & mask != 0 {
            Some(PieceType::King)
        } else {
            None
        }
    }

    /// The kind and colour (`true` for white) of the piece under `mask`,
    /// white looked up before black, each in the order pawn, knight, bishop,
    /// rook, queen, king.
    pub open spec fn piece_and_color_at(self, mask: u64) -> Option<(PieceType, bool)> {
        if self.white_pawns & mask != 0 {
            Some((PieceType::Pawn, true))
        } else if self.white_knights & mask != 0 {
            Some((PieceType::Knight, true))
        } else if self.white_bishops & mask != 0 {
            Some((PieceType::Bishop, true))
        } else if self.white_rooks & mask != 0 {
            Some((PieceType::Rook, true))
        } else if self.white_queens & mask != 0 {
            Some((PieceType::Queen, true))
        } else if self.white_king & mask != 0 {
            Some((PieceType::King, true))
        } else if self.black_pawns & mask != 0 {
            Some((PieceType::Pawn, false))
        } else if self.black_knights & mask != 0 {
            Some((PieceType::Knight, false))
        } else if self.black_bishops & mask != 0 {
            Some((PieceType::Bishop, false))
        } else if self.black_rooks & mask != 0 {
            Some((PieceType::Rook, false))
        } else if self.black_queens & mask != 0 {
            Some((PieceType::Queen, false))
        } else if self.black_king & mask != 0 {
            Some((PieceType::King, false))
        } else {
            None
        }
    }
}


/// Whether a move is flagged as castling.
pub open spec fn is_castle(m: MoveRep) -> bool {
    m.promotion == Some(Promotion::Castle)
}

/// The masks of the squares named by the board constants.
pub open spec fn g1() -> u64 { 1u64 << Tables::G1 }
pub open spec fn c1() -> u64 { 1u64 << Tables::C1 }
pub open spec fn g8() -> u64 { 1u64 << Tables::G8 }
pub open spec fn c8() -> u64 { 1u64 << Tables::C8 }
pub open spec fn a1() -> u64 { 1u64 << Tables::A1 }
pub open spec fn h1() -> u64 { 1u64 << Tables::H1 }
pub open spec fn a8() -> u64 { 1u64 << Tables::A8 }
pub open spec fn h8() -> u64 { 1u64 << Tables::H8 }
pub open spec fn d1() -> u64 { 1u64 << Tables::D1 }
pub open spec fn f1() -> u64 { 1u64 << Tables::F1 }
pub open spec fn d8() -> u64 { 1u64 << Tables::D8 }
pub open spec fn f8() -> u64 { 1u64 << Tables::F8 }

impl BoardModel {
    /// Moves king and rook for a castling move whose king lands on `e`.
    pub open spec fn castle_pieces_spec(self, s: u64, e: u64, rook_from: u64, rook_to: u64) -> BoardModel {
        self.clear_spec(s, Some(PieceType::King)).clear_spec(rook_from, Some(PieceType::Rook)).set_spec(
            e,
            Some(PieceType::King),
        ).set_spec(rook_to, Some(PieceType::Rook))
    }

    /// Puts king and rook back for a castling move whose king landed on `e`.
    pub open spec fn uncastle_pieces_spec(self, s: u64, e: u64, rook_from: u64, rook_to: u64) -> BoardModel {
        self.set_spec(s, Some(PieceType::King)).set_spec(rook_from, Some(PieceType::Rook)).clear_spec(
            e,
            Some(PieceType::King),
        ).clear_spec(rook_to, Some(PieceType::Rook))
    }

    pub open spec fn with_white_rights(self, q: bool, k: bool) -> BoardModel {
        BoardModel { white_queenside_castle_rights: q, white_kingside_castle_rights: k, ..self }
    }

    pub open spec fn with_black_rights(self, q: bool, k: bool) -> BoardModel {
        BoardModel { black_queenside_castle_rights: q, black_kingside_castle_rights: k, ..self }
    }

    pub open spec fn flip_side(self) -> BoardModel {
        BoardModel { white_to_move: !self.white_to_move, ..self }
    }

    /// Whether the move is an en passant capture on this board.
    pub open spec fn is_en_passant(self, m: MoveRep) -> bool {
        m.ending_square == self.en_passant_target && m.moved_type == PieceType::Pawn
    }

    /// The square whose piece the move captures (for en passant, the pawn
    /// behind the target square).
    pub open spec fn captured_square(self, m: MoveRep) -> u64 {
        if self.is_en_passant(m) {
            if self.white_to_move {
                m.ending_square >> 8u64
            } else {
                m.ending_square << 8u64
            }
        } else {
            m.ending_square
        }
    }

    /// Loses the castling right of a rook captured on its home corner.
    #[verifier::opaque]
    pub open spec fn corner_capture_rights(self, e: u64) -> BoardModel {
        if e == a1() && self.white_queenside_castle_rights {
            BoardModel { white_queenside_castle_rights: false, ..self }
        } else if e == h1() && self.white_kingside_castle_rights {
            BoardModel { white_kingside_castle_rights: false, ..self }
        } else if e == a8() && self.black_queenside_castle_rights {
            BoardModel { black_queenside_castle_rights: false, ..self }
        } else if e == h8() && self.black_kingside_castle_rights {
            BoardModel { black_kingside_castle_rights: false, ..self }
        } else {
            self
        }
    }

    /// Loses the castling right of a rook that leaves its home corner.
    #[verifier::opaque]
    pub open spec fn rook_move_rights(self, s: u64) -> BoardModel {
        let b1 = if self.white_queenside_castle_rights && s == a1() {
            BoardModel { white_queenside_castle_rights: false, ..self }
        } else {
            self
        };
        let b2 = if b1.white_kingside_castle_rights && s == h1() {
            BoardModel { white_kingside_castle_rights: false, ..b1 }
        } else {
            b1
        };
        let b3 = if b2.black_queenside_castle_rights && s == a8() {
            BoardModel { black_queenside_castle_rights: false, ..b2 }
        } else {
            b2
        };
        if b3.black_kingside_castle_rights && s == h8() {
            BoardModel { black_kingside_castle_rights: false, ..b3 }
        } else {
            b3
        }
    }

    /// The piece that stands on the ending square after the move.
    pub open spec fn placed_piece(m: MoveRep) -> Option<PieceType> {
        match m.promotion {
            Some(Promotion::Queen) => Some(PieceType::Queen),
            Some(Promotion::Rook) => Some(PieceType::Rook),
            Some(Promotion::Bishop) => Some(PieceType::Bishop),
            Some(Promotion::Knight) => Some(PieceType::Knight),
            Some(Promotion::Castle) => None,
            None => Some(m.moved_type),
        }
    }

    /// Whether the move is a pawn's double step from its home rank.
    pub open spec fn is_double_push(m: MoveRep) -> bool {
        m.moved_type == PieceType::Pawn && (m.starting_square & Tables::RANK_2 != 0
            && m.ending_square & Tables::RANK_4 != 0 || m.starting_square & Tables::RANK_7 != 0
            && m.ending_square & Tables::RANK_5 != 0)
    }
}

/// The board after `make` plays the move.
#[verifier::opaque]
pub open spec fn make_spec(b: BoardModel, m: MoveRep) -> BoardModel {
    let s = m.starting_square;
    let e = m.ending_square;
    if is_castle(m) {
        let b1 = BoardModel { en_passant_target: 0, ..b.push_spec() };
        if e == g1() {
            b1.castle_pieces_spec(s, e, h1(), f1()).with_white_rights(false, false).flip_side()
        } else if e == c1() {
            b1.castle_pieces_spec(s, e, a1(), d1()).with_white_rights(false, false).flip_side()
        } else if e == g8() {
            b1.castle_pieces_spec(s, e, h8(), f8()).with_black_rights(false, false).flip_side()
        } else if e == c8() {
            b1.castle_pieces_spec(s, e, a8(), d8()).with_black_rights(false, false).flip_side()
        } else {
            b1
        }
    } else {
        let b1 = b.push_spec().clear_spec(s, Some(m.moved_type));
        let b2 = if b1.is_en_passant(m) {
            b1.clear_all_spec(b1.captured_square(m))
        } else {
            b1.clear_all_spec(e).corner_capture_rights(e)
        };
        let b3 = b2.set_spec(e, BoardModel::placed_piece(m));
        let b4 = if m.moved_type == PieceType::Rook {
            b3.rook_move_rights(s)
        } else {
            b3
        };
        let b5 = if m.moved_type == PieceType::King && m.promotion.is_none() {
            if b4.white_to_move {
                b4.with_white_rights(false, false)
            } else {
                b4.with_black_rights(false, false)
            }
        } else {
            b4
        };
        let ep = if BoardModel::is_double_push(m) {
            if b5.white_to_move {
                s << 8u64
            } else {
                s >> 8u64
            }
        } else {
            0
        };
        BoardModel { en_passant_target: ep, ..b5 }.flip_side()
    }
}

/// The board after `unmake` takes back a castling move.
pub open spec fn unmake_castle_spec(b: BoardModel, m: MoveRep) -> BoardModel {
    let s = m.starting_square;
    let e = m.ending_square;
    let b1 = b.pop_spec().flip_side();
    if e == g1() {
        b1.uncastle_pieces_spec(s, e, h1(), f1())
    } else if e == c1() {
        b1.uncastle_pieces_spec(s, e, a1(), d1())
    } else if e == g8() {
        b1.uncastle_pieces_spec(s, e, h8(), f8())
    } else if e == c8() {
        b1.uncastle_pieces_spec(s, e, a8(), d8())
    } else {
        b1
    }
}

/// The board after `unmake` takes back a move other than castling.
pub open spec fn unmake_plain_spec(b: BoardModel, m: MoveRep) -> BoardModel {
    let s = m.starting_square;
    let e = m.ending_square;
    let b0 = b.pop_spec();
    let cap = if b0.is_en_passant(m) {
        if !b0.white_to_move {
            e >> 8u64
        } else {
            e << 8u64
        }
    } else {
        e
    };
    let b1 = b0.set_spec(cap, m.attacked_type).flip_side();
    b1.clear_spec(e, BoardModel::placed_piece(m)).set_spec(s, Some(m.moved_type))
}

/// The board after `unmake` takes the move back.
#[verifier::opaque]
pub open spec fn unmake_spec(b: BoardModel, m: MoveRep) -> BoardModel {
    if is_castle(m) {
        unmake_castle_spec(b, m)
    } else {
        unmake_plain_spec(b, m)
    }
}


/// When taking back a castling move restores the board: the king lands on
/// one of the four castling squares, king and rook stand on their squares,
/// and the squares they move to hold no king or rook of that colour (the
/// castling rights come back from the move stack).
pub open spec fn castle_undo_ok(b: BoardModel, m: MoveRep) -> bool {
    let w = b.white_to_move;
    let s = m.starting_square;
    let e = m.ending_square;
    let king = b.bb(w, PieceType::King);
    let rook = b.bb(w, PieceType::Rook);
    let (rook_from, rook_to) = if e == g1() {
        (h1(), f1())
    } else if e == c1() {
        (a1(), d1())
    } else if e == g8() {
        (h8(), f8())
    } else {
        (a8(), d8())
    };
    &&& (e == g1() || e == c1() || e == g8() || e == c8())
    &&& king & s == s
    &&& king & e == 0
    &&& rook & rook_from == rook_from
    &&& rook & rook_to == 0
}

/// When taking back any other move restores the board: the moving piece
/// stands on the starting square, no piece of the side to move stands on the
/// ending square or the captured square, and the opponent's pieces on the
/// captured square are exactly the captured piece named by the move.
pub open spec fn plain_undo_ok(b: BoardModel, m: MoveRep) -> bool {
    let w = b.white_to_move;
    let s = m.starting_square;
    let e = m.ending_square;
    let cap = b.captured_square(m);
    &&& b.bb(w, m.moved_type) & s == s
    &&& forall|t: PieceType| #[trigger] b.bb(w, t) & e == 0 && b.bb(w, t) & cap == 0
    &&& forall|t: PieceType|
        if m.attacked_type == Some(t) {
            #[trigger] b.opponent_bb(t) & cap == cap
        } else {
            b.opponent_bb(t) & cap == 0
        }
}

/// When `unmake` gives back exactly the board that `make` was played on.
pub open spec fn make_undo_ok(b: BoardModel, m: MoveRep) -> bool {
    &&& b.move_stack_pointer < usize::MAX
    &&& if is_castle(m) {
        castle_undo_ok(b, m)
    } else {
        plain_undo_ok(b, m)
    }
}

proof fn lemma_mover_bits(x: u64, s: u64, e: u64, cap: u64)
    requires
        x & e == 0,
        x & cap == 0,
    ensures
        x & !cap == x,
        ((x & !cap) | e) & !e == x,
        (x & s == s) ==> ((x & !s) & !cap) | s == x,
        (x & s == s) ==> ((((x & !s) & !cap) | e) & !e) | s == x,
{
    assert(x & cap == 0 ==> x & !cap == x) by (bit_vector);
    assert(x & e == 0 && x & cap == 0 ==> ((x & !cap) | e) & !e == x) by (bit_vector);
    assert(x & cap == 0 && x & s == s ==> ((x & !s) & !cap) | s == x) by (bit_vector);
    assert(x & e == 0 && x & cap == 0 && x & s == s ==> ((((x & !s) & !cap) | e) & !e) | s == x)
        by (bit_vector);
}

proof fn lemma_opponent_bits(y: u64, cap: u64)
    ensures
        (y & cap == cap) ==> (y & !cap) | cap == y,
        (y & cap == 0) ==> y & !cap == y,
{
    assert((y & cap == cap) ==> (y & !cap) | cap == y) by (bit_vector);
    assert((y & cap == 0) ==> y & !cap == y) by (bit_vector);
}

proof fn lemma_castle_bits(k: u64, s: u64, e: u64)
    ensures
        (k & s == s && k & e == 0) ==> (((k & !s) | e) | s) & !e == k,
{
    assert((k & s == s && k & e == 0) ==> (((k & !s) | e) | s) & !e == k) by (bit_vector);
}

proof fn lemma_castle_roundtrip(b: BoardModel, m: MoveRep)
    requires
        make_undo_ok(b, m),
        is_castle(m),
    ensures
        unmake_spec(make_spec(b, m), m) == b,
{
    let w = b.white_to_move;
    let s = m.starting_square;
    let e = m.ending_square;
    let king = b.bb(w, PieceType::King);
    let rook = b.bb(w, PieceType::Rook);
    reveal(make_spec);
    reveal(unmake_spec);
    lemma_castle_bits(king, s, e);
    lemma_castle_bits(rook, h1(), f1());
    lemma_castle_bits(rook, a1(), d1());
    lemma_castle_bits(rook, h8(), f8());
    lemma_castle_bits(rook, a8(), d8());
    assert(b.push_spec().pop_spec() =~= b);
    assert(unmake_spec(make_spec(b, m), m) =~= b);
}

/// Two boards that differ at most in their castling rights.
pub open spec fn same_but_rights(a: BoardModel, b: BoardModel) -> bool {
    a == BoardModel {
        white_queenside_castle_rights: a.white_queenside_castle_rights,
        white_kingside_castle_rights: a.white_kingside_castle_rights,
        black_queenside_castle_rights: a.black_queenside_castle_rights,
        black_kingside_castle_rights: a.black_kingside_castle_rights,
        ..b
    }
}

proof fn lemma_rights_only(b: BoardModel, sq: u64)
    ensures
        same_but_rights(b.corner_capture_rights(sq), b),
        same_but_rights(b.rook_move_rights(sq), b),
{
    reveal(BoardModel::corner_capture_rights);
    reveal(BoardModel::rook_move_rights);
    assert(same_but_rights(b.corner_capture_rights(sq), b));
    assert(same_but_rights(b.rook_move_rights(sq), b));
}

proof fn lemma_plain_piece_facts(b: BoardModel, m: MoveRep, t: PieceType)
    requires
        make_undo_ok(b, m),
        !is_castle(m),
    ensures
        ({
            let w = b.white_to_move;
            let s = m.starting_square;
            let e = m.ending_square;
            let cap = b.captured_square(m);
            let x = b.bb(w, t);
            let y = b.bb(!w, t);
            &&& x & !cap == x
            &&& ((x & !cap) | e) & !e == x
            &&& (t == m.moved_type) ==> ((x & !s) & !cap) | s == x
            &&& (t == m.moved_type) ==> ((((x & !s) & !cap) | e) & !e) | s == x
            &&& (m.attacked_type == Some(t)) ==> (y & !cap) | cap == y
            &&& (m.attacked_type != Some(t)) ==> y & !cap == y
        }),
{
    let w = b.white_to_move;
    let cap = b.captured_square(m);
    assert(b.bb(w, t) & m.ending_square == 0 && b.bb(w, t) & cap == 0);
    assert(b.opponent_bb(t) == b.bb(!w, t));
    lemma_mover_bits(b.bb(w, t), m.starting_square, m.ending_square, cap);
    lemma_opponent_bits(b.bb(!w, t), cap);
}

/// The twelve bitboards, the side to move and the move stack of two boards agree.
pub open spec fn same_pieces(a: BoardModel, b: BoardModel) -> bool {
    &&& a.white_pawns == b.white_pawns
    &&& a.white_knights == b.white_knights
    &&& a.white_bishops == b.white_bishops
    &&& a.white_rooks == b.white_rooks
    &&& a.white_queens == b.white_queens
    &&& a.white_king == b.white_king
    &&& a.black_pawns == b.black_pawns
    &&& a.black_knights == b.black_knights
    &&& a.black_bishops == b.black_bishops
    &&& a.black_rooks == b.black_rooks
    &&& a.black_queens == b.black_queens
    &&& a.black_king == b.black_king
    &&& a.white_to_move == b.white_to_move
    &&& a.move_stack == b.move_stack
    &&& a.move_stack_pointer == b.move_stack_pointer
}

proof fn lemma_make_plain_pieces(b: BoardModel, m: MoveRep)
    requires
        !is_castle(m),
    ensures
        ({
            let s = m.starting_square;
            let e = m.ending_square;
            let b1 = b.push_spec().clear_spec(s, Some(m.moved_type));
            let b2 = b1.clear_all_spec(b1.captured_square(m));
            let b3 = b2.set_spec(e, BoardModel::placed_piece(m));
            same_pieces(make_spec(b, m), b3.flip_side())
        }),
{
    reveal(make_spec);
    let s = m.starting_square;
    let e = m.ending_square;
    let b1 = b.push_spec().clear_spec(s, Some(m.moved_type));
    let c = b1.clear_all_spec(e);
    lemma_rights_only(c, e);
    let b2 = if b1.is_en_passant(m) {
        b1.clear_all_spec(b1.captured_square(m))
    } else {
        c.corner_capture_rights(e)
    };
    assert(same_pieces(b2, b1.clear_all_spec(b1.captured_square(m))));
    let b3 = b2.set_spec(e, BoardModel::placed_piece(m));
    lemma_rights_only(b3, s);
    let b4 = if m.moved_type == PieceType::Rook {
        b3.rook_move_rights(s)
    } else {
        b3
    };
    assert(same_pieces(b4, b3));
    let b3x = b1.clear_all_spec(b1.captured_square(m)).set_spec(e, BoardModel::placed_piece(m));
    assert(same_pieces(b3, b3x));
}

proof fn lemma_bb_updates(x: BoardModel, mask: u64, p: Option<PieceType>, c: bool, t: PieceType)
    ensures
        x.set_spec(mask, p).bb(c, t) == (if p == Some(t) && c == x.white_to_move {
            x.bb(c, t) | mask
        } else {
            x.bb(c, t)
        }),
        x.clear_spec(mask, p).bb(c, t) == (if p == Some(t) && c == x.white_to_move {
            x.bb(c, t) & !mask
        } else {
            x.bb(c, t)
        }),
        x.clear_all_spec(mask).bb(c, t) == x.bb(c, t) & !mask,
        x.flip_side().bb(c, t) == x.bb(c, t),
        x.push_spec().bb(c, t) == x.bb(c, t),
        x.pop_spec().bb(c, t) == x.bb(c, t),
        x.set_spec(mask, p).white_to_move == x.white_to_move,
        x.clear_spec(mask, p).white_to_move == x.white_to_move,
        x.clear_all_spec(mask).white_to_move == x.white_to_move,
        x.push_spec().white_to_move == x.white_to_move,
        x.pop_spec().white_to_move == x.white_to_move,
{
}

proof fn lemma_plain_roundtrip_bb(b: BoardModel, m: MoveRep, c: bool, t: PieceType)
    requires
        make_undo_ok(b, m),
        !is_castle(m),
    ensures
        unmake_plain_spec(make_spec(b, m), m).bb(c, t) == b.bb(c, t),
{
    lemma_plain_piece_facts(b, m, t);
    lemma_make_plain_pieces(b, m);
    let w = b.white_to_move;
    let s = m.starting_square;
    let e = m.ending_square;
    let cap = b.captured_square(m);
    let p0 = b.push_spec();
    let b1 = p0.clear_spec(s, Some(m.moved_type));
    let b2 = b1.clear_all_spec(b1.captured_square(m));
    let b3 = b2.set_spec(e, BoardModel::placed_piece(m));
    let bm = make_spec(b, m);
    lemma_bb_updates(b, s, Some(m.moved_type), c, t);
    lemma_bb_updates(p0, s, Some(m.moved_type), c, t);
    lemma_bb_updates(b1, cap, None, c, t);
    lemma_bb_updates(b2, e, BoardModel::placed_piece(m), c, t);
    lemma_bb_updates(b3, e, None, c, t);
    assert(p0.en_passant_target == b.en_passant_target);
    assert(b1.en_passant_target == b.en_passant_target);
    assert(b1.captured_square(m) == cap);
    assert(bm.bb(c, t) == b3.bb(c, t));
    assert(bm.white_to_move == !w);
    assert(b.push_spec().pop_spec() =~= b);
    let u0 = bm.pop_spec();
    assert(u0.en_passant_target == b.en_passant_target);
    assert(u0.white_to_move == !w);
    lemma_bb_updates(bm, cap, None, c, t);
    let u1 = u0.set_spec(cap, m.attacked_type);
    lemma_bb_updates(u0, cap, m.attacked_type, c, t);
    let u2 = u1.flip_side();
    lemma_bb_updates(u1, cap, None, c, t);
    let u3 = u2.clear_spec(e, BoardModel::placed_piece(m));
    lemma_bb_updates(u2, e, BoardModel::placed_piece(m), c, t);
    lemma_bb_updates(u3, s, Some(m.moved_type), c, t);
    assert(unmake_plain_spec(bm, m) == u3.set_spec(s, Some(m.moved_type)));
}

/// Everything but the twelve bitboards of two boards agrees.
pub open spec fn same_non_pieces(a: BoardModel, b: BoardModel) -> bool {
    &&& a.white_queenside_castle_rights == b.white_queenside_castle_rights
    &&& a.white_kingside_castle_rights == b.white_kingside_castle_rights
    &&& a.black_queenside_castle_rights == b.black_queenside_castle_rights
    &&& a.black_kingside_castle_rights == b.black_kingside_castle_rights
    &&& a.white_to_move == b.white_to_move
    &&& a.en_passant_target == b.en_passant_target
    &&& a.reversable_move_counter == b.reversable_move_counter
    &&& a.full_move_counter == b.full_move_counter
    &&& a.move_stack == b.move_stack
    &&& a.move_stack_pointer == b.move_stack_pointer
}

proof fn lemma_other_fields(x: BoardModel, mask: u64, p: Option<PieceType>)
    ensures
        same_non_pieces(x.set_spec(mask, p), x),
        same_non_pieces(x.clear_spec(mask, p), x),
{
}

proof fn lemma_model_eq(a: BoardModel, b: BoardModel)
    requires
        forall|c: bool, t: PieceType| #[trigger] a.bb(c, t) == b.bb(c, t),
        a.white_queenside_castle_rights == b.white_queenside_castle_rights,
        a.white_kingside_castle_rights == b.white_kingside_castle_rights,
        a.black_queenside_castle_rights == b.black_queenside_castle_rights,
        a.black_kingside_castle_rights == b.black_kingside_castle_rights,
        a.white_to_move == b.white_to_move,
        a.en_passant_target == b.en_passant_target,
        a.reversable_move_counter == b.reversable_move_counter,
        a.full_move_counter == b.full_move_counter,
        a.move_stack == b.move_stack,
        a.move_stack_pointer == b.move_stack_pointer,
    ensures
        a == b,
{
    assert(a.bb(true, PieceType::Pawn) == b.bb(true, PieceType::Pawn));
    assert(a.bb(true, PieceType::Knight) == b.bb(true, PieceType::Knight));
    assert(a.bb(true, PieceType::Bishop) == b.bb(true, PieceType::Bishop));
    assert(a.bb(true, PieceType::Rook) == b.bb(true, PieceType::Rook));
    assert(a.bb(true, PieceType::Queen) == b.bb(true, PieceType::Queen));
    assert(a.bb(true, PieceType::King) == b.bb(true, PieceType::King));
    assert(a.bb(false, PieceType::Pawn) == b.bb(false, PieceType::Pawn));
    assert(a.bb(false, PieceType::Knight) == b.bb(false, PieceType::Knight));
    assert(a.bb(false, PieceType::Bishop) == b.bb(false, PieceType::Bishop));
    assert(a.bb(false, PieceType::Rook) == b.bb(false, PieceType::Rook));
    assert(a.bb(false, PieceType::Queen) == b.bb(false, PieceType::Queen));
    assert(a.bb(false, PieceType::King) == b.bb(false, PieceType::King));
    assert(a =~= b);
}

proof fn lemma_plain_roundtrip(b: BoardModel, m: MoveRep)
    requires
        make_undo_ok(b, m),
        !is_castle(m),
    ensures
        unmake_spec(make_spec(b, m), m) == b,
{
    let bm = make_spec(b, m);
    let u = unmake_plain_spec(bm, m);
    assert forall|c: bool, t: PieceType| #[trigger] u.bb(c, t) == b.bb(c, t) by {
        lemma_plain_roundtrip_bb(b, m, c, t);
    }
    lemma_make_plain_pieces(b, m);
    assert(b.push_spec().pop_spec() =~= b);
    assert(bm.move_stack == b.push_spec().move_stack);
    assert(bm.move_stack_pointer == b.push_spec().move_stack_pointer);
    assert(bm.white_to_move == !b.white_to_move) by {
        let s = m.starting_square;
        let e = m.ending_square;
        let b1 = b.push_spec().clear_spec(s, Some(m.moved_type));
        let b2 = b1.clear_all_spec(b1.captured_square(m));
        let b3 = b2.set_spec(e, BoardModel::placed_piece(m));
        lemma_bb_updates(b, s, None, true, PieceType::Pawn);
        lemma_bb_updates(b.push_spec(), s, Some(m.moved_type), true, PieceType::Pawn);
        lemma_bb_updates(b1, s, None, true, PieceType::Pawn);
        lemma_bb_updates(b2, e, BoardModel::placed_piece(m), true, PieceType::Pawn);
    }
    let u0 = bm.pop_spec();
    assert(u0.move_stack =~= b.move_stack);
    let u1 = u0.set_spec(m.ending_square, m.attacked_type);
    let u1x = u0.set_spec(m.ending_square >> 8u64, m.attacked_type);
    let u1y = u0.set_spec(m.ending_square << 8u64, m.attacked_type);
    lemma_other_fields(u0, m.ending_square, m.attacked_type);
    lemma_other_fields(u0, m.ending_square >> 8u64, m.attacked_type);
    lemma_other_fields(u0, m.ending_square << 8u64, m.attacked_type);
    lemma_other_fields(u1.flip_side(), m.ending_square, BoardModel::placed_piece(m));
    lemma_other_fields(u1x.flip_side(), m.ending_square, BoardModel::placed_piece(m));
    lemma_other_fields(u1y.flip_side(), m.ending_square, BoardModel::placed_piece(m));
    lemma_other_fields(u1.flip_side().clear_spec(m.ending_square, BoardModel::placed_piece(m)), m.starting_square, Some(m.moved_type));
    lemma_other_fields(u1x.flip_side().clear_spec(m.ending_square, BoardModel::placed_piece(m)), m.starting_square, Some(m.moved_type));
    lemma_other_fields(u1y.flip_side().clear_spec(m.ending_square, BoardModel::placed_piece(m)), m.starting_square, Some(m.moved_type));
    lemma_model_eq(u, b);
    assert(unmake_spec(bm, m) == u) by {
        reveal(unmake_spec);
    }
}

/// Taking a move back with `unmake` restores the board it was played on with
/// `make`, whenever `make_undo_ok` holds: the moving piece stands on its
/// starting square, the captured piece named by the move is the one on the
/// captured square, and, for castling, king and rook stand on their squares
/// (the castling rights come back from the move stack).
pub proof fn lemma_unmake_undoes_make(b: BoardModel, m: MoveRep)
    requires
        make_undo_ok(b, m),
    ensures
        unmake_spec(make_spec(b, m), m) == b,
{
    if is_castle(m) {
        lemma_castle_roundtrip(b, m);
    } else {
        lemma_plain_roundtrip(b, m);
    }
}

/// The rook's squares of a castling move whose king lands on `e`: where it
/// starts and where it lands.
pub open spec fn castle_rook_squares(e: u64) -> (u64, u64) {
    if e == g1() {
        (h1(), f1())
    } else if e == c1() {
        (a1(), d1())
    } else if e == g8() {
        (h8(), f8())
    } else {
        (a8(), d8())
    }
}

/// The bitboards after a move other than castling or en passant: the moving
/// piece leaves the starting square, every piece leaves the ending square,
/// the placed piece lands there, and the other side is to move.
pub proof fn lemma_make_plain_bitboards(b: BoardModel, m: MoveRep, x: PieceType)
    requires
        !is_castle(m),
        !b.is_en_passant(m),
    ensures
        ({
            let w = b.white_to_move;
            let s = m.starting_square;
            let e = m.ending_square;
            let a = make_spec(b, m);
            let moved = if x == m.moved_type {
                b.bb(w, x) & !s
            } else {
                b.bb(w, x)
            };
            &&& a.white_to_move == !w
            &&& a.bb(w, x) == (if BoardModel::placed_piece(m) == Some(x) {
                (moved & !e) | e
            } else {
                moved & !e
            })
            &&& a.bb(!w, x) == b.bb(!w, x) & !e
        }),
{
    reveal(make_spec);
    let s = m.starting_square;
    let e = m.ending_square;
    let b1 = b.push_spec().clear_spec(s, Some(m.moved_type));
    lemma_rights_only(b1.clear_all_spec(e), e);
    let b2 = b1.clear_all_spec(e).corner_capture_rights(e);
    let b3 = b2.set_spec(e, BoardModel::placed_piece(m));
    lemma_rights_only(b3, s);
}

/// The bitboards after an en passant capture: the pawn leaves the starting
/// square, every piece leaves the captured square, the pawn lands on the
/// ending square, and the other side is to move.
pub proof fn lemma_make_en_passant_bitboards(b: BoardModel, m: MoveRep, x: PieceType)
    requires
        !is_castle(m),
        b.is_en_passant(m),
    ensures
        ({
            let w = b.white_to_move;
            let s = m.starting_square;
            let e = m.ending_square;
            let cap = b.captured_square(m);
            let a = make_spec(b, m);
            let moved = if x == m.moved_type {
                b.bb(w, x) & !s
            } else {
                b.bb(w, x)
            };
            &&& a.white_to_move == !w
            &&& a.bb(w, x) == (if BoardModel::placed_piece(m) == Some(x) {
                (moved & !cap) | e
            } else {
                moved & !cap
            })
            &&& a.bb(!w, x) == b.bb(!w, x) & !cap
        }),
{
    reveal(make_spec);
    let s = m.starting_square;
    let e = m.ending_square;
    let b1 = b.push_spec().clear_spec(s, Some(m.moved_type));
    let b2 = b1.clear_all_spec(b1.captured_square(m));
    let b3 = b2.set_spec(e, BoardModel::placed_piece(m));
    lemma_rights_only(b3, s);
}

/// The bitboards after a castling move: the king goes from the starting
/// square to the ending square, the rook from its corner to its square
/// beside the king, and the other side is to move.
pub proof fn lemma_make_castle_bitboards(b: BoardModel, m: MoveRep, x: PieceType)
    requires
        is_castle(m),
        m.ending_square == g1() || m.ending_square == c1() || m.ending_square == g8()
            || m.ending_square == c8(),
    ensures
        ({
            let w = b.white_to_move;
            let s = m.starting_square;
            let e = m.ending_square;
            let (rook_from, rook_to) = castle_rook_squares(e);
            let a = make_spec(b, m);
            &&& a.white_to_move == !w
            &&& a.bb(w, x) == (if x == PieceType::King {
                (b.bb(w, x) & !s) | e
            } else if x == PieceType::Rook {
                (b.bb(w, x) & !rook_from) | rook_to
            } else {
                b.bb(w, x)
            })
            &&& a.bb(!w, x) == b.bb(!w, x)
        }),
{
    reveal(make_spec);
}

/// Making a move pushes one frame; taking one back pops one.
pub proof fn lemma_make_stack(b: BoardModel, m: MoveRep)
    ensures
        b.move_stack_pointer < usize::MAX ==> make_spec(b, m).move_stack_pointer
            == b.move_stack_pointer + 1,
        make_spec(b, m).move_stack.len() == b.move_stack.len() + 1,
        b.move_stack_pointer > 0 ==> unmake_spec(b, m).move_stack_pointer == b.move_stack_pointer
            - 1,
        b.move_stack.len() > 0 ==> unmake_spec(b, m).move_stack.len() == b.move_stack.len() - 1,
{
    reveal(make_spec);
    reveal(unmake_spec);
    let s = m.starting_square;
    let e = m.ending_square;
    if !is_castle(m) {
        let b1 = b.push_spec().clear_spec(s, Some(m.moved_type));
        let b2 = if b1.is_en_passant(m) {
            b1.clear_all_spec(b1.captured_square(m))
        } else {
            lemma_rights_only(b1.clear_all_spec(e), e);
            b1.clear_all_spec(e).corner_capture_rights(e)
        };
        assert(b2.move_stack == b1.move_stack && b2.move_stack_pointer == b1.move_stack_pointer);
        let b3 = b2.set_spec(e, BoardModel::placed_piece(m));
        let b4 = if m.moved_type == PieceType::Rook {
            lemma_rights_only(b3, s);
            b3.rook_move_rights(s)
        } else {
            b3
        };
        assert(b4.move_stack == b1.move_stack && b4.move_stack_pointer == b1.move_stack_pointer);
    }
}

impl MoveStackFrame {
    fn new() -> (f: MoveStackFrame)
        ensures
            f == (MoveStackFrame {
                en_passant_target: 0,
                reversable_move_counter: 0,
                fullmove_counter: 0,
                white_queenside_castle_rights: true,
                white_kingside_castle_rights: true,
                black_queenside_castle_rights: true,
                black_kingside_castle_rights: true,
            }),
    {
        MoveStackFrame {
            en_passant_target: 0,
            reversable_move_counter: 0,
            fullmove_counter: 0,
            white_queenside_castle_rights: true,
            white_kingside_castle_rights: true,
            black_queenside_castle_rights: true,
            black_kingside_castle_rights: true,
        }
    }
}

impl BoardState {
    /// Pushes the current nonreversible state to the stack.
    fn push_state(&mut self)
        requires
            old(self).move_stack_pointer < usize::MAX,
        ensures
            final(self)@ == old(self)@.push_spec(),
    {
        let mut frame = MoveStackFrame::new();
        frame.en_passant_target = self.en_passant_target;
        frame.reversable_move_counter = self.reversable_move_counter;
        frame.fullmove_counter = self.full_move_counter;
        frame.white_queenside_castle_rights = self.white_queenside_castle_rights;
        frame.white_kingside_castle_rights = self.white_kingside_castle_rights;
        frame.black_queenside_castle_rights = self.black_queenside_castle_rights;
        frame.black_kingside_castle_rights = self.black_kingside_castle_rights;
        self.move_stack.push(frame);
        self.move_stack_pointer += 1;
    }

    /// Pops the nonreversible state from the stack.
    fn pop_state(&mut self)
        requires
            old(self).move_stack_pointer > 0,
            old(self).move_stack@.len() > 0,
        ensures
            final(self)@ == old(self)@.pop_spec(),
    {
        self.move_stack_pointer -= 1;
        let frame = self.move_stack.pop().unwrap();
        self.en_passant_target = frame.en_passant_target;
        self.reversable_move_counter = frame.reversable_move_counter;
        self.full_move_counter = frame.fullmove_counter;
        self.white_queenside_castle_rights = frame.white_queenside_castle_rights;
        self.white_kingside_castle_rights = frame.white_kingside_castle_rights;
        self.black_queenside_castle_rights = frame.black_queenside_castle_rights;
        self.black_kingside_castle_rights = frame.black_kingside_castle_rights;
    }

    /// Clears all bitboards at this mask.
    fn clear_all(&mut self, bb: u64)
        ensures
            final(self)@ == old(self)@.clear_all_spec(bb),
    {
        self.white_pawns &= !bb;
        self.white_knights &= !bb;
        self.white_bishops &= !bb;
        self.white_rooks &= !bb;
        self.white_queens &= !bb;
        self.white_king &= !bb;

        self.black_pawns &= !bb;
        self.black_knights &= !bb;
        self.black_bishops &= !bb;
        self.black_rooks &= !bb;
        self.black_queens &= !bb;
        self.black_king &= !bb;
    }

    /// Clears the side to move's bitboard of this piece at the mask.
    fn clear(&mut self, bb: u64, attacked: Option<PieceType>)
        ensures
            final(self)@ == old(self)@.clear_spec(bb, attacked),
    {
        if let Some(piece) = attacked {
            if self.white_to_move {
                match piece {
                    PieceType::Pawn => self.white_pawns &= !bb,
                    PieceType::Knight => self.white_knights &= !bb,
                    PieceType::Bishop => self.white_bishops &= !bb,
                    PieceType::Rook => self.white_rooks &= !bb,
                    PieceType::Queen => self.white_queens &= !bb,
                    PieceType::King => self.white_king &= !bb,
                }
            } else {
                match piece {
                    PieceType::Pawn => self.black_pawns &= !bb,
                    PieceType::Knight => self.black_knights &= !bb,
                    PieceType::Bishop => self.black_bishops &= !bb,
                    PieceType::Rook => self.black_rooks &= !bb,
                    PieceType::Queen => self.black_queens &= !bb,
                    PieceType::King => self.black_king &= !bb,
                }
            }
        }
    }

    /// Sets the side to move's bitboard of this piece at the mask.
    fn set(&mut self, bb: u64, present_piece: Option<PieceType>)
        ensures
            final(self)@ == old(self)@.set_spec(bb, present_piece),
    {
        if let Some(piece) = present_piece {
            if self.white_to_move {
                match piece {
                    PieceType::Pawn => self.white_pawns |= bb,
                    PieceType::Knight => self.white_knights |= bb,
                    PieceType::Bishop => self.white_bishops |= bb,
                    PieceType::Rook => self.white_rooks |= bb,
                    PieceType::Queen => self.white_queens |= bb,
                    PieceType::King => self.white_king |= bb,
                }
            } else {
                match piece {
                    PieceType::Pawn => self.black_pawns |= bb,
                    PieceType::Knight => self.black_knights |= bb,
                    PieceType::Bishop => self.black_bishops |= bb,
                    PieceType::Rook => self.black_rooks |= bb,
                    PieceType::Queen => self.black_queens |= bb,
                    PieceType::King => self.black_king |= bb,
                }
            }
        }
    }



    /// Moves king and rook of a castling move.
    fn castle_pieces(&mut self, s: u64, e: u64, rook_from: u64, rook_to: u64)
        ensures
            final(self)@ == old(self)@.castle_pieces_spec(s, e, rook_from, rook_to),
    {
        self.clear(s, Some(PieceType::King));
        self.clear(rook_from, Some(PieceType::Rook));
        self.set(e, Some(PieceType::King));
        self.set(rook_to, Some(PieceType::Rook));
    }

    /// Puts king and rook of a castling move back.
    fn uncastle_pieces(&mut self, s: u64, e: u64, rook_from: u64, rook_to: u64)
        ensures
            final(self)@ == old(self)@.uncastle_pieces_spec(s, e, rook_from, rook_to),
    {
        self.set(s, Some(PieceType::King));
        self.set(rook_from, Some(PieceType::Rook));
        self.clear(e, Some(PieceType::King));
        self.clear(rook_to, Some(PieceType::Rook));
    }

    /// A rook captured on its corner loses its castling right.
    fn corner_capture(&mut self, e: u64)
        ensures
            final(self)@ == old(self)@.corner_capture_rights(e),
    {
        proof {
            reveal(BoardModel::corner_capture_rights);
        }
        if e == 1 << Tables::A1 && self.white_queenside_castle_rights {
            self.white_queenside_castle_rights = false;
        } else if e == 1 << Tables::H1 && self.white_kingside_castle_rights {
            self.white_kingside_castle_rights = false;
        } else if e == 1 << Tables::A8 && self.black_queenside_castle_rights {
            self.black_queenside_castle_rights = false;
        } else if e == 1 << Tables::H8 && self.black_kingside_castle_rights {
            self.black_kingside_castle_rights = false;
        }
    }

    /// A rook leaving its corner loses its castling right.
    fn rook_leaves(&mut self, s: u64)
        ensures
            final(self)@ == old(self)@.rook_move_rights(s),
    {
        proof {
            reveal(BoardModel::rook_move_rights);
        }
        if self.white_queenside_castle_rights && s == 1 << Tables::A1 {
            self.white_queenside_castle_rights = false;
        }
        if self.white_kingside_castle_rights && s == 1 << Tables::H1 {
            self.white_kingside_castle_rights = false;
        }
        if self.black_queenside_castle_rights && s == 1 << Tables::A8 {
            self.black_queenside_castle_rights = false;
        }
        if self.black_kingside_castle_rights && s == 1 << Tables::H8 {
            self.black_kingside_castle_rights = false;
        }
    }

    /// Puts the moved (or promoted) piece on the ending square.
    fn place(&mut self, play: &MoveRep)
        ensures
            final(self)@ == old(self)@.set_spec(play.ending_square, BoardModel::placed_piece(*play)),
    {
        if let Some(promotion) = play.promotion {
            match promotion {
                Promotion::Queen => self.set(play.ending_square, Some(PieceType::Queen)),
                Promotion::Rook => self.set(play.ending_square, Some(PieceType::Rook)),
                Promotion::Bishop => self.set(play.ending_square, Some(PieceType::Bishop)),
                Promotion::Knight => self.set(play.ending_square, Some(PieceType::Knight)),
                _ => {},
            }
        } else {
            self.set(play.ending_square, Some(play.moved_type));
        }
    }

    /// Takes the moved (or promoted) piece off the ending square.
    fn unplace(&mut self, play: &MoveRep)
        ensures
            final(self)@ == old(self)@.clear_spec(play.ending_square, BoardModel::placed_piece(*play)),
    {
        if let Some(promotion) = play.promotion {
            match promotion {
                Promotion::Queen => self.clear(play.ending_square, Some(PieceType::Queen)),
                Promotion::Rook => self.clear(play.ending_square, Some(PieceType::Rook)),
                Promotion::Bishop => self.clear(play.ending_square, Some(PieceType::Bishop)),
                Promotion::Knight => self.clear(play.ending_square, Some(PieceType::Knight)),
                _ => {},
            }
        } else {
            self.clear(play.ending_square, Some(play.moved_type));
        }
    }

    /// The castling branch of `make`.
    fn make_castle(&mut self, play: &MoveRep)
        requires
            old(self).move_stack_pointer < usize::MAX,
            is_castle(*play),
        ensures
            final(self)@ == make_spec(old(self)@, *play),
    {
        proof {
            reveal(make_spec);
        }
        self.push_state();
        self.en_passant_target = 0;
        let ghost b1 = self@;
        match play.ending_square {
            e if e == 1 << Tables::G1 => {
                // White kingside
                self.castle_pieces(play.starting_square, e, 1 << Tables::H1, 1 << Tables::F1);
                self.white_queenside_castle_rights = false;
                self.white_kingside_castle_rights = false;
            },
            e if e == 1 << Tables::C1 => {
                // White queenside
                self.castle_pieces(play.starting_square, e, 1 << Tables::A1, 1 << Tables::D1);
                self.white_queenside_castle_rights = false;
                self.white_kingside_castle_rights = false;
            },
            e if e == 1 << Tables::G8 => {
                // Black kingside
                self.castle_pieces(play.starting_square, e, 1 << Tables::H8, 1 << Tables::F8);
                self.black_queenside_castle_rights = false;
                self.black_kingside_castle_rights = false;
            },
            e if e == 1 << Tables::C8 => {
                // Black queenside
                self.castle_pieces(play.starting_square, e, 1 << Tables::A8, 1 << Tables::D8);
                self.black_queenside_castle_rights = false;
                self.black_kingside_castle_rights = false;
            },
            _ => {
                return ;
            },
        }
        self.white_to_move = !self.white_to_move;
    }

    /// Changes the board state to reflect the move; also pushes to the move stack.
    pub fn make(&mut self, play: &MoveRep)
        requires
            old(self).move_stack_pointer < usize::MAX,
        ensures
            final(self)@ == make_spec(old(self)@, *play),
    {
        proof {
            reveal(make_spec);
        }
        if matches!(play.promotion, Some(Promotion::Castle)) {
            self.make_castle(play);
            return ;
        }
        self.push_state();
        self.clear(play.starting_square, Some(play.moved_type));
        if play.ending_square == self.en_passant_target && play.moved_type == PieceType::Pawn {
            // En passant capture removes the pawn behind the target
            if self.white_to_move {
                self.clear_all(play.ending_square >> 8);
            } else {
                self.clear_all(play.ending_square << 8);
            }
        } else {
            // Normal capture
            self.clear_all(play.ending_square);
            self.corner_capture(play.ending_square);
        }
        // Promotion
        self.place(play);
        if play.moved_type == PieceType::Rook {
            self.rook_leaves(play.starting_square);
        }
        if play.moved_type == PieceType::King && play.promotion.is_none() {
            if self.white_to_move {
                self.white_queenside_castle_rights = false;
                self.white_kingside_castle_rights = false;
            } else {
                self.black_queenside_castle_rights = false;
                self.black_kingside_castle_rights = false;
            }
        }
        // Set the en passant target
        if play.moved_type == PieceType::Pawn && (play.starting_square & Tables::RANK_2 != 0
            && play.ending_square & Tables::RANK_4 != 0 || play.starting_square & Tables::RANK_7
            != 0 && play.ending_square & Tables::RANK_5 != 0) {
            self.en_passant_target = if self.white_to_move {
                play.starting_square << 8
            } else {
                play.starting_square >> 8
            };
        } else {
            self.en_passant_target = 0;
        }
        self.white_to_move = !self.white_to_move;
    }

    /// The castling branch of `unmake`.
    fn unmake_castle(&mut self, play: &MoveRep)
        requires
            old(self).move_stack_pointer > 0,
            old(self).move_stack@.len() > 0,
            is_castle(*play),
        ensures
            final(self)@ == unmake_castle_spec(old(self)@, *play),
    {
        self.pop_state();
        // Swap side to play first
        self.white_to_move = !self.white_to_move;
        let ghost b1 = self@;
        assert(b1 == old(self)@.pop_spec().flip_side());
        let s = play.starting_square;
        let e = play.ending_square;
        if e == 1 << Tables::G1 {
            self.uncastle_pieces(s, e, 1 << Tables::H1, 1 << Tables::F1);
        } else if e == 1 << Tables::C1 {
            self.uncastle_pieces(s, e, 1 << Tables::A1, 1 << Tables::D1);
        } else if e == 1 << Tables::G8 {
            self.uncastle_pieces(s, e, 1 << Tables::H8, 1 << Tables::F8);
        } else if e == 1 << Tables::C8 {
            self.uncastle_pieces(s, e, 1 << Tables::A8, 1 << Tables::D8);
        }
    }

    /// Reverts the move from the board; pops from the move stack.
    pub fn unmake(&mut self, play: &MoveRep)
        requires
            old(self).move_stack_pointer > 0,
            old(self).move_stack@.len() > 0,
        ensures
            final(self)@ == unmake_spec(old(self)@, *play),
    {
        proof {
            reveal(unmake_spec);
        }
        if matches!(play.promotion, Some(Promotion::Castle)) {
            self.unmake_castle(play);
            return ;
        }
        self.pop_state();
        if play.ending_square == self.en_passant_target && play.moved_type == PieceType::Pawn {
            // The side to move has not been switched back yet
            if !self.white_to_move {
                self.set(play.ending_square >> 8, play.attacked_type);
            } else {
                self.set(play.ending_square << 8, play.attacked_type);
            }
        } else {
            self.set(play.ending_square, play.attacked_type);
        }
        // After the first set: that one puts back the opponent's piece
        self.white_to_move = !self.white_to_move;
        self.unplace(play);
        self.set(play.starting_square, Some(play.moved_type));
    }

    pub fn white_occupancy(&self) -> (r: u64)
        ensures
            r == self@.white_occupancy(),
    {
        self.white_pawns | self.white_knights | self.white_bishops | self.white_rooks
            | self.white_queens | self.white_king
    }

    pub fn black_occupancy(&self) -> (r: u64)
        ensures
            r == self@.black_occupancy(),
    {
        self.black_pawns | self.black_knights | self.black_bishops | self.black_rooks
            | self.black_queens | self.black_king
    }

    pub fn occupancy(&self) -> (r: u64)
        ensures
            r == self@.occupancy(),
    {
        self.white_pawns | self.white_knights | self.white_bishops | self.white_rooks
            | self.white_queens | self.white_king | self.black_pawns | self.black_knights
            | self.black_bishops | self.black_rooks | self.black_queens | self.black_king
    }

    /// Gets the type of piece present at the mask.
    pub fn get_piece_type(&self, mask: u64) -> (r: Option<PieceType>)
        ensures
            r == self@.piece_type_at(mask),
    {
        if self.white_pawns & mask != 0 || self.black_pawns & mask != 0 {
            return Some(PieceType::Pawn);
        }
        if self.white_knights & mask != 0 || self.black_knights & mask != 0 {
            return Some(PieceType::Knight);
        }
        if self.white_bishops & mask != 0 || self.black_bishops & mask != 0 {
            return Some(PieceType::Bishop);
        }
        if self.white_rooks & mask != 0 || self.black_rooks & mask != 0 {
            return Some(PieceType::Rook);
        }
        if self.white_queens & mask != 0 || self.black_queens & mask != 0 {
            return Some(PieceType::Queen);
        }
        if self.white_king & mask != 0 || self.black_king & mask != 0 {
            return Some(PieceType::King);
        }
        None
    }

    /// Gets the type and colour (`true` for white) of the piece at the mask.
    pub fn get_piece_and_color(&self, mask: u64) -> (r: Option<(PieceType, bool)>)
        ensures
            r == self@.piece_and_color_at(mask),
    {
        if self.white_pawns & mask != 0 {
            Some((PieceType::Pawn, true))
        } else if self.white_knights & mask != 0 {
            Some((PieceType::Knight, true))
        } else if self.white_bishops & mask != 0 {
            Some((PieceType::Bishop, true))
        } else if self.white_rooks & mask != 0 {
            Some((PieceType::Rook, true))
        } else if self.white_queens & mask != 0 {
            Some((PieceType::Queen, true))
        } else if self.white_king & mask != 0 {
            Some((PieceType::King, true))
        } else if self.black_pawns & mask != 0 {
            Some((PieceType::Pawn, false))
        } else if self.black_knights & mask != 0 {
            Some((PieceType::Knight, false))
        } else if self.black_bishops & mask != 0 {
            Some((PieceType::Bishop, false))
        } else if self.black_rooks & mask != 0 {
            Some((PieceType::Rook, false))
        } else if self.black_queens & mask != 0 {
            Some((PieceType::Queen, false))
        } else if self.black_king & mask != 0 {
            Some((PieceType::King, false))
        } else {
            None
        }
    }
}

/// Whether no two bitboards share a square: each square holds at most one
/// piece.
pub open spec fn pieces_apart(b: BoardModel) -> bool {
    forall|c1: bool, x1: PieceType, c2: bool, x2: PieceType|
        !(c1 == c2 && x1 == x2) ==> #[trigger] b.bb(c1, x1) & #[trigger] b.bb(c2, x2) == 0
}

/// Whether no piece stands on the squares of `mask`.
pub open spec fn squares_empty(b: BoardModel, mask: u64) -> bool {
    forall|c: bool, x: PieceType| #[trigger] b.bb(c, x) & mask == 0
}

/// Two bitboards that share no square still share none after each loses
/// the squares of `s` (when asked) and of `c`, and at most one gains `d`
/// (`d` is `c`, or lies on neither).
proof fn lemma_apart_after(
    b1: u64,
    b2: u64,
    s: u64,
    c: u64,
    d: u64,
    r1: bool,
    r2: bool,
    p1: bool,
    p2: bool,
)
    by (bit_vector)
    requires
        b1 & b2 == 0,
        !(p1 && p2),
        d == c || (b1 & d == 0 && b2 & d == 0),
    ensures
        ({
            let k1 = (if r1 {
                b1 & !s
            } else {
                b1
            }) & !c;
            let k2 = (if r2 {
                b2 & !s
            } else {
                b2
            }) & !c;
            (if p1 {
                k1 | d
            } else {
                k1
            }) & (if p2 {
                k2 | d
            } else {
                k2
            }) == 0
        }),
{
}

/// King and rook of a castling move, moving to empty squares, keep apart
/// from each other and from a third bitboard.
proof fn lemma_apart_castle(k: u64, r: u64, o: u64, s: u64, e: u64, rf: u64, rt: u64)
    by (bit_vector)
    requires
        k & r == 0,
        k & o == 0,
        r & o == 0,
        k & e == 0,
        r & e == 0,
        o & e == 0,
        k & rt == 0,
        r & rt == 0,
        o & rt == 0,
        (e == 1u64 << 1u64 && rt == 1u64 << 2u64) || (e == 1u64 << 5u64 && rt == 1u64 << 4u64) || (e
            == 1u64 << 57u64 && rt == 1u64 << 58u64) || (e == 1u64 << 61u64 && rt == 1u64 << 60u64),
    ensures
        ((k & !s) | e) & ((r & !rf) | rt) == 0,
        ((r & !rf) | rt) & ((k & !s) | e) == 0,
        ((k & !s) | e) & o == 0,
        ((r & !rf) | rt) & o == 0,
        o & ((k & !s) | e) == 0,
        o & ((r & !rf) | rt) == 0,
{
}

/// Making a move keeps each square to at most one piece, when the squares a
/// piece lands on without capturing are empty: the ending square of an en
/// passant capture, and the king's and rook's new squares of a castling
/// move.
pub proof fn lemma_make_keeps_pieces_apart(b: BoardModel, m: MoveRep)
    requires
        pieces_apart(b),
        is_castle(m) ==> squares_empty(b, m.ending_square) && squares_empty(
            b,
            castle_rook_squares(m.ending_square).1,
        ),
        !is_castle(m) && b.is_en_passant(m) ==> squares_empty(b, m.ending_square),
    ensures
        pieces_apart(make_spec(b, m)),
{
    let w = b.white_to_move;
    let s = m.starting_square;
    let e = m.ending_square;
    let a = make_spec(b, m);
    let four = e == g1() || e == c1() || e == g8() || e == c8();
    if is_castle(m) && !four {
        reveal(make_spec);
        assert(a.bb(true, PieceType::Pawn) == b.bb(true, PieceType::Pawn));
        assert forall|c1: bool, x1: PieceType, c2: bool, x2: PieceType|
            !(c1 == c2 && x1 == x2) implies #[trigger] a.bb(c1, x1) & #[trigger] a.bb(c2, x2)
            == 0 by {
            assert(a.bb(c1, x1) == b.bb(c1, x1));
            assert(a.bb(c2, x2) == b.bb(c2, x2));
        }
    } else {
        assert forall|c1: bool, x1: PieceType, c2: bool, x2: PieceType|
            !(c1 == c2 && x1 == x2) implies #[trigger] a.bb(c1, x1) & #[trigger] a.bb(c2, x2)
            == 0 by {
            let b1 = b.bb(c1, x1);
            let b2 = b.bb(c2, x2);
            assert(b1 & b2 == 0);
            if is_castle(m) {
                let (rf, rt) = castle_rook_squares(e);
                lemma_make_castle_bitboards(b, m, x1);
                lemma_make_castle_bitboards(b, m, x2);
                let k = b.bb(w, PieceType::King);
                let r = b.bb(w, PieceType::Rook);
                assert(k & r == 0);
                assert(k & e == 0 && r & e == 0 && k & rt == 0 && r & rt == 0);
                assert(b1 & e == 0 && b2 & e == 0 && b1 & rt == 0 && b2 & rt == 0);
                let moved1 = c1 == w && (x1 == PieceType::King || x1 == PieceType::Rook);
                let moved2 = c2 == w && (x2 == PieceType::King || x2 == PieceType::Rook);
                if moved1 && moved2 {
                    let o = b.bb(!w, PieceType::Pawn);
                    assert(k & o == 0 && r & o == 0 && o & e == 0 && o & rt == 0);
                    lemma_apart_castle(k, r, o, s, e, rf, rt);
                } else if moved1 {
                    assert(k & b2 == 0 && r & b2 == 0);
                    lemma_apart_castle(k, r, b2, s, e, rf, rt);
                } else if moved2 {
                    assert(k & b1 == 0 && r & b1 == 0);
                    lemma_apart_castle(k, r, b1, s, e, rf, rt);
                } else {
                    assert(a.bb(c1, x1) == b1 && a.bb(c2, x2) == b2);
                }
            } else if b.is_en_passant(m) {
                let cap = b.captured_square(m);
                lemma_make_en_passant_bitboards(b, m, x1);
                lemma_make_en_passant_bitboards(b, m, x2);
                assert(b1 & e == 0 && b2 & e == 0);
                lemma_apart_after(
                    b1,
                    b2,
                    s,
                    cap,
                    e,
                    c1 == w && x1 == m.moved_type,
                    c2 == w && x2 == m.moved_type,
                    c1 == w && BoardModel::placed_piece(m) == Some(x1),
                    c2 == w && BoardModel::placed_piece(m) == Some(x2),
                );
            } else {
                lemma_make_plain_bitboards(b, m, x1);
                lemma_make_plain_bitboards(b, m, x2);
                lemma_apart_after(
                    b1,
                    b2,
                    s,
                    e,
                    e,
                    c1 == w && x1 == m.moved_type,
                    c2 == w && x2 == m.moved_type,
                    c1 == w && BoardModel::placed_piece(m) == Some(x1),
                    c2 == w && BoardModel::placed_piece(m) == Some(x2),
                );
            }
        }
    }
}


} // verus!
