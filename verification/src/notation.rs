//! Reading and writing boards and moves as text: FEN strings, square names
//! such as `e4`, and moves such as `e7e8q`.

use vstd::prelude::*;
use vstd::string::StringExecFns;
use vstd::std_specs::bits::u64_leading_zeros;
use crate::board::{BoardState, BoardModel, MoveRep, PieceType, Promotion, make_spec};
use crate::tables::Tables;
use crate::bitboard::sq_bit;

verus! {

/// The board with nothing on it: white to move, no rights, counters at zero.
pub open spec fn empty_model() -> BoardModel {
    BoardModel {
        white_pawns: 0,
        white_knights: 0,
        white_rooks: 0,
        white_bishops: 0,
        white_queens: 0,
        white_king: 0,
        white_queenside_castle_rights: false,
        white_kingside_castle_rights: false,
        black_pawns: 0,
        black_knights: 0,
        black_rooks: 0,
        black_bishops: 0,
        black_queens: 0,
        black_king: 0,
        black_queenside_castle_rights: false,
        black_kingside_castle_rights: false,
        white_to_move: true,
        en_passant_target: 0,
        reversable_move_counter: 0,
        full_move_counter: 0,
        move_stack: Seq::empty(),
        move_stack_pointer: 0,
    }
}

/// The standard starting position.
pub open spec fn starting_model() -> BoardModel {
    BoardModel {
        white_pawns: 0xff00,
        white_knights: 0x42,
        white_rooks: 0x81,
        white_bishops: 0x24,
        white_queens: 0x10,
        white_king: 0x8,
        white_queenside_castle_rights: true,
        white_kingside_castle_rights: true,
        black_pawns: 0xff000000000000,
        black_knights: 0x4200000000000000,
        black_rooks: 0x8100000000000000,
        black_bishops: 0x2400000000000000,
        black_queens: 0x1000000000000000,
        black_king: 0x800000000000000,
        black_queenside_castle_rights: true,
        black_kingside_castle_rights: true,
        white_to_move: true,
        en_passant_target: 0,
        reversable_move_counter: 0,
        full_move_counter: 1,
        move_stack: Seq::empty(),
        move_stack_pointer: 0,
    }
}

/// The value of a decimal digit.
pub open spec fn digit_of(c: char) -> Option<nat> {
    if '0' <= c <= '9' {
        Some((c as nat - '0' as nat) as nat)
    } else {
        None
    }
}

/// The piece a FEN letter names: lowercase black, uppercase white.
pub open spec fn piece_of_char(c: char) -> Option<(PieceType, bool)> {
    if c == 'p' {
        Some((PieceType::Pawn, false))
    } else if c == 'r' {
        Some((PieceType::Rook, false))
    } else if c == 'n' {
        Some((PieceType::Knight, false))
    } else if c == 'b' {
        Some((PieceType::Bishop, false))
    } else if c == 'q' {
        Some((PieceType::Queen, false))
    } else if c == 'k' {
        Some((PieceType::King, false))
    } else if c == 'P' {
        Some((PieceType::Pawn, true))
    } else if c == 'R' {
        Some((PieceType::Rook, true))
    } else if c == 'N' {
        Some((PieceType::Knight, true))
    } else if c == 'B' {
        Some((PieceType::Bishop, true))
    } else if c == 'Q' {
        Some((PieceType::Queen, true))
    } else if c == 'K' {
        Some((PieceType::King, true))
    } else {
        None
    }
}

/// Reads FEN placement data from `shift` (the mask of the square to fill
/// next, walking from a8 down to h1): `/` is skipped, a digit skips that many
/// squares, a piece letter fills the square; any other character fails.
pub open spec fn place_pieces(b: BoardModel, shift: u64, cs: Seq<char>) -> Option<(BoardModel, u64)>
    decreases cs.len(),
{
    if cs.len() == 0 {
        Some((b, shift))
    } else {
        let c = cs[0];
        let rest = cs.drop_first();
        if c == '/' {
            place_pieces(b, shift, rest)
        } else if digit_of(c).is_some() {
            place_pieces(b, shift >> (digit_of(c).unwrap() as u64), rest)
        } else {
            match piece_of_char(c) {
                Some((p, w)) => place_pieces(b.with_bb(w, p, b.bb(w, p) | shift), shift >> 1u64, rest),
                None => None,
            }
        }
    }
}

/// Reads FEN castling rights: `K`, `Q`, `k`, `q` grant a right, `-` is
/// skipped, anything else fails.
pub open spec fn read_rights(b: BoardModel, cs: Seq<char>) -> Option<BoardModel>
    decreases cs.len(),
{
    if cs.len() == 0 {
        Some(b)
    } else {
        let c = cs[0];
        let rest = cs.drop_first();
        if c == 'K' {
            read_rights(BoardModel { white_kingside_castle_rights: true, ..b }, rest)
        } else if c == 'Q' {
            read_rights(BoardModel { white_queenside_castle_rights: true, ..b }, rest)
        } else if c == 'k' {
            read_rights(BoardModel { black_kingside_castle_rights: true, ..b }, rest)
        } else if c == 'q' {
            read_rights(BoardModel { black_queenside_castle_rights: true, ..b }, rest)
        } else if c == '-' {
            read_rights(b, rest)
        } else {
            None
        }
    }
}

/// The bit offset of a file letter: `h` is 0, `a` is 7.
pub open spec fn file_shift(c: char) -> Option<nat> {
    if c == 'h' {
        Some(0)
    } else if c == 'g' {
        Some(1)
    } else if c == 'f' {
        Some(2)
    } else if c == 'e' {
        Some(3)
    } else if c == 'd' {
        Some(4)
    } else if c == 'c' {
        Some(5)
    } else if c == 'b' {
        Some(6)
    } else if c == 'a' {
        Some(7)
    } else {
        None
    }
}

/// Whether a rank digit, once read, names a rank of the board (reading
/// a square with rank 0 or 9 has no result).
pub open spec fn rank_in_range(c: char) -> bool {
    digit_of(c).is_some() ==> 1 <= digit_of(c).unwrap() <= 8
}

/// The mask of the square named by a file letter and a rank digit.
pub open spec fn square_mask(file: char, rank: char) -> Option<u64> {
    match (file_shift(file), digit_of(rank)) {
        (Some(f), Some(r)) => Some(1u64 << ((f + 8 * (r - 1)) as u64)),
        _ => None,
    }
}

/// Reads a FEN en passant field: `-` for none, else a square name.
pub open spec fn read_en_passant(cs: Seq<char>) -> Option<u64> {
    if cs == seq!['-'] {
        Some(0)
    } else if cs.len() < 2 {
        None
    } else {
        square_mask(cs[0], cs[1])
    }
}

/// Whether the en passant field can be read without leaving the board.
pub open spec fn en_passant_in_range(cs: Seq<char>) -> bool {
    cs != seq!['-'] && cs.len() >= 2 && file_shift(cs[0]).is_some() ==> rank_in_range(cs[1])
}

/// The value of a string of decimal digits.
pub open spec fn digits_value(cs: Seq<char>) -> nat
    decreases cs.len(),
{
    if cs.len() == 0 {
        0
    } else {
        digits_value(cs.drop_last()) * 10 + digit_of(cs.last()).unwrap_or(0)
    }
}

/// The digits of an unsigned number: its characters after an optional `+`.
pub open spec fn unsigned_digits(cs: Seq<char>) -> Seq<char> {
    if cs.len() > 0 && cs[0] == '+' {
        cs.drop_first()
    } else {
        cs
    }
}

/// Reads an unsigned decimal number no larger than `max`: an optional `+`,
/// then one or more digits.
pub open spec fn read_unsigned(cs: Seq<char>, max: nat) -> Option<nat> {
    let ds = unsigned_digits(cs);
    if ds.len() > 0 && (forall|i: int| 0 <= i < ds.len() ==> #[trigger] digit_of(ds[i]).is_some())
        && digits_value(ds) <= max {
        Some(digits_value(ds))
    } else {
        None
    }
}

/// The board a FEN string's fields describe, or `None` when a field is
/// missing or malformed. The fields are the placement (which must fill
/// exactly the 64 squares), the side to move (`w` or `b`), the castling
/// rights, the en passant target, the halfmove clock (at most 255) and the
/// fullmove number (at most 65535).
pub open spec fn fen_spec(tokens: Seq<Seq<char>>) -> Option<BoardModel> {
    if tokens.len() < 6 {
        None
    } else {
        match place_pieces(empty_model(), 1u64 << 63u64, tokens[0]) {
            None => None,
            Some((placed, shift)) => {
                if shift != 0 {
                    None
                } else if tokens[1] != seq!['w'] && tokens[1] != seq!['b'] {
                    None
                } else {
                    let sided = BoardModel { white_to_move: tokens[1] == seq!['w'], ..placed };
                    match read_rights(sided, tokens[2]) {
                        None => None,
                        Some(righted) => match (
                            read_en_passant(tokens[3]),
                            read_unsigned(tokens[4], 255),
                            read_unsigned(tokens[5], 65535),
                        ) {
                            (Some(ep), Some(half), Some(full)) => Some(
                                BoardModel {
                                    en_passant_target: ep,
                                    reversable_move_counter: half as u8,
                                    full_move_counter: full as u16,
                                    ..righted
                                },
                            ),
                            _ => None,
                        },
                    }
                }
            },
        }
    }
}

/// The tokens of a string split at each space (consecutive spaces give
/// empty tokens).
pub open spec fn split_spec(s: Seq<char>) -> Seq<Seq<char>>
    decreases s.len(),
{
    if s.len() == 0 {
        seq![Seq::<char>::empty()]
    } else {
        let prev = split_spec(s.drop_last());
        if s.last() == ' ' {
            prev.push(Seq::<char>::empty())
        } else {
            prev.update(prev.len() - 1, prev.last().push(s.last()))
        }
    }
}

pub proof fn lemma_split_nonempty(s: Seq<char>)
    ensures
        split_spec(s).len() >= 1,
    decreases s.len(),
{
    if s.len() > 0 {
        lemma_split_nonempty(s.drop_last());
    }
}

/// The characters of each string.
pub open spec fn views(v: Seq<String>) -> Seq<Seq<char>> {
    v.map_values(|t: String| t@)
}

impl BoardState {
    /// The standard starting position.
    pub fn starting_state() -> (r: BoardState)
        ensures
            r@ == starting_model(),
    {
        BoardState {
            white_pawns: 0xff00,
            white_knights: 0x42,
            white_rooks: 0x81,
            white_bishops: 0x24,
            white_queens: 0x10,
            white_king: 0x8,
            white_queenside_castle_rights: true,
            white_kingside_castle_rights: true,
            black_pawns: 0xff000000000000,
            black_knights: 0x4200000000000000,
            black_rooks: 0x8100000000000000,
            black_bishops: 0x2400000000000000,
            black_queens: 0x1000000000000000,
            black_king: 0x800000000000000,
            black_queenside_castle_rights: true,
            black_kingside_castle_rights: true,
            white_to_move: true,
            en_passant_target: 0x0,
            reversable_move_counter: 0,
            full_move_counter: 1,
            move_stack: Vec::new(),
            move_stack_pointer: 0,
        }
    }

    /// The board with nothing on it.
    fn empty_state() -> (r: BoardState)
        ensures
            r@ == empty_model(),
    {
        BoardState {
            white_pawns: 0,
            white_knights: 0,
            white_rooks: 0,
            white_bishops: 0,
            white_queens: 0,
            white_king: 0,
            white_queenside_castle_rights: false,
            white_kingside_castle_rights: false,
            black_pawns: 0,
            black_knights: 0,
            black_rooks: 0,
            black_bishops: 0,
            black_queens: 0,
            black_king: 0,
            black_queenside_castle_rights: false,
            black_kingside_castle_rights: false,
            white_to_move: true,
            en_passant_target: 0,
            reversable_move_counter: 0,
            full_move_counter: 0,
            move_stack: Vec::new(),
            move_stack_pointer: 0,
        }
    }

    /// Adds `mask` to one bitboard.
    fn add_piece(&mut self, p: PieceType, white: bool, mask: u64)
        ensures
            final(self)@ == old(self)@.with_bb(white, p, old(self)@.bb(white, p) | mask),
    {
        if white {
            match p {
                PieceType::Pawn => self.white_pawns = self.white_pawns | mask,
                PieceType::Knight => self.white_knights = self.white_knights | mask,
                PieceType::Bishop => self.white_bishops = self.white_bishops | mask,
                PieceType::Rook => self.white_rooks = self.white_rooks | mask,
                PieceType::Queen => self.white_queens = self.white_queens | mask,
                PieceType::King => self.white_king = self.white_king | mask,
            }
        } else {
            match p {
                PieceType::Pawn => self.black_pawns = self.black_pawns | mask,
                PieceType::Knight => self.black_knights = self.black_knights | mask,
                PieceType::Bishop => self.black_bishops = self.black_bishops | mask,
                PieceType::Rook => self.black_rooks = self.black_rooks | mask,
                PieceType::Queen => self.black_queens = self.black_queens | mask,
                PieceType::King => self.black_king = self.black_king | mask,
            }
        }
        assert(final(self)@ =~= old(self)@.with_bb(white, p, old(self)@.bb(white, p) | mask));
    }
}


/// The first stages of reading a FEN string succeed up to the en passant
/// field.
pub open spec fn reaches_en_passant(tokens: Seq<Seq<char>>) -> bool {
    &&& tokens.len() >= 4
    &&& place_pieces(empty_model(), 1u64 << 63u64, tokens[0]) matches Some((placed, shift)) && shift
        == 0 && (tokens[1] == seq!['w'] || tokens[1] == seq!['b']) && read_rights(
        BoardModel { white_to_move: tokens[1] == seq!['w'], ..placed },
        tokens[2],
    ).is_some()
}

/// Reads an unsigned decimal number no larger than `max`.
fn parse_unsigned(s: &str, max: u64) -> (r: Option<u64>)
    ensures
        match r {
            Some(v) => read_unsigned(s@, max as nat) == Some(v as nat),
            None => read_unsigned(s@, max as nat).is_none(),
        },
{
    let n = s.unicode_len();
    let mut start: usize = 0;
    if n > 0 && s.get_char(0) == '+' {
        start = 1;
    }
    let ghost ds = unsigned_digits(s@);
    assert(ds =~= s@.subrange(start as int, n as int));
    if start >= n {
        return None;
    }
    let mut value: u64 = 0;
    let mut i = start;
    while i < n
        invariant
            start <= i <= n,
            n == s@.len(),
            ds =~= s@.subrange(start as int, n as int),
            ds == unsigned_digits(s@),
            ds.len() > 0,
            value <= max,
            value == digits_value(ds.take(i - start)),
            forall|j: int| 0 <= j < i - start ==> #[trigger] digit_of(ds[j]).is_some(),
        decreases n - i,
    {
        let c = s.get_char(i);
        assert(ds[i - start] == c);
        let d = to_digit(c);
        match d {
            None => {
                assert(!digit_of(ds[i - start]).is_some());
                return None;
            },
            Some(dv) => {
                let ghost pre = ds.take(i - start);
                assert(ds.take(i - start + 1).drop_last() =~= pre);
                assert(ds.take(i - start + 1).last() == c);
                let next: u128 = value as u128 * 10 + dv as u128;
                if next > max as u128 {
                    // The number already exceeds the largest allowed value
                    proof {
                        lemma_digits_grow(ds, i - start + 1);
                    }
                    return None;
                }
                value = next as u64;
                i = i + 1;
            },
        }
    }
    assert(ds.take(n - start) =~= ds);
    Some(value)
}

/// A longer run of digits is worth at least as much as its prefix.
proof fn lemma_digits_grow(ds: Seq<char>, k: int)
    requires
        0 <= k <= ds.len(),
    ensures
        (forall|j: int| 0 <= j < ds.len() ==> #[trigger] digit_of(ds[j]).is_some())
            ==> digits_value(ds) >= digits_value(ds.take(k)),
    decreases ds.len() - k,
{
    if k < ds.len() {
        lemma_digits_grow(ds, k + 1);
        assert(ds.take(k + 1).drop_last() =~= ds.take(k));
    } else {
        assert(ds.take(k) =~= ds);
    }
}

/// Splits a string at each space.
pub(crate) fn split_spaces(s: &str) -> (r: Vec<String>)
    ensures
        views(r@) == split_spec(s@),
{
    let n = s.unicode_len();
    let mut tokens: Vec<String> = Vec::new();
    let mut current = String::new();
    let mut i: usize = 0;
    while i < n
        invariant
            i <= n,
            n == s@.len(),
            views(tokens@).push(current@) == split_spec(s@.take(i as int)),
        decreases n - i,
    {
        let c = s.get_char(i);
        proof {
            assert(s@.take(i + 1).drop_last() =~= s@.take(i as int));
            lemma_split_nonempty(s@.take(i as int));
        }
        let ghost before = views(tokens@);
        let ghost cur = current@;
        if c == ' ' {
            tokens.push(current);
            current = String::new();
            assert(views(tokens@) =~= before.push(cur));
        } else {
            let piece = s.substring_char(i, i + 1);
            current.append(piece);
            assert(current@ =~= cur.push(c));
        }
        i = i + 1;
        assert(views(tokens@).push(current@) =~= split_spec(s@.take(i as int)));
    }
    let ghost before = views(tokens@);
    let ghost cur = current@;
    tokens.push(current);
    assert(views(tokens@) =~= before.push(cur));
    assert(s@.take(n as int) =~= s@);
    tokens
}


/// Whether a string is exactly the one character `c`.
fn is_char(s: &str, c: char) -> (r: bool)
    ensures
        r == (s@ == seq![c]),
{
    if s.unicode_len() == 1 && s.get_char(0) == c {
        assert(s@ =~= seq![c]);
        true
    } else {
        false
    }
}

/// The first character of FEN placement data that is neither `/`, a digit
/// nor a piece letter.
pub open spec fn bad_placement_char(cs: Seq<char>) -> Option<char>
    decreases cs.len(),
{
    if cs.len() == 0 {
        None
    } else if cs[0] == '/' || digit_of(cs[0]).is_some() || piece_of_char(cs[0]).is_some() {
        bad_placement_char(cs.drop_first())
    } else {
        Some(cs[0])
    }
}

/// The first character of a FEN castling field that is none of `K`, `Q`,
/// `k`, `q` and `-`.
pub open spec fn bad_rights_char(cs: Seq<char>) -> Option<char>
    decreases cs.len(),
{
    if cs.len() == 0 {
        None
    } else if cs[0] == 'K' || cs[0] == 'Q' || cs[0] == 'k' || cs[0] == 'q' || cs[0] == '-' {
        bad_rights_char(cs.drop_first())
    } else {
        Some(cs[0])
    }
}

/// Placement data fails exactly at its first bad character.
proof fn lemma_placement_fails(b: BoardModel, shift: u64, cs: Seq<char>)
    ensures
        place_pieces(b, shift, cs).is_none() == bad_placement_char(cs).is_some(),
    decreases cs.len(),
{
    if cs.len() > 0 {
        let c = cs[0];
        let rest = cs.drop_first();
        if c == '/' {
            lemma_placement_fails(b, shift, rest);
        } else if digit_of(c).is_some() {
            lemma_placement_fails(b, shift >> (digit_of(c).unwrap() as u64), rest);
        } else if let Some((p, w)) = piece_of_char(c) {
            lemma_placement_fails(b.with_bb(w, p, b.bb(w, p) | shift), shift >> 1u64, rest);
        }
    }
}

/// A castling field fails exactly at its first bad character.
proof fn lemma_rights_fail(b: BoardModel, cs: Seq<char>)
    ensures
        read_rights(b, cs).is_none() == bad_rights_char(cs).is_some(),
    decreases cs.len(),
{
    if cs.len() > 0 {
        let c = cs[0];
        let rest = cs.drop_first();
        if c == 'K' {
            lemma_rights_fail(BoardModel { white_kingside_castle_rights: true, ..b }, rest);
        } else if c == 'Q' {
            lemma_rights_fail(BoardModel { white_queenside_castle_rights: true, ..b }, rest);
        } else if c == 'k' {
            lemma_rights_fail(BoardModel { black_kingside_castle_rights: true, ..b }, rest);
        } else if c == 'q' {
            lemma_rights_fail(BoardModel { black_queenside_castle_rights: true, ..b }, rest);
        } else if c == '-' {
            lemma_rights_fail(b, rest);
        }
    }
}

/// The decimal digit character of `d`.
pub open spec fn digit_char(d: nat) -> char {
    ((d + '0' as nat) as u32) as char
}

/// The decimal numeral of `n`, without leading zeros.
pub open spec fn decimal(n: nat) -> Seq<char>
    decreases n,
{
    if n < 10 {
        seq![digit_char(n)]
    } else {
        decimal(n / 10).push(digit_char(n % 10))
    }
}

/// The one-character string of a decimal digit.
fn digit_str(d: u64) -> (r: &'static str)
    requires
        d < 10,
    ensures
        r@ == seq![digit_char(d as nat)],
{
    proof {
        reveal_strlit("0");
        reveal_strlit("1");
        reveal_strlit("2");
        reveal_strlit("3");
        reveal_strlit("4");
        reveal_strlit("5");
        reveal_strlit("6");
        reveal_strlit("7");
        reveal_strlit("8");
        reveal_strlit("9");
    }
    match d {
        0 => "0",
        1 => "1",
        2 => "2",
        3 => "3",
        4 => "4",
        5 => "5",
        6 => "6",
        7 => "7",
        8 => "8",
        _ => "9",
    }
}

/// The decimal numeral of `n`.
fn decimal_string(n: u64) -> (r: String)
    ensures
        r@ == decimal(n as nat),
    decreases n,
{
    if n < 10 {
        String::from_str(digit_str(n))
    } else {
        let mut text = decimal_string(n / 10);
        text.append(digit_str(n % 10));
        assert(text@ =~= decimal((n / 10) as nat).push(digit_char((n % 10) as nat)));
        text
    }
}

/// Calls `ToString::to_string` on a `char`: the string of that one
/// character.
#[verifier::external_body]
fn char_string(c: char) -> (r: String)
    ensures
        r@ == seq![c],
{
    c.to_string()
}

/// The message of a FEN string with too few fields.
pub open spec fn too_few_fields() -> Seq<char> {
    "String does not have enough tokens to be a valid fen string"@
}

/// The message `state_from_fen` fails with: the fields are read in order,
/// and the first that is missing or malformed gives the message.
pub open spec fn fen_error(t: Seq<Seq<char>>) -> Seq<char> {
    if t.len() == 0 {
        "No fenstring placement data found"@
    } else if let Some(c) = bad_placement_char(t[0]) {
        "Unexpected character found in "@ + seq![c]
    } else if place_pieces(empty_model(), 1u64 << 63u64, t[0]).unwrap().1 != 0 {
        "Incorect number of positions found (shift_value is "@ + decimal(
            place_pieces(empty_model(), 1u64 << 63u64, t[0]).unwrap().1 as nat,
        ) + ")"@
    } else if t.len() < 2 {
        too_few_fields()
    } else if t[1] != seq!['w'] && t[1] != seq!['b'] {
        "Invalid side to move \""@ + t[1] + "\""@
    } else if t.len() < 3 {
        too_few_fields()
    } else if let Some(c) = bad_rights_char(t[2]) {
        "Unknown character \""@ + seq![c] + "\" found in castle rights field"@
    } else if t.len() < 4 {
        too_few_fields()
    } else if t[3] != seq!['-'] && t[3].len() < 2 {
        "En passant target does not have the expected number of characters"@
    } else if t[3] != seq!['-'] && file_shift(t[3][0]).is_none() {
        "Unrecognized value \""@ + seq![t[3][0]] + "\" found in file"@
    } else if t[3] != seq!['-'] && digit_of(t[3][1]).is_none() {
        "Unrecognized value \""@ + seq![t[3][1]] + "\" found in rank"@
    } else if t.len() < 5 {
        too_few_fields()
    } else if read_unsigned(t[4], 255).is_none() {
        "Error parsing the number of halfmoves"@
    } else if t.len() < 6 {
        too_few_fields()
    } else {
        "Error parsing the number of fullmoves"@
    }
}

impl BoardState {
    /// Reads a board from the six fields of a FEN string: placement, side to
    /// move, castling rights, en passant target, halfmove clock and fullmove
    /// number. The fields are read in that order; the first one missing or
    /// malformed fails the read with its message.
    #[verifier::rlimit(40)]
    pub fn state_from_fen(fen_tokens: &[String]) -> (r: Result<BoardState, String>)
        requires
            reaches_en_passant(views(fen_tokens@)) ==> en_passant_in_range(fen_tokens@[3]@),
        ensures
            match r {
                Ok(state) => fen_spec(views(fen_tokens@)) == Some(state@),
                Err(e) => fen_spec(views(fen_tokens@)).is_none() && e@ == fen_error(
                    views(fen_tokens@),
                ),
            },
    {
        let ghost tokens = views(fen_tokens@);
        if fen_tokens.len() == 0 {
            return Err(String::from_str("No fenstring placement data found"));
        }
        assert(tokens[0] == fen_tokens@[0]@);
        let mut state = BoardState::empty_state();
        let mut shift_value: u64 = 1 << 63;

        // The placement data
        let placement = fen_tokens[0].as_str();
        let n = placement.unicode_len();
        let mut i: usize = 0;
        assert(placement@.subrange(0, n as int) =~= placement@);
        while i < n
            invariant
                i <= n,
                n == placement@.len(),
                placement@ == tokens[0],
                tokens == views(fen_tokens@),
                tokens.len() >= 1,
                place_pieces(state@, shift_value, placement@.subrange(i as int, n as int))
                    == place_pieces(empty_model(), 1u64 << 63u64, tokens[0]),
                bad_placement_char(placement@.subrange(i as int, n as int)) == bad_placement_char(
                    tokens[0],
                ),
            decreases n - i,
        {
            let character = placement.get_char(i);
            assert(placement@.subrange(i as int, n as int).drop_first() =~= placement@.subrange(
                i + 1,
                n as int,
            ));
            if character != '/' {
                match to_digit(character) {
                    // A digit skips that many squares
                    Some(digit) => {
                        shift_value = shift_value >> digit;
                    },
                    None => match piece_from_char(character) {
                        Some((piece, white)) => {
                            state.add_piece(piece, white, shift_value);
                            shift_value = shift_value >> 1;
                        },
                        None => {
                            proof {
                                lemma_placement_fails(empty_model(), 1u64 << 63u64, tokens[0]);
                            }
                            let mut message = String::from_str("Unexpected character found in ");
                            message.append(placement.substring_char(i, i + 1));
                            assert(placement@.subrange(i as int, i + 1) =~= seq![character]);
                            return Err(message);
                        },
                    },
                }
            }
            i = i + 1;
        }
        proof {
            lemma_placement_fails(empty_model(), 1u64 << 63u64, tokens[0]);
            assert(placement@.subrange(n as int, n as int) =~= Seq::<char>::empty());
        }
        // Every square must have been filled or skipped
        if shift_value != 0 {
            let mut message = String::from_str("Incorect number of positions found (shift_value is ");
            message.append(decimal_string(shift_value).as_str());
            message.append(")");
            return Err(message);
        }
        let ghost placed = state@;

        // The side to move
        if fen_tokens.len() < 2 {
            return Err(String::from_str("String does not have enough tokens to be a valid fen string"));
        }
        assert(tokens[1] == fen_tokens@[1]@);
        let side_to_move = fen_tokens[1].as_str();
        if is_char(side_to_move, 'w') {
            state.white_to_move = true;
        } else if is_char(side_to_move, 'b') {
            state.white_to_move = false;
        } else {
            let mut message = String::from_str("Invalid side to move \"");
            message.append(side_to_move);
            message.append("\"");
            return Err(message);
        }
        assert(state@ =~= BoardModel { white_to_move: tokens[1] == seq!['w'], ..placed });

        // The castling rights
        if fen_tokens.len() < 3 {
            return Err(String::from_str("String does not have enough tokens to be a valid fen string"));
        }
        assert(tokens[2] == fen_tokens@[2]@);
        let rights = fen_tokens[2].as_str();
        let rn = rights.unicode_len();
        let mut j: usize = 0;
        let ghost sided = state@;
        assert(rights@.subrange(0, rn as int) =~= rights@);
        while j < rn
            invariant
                j <= rn,
                rn == rights@.len(),
                rights@ == tokens[2],
                tokens == views(fen_tokens@),
                tokens.len() >= 3,
                place_pieces(empty_model(), 1u64 << 63u64, tokens[0]) == Some((placed, 0u64)),
                bad_placement_char(tokens[0]).is_none(),
                tokens[1] == seq!['w'] || tokens[1] == seq!['b'],
                sided == (BoardModel { white_to_move: tokens[1] == seq!['w'], ..placed }),
                read_rights(state@, rights@.subrange(j as int, rn as int)) == read_rights(
                    sided,
                    tokens[2],
                ),
                bad_rights_char(rights@.subrange(j as int, rn as int)) == bad_rights_char(
                    tokens[2],
                ),
            decreases rn - j,
        {
            let character = rights.get_char(j);
            assert(rights@.subrange(j as int, rn as int).drop_first() =~= rights@.subrange(
                j + 1,
                rn as int,
            ));
            let ghost before = state@;
            if character == 'K' {
                state.white_kingside_castle_rights = true;
                assert(state@ =~= BoardModel { white_kingside_castle_rights: true, ..before });
            } else if character == 'Q' {
                state.white_queenside_castle_rights = true;
                assert(state@ =~= BoardModel { white_queenside_castle_rights: true, ..before });
            } else if character == 'k' {
                state.black_kingside_castle_rights = true;
                assert(state@ =~= BoardModel { black_kingside_castle_rights: true, ..before });
            } else if character == 'q' {
                state.black_queenside_castle_rights = true;
                assert(state@ =~= BoardModel { black_queenside_castle_rights: true, ..before });
            } else if character != '-' {
                proof {
                    lemma_rights_fail(sided, tokens[2]);
                }
                let mut message = String::from_str("Unknown character \"");
                message.append(rights.substring_char(j, j + 1));
                message.append("\" found in castle rights field");
                assert(rights@.subrange(j as int, j + 1) =~= seq![character]);
                return Err(message);
            }
            j = j + 1;
        }
        proof {
            lemma_rights_fail(sided, tokens[2]);
            assert(rights@.subrange(rn as int, rn as int) =~= Seq::<char>::empty());
        }
        let ghost righted = state@;

        // The en passant target
        if fen_tokens.len() < 4 {
            return Err(String::from_str("String does not have enough tokens to be a valid fen string"));
        }
        assert(tokens[3] == fen_tokens@[3]@);
        assert(reaches_en_passant(tokens));
        assert(en_passant_in_range(tokens[3]));
        let en_passant = fen_tokens[3].as_str();
        if is_char(en_passant, '-') {
            state.en_passant_target = 0;
        } else {
            if en_passant.unicode_len() < 2 {
                return Err(String::from_str("En passant target does not have the expected number of characters"));
            }
            let file = en_passant.get_char(0);
            let rank = en_passant.get_char(1);
            let file_offset: u64 = match file {
                'h' => 0,
                'g' => 1,
                'f' => 2,
                'e' => 3,
                'd' => 4,
                'c' => 5,
                'b' => 6,
                'a' => 7,
                _ => {
                    let mut message = String::from_str("Unrecognized value \"");
                    message.append(en_passant.substring_char(0, 1));
                    message.append("\" found in file");
                    assert(en_passant@.subrange(0, 1) =~= seq![file]);
                    return Err(message);
                },
            };
            let rank_shift = match to_digit(rank) {
                Some(rank_value) => rank_value,
                None => {
                    let mut message = String::from_str("Unrecognized value \"");
                    message.append(en_passant.substring_char(1, 2));
                    message.append("\" found in rank");
                    assert(en_passant@.subrange(1, 2) =~= seq![rank]);
                    return Err(message);
                },
            };
            assert(file_shift(file) == Some(file_offset as nat));
            let target: u64 = (1u64 << file_offset) << ((rank_shift - 1) * 8);
            assert(target == 1u64 << ((file_offset + 8 * (rank_shift - 1)) as u64)) by (bit_vector)
                requires
                    file_offset < 8,
                    1 <= rank_shift <= 8,
                    target == (1u64 << file_offset) << (((rank_shift - 1) * 8) as u64),
            ;
            state.en_passant_target = target;
        }
        let ghost ep = state.en_passant_target;
        assert(read_en_passant(tokens[3]) == Some(ep));

        // The halfmove clock and the fullmove number
        if fen_tokens.len() < 5 {
            return Err(String::from_str("String does not have enough tokens to be a valid fen string"));
        }
        assert(tokens[4] == fen_tokens@[4]@);
        let half_move = match parse_unsigned(fen_tokens[4].as_str(), 255) {
            Some(v) => v,
            None => {
                return Err(String::from_str("Error parsing the number of halfmoves"));
            },
        };
        state.reversable_move_counter = half_move as u8;
        if fen_tokens.len() < 6 {
            return Err(String::from_str("String does not have enough tokens to be a valid fen string"));
        }
        assert(tokens[5] == fen_tokens@[5]@);
        let full_move = match parse_unsigned(fen_tokens[5].as_str(), 65535) {
            Some(v) => v,
            None => {
                return Err(String::from_str("Error parsing the number of fullmoves"));
            },
        };
        state.full_move_counter = full_move as u16;
        assert(state@ =~= BoardModel {
            en_passant_target: ep,
            reversable_move_counter: half_move as u8,
            full_move_counter: full_move as u16,
            ..righted
        });
        Ok(state)
    }

    /// Whether reading a FEN string's fields with `state_from_fen` stays on
    /// the board: either the fields before the en passant target do not all
    /// read, or the target's rank (after a file letter) is 1 to 8.
    pub fn fen_en_passant_ok(fen_tokens: &[String]) -> (r: bool)
        ensures
            r == (reaches_en_passant(views(fen_tokens@)) ==> en_passant_in_range(
                fen_tokens@[3]@,
            )),
    {
        if fen_tokens.len() < 4 {
            return true;
        }
        let ghost t = views(fen_tokens@);
        let first: Vec<String> = vec![
            fen_tokens[0].clone(),
            fen_tokens[1].clone(),
            fen_tokens[2].clone(),
        ];
        let ghost t3 = views(first@);
        assert(t3 =~= t.take(3));
        let read = BoardState::state_from_fen(first.as_slice());
        let reaches = match read {
            Ok(_) => false,
            Err(e) => e == String::from_str("String does not have enough tokens to be a valid fen string"),
        };
        proof {
            lemma_placement_fails(empty_model(), 1u64 << 63u64, t[0]);
            let placed = place_pieces(empty_model(), 1u64 << 63u64, t[0]);
            if placed.is_some() {
                lemma_rights_fail(
                    BoardModel { white_to_move: t[1] == seq!['w'], ..placed.unwrap().0 },
                    t[2],
                );
            }
            lemma_fen_error_reaches(t3);
        }
        assert(reaches == reaches_en_passant(t));
        if !reaches {
            return true;
        }
        en_passant_field_ok(fen_tokens[3].as_str())
    }

    /// Reads a board from a FEN string whose fields are separated by spaces.
    pub fn state_from_string_fen(fen_string: String) -> (r: BoardState)
        requires
            fen_spec(split_spec(fen_string@)).is_some(),
            reaches_en_passant(split_spec(fen_string@)) ==> en_passant_in_range(
                split_spec(fen_string@)[3],
            ),
        ensures
            fen_spec(split_spec(fen_string@)) == Some(r@),
    {
        let tokens = split_spaces(fen_string.as_str());
        BoardState::state_from_fen(tokens.as_slice()).unwrap()
    }
}


/// The file letter of a square index: `h` for 0 up to `a` for 7.
pub open spec fn file_letter(f: int) -> char {
    if f == 0 {
        'h'
    } else if f == 1 {
        'g'
    } else if f == 2 {
        'f'
    } else if f == 3 {
        'e'
    } else if f == 4 {
        'd'
    } else if f == 5 {
        'c'
    } else if f == 6 {
        'b'
    } else {
        'a'
    }
}

/// The rank digit of a rank index: `1` for 0 up to `8` for 7.
pub open spec fn rank_digit(r: int) -> char {
    if r == 0 {
        '1'
    } else if r == 1 {
        '2'
    } else if r == 2 {
        '3'
    } else if r == 3 {
        '4'
    } else if r == 4 {
        '5'
    } else if r == 5 {
        '6'
    } else if r == 6 {
        '7'
    } else {
        '8'
    }
}

/// The name of square `i`, such as `e4`.
pub open spec fn square_name(i: int) -> Seq<char> {
    seq![file_letter(i % 8), rank_digit(i / 8)]
}

/// The index of the highest set bit.
pub open spec fn msb(mask: u64) -> int {
    63 - u64_leading_zeros(mask)
}

/// The letter of a promotion, none for castling or no promotion.
pub open spec fn promotion_suffix(p: Option<Promotion>) -> Seq<char> {
    match p {
        Some(Promotion::Queen) => seq!['q'],
        Some(Promotion::Bishop) => seq!['b'],
        Some(Promotion::Rook) => seq!['r'],
        Some(Promotion::Knight) => seq!['n'],
        _ => Seq::empty(),
    }
}

/// A move in coordinate notation: the starting and ending squares (each
/// named by its highest set bit) and the promotion letter, if any.
pub open spec fn move_name(mv: MoveRep) -> Seq<char> {
    square_name(msb(mv.starting_square)) + square_name(msb(mv.ending_square)) + promotion_suffix(
        mv.promotion,
    )
}

/// Whether a move can be played back: no capture, no promotion, not a pawn
/// move, and not a castling king move (e1 to a1 or h1, e8 to a8 or h8).
pub open spec fn is_reversible_spec(mv: MoveRep) -> bool {
    let s = mv.starting_square;
    let e = mv.ending_square;
    let e1 = 1u64 << Tables::E1;
    let e8 = 1u64 << Tables::E8;
    let castle_like = mv.moved_type == PieceType::King && ((s == e1 && e == 1u64 << Tables::A1) || (
    s == e1 && e == 1u64 << Tables::H1) || (s == e8 && e == 1u64 << Tables::A8) || (s == e8 && e
        == 1u64 << Tables::H8));
    mv.attacked_type.is_none() && mv.promotion.is_none() && mv.moved_type != PieceType::Pawn
        && !castle_like
}

/// The promotion a move string's fifth character asks for.
pub open spec fn promotion_of(cs: Seq<char>) -> Option<Promotion> {
    if cs.len() > 4 {
        let c = cs[4];
        if c == 'q' {
            Some(Promotion::Queen)
        } else if c == 'r' {
            Some(Promotion::Rook)
        } else if c == 'b' {
            Some(Promotion::Bishop)
        } else if c == 'n' {
            Some(Promotion::Knight)
        } else {
            None
        }
    } else {
        None
    }
}

/// Whether a move string names two squares of the board (reading each
/// square succeeds and stays on the board) and a piece stands on the first.
pub open spec fn move_string_ok(b: BoardModel, cs: Seq<char>) -> bool {
    &&& cs.len() >= 4
    &&& square_mask(cs[0], cs[1]).is_some() && rank_in_range(cs[1])
    &&& square_mask(cs[2], cs[3]).is_some() && rank_in_range(cs[3])
    &&& b.piece_type_at(square_mask(cs[0], cs[1]).unwrap()).is_some()
}

/// The move a coordinate string names on board `b`.
pub open spec fn move_from_string(b: BoardModel, cs: Seq<char>) -> MoveRep {
    let start = square_mask(cs[0], cs[1]).unwrap();
    let end = square_mask(cs[2], cs[3]).unwrap();
    MoveRep {
        starting_square: start,
        ending_square: end,
        promotion: promotion_of(cs),
        moved_type: b.piece_type_at(start).unwrap(),
        attacked_type: b.piece_type_at(end),
    }
}

/// The mask of the square named by a file letter and a rank digit.
fn position_to_mask(file: char, rank: char) -> (r: Result<u64, String>)
    requires
        file_shift(file).is_some() ==> rank_in_range(rank),
    ensures
        match r {
            Ok(m) => square_mask(file, rank) == Some(m),
            Err(e) => square_mask(file, rank).is_none() && e@ == if file_shift(file).is_none() {
                "Unrecognized value \""@ + seq![file] + "\" found in file"@
            } else {
                "Unrecognized value \""@ + seq![rank] + "\" found in rank"@
            },
        },
{
    let file_offset: u64 = match file {
        'h' => 0,
        'g' => 1,
        'f' => 2,
        'e' => 3,
        'd' => 4,
        'c' => 5,
        'b' => 6,
        'a' => 7,
        _ => {
            let mut message = String::from_str("Unrecognized value \"");
            message.append(char_string(file).as_str());
            message.append("\" found in file");
            return Err(message);
        },
    };
    let rank_shift = match to_digit(rank) {
        Some(rank_value) => rank_value,
        None => {
            let mut message = String::from_str("Unrecognized value \"");
            message.append(char_string(rank).as_str());
            message.append("\" found in rank");
            return Err(message);
        },
    };
    let target: u64 = (1u64 << file_offset) << ((rank_shift - 1) * 8);
    assert(target == 1u64 << ((file_offset + 8 * (rank_shift - 1)) as u64)) by (bit_vector)
        requires
            file_offset < 8,
            1 <= rank_shift <= 8,
            target == (1u64 << file_offset) << (((rank_shift - 1) * 8) as u64),
    ;
    Ok(target)
}

/// The one-letter string of a file index.
fn file_str(f: u32) -> (r: &'static str)
    requires
        f < 8,
    ensures
        r@ == seq![file_letter(f as int)],
{
    proof {
        reveal_strlit("h");
        reveal_strlit("g");
        reveal_strlit("f");
        reveal_strlit("e");
        reveal_strlit("d");
        reveal_strlit("c");
        reveal_strlit("b");
        reveal_strlit("a");
    }
    let r = match f {
        0 => "h",
        1 => "g",
        2 => "f",
        3 => "e",
        4 => "d",
        5 => "c",
        6 => "b",
        _ => "a",
    };
    assert(r@ =~= seq![file_letter(f as int)]);
    r
}

/// The one-digit string of a rank index.
fn rank_str(k: u32) -> (r: &'static str)
    requires
        k < 8,
    ensures
        r@ == seq![rank_digit(k as int)],
{
    proof {
        reveal_strlit("1");
        reveal_strlit("2");
        reveal_strlit("3");
        reveal_strlit("4");
        reveal_strlit("5");
        reveal_strlit("6");
        reveal_strlit("7");
        reveal_strlit("8");
    }
    let r = match k {
        0 => "1",
        1 => "2",
        2 => "3",
        3 => "4",
        4 => "5",
        5 => "6",
        6 => "7",
        _ => "8",
    };
    assert(r@ =~= seq![rank_digit(k as int)]);
    r
}

impl MoveRep {
    /// The name of the square of the mask's highest set bit, such as `e4`.
    pub fn mask_to_string(mask: u64) -> (r: Result<String, String>)
        requires
            mask != 0,
        ensures
            r matches Ok(s) && s@ == square_name(msb(mask)),
    {
        proof {
            vstd::std_specs::bits::axiom_u64_leading_zeros(mask);
        }
        let index = 63 - mask.leading_zeros();
        let mut pos = String::new();
        pos.append(file_str(index % 8));
        pos.append(rank_str(index / 8));
        assert(pos@ =~= square_name(msb(mask)));
        Ok(pos)
    }

    /// The move in coordinate notation, such as `e2e4` or `e7e8q`.
    pub fn to_string(&self) -> (r: Result<String, String>)
        requires
            self.starting_square != 0,
            self.ending_square != 0,
        ensures
            r matches Ok(s) && s@ == move_name(*self),
    {
        proof {
            reveal_strlit("q");
            reveal_strlit("b");
            reveal_strlit("r");
            reveal_strlit("n");
        }
        let mut mov = String::new();
        let start = MoveRep::mask_to_string(self.starting_square).unwrap();
        let end = MoveRep::mask_to_string(self.ending_square).unwrap();
        mov.append(start.as_str());
        mov.append(end.as_str());
        match self.promotion {
            Some(Promotion::Queen) => mov.append("q"),
            Some(Promotion::Bishop) => mov.append("b"),
            Some(Promotion::Rook) => mov.append("r"),
            Some(Promotion::Knight) => mov.append("n"),
            _ => {},
        }
        assert(mov@ =~= move_name(*self));
        Ok(mov)
    }

    /// Whether the move can be played back.
    pub fn is_reversible(&self) -> (r: bool)
        ensures
            r == is_reversible_spec(*self),
    {
        // A capture cannot be played back
        if self.attacked_type.is_some() {
            return false;
        }
        // Nor can a promotion
        if self.promotion.is_some() {
            return false;
        }
        // Nor can a pawn move
        if self.moved_type == PieceType::Pawn {
            return false;
        }
        // Nor can castling
        if self.moved_type == PieceType::King && ((self.starting_square == 1 << Tables::E1
            && self.ending_square == 1 << Tables::A1) || (self.starting_square == 1 << Tables::E1
            && self.ending_square == 1 << Tables::H1) || (self.starting_square == 1 << Tables::E8
            && self.ending_square == 1 << Tables::A8) || (self.starting_square == 1 << Tables::E8
            && self.ending_square == 1 << Tables::H8)) {
            return false;
        }
        true
    }
}

impl BoardState {
    /// The move from `start` to `end`, without promotion, of the piece on
    /// `start`.
    fn move_rep_from_masks(&self, start: u64, end: u64) -> (r: MoveRep)
        requires
            self@.piece_type_at(start).is_some(),
        ensures
            r == (MoveRep {
                starting_square: start,
                ending_square: end,
                promotion: None,
                moved_type: self@.piece_type_at(start).unwrap(),
                attacked_type: self@.piece_type_at(end),
            }),
    {
        let moved_piece = self.get_piece_type(start);
        let attacked_piece = self.get_piece_type(end);
        MoveRep {
            starting_square: start,
            ending_square: end,
            promotion: None,
            moved_type: moved_piece.unwrap(),
            attacked_type: attacked_piece,
        }
    }

    /// Plays a move given in coordinate notation, such as `e2e4` or `e7e8q`.
    pub fn apply_string_move(&mut self, play: String)
        requires
            move_string_ok(old(self)@, play@),
            old(self).move_stack_pointer < usize::MAX,
        ensures
            final(self)@ == make_spec(old(self)@, move_from_string(old(self)@, play@)),
    {
        let s = play.as_str();
        let char1 = s.get_char(0);
        let char2 = s.get_char(1);
        let char3 = s.get_char(2);
        let char4 = s.get_char(3);
        let start = position_to_mask(char1, char2).unwrap();
        let end = position_to_mask(char3, char4).unwrap();
        let mut move_rep = self.move_rep_from_masks(start, end);
        if s.unicode_len() > 4 {
            match s.get_char(4) {
                'q' => move_rep.promotion = Some(Promotion::Queen),
                'r' => move_rep.promotion = Some(Promotion::Rook),
                'b' => move_rep.promotion = Some(Promotion::Bishop),
                'n' => move_rep.promotion = Some(Promotion::Knight),
                _ => {},
            }
        }
        assert(move_rep == move_from_string(self@, play@));
        self.make(&move_rep);
    }
}


/// The name of a move ends in the letter of its promotion, the same letter
/// whatever else the move holds: `q` for a queen, `r` for a rook, `b` for a
/// bishop and `n` for a knight; a move without promotion (or castling) has
/// a four-letter name.
pub proof fn lemma_move_name_promotion_letter(mv: MoveRep)
    ensures
        mv.promotion == Some(Promotion::Queen) ==> move_name(mv).len() == 5 && move_name(mv)[4]
            == 'q',
        mv.promotion == Some(Promotion::Rook) ==> move_name(mv).len() == 5 && move_name(mv)[4]
            == 'r',
        mv.promotion == Some(Promotion::Bishop) ==> move_name(mv).len() == 5 && move_name(mv)[4]
            == 'b',
        mv.promotion == Some(Promotion::Knight) ==> move_name(mv).len() == 5 && move_name(mv)[4]
            == 'n',
        mv.promotion is None || mv.promotion == Some(Promotion::Castle) ==> move_name(mv).len()
            == 4,
{
}

/// A move string asks for the promotion its fifth character names: `q` a
/// queen, `r` a rook, `b` a bishop, `n` a knight; a four-letter string, or
/// any other fifth character, asks for none.
pub proof fn lemma_move_string_promotion_letter(b: BoardModel, cs: Seq<char>)
    requires
        cs.len() >= 4,
    ensures
        cs.len() > 4 && cs[4] == 'q' ==> move_from_string(b, cs).promotion == Some(Promotion::Queen),
        cs.len() > 4 && cs[4] == 'r' ==> move_from_string(b, cs).promotion == Some(Promotion::Rook),
        cs.len() > 4 && cs[4] == 'b' ==> move_from_string(b, cs).promotion == Some(Promotion::Bishop),
        cs.len() > 4 && cs[4] == 'n' ==> move_from_string(b, cs).promotion == Some(Promotion::Knight),
        cs.len() == 4 || (cs[4] != 'q' && cs[4] != 'r' && cs[4] != 'b' && cs[4] != 'n')
            ==> move_from_string(b, cs).promotion is None,
{
}

/// The highest set bit of a one-square mask is that square.
pub proof fn lemma_msb_of_square(i: int)
    requires
        0 <= i < 64,
    ensures
        msb(1u64 << (i as u64)) == i,
{
    let x = 1u64 << (i as u64);
    let iu = i as u64;
    vstd::std_specs::bits::axiom_u64_leading_zeros(x);
    assert(x != 0) by (bit_vector)
        requires
            x == 1u64 << iu,
            iu < 64,
    ;
    let lz = u64_leading_zeros(x);
    let k = (63 - lz) as u64;
    assert(k == iu) by (bit_vector)
        requires
            x == 1u64 << iu,
            iu < 64,
            k < 64,
            (x >> k) & 1u64 != 0,
    ;
}

/// Naming square `i` and reading the name back gives the square.
pub proof fn lemma_square_name_roundtrip(i: int)
    requires
        0 <= i < 64,
    ensures
        square_mask(square_name(i)[0], square_name(i)[1]) == Some(1u64 << (i as u64)),
        rank_in_range(square_name(i)[1]),
        file_shift(square_name(i)[0]).is_some(),
{
    assert(file_shift(file_letter(i % 8)) == Some((i % 8) as nat));
    assert(digit_of(rank_digit(i / 8)) == Some((i / 8 + 1) as nat));
    assert((i % 8) + 8 * (i / 8) == i);
}

/// Writing a move in coordinate notation and reading it back on the board
/// it was made for gives the same move, when its squares are single squares,
/// it promotes to nothing or to a queen, rook, bishop or knight, and the
/// pieces it names are those on its squares.
pub proof fn lemma_move_name_roundtrip(b: BoardModel, mv: MoveRep, s: int, e: int)
    requires
        0 <= s < 64,
        0 <= e < 64,
        mv.starting_square == 1u64 << (s as u64),
        mv.ending_square == 1u64 << (e as u64),
        mv.promotion != Some(Promotion::Castle),
        b.piece_type_at(mv.starting_square) == Some(mv.moved_type),
        b.piece_type_at(mv.ending_square) == mv.attacked_type,
    ensures
        move_string_ok(b, move_name(mv)),
        move_from_string(b, move_name(mv)) == mv,
{
    lemma_msb_of_square(s);
    lemma_msb_of_square(e);
    lemma_square_name_roundtrip(s);
    lemma_square_name_roundtrip(e);
    let cs = move_name(mv);
    assert(cs[0] == square_name(s)[0] && cs[1] == square_name(s)[1]);
    assert(cs[2] == square_name(e)[0] && cs[3] == square_name(e)[1]);
    assert(promotion_of(cs) == mv.promotion) by {
        match mv.promotion {
            Some(p) => {
                assert(cs.len() == 5);
                assert(cs[4] == promotion_suffix(mv.promotion)[0]);
            },
            None => {
                assert(cs.len() == 4);
            },
        }
    }
}


/// Writing any move other than castling in coordinate notation and reading
/// it back on its board plays to the same board, when its squares are
/// single squares and the moving piece is the one on its starting square:
/// the name read back names the piece found on the ending square as the
/// captured one (none for an en passant capture), and making a move does
/// not depend on that piece.
pub proof fn lemma_move_name_replays(b: BoardModel, mv: MoveRep, s: int, e: int)
    requires
        0 <= s < 64,
        0 <= e < 64,
        mv.starting_square == 1u64 << (s as u64),
        mv.ending_square == 1u64 << (e as u64),
        mv.promotion != Some(Promotion::Castle),
        b.piece_type_at(mv.starting_square) == Some(mv.moved_type),
    ensures
        move_string_ok(b, move_name(mv)),
        move_from_string(b, move_name(mv)) == (MoveRep {
            attacked_type: b.piece_type_at(mv.ending_square),
            ..mv
        }),
        make_spec(b, move_from_string(b, move_name(mv))) == make_spec(b, mv),
{
    let named = MoveRep { attacked_type: b.piece_type_at(mv.ending_square), ..mv };
    lemma_move_name_roundtrip(b, named, s, e);
    assert(move_name(named) == move_name(mv));
    reveal(make_spec);
}

impl BoardState {
    /// Whether `apply_string_move` can play the move string on this board:
    /// it names two squares of the board and a piece stands on the first.
    pub fn can_apply_string_move(&self, play: &str) -> (r: bool)
        ensures
            r == move_string_ok(self@, play@),
    {
        if play.unicode_len() < 4 {
            return false;
        }
        let char1 = play.get_char(0);
        let char2 = play.get_char(1);
        let char3 = play.get_char(2);
        let char4 = play.get_char(3);
        let first_ok = match to_digit(char2) {
            Some(r) => 1 <= r && r <= 8,
            None => true,
        };
        let second_ok = match to_digit(char4) {
            Some(r) => 1 <= r && r <= 8,
            None => true,
        };
        if !first_ok || !second_ok {
            return false;
        }
        let start = match position_to_mask(char1, char2) {
            Ok(m) => m,
            Err(_) => {
                return false;
            },
        };
        let end = match position_to_mask(char3, char4) {
            Ok(m) => m,
            Err(_) => {
                return false;
            },
        };
        self.get_piece_type(start).is_some()
    }
}

/// The value of a decimal digit.
fn to_digit(c: char) -> (r: Option<u64>)
    ensures
        r.is_some() == digit_of(c).is_some(),
        r.is_some() ==> r.unwrap() == digit_of(c).unwrap(),
{
    if '0' <= c && c <= '9' {
        Some((c as u32 - '0' as u32) as u64)
    } else {
        None
    }
}

/// The piece a FEN letter names.
fn piece_from_char(c: char) -> (r: Option<(PieceType, bool)>)
    ensures
        r == piece_of_char(c),
{
    match c {
        'p' => Some((PieceType::Pawn, false)),
        'r' => Some((PieceType::Rook, false)),
        'n' => Some((PieceType::Knight, false)),
        'b' => Some((PieceType::Bishop, false)),
        'q' => Some((PieceType::Queen, false)),
        'k' => Some((PieceType::King, false)),
        'P' => Some((PieceType::Pawn, true)),
        'R' => Some((PieceType::Rook, true)),
        'N' => Some((PieceType::Knight, true)),
        'B' => Some((PieceType::Bishop, true)),
        'Q' => Some((PieceType::Queen, true)),
        'K' => Some((PieceType::King, true)),
        _ => None,
    }
}

/// `1` where the square's bit is set, else `0`.
pub open spec fn bit_char(bb: u64, i: int) -> char {
    if bb & sq_bit(i) == 0 {
        '0'
    } else {
        '1'
    }
}

/// The squares of rank `k` (0 for rank 1) from the a-file to the h-file,
/// each as `0` or `1`, separated by spaces.
pub open spec fn rank_cells(bb: u64, k: int) -> Seq<char> {
    Seq::new(15, |p: int| if p % 2 == 0 { bit_char(bb, 8 * k + 7 - p / 2) } else { ' ' })
}

/// The printed row of rank `k`: its digit, three spaces, then its cells.
pub open spec fn rank_row(bb: u64, k: int) -> Seq<char> {
    seq![rank_digit(k), ' ', ' ', ' '] + rank_cells(bb, k)
}

/// The row of rank `k` of a bitboard.
fn rank_line(bb: u64, k: u32) -> (r: String)
    requires
        k < 8,
    ensures
        r@ == rank_row(bb, k as int),
{
    proof {
        reveal_strlit("   ");
    }
    let ghost head = seq![rank_digit(k as int), ' ', ' ', ' '];
    let ghost cells = rank_cells(bb, k as int);
    let mut line = String::from_str(rank_str(k));
    line.append("   ");
    assert(line@ =~= head);
    let mut j: u32 = 0;
    while j < 8
        invariant
            k < 8,
            j <= 8,
            head == seq![rank_digit(k as int), ' ', ' ', ' '],
            cells == rank_cells(bb, k as int),
            j == 0 ==> line@ == head,
            j > 0 ==> line@ == head + cells.take(2 * j - 1),
        decreases 8 - j,
    {
        proof {
            reveal_strlit(" ");
            reveal_strlit("0");
            reveal_strlit("1");
        }
        let ghost before = line@;
        if j > 0 {
            line.append(" ");
        }
        let ghost spaced = line@;
        assert(j > 0 ==> spaced =~= before.push(' '));
        assert(j == 0 ==> spaced == before);
        let square: u64 = (8 * k + 7 - j) as u64;
        if bb & (1u64 << square) == 0 {
            line.append("0");
            assert(line@ =~= spaced.push('0'));
        } else {
            line.append("1");
            assert(line@ =~= spaced.push('1'));
        }
        proof {
            assert(sq_bit(square as int) == 1u64 << square);
            assert(line@ =~= spaced.push(bit_char(bb, square as int)));
            assert(cells[2 * j as int] == bit_char(bb, square as int));
            if j > 0 {
                assert(cells[2 * j - 1] == ' ');
                assert(line@ =~= head + cells.take(2 * j + 1));
            } else {
                assert(line@ =~= head + cells.take(1));
            }
        }
        j = j + 1;
    }
    assert(cells.take(15) =~= cells);
    line
}

/// The lines that show a bitboard: the ranks from 8 down to 1, a blank line,
/// and the file letters.
pub fn bitboard_lines(bb: u64) -> (r: Vec<String>)
    ensures
        r@.len() == 10,
        forall|i: int| 0 <= i < 8 ==> (#[trigger] r@[i])@ == rank_row(bb, 7 - i),
        r@[8]@ == Seq::<char>::empty(),
        r@[9]@ == "    a b c d e f g h"@,
{
    let mut lines: Vec<String> = Vec::new();
    let mut k: u32 = 8;
    while k > 0
        invariant
            k <= 8,
            lines@.len() == 8 - k,
            forall|i: int| 0 <= i < 8 - k ==> (#[trigger] lines@[i])@ == rank_row(bb, 7 - i),
        decreases k,
    {
        k = k - 1;
        let line = rank_line(bb, k);
        lines.push(line);
    }
    lines.push(String::new());
    lines.push(String::from_str("    a b c d e f g h"));
    lines
}


/// Whether an en passant field, once read, names a rank of the board.
fn en_passant_field_ok(field: &str) -> (r: bool)
    ensures
        r == en_passant_in_range(field@),
{
    if is_char(field, '-') || field.unicode_len() < 2 {
        return true;
    }
    let file = field.get_char(0);
    let rank = field.get_char(1);
    let on_file = file == 'a' || file == 'b' || file == 'c' || file == 'd' || file == 'e' || file
        == 'f' || file == 'g' || file == 'h';
    if !on_file {
        return true;
    }
    match to_digit(rank) {
        Some(d) => 1 <= d && d <= 8,
        None => true,
    }
}

/// With three fields, reading stops for want of fields exactly when the
/// three fields read.
proof fn lemma_fen_error_reaches(t3: Seq<Seq<char>>)
    requires
        t3.len() == 3,
    ensures
        (fen_error(t3) == too_few_fields()) == (place_pieces(empty_model(), 1u64 << 63u64, t3[0])
            matches Some((placed, shift)) && shift == 0 && (t3[1] == seq!['w'] || t3[1] == seq![
            'b']) && read_rights(BoardModel { white_to_move: t3[1] == seq!['w'], ..placed }, t3[2]).is_some()),
{
    reveal_strlit("String does not have enough tokens to be a valid fen string");
    reveal_strlit("Unexpected character found in ");
    reveal_strlit("Incorect number of positions found (shift_value is ");
    reveal_strlit("Invalid side to move \"");
    reveal_strlit("Unknown character \"");
    lemma_placement_fails(empty_model(), 1u64 << 63u64, t3[0]);
    let placed = place_pieces(empty_model(), 1u64 << 63u64, t3[0]);
    if placed.is_some() {
        lemma_rights_fail(BoardModel { white_to_move: t3[1] == seq!['w'], ..placed.unwrap().0 }, t3[2]);
    }
    let e = fen_error(t3);
    let few = too_few_fields();
    assert(few[0] == 'S');
    if let Some(c) = bad_placement_char(t3[0]) {
        assert(e[0] == 'U');
    } else if placed.unwrap().1 != 0 {
        assert(e[0] == 'I');
    } else if t3[1] != seq!['w'] && t3[1] != seq!['b'] {
        assert(e[0] == 'I');
    } else if let Some(c) = bad_rights_char(t3[2]) {
        assert(e[0] == 'U');
    }
}


} // verus!
