//! Moves: the 16-bit `Move`, the 32-bit `Move32` that also carries the piece
//! after the move, and the Apery encodings used by training data.
//!
//! A `Move` holds the destination in bits 0-6, the origin square (or, for a
//! drop, the piece type) in bits 7-13, the drop flag in bit 14 and the
//! promotion flag in bit 15. The contracts speak of these fields
//! arithmetically.
use vstd::prelude::*;
use crate::text::{push_char, str_chars, string_from_str};
use crate::types::color::Color;
use crate::types::piece::{piece_type_from_text, piece_type_text, Piece, PieceType};
use crate::types::square::{square_usi_spec, Square};

verus! {

/// Bits 0-6 of a raw value.
pub open spec fn low7(raw: int) -> int {
    raw % 128
}

/// Bits 7-13 of a raw value.
pub open spec fn mid7(raw: int) -> int {
    (raw / 128) % 128
}

/// Bit 14 of a raw value.
pub open spec fn bit14(raw: int) -> bool {
    (raw / 16384) % 2 == 1
}

/// Bit 15 of a raw value.
pub open spec fn bit15(raw: int) -> bool {
    (raw / 32768) % 2 == 1
}

/// The low seven bits of a signed byte, as a two's-complement machine keeps them.
pub open spec fn byte7(x: i8) -> int {
    (x as int) % 128
}

/// The 16-bit value with the given fields.
pub open spec fn pack16(to: int, from: int, drop: bool, promote: bool) -> int {
    to + 128 * from + (if drop { 16384int } else { 0int }) + (if promote { 32768int } else { 0int })
}

proof fn lemma_u16_fields(x: u16)
    by (bit_vector)
    ensures
        (x & 0x7fu16) as int == x % 128,
        ((x >> 7u16) & 0x7fu16) as int == (x / 128) % 128,
        (x & 0x4000u16 != 0) == ((x / 16384) % 2 == 1),
        (x & 0x8000u16 != 0) == ((x / 32768) % 2 == 1),
        x as int == x % 128 + 128 * ((x / 128) % 128) + 16384 * ((x / 16384) % 2) + 32768 * ((x / 32768) % 2),
        (x & !0x4000u16) as int == x - 16384 * ((x / 16384) % 2),
        (x & !0xc000u16) as int == x % 16384,
{
}

proof fn lemma_u16_build(a: u16, b: u16, c: u16)
    by (bit_vector)
    requires
        a < 128,
        b < 128,
    ensures
        ((a << 7u16) | b) as int == 128 * a + b,
        ((a << 7u16) | b | 0x4000u16) as int == 128 * a + b + 16384,
        ((a << 7u16) | b | 0x8000u16) as int == 128 * a + b + 32768,
        (c / 16384) % 2 == 1 ==> (c | 0x4000u16) == c,
        (c / 16384) % 2 == 0 ==> (c | 0x4000u16) as int == c + 16384,
        c >= 32768 ==> (c | 0x8000u16) == c,
        c < 32768 ==> (c | 0x8000u16) as int == c + 32768,
{
}

proof fn lemma_u32_bits(x: u32, a: u16, b: u32)
    by (bit_vector)
    requires
        b < 32,
    ensures
        (x as u16) as int == x % 65536,
        ((x >> 16u32) & 0x1fu32) as int == (x / 65536) % 32,
        ((x >> 16u32) & 0xfu32) as int == (x / 65536) % 16,
        ((x >> 20u32) & 0xfu32) as int == (x / 1048576) % 16,
        (((x >> 7u32) as u16) & 0x7fu16) as int == (x / 128) % 128,
        ((a as u32) | (b << 16u32)) as int == (a as u32) + 65536 * b,
{
}

proof fn lemma_byte7(x: i8)
    by (bit_vector)
    ensures
        ((x as u16) & 0x7fu16) as int == (if x >= 0 { x as int } else { x as int + 128 }),
{
}

proof fn lemma_byte7_mod(x: i8)
    ensures
        byte7(x) == (if x >= 0 { x as int } else { x as int + 128 }),
        0 <= byte7(x) < 128,
{
}

/// Field values of a packed 16-bit value.
proof fn lemma_pack16_fields(to: int, from: int, drop: bool, promote: bool)
    requires
        0 <= to < 128,
        0 <= from < 128,
    ensures
        low7(pack16(to, from, drop, promote)) == to,
        mid7(pack16(to, from, drop, promote)) == from,
        bit14(pack16(to, from, drop, promote)) == drop,
        bit15(pack16(to, from, drop, promote)) == promote,
        0 <= pack16(to, from, drop, promote) < 65536,
{
    let d: int = if drop { 1 } else { 0 };
    let p: int = if promote { 1 } else { 0 };
    let v = pack16(to, from, drop, promote);
    assert(v == to + 128 * (from + 128 * (d + 2 * p)));
    vstd::arithmetic::div_mod::lemma_fundamental_div_mod_converse(v, 128, from + 128 * (d + 2 * p), to);
    vstd::arithmetic::div_mod::lemma_fundamental_div_mod_converse(from + 128 * (d + 2 * p), 128, d + 2 * p, from);
    vstd::arithmetic::div_mod::lemma_fundamental_div_mod_converse(d + 2 * p, 2, p, d);
    vstd::arithmetic::div_mod::lemma_div_denominator(v, 128, 128);
    vstd::arithmetic::div_mod::lemma_div_denominator(v, 16384, 2);
}

/// Fields of any 16-bit value determine it.
proof fn lemma_unpack16(raw: int)
    requires
        0 <= raw < 65536,
    ensures
        raw == pack16(low7(raw), mid7(raw), bit14(raw), bit15(raw)),
{
    let t = raw % 128;
    let q = raw / 128;
    let f = q % 128;
    let q2 = q / 128;
    let d = q2 % 2;
    let p = q2 / 2;
    vstd::arithmetic::div_mod::lemma_fundamental_div_mod(raw, 128);
    vstd::arithmetic::div_mod::lemma_fundamental_div_mod(q, 128);
    vstd::arithmetic::div_mod::lemma_fundamental_div_mod(q2, 2);
    vstd::arithmetic::div_mod::lemma_div_denominator(raw, 128, 128);
    vstd::arithmetic::div_mod::lemma_div_denominator(raw, 16384, 2);
    assert(raw / 16384 == q2);
    assert(raw / 32768 == p);
    assert(p < 2);
    vstd::arithmetic::div_mod::lemma_small_mod(p as nat, 2);
}

/// How a move is encoded: a board move, a promotion, or a drop.
#[derive(Clone, Copy, Debug, PartialEq, Eq, Hash, Structural)]
pub enum MoveType {
    Normal,
    Promotion,
    Drop,
}

impl MoveType {
    pub open spec fn from_bits_spec(bits: u16) -> MoveType {
        if bit14(bits as int) {
            MoveType::Drop
        } else if bit15(bits as int) {
            MoveType::Promotion
        } else {
            MoveType::Normal
        }
    }

    /// The move type named by the drop and promotion flags; the drop flag wins.
    pub fn from_bits(bits: u16) -> (r: MoveType)
        ensures
            r == MoveType::from_bits_spec(bits),
    {
        proof {
            lemma_u16_fields(bits);
        }
        if bits & 0x4000u16 != 0 {
            MoveType::Drop
        } else if bits & 0x8000u16 != 0 {
            MoveType::Promotion
        } else {
            MoveType::Normal
        }
    }
}

/// A 16-bit move.
#[derive(Clone, Copy, Debug, PartialEq, Eq, PartialOrd, Ord, Hash, Default, Structural)]
pub struct Move(pub u16);

/// The empty move, as a `Move32`.
#[allow(non_snake_case)]
pub fn MOVE_NONE() -> (r: Move32)
    ensures
        r.0 == 0,
{
    Move32(0)
}

/// The null move, as a `Move32`.
#[allow(non_snake_case)]
pub fn MOVE_NULL() -> (r: Move32)
    ensures
        r.0 == 129,
{
    Move32(129)
}

/// The resignation, as a `Move32`.
#[allow(non_snake_case)]
pub fn MOVE_RESIGN() -> (r: Move32)
    ensures
        r.0 == 258,
{
    Move32(258)
}

/// The declaration of a win, as a `Move32`.
#[allow(non_snake_case)]
pub fn MOVE_WIN() -> (r: Move32)
    ensures
        r.0 == 387,
{
    Move32(387)
}

/// The end marker, as a `Move32`.
#[allow(non_snake_case)]
pub fn MOVE_END() -> (r: Move32)
    ensures
        r.0 == 516,
{
    Move32(516)
}

/// The raw values of the five special moves.
pub open spec fn is_special_raw(raw: int) -> bool {
    raw == 0 || raw == 129 || raw == 258 || raw == 387 || raw == 516
}

#[allow(non_snake_case)]
impl Move {
    pub const MOVE_DROP: u16 = 16384;
    pub const MOVE_PROMOTE: u16 = 32768;

    pub fn MOVE_NONE() -> (r: Move)
        ensures
            r.0 == 0,
    {
        Move(0)
    }

    pub fn MOVE_NULL() -> (r: Move)
        ensures
            r.0 == 129,
    {
        Move(129)
    }

    pub fn MOVE_RESIGN() -> (r: Move)
        ensures
            r.0 == 258,
    {
        Move(258)
    }

    pub fn MOVE_WIN() -> (r: Move)
        ensures
            r.0 == 387,
    {
        Move(387)
    }

    pub fn MOVE_END() -> (r: Move)
        ensures
            r.0 == 516,
    {
        Move(516)
    }

    pub open spec fn to_sq_spec(self) -> Square {
        Square(low7(self.0 as int) as i8)
    }

    pub open spec fn from_sq_spec(self) -> Square {
        Square(mid7(self.0 as int) as i8)
    }

    pub open spec fn is_drop_spec(self) -> bool {
        bit14(self.0 as int)
    }

    pub open spec fn is_promotion_spec(self) -> bool {
        bit15(self.0 as int)
    }

    pub open spec fn dropped_piece_spec(self) -> Option<PieceType> {
        if !self.is_drop_spec() {
            None
        } else {
            let pt = PieceType(mid7(self.0 as int) as i8);
            if pt.is_hand_piece_spec() {
                Some(pt)
            } else {
                None
            }
        }
    }

    /// A real move: not special, a square destination, and either a drop of a hand
    /// piece without promotion or a board move between two different squares.
    pub open spec fn is_normal_spec(self) -> bool {
        &&& !is_special_raw(self.0 as int)
        &&& self.to_sq_spec().is_valid_spec()
        &&& if self.is_drop_spec() {
            !self.is_promotion_spec() && self.dropped_piece_spec() is Some
        } else {
            self.from_sq_spec().is_valid_spec() && self.from_sq_spec() != self.to_sq_spec()
        }
    }

    pub open spec fn normal_spec(from: Square, to: Square) -> Move {
        Move(pack16(byte7(to.0), byte7(from.0), false, false) as u16)
    }

    pub open spec fn promotion_spec(from: Square, to: Square) -> Move {
        Move(pack16(byte7(to.0), byte7(from.0), false, true) as u16)
    }

    pub open spec fn drop_spec(piece_type: PieceType, to: Square) -> Move {
        Move(pack16(byte7(to.0), byte7(piece_type.0), true, false) as u16)
    }

    pub fn from_raw(raw: u16) -> (r: Move)
        ensures
            r.0 == raw,
    {
        Move(raw)
    }

    pub fn raw(self) -> (r: u16)
        ensures
            r == self.0,
    {
        self.0
    }

    /// A board move; each square keeps its low seven bits.
    pub fn normal(from: Square, to: Square) -> (r: Move)
        ensures
            r == Move::normal_spec(from, to),
    {
        proof {
            lemma_byte7(from.0);
            lemma_byte7(to.0);
            lemma_byte7_mod(from.0);
            lemma_byte7_mod(to.0);
            lemma_u16_build((from.0 as u16) & 0x7fu16, (to.0 as u16) & 0x7fu16, 0);
        }
        Move((((from.0 as u16) & 0x7fu16) << 7u16) | ((to.0 as u16) & 0x7fu16))
    }

    /// A board move with promotion.
    pub fn promotion(from: Square, to: Square) -> (r: Move)
        ensures
            r == Move::promotion_spec(from, to),
    {
        proof {
            lemma_byte7(from.0);
            lemma_byte7(to.0);
            lemma_byte7_mod(from.0);
            lemma_byte7_mod(to.0);
            lemma_u16_build((from.0 as u16) & 0x7fu16, (to.0 as u16) & 0x7fu16, 0);
        }
        Move((((from.0 as u16) & 0x7fu16) << 7u16) | ((to.0 as u16) & 0x7fu16) | 0x8000u16)
    }

    /// A drop of `piece_type` on `to`.
    pub fn drop(piece_type: PieceType, to: Square) -> (r: Move)
        ensures
            r == Move::drop_spec(piece_type, to),
    {
        proof {
            lemma_byte7(piece_type.0);
            lemma_byte7(to.0);
            lemma_byte7_mod(piece_type.0);
            lemma_byte7_mod(to.0);
            lemma_u16_build((piece_type.0 as u16) & 0x7fu16, (to.0 as u16) & 0x7fu16, 0);
        }
        Move((((piece_type.0 as u16) & 0x7fu16) << 7u16) | ((to.0 as u16) & 0x7fu16) | 0x4000u16)
    }

    pub fn to_sq(self) -> (r: Square)
        ensures
            r == self.to_sq_spec(),
    {
        proof {
            lemma_u16_fields(self.0);
        }
        Square((self.0 & 0x7fu16) as i8)
    }

    pub fn from_sq(self) -> (r: Square)
        ensures
            r == self.from_sq_spec(),
    {
        proof {
            lemma_u16_fields(self.0);
        }
        Square(((self.0 >> 7u16) & 0x7fu16) as i8)
    }

    pub fn is_drop(self) -> (r: bool)
        ensures
            r == self.is_drop_spec(),
    {
        proof {
            lemma_u16_fields(self.0);
        }
        self.0 & 0x4000u16 != 0
    }

    pub fn is_promotion(self) -> (r: bool)
        ensures
            r == self.is_promotion_spec(),
    {
        proof {
            lemma_u16_fields(self.0);
        }
        self.0 & 0x8000u16 != 0
    }

    pub fn move_type(self) -> (r: MoveType)
        ensures
            r == MoveType::from_bits_spec(self.0),
    {
        MoveType::from_bits(self.0)
    }

    /// The dropped piece type of a drop of a hand piece; `None` otherwise.
    pub fn dropped_piece(self) -> (r: Option<PieceType>)
        ensures
            r == self.dropped_piece_spec(),
    {
        if !self.is_drop() {
            return None;
        }
        proof {
            lemma_u16_fields(self.0);
        }
        let pt = PieceType(((self.0 >> 7u16) & 0x7fu16) as i8);
        if pt.is_hand_piece() {
            Some(pt)
        } else {
            None
        }
    }

    /// The Apery form of this move (see [`apery_from_move_spec`]).
    pub fn to_apery(self) -> (r: AperyMove)
        ensures
            r == apery_from_move_spec(self),
    {
        AperyMove::from_move(self)
    }

    pub fn is_normal(self) -> (r: bool)
        ensures
            r == self.is_normal_spec(),
    {
        let raw = self.0;
        if raw == 0 || raw == 129 || raw == 258 || raw == 387 || raw == 516 {
            return false;
        }
        if !self.to_sq().is_valid() {
            return false;
        }
        if self.is_drop() {
            !self.is_promotion() && self.dropped_piece().is_some()
        } else {
            self.from_sq().is_valid() && self.from_sq().0 != self.to_sq().0
        }
    }
}

/// The square named by a USI file digit and rank letter.
pub open spec fn usi_square_chars(a: char, b: char) -> Option<Square> {
    if '1' <= a && a <= '9' && 'a' <= b && b <= 'i' {
        Some(Square(((a as int - 49) * 9 + (b as int - 97)) as i8))
    } else {
        None
    }
}

/// What parsing `s` as a USI move gives.
pub open spec fn move_from_usi_spec(s: Seq<char>) -> Option<Move> {
    if !vstd::utf8::is_ascii_chars(s) {
        None
    } else if s == "none"@ {
        Some(Move(0))
    } else if s == "null"@ || s == "0000"@ {
        Some(Move(129))
    } else if s == "resign"@ {
        Some(Move(258))
    } else if s == "win"@ {
        Some(Move(387))
    } else if s == "end"@ {
        Some(Move(516))
    } else if s.len() == 4 && s[1] == '*' {
        match (piece_type_from_text(seq![s[0]]), usi_square_chars(s[2], s[3])) {
            (Ok(pt), Some(to)) => {
                let mv = Move::drop_spec(pt, to);
                if mv.is_normal_spec() { Some(mv) } else { None }
            },
            _ => None,
        }
    } else if s.len() == 4 || (s.len() == 5 && s[4] == '+') {
        match (usi_square_chars(s[0], s[1]), usi_square_chars(s[2], s[3])) {
            (Some(from), Some(to)) => {
                let mv = if s.len() == 5 {
                    Move::promotion_spec(from, to)
                } else {
                    Move::normal_spec(from, to)
                };
                if mv.is_normal_spec() { Some(mv) } else { None }
            },
            _ => None,
        }
    } else {
        None
    }
}

/// The USI text of a move: the special names, `none` for any other malformed
/// value, `P*5e` for a drop and `7g7f` or `8h2b+` for a board move.
pub open spec fn move_usi_text(m: Move) -> Seq<char> {
    if m.0 == 0 {
        "none"@
    } else if m.0 == 129 {
        "null"@
    } else if m.0 == 258 {
        "resign"@
    } else if m.0 == 387 {
        "win"@
    } else if m.0 == 516 {
        "end"@
    } else if !m.is_normal_spec() {
        "none"@
    } else if m.is_drop_spec() {
        piece_type_text(PieceType(mid7(m.0 as int) as i8)) + seq!['*'] + square_usi_spec(m.to_sq_spec())
    } else {
        square_usi_spec(m.from_sq_spec()) + square_usi_spec(m.to_sq_spec()) + (if m.is_promotion_spec() {
            seq!['+']
        } else {
            Seq::<char>::empty()
        })
    }
}

fn parse_usi_square(a: char, b: char) -> (r: Option<Square>)
    ensures
        r == usi_square_chars(a, b),
{
    if '1' <= a && a <= '9' && 'a' <= b && b <= 'i' {
        let f = ((a as u32) - 49) as i8;
        let r = ((b as u32) - 97) as i8;
        Some(Square(f * 9 + r))
    } else {
        None
    }
}

impl Move {
    /// Parses a USI move: `none`, `null`/`0000`, `resign`, `win`, `end`, a drop such as
    /// `P*5e` or a board move such as `7g7f`/`8h2b+`. Only moves that pass
    /// [`Move::is_normal`] (besides the special names) are accepted.
    pub fn from_usi(usi: &str) -> (r: Option<Move>)
        ensures
            r == move_from_usi_spec(usi@),
    {
        if !usi.is_ascii() {
            return None;
        }
        let v = str_chars(usi);
        if crate::text::chars_eq_str(v.as_slice(), "none") {
            return Some(Move(0));
        }
        if crate::text::chars_eq_str(v.as_slice(), "null") || crate::text::chars_eq_str(v.as_slice(), "0000") {
            return Some(Move(129));
        }
        if crate::text::chars_eq_str(v.as_slice(), "resign") {
            return Some(Move(258));
        }
        if crate::text::chars_eq_str(v.as_slice(), "win") {
            return Some(Move(387));
        }
        if crate::text::chars_eq_str(v.as_slice(), "end") {
            return Some(Move(516));
        }
        if v.len() == 4 && v[1] == '*' {
            let mut one: Vec<char> = Vec::new();
            one.push(v[0]);
            assert(one@ =~= seq![v@[0]]);
            let pt = match crate::types::piece::parse_piece_type_chars(&one) {
                Ok(pt) => pt,
                Err(_) => return None,
            };
            let to = match parse_usi_square(v[2], v[3]) {
                Some(to) => to,
                None => return None,
            };
            let mv = Move::drop(pt, to);
            return if mv.is_normal() { Some(mv) } else { None };
        }
        if !(v.len() == 4 || (v.len() == 5 && v[4] == '+')) {
            return None;
        }
        let from = match parse_usi_square(v[0], v[1]) {
            Some(sq) => sq,
            None => return None,
        };
        let to = match parse_usi_square(v[2], v[3]) {
            Some(sq) => sq,
            None => return None,
        };
        let mv = if v.len() == 5 { Move::promotion(from, to) } else { Move::normal(from, to) };
        if mv.is_normal() { Some(mv) } else { None }
    }

    /// The USI text of the move (see [`move_usi_text`]).
    pub fn to_usi(self) -> (r: String)
        ensures
            r@ == move_usi_text(self),
    {
        if self.0 == 0 {
            return string_from_str("none");
        }
        if self.0 == 129 {
            return string_from_str("null");
        }
        if self.0 == 258 {
            return string_from_str("resign");
        }
        if self.0 == 387 {
            return string_from_str("win");
        }
        if self.0 == 516 {
            return string_from_str("end");
        }
        if !self.is_normal() {
            return string_from_str("none");
        }
        if let Some(pt) = self.dropped_piece() {
            let mut s = pt.to_string();
            push_char(&mut s, '*');
            let to = self.to_sq().to_usi();
            crate::text::push_str(&mut s, to.as_str());
            return s;
        }
        let mut s = self.from_sq().to_usi();
        let to = self.to_sq().to_usi();
        crate::text::push_str(&mut s, to.as_str());
        if self.is_promotion() {
            push_char(&mut s, '+');
        }
        assert(s@ =~= move_usi_text(self));
        s
    }

    /// The same text as [`Move::to_usi`], as `Display` prints it.
    pub fn to_string(&self) -> (r: String)
        ensures
            r@ == move_usi_text(*self),
    {
        self.to_usi()
    }
}

impl core::str::FromStr for Move {
    type Err = &'static str;

    fn from_str(s: &str) -> (r: Result<Move, &'static str>)
        ensures
            match move_from_usi_spec(s@) {
                Some(m) => r == Ok::<Move, &'static str>(m),
                None => r == Err::<Move, &'static str>("invalid USI move"),
            },
    {
        match Move::from_usi(s) {
            Some(m) => Ok(m),
            None => Err("invalid USI move"),
        }
    }
}

/// Every real move and every special move reads back from its USI text; any
/// other value prints as `none`, which reads back as the empty move.
pub proof fn lemma_move_usi_roundtrip(m: Move)
    ensures
        move_from_usi_spec(move_usi_text(m)) == (if m.is_normal_spec() || is_special_raw(m.0 as int) {
            Some(m)
        } else {
            Some(Move(0))
        }),
{
    reveal_strlit("none");
    reveal_strlit("null");
    reveal_strlit("0000");
    reveal_strlit("resign");
    reveal_strlit("win");
    reveal_strlit("end");
    let s = move_usi_text(m);
    if is_special_raw(m.0 as int) || !m.is_normal_spec() {
        assert(vstd::utf8::is_ascii_chars(s));
        return;
    }
    lemma_unpack16(m.0 as int);
    let to = m.to_sq_spec();
    assert(to.is_valid_spec());
    crate::types::square::lemma_square_usi_roundtrip(to);
    let ts = square_usi_spec(to);
    assert(usi_square_chars(ts[0], ts[1]) == Some(to)) by {
        crate::types::square::lemma_square_coordinates(to);
    }
    if m.is_drop_spec() {
        let pt = PieceType(mid7(m.0 as int) as i8);
        let pts = piece_type_text(pt);
        reveal_strlit("P"); reveal_strlit("L"); reveal_strlit("N"); reveal_strlit("S");
        reveal_strlit("B"); reveal_strlit("R"); reveal_strlit("G");
        assert(pts.len() == 1);
        crate::types::piece::lemma_piece_type_text_roundtrip(pt);
        assert(seq![s[0]] =~= pts);
        assert(s.len() == 4);
        assert(s[0] != 'n' && s[0] != 'r' && s[0] != 'w' && s[0] != 'e' && s[0] != '0');
        assert(s != "none"@ && s != "null"@ && s != "0000"@);
        assert(s[2] == ts[0] && s[3] == ts[1]);
        assert(Move::drop_spec(pt, to) == m);
        assert(vstd::utf8::is_ascii_chars(s));
    } else {
        let from = m.from_sq_spec();
        crate::types::square::lemma_square_usi_roundtrip(from);
        let fs = square_usi_spec(from);
        assert(usi_square_chars(fs[0], fs[1]) == Some(from)) by {
            crate::types::square::lemma_square_coordinates(from);
        }
        assert(s[0] == fs[0] && s[1] == fs[1] && s[2] == ts[0] && s[3] == ts[1]);
        assert('1' <= s[0] <= '9');
        assert(s != "none"@ && s != "null"@ && s != "0000"@ && s != "resign"@ && s != "win"@ && s != "end"@);
        assert(s[1] != '*');
        if m.is_promotion_spec() {
            assert(s.len() == 5 && s[4] == '+');
            assert(Move::promotion_spec(from, to) == m);
        } else {
            assert(s.len() == 4);
            assert(Move::normal_spec(from, to) == m);
        }
        assert(vstd::utf8::is_ascii_chars(s));
    }
}

/// Bits 7-13 of a 32-bit value are those of its low half.
proof fn lemma_mid7_low_half(x: u32)
    ensures
        mid7(x as int) == mid7(x as int % 65536),
{
    let q = x as int / 65536;
    let r = x as int % 65536;
    vstd::arithmetic::div_mod::lemma_fundamental_div_mod(x as int, 65536);
    assert(x as int == r + 128 * (512 * q));
    vstd::arithmetic::div_mod::lemma_hoist_over_denominator(r, 512 * q, 128);
    assert((x as int) / 128 == r / 128 + 512 * q);
    vstd::arithmetic::div_mod::lemma_mod_multiples_vanish(4 * q, r / 128, 128);
    assert(r / 128 + 512 * q == 128 * (4 * q) + r / 128);
}

/// Number of rows times columns of the from-to move table: 81 board origins and
/// 7 hand-piece origins, each with 81 destinations.
pub const FROM_TO_TABLE_SIZE: usize = 7128;

/// A 32-bit move: a `Move` in the low half and the piece after the move in bits 16-20.
#[derive(Clone, Copy, Debug, PartialEq, Eq, PartialOrd, Ord, Hash, Default, Structural)]
pub struct Move32(pub u32);

/// The low five bits of a signed byte.
pub open spec fn byte5(x: i8) -> int {
    (x as int) % 32
}

/// The CSA name of a piece type, for the fourteen real piece types.
pub open spec fn csa_piece_text(pt: PieceType) -> Option<Seq<char>> {
    if pt.0 == 1 { Some("FU"@) }
    else if pt.0 == 2 { Some("KY"@) }
    else if pt.0 == 3 { Some("KE"@) }
    else if pt.0 == 4 { Some("GI"@) }
    else if pt.0 == 7 { Some("KI"@) }
    else if pt.0 == 5 { Some("KA"@) }
    else if pt.0 == 6 { Some("HI"@) }
    else if pt.0 == 8 { Some("OU"@) }
    else if pt.0 == 9 { Some("TO"@) }
    else if pt.0 == 10 { Some("NY"@) }
    else if pt.0 == 11 { Some("NK"@) }
    else if pt.0 == 12 { Some("NG"@) }
    else if pt.0 == 13 { Some("UM"@) }
    else if pt.0 == 14 { Some("RY"@) }
    else { None }
}

fn csa_piece(pt: PieceType) -> (r: Option<&'static str>)
    ensures
        r matches Some(t) ==> csa_piece_text(pt) == Some(t@),
        r is None ==> csa_piece_text(pt) is None,
{
    if pt.0 == 1 { Some("FU") }
    else if pt.0 == 2 { Some("KY") }
    else if pt.0 == 3 { Some("KE") }
    else if pt.0 == 4 { Some("GI") }
    else if pt.0 == 7 { Some("KI") }
    else if pt.0 == 5 { Some("KA") }
    else if pt.0 == 6 { Some("HI") }
    else if pt.0 == 8 { Some("OU") }
    else if pt.0 == 9 { Some("TO") }
    else if pt.0 == 10 { Some("NY") }
    else if pt.0 == 11 { Some("NK") }
    else if pt.0 == 12 { Some("NG") }
    else if pt.0 == 13 { Some("UM") }
    else if pt.0 == 14 { Some("RY") }
    else { None }
}

/// The CSA text of a move with its piece: side sign, origin (`00` for a drop),
/// destination and piece name, such as `+7776FU`.
pub open spec fn move32_csa_text(m: Move32) -> Option<Seq<char>> {
    let mv = m.to_move_spec();
    let piece = m.piece_after_spec();
    if !mv.is_normal_spec() || !(piece.is_valid_spec() && piece.0 != 0) {
        None
    } else {
        match csa_piece_text(piece.piece_type_spec()) {
            None => None,
            Some(name) => {
                let side = if piece.color_spec() == Color::Black { '+' } else { '-' };
                let to = mv.to_sq_spec();
                let from = mv.from_sq_spec();
                let origin = if mv.is_drop_spec() {
                    seq!['0', '0']
                } else {
                    seq![crate::text::digit_char(from.file_spec() + 1), crate::text::digit_char(from.rank_spec() + 1)]
                };
                Some(seq![side] + origin + seq![
                    crate::text::digit_char(to.file_spec() + 1),
                    crate::text::digit_char(to.rank_spec() + 1),
                ] + name)
            },
        }
    }
}

#[allow(non_snake_case)]
impl Move32 {
    pub const FROM_TO_TABLE_SIZE: usize = 7128;

    pub fn MOVE_NONE() -> (r: Move32)
        ensures
            r.0 == 0,
    {
        Move32(0)
    }

    pub fn MOVE_NULL() -> (r: Move32)
        ensures
            r.0 == 129,
    {
        Move32(129)
    }

    pub fn MOVE_RESIGN() -> (r: Move32)
        ensures
            r.0 == 258,
    {
        Move32(258)
    }

    pub fn MOVE_WIN() -> (r: Move32)
        ensures
            r.0 == 387,
    {
        Move32(387)
    }

    pub fn MOVE_END() -> (r: Move32)
        ensures
            r.0 == 516,
    {
        Move32(516)
    }

    pub open spec fn to_move_spec(self) -> Move {
        Move((self.0 % 65536) as u16)
    }

    pub open spec fn piece_after_spec(self) -> Piece {
        Piece(((self.0 / 65536) % 32) as i8)
    }

    pub open spec fn from_move_with_piece_spec(mv: Move, piece_after: Piece) -> Move32 {
        Move32((mv.0 + 65536 * byte5(piece_after.0)) as u32)
    }

    pub open spec fn from_to_index_spec(self) -> Option<usize> {
        let mv = self.to_move_spec();
        if !mv.is_normal_spec() {
            None
        } else {
            let row = if mv.is_drop_spec() { 80 + mid7(mv.0 as int) } else { mid7(mv.0 as int) };
            Some((row * 81 + low7(mv.0 as int)) as usize)
        }
    }

    pub fn from_raw(raw: u32) -> (r: Move32)
        ensures
            r.0 == raw,
    {
        Move32(raw)
    }

    pub fn raw(self) -> (r: u32)
        ensures
            r == self.0,
    {
        self.0
    }

    /// The 16-bit move in the low half.
    pub fn to_move(self) -> (r: Move)
        ensures
            r == self.to_move_spec(),
    {
        proof {
            lemma_u32_bits(self.0, 0, 0);
        }
        Move(self.0 as u16)
    }

    /// `mv` with the low five bits of `piece_after` in bits 16-20.
    pub fn from_move_with_piece(mv: Move, piece_after: Piece) -> (r: Move32)
        ensures
            r == Move32::from_move_with_piece_spec(mv, piece_after),
    {
        let p = piece_after.0;
        // the low five bits of the two's-complement byte
        let b: u32 = if p >= 0 { (p as u32) % 32 } else { ((p as i16 + 128) as u32) % 32 };
        proof {
            assert(p < 0 ==> (p as int + 128) % 32 == (p as int) % 32);
            lemma_u32_bits(0, mv.0, b);
        }
        Move32((mv.0 as u32) | (b << 16u32))
    }

    pub fn normal(from: Square, to: Square, piece: Piece) -> (r: Move32)
        ensures
            r == Move32::from_move_with_piece_spec(Move::normal_spec(from, to), piece),
    {
        Move32::from_move_with_piece(Move::normal(from, to), piece)
    }

    /// A promotion; the piece after the move is `piece` promoted.
    pub fn promotion(from: Square, to: Square, piece: Piece) -> (r: Move32)
        ensures
            r == Move32::from_move_with_piece_spec(
                Move::promotion_spec(from, to),
                Piece::from_parts_spec(piece.color_spec(), piece.piece_type_spec().promote_spec()),
            ),
    {
        Move32::from_move_with_piece(Move::promotion(from, to), piece.promote())
    }

    /// A drop; the piece after the move is `piece_type` of `color`.
    pub fn drop(piece_type: PieceType, to: Square, color: Color) -> (r: Move32)
        requires
            -128 <= color.index_spec() * 16 + piece_type.0 <= 127,
        ensures
            r == Move32::from_move_with_piece_spec(
                Move::drop_spec(piece_type, to),
                Piece::from_parts_spec(color, piece_type),
            ),
    {
        Move32::from_move_with_piece(Move::drop(piece_type, to), Piece::from_parts(color, piece_type))
    }

    pub fn to_sq(self) -> (r: Square)
        ensures
            r == self.to_move_spec().to_sq_spec(),
    {
        self.to_move().to_sq()
    }

    pub fn from_sq(self) -> (r: Square)
        ensures
            r == self.to_move_spec().from_sq_spec(),
    {
        self.to_move().from_sq()
    }

    pub fn is_drop(self) -> (r: bool)
        ensures
            r == self.to_move_spec().is_drop_spec(),
    {
        self.to_move().is_drop()
    }

    pub fn is_promotion(self) -> (r: bool)
        ensures
            r == self.to_move_spec().is_promotion_spec(),
    {
        self.to_move().is_promotion()
    }

    pub fn is_normal(self) -> (r: bool)
        ensures
            r == self.to_move_spec().is_normal_spec(),
    {
        self.to_move().is_normal()
    }

    pub fn move_type(self) -> (r: MoveType)
        ensures
            r == MoveType::from_bits_spec(self.to_move_spec().0),
    {
        self.to_move().move_type()
    }

    pub fn dropped_piece(self) -> (r: Option<PieceType>)
        ensures
            r == self.to_move_spec().dropped_piece_spec(),
    {
        self.to_move().dropped_piece()
    }

    /// The piece after the move, from bits 16-20.
    pub fn piece_after_move(self) -> (r: Piece)
        ensures
            r == self.piece_after_spec(),
    {
        proof {
            lemma_u32_bits(self.0, 0, 0);
        }
        Piece(((self.0 >> 16u32) & 0x1fu32) as i8)
    }

    /// Whether a real piece is recorded.
    pub fn has_piece_info(self) -> (r: bool)
        ensures
            r == (self.piece_after_spec().is_valid_spec() && self.piece_after_spec().0 != 0),
    {
        let p = self.piece_after_move();
        p.is_valid() && !p.is_empty()
    }

    /// Bits 7-13: the origin square, or the dropped piece type.
    pub fn from_index(self) -> (r: usize)
        ensures
            r == mid7(self.0 as int),
    {
        proof {
            lemma_u32_bits(self.0, 0, 0);
        }
        (((self.0 >> 7u32) as u16) & 0x7fu16) as usize
    }

    /// Bits 0-6: the destination square.
    pub fn to_index(self) -> (r: usize)
        ensures
            r == low7(self.to_move_spec().0 as int),
    {
        self.to_sq().to_index()
    }

    /// The row of the from-to table (origin square, or 81 + hand piece - 1)
    /// times 81 plus the destination; `None` for a move that is not real.
    pub fn from_to_index(self) -> (r: Option<usize>)
        ensures
            r == self.from_to_index_spec(),
            r matches Some(i) ==> i < FROM_TO_TABLE_SIZE,
    {
        if !self.is_normal() {
            return None;
        }
        proof {
            lemma_mid7_low_half(self.0);
        }
        let from_row = if self.is_drop() {
            81 + self.from_index() - 1
        } else {
            self.from_index()
        };
        Some(from_row * 81 + self.to_index())
    }

    /// Parses a USI move into the low half; no piece is recorded.
    pub fn from_usi(usi: &str) -> (r: Option<Move32>)
        ensures
            r == (match move_from_usi_spec(usi@) {
                Some(m) => Some(Move32(m.0 as u32)),
                None => None,
            }),
    {
        match Move::from_usi(usi) {
            Some(mv) => Some(Move32(mv.0 as u32)),
            None => None,
        }
    }

    pub fn to_usi(self) -> (r: String)
        ensures
            r@ == move_usi_text(self.to_move_spec()),
    {
        self.to_move().to_usi()
    }

    /// The same text as [`Move32::to_usi`], as `Display` prints it.
    pub fn to_string(&self) -> (r: String)
        ensures
            r@ == move_usi_text(self.to_move_spec()),
    {
        self.to_usi()
    }

    /// The CSA text of the move (see [`move32_csa_text`]); `None` when the move is
    /// not real or carries no piece.
    pub fn to_csa(self) -> (r: Option<String>)
        ensures
            r matches Some(t) ==> move32_csa_text(self) == Some(t@),
            r is None ==> move32_csa_text(self) is None,
    {
        if !self.is_normal() || !self.has_piece_info() {
            return None;
        }
        let piece = self.piece_after_move();
        let name = match csa_piece(piece.piece_type()) {
            Some(n) => n,
            None => return None,
        };
        let mv = self.to_move();
        let to = mv.to_sq();
        let mut s = String::new();
        push_char(&mut s, if piece.color() == Color::Black { '+' } else { '-' });
        if mv.is_drop() {
            push_char(&mut s, '0');
            push_char(&mut s, '0');
        } else {
            let from = mv.from_sq();
            proof {
                crate::types::square::lemma_square_coordinates(from);
            }
            push_char(&mut s, digit(from.file().0));
            push_char(&mut s, digit(from.rank().0));
        }
        proof {
            crate::types::square::lemma_square_coordinates(to);
        }
        push_char(&mut s, digit(to.file().0));
        push_char(&mut s, digit(to.rank().0));
        crate::text::push_str(&mut s, name);
        assert(s@ =~= move32_csa_text(self)->0);
        Some(s)
    }
}

/// The digit character for a coordinate `0..9` counted from one.
fn digit(v: i8) -> (c: char)
    requires
        0 <= v < 9,
    ensures
        c == crate::text::digit_char(v + 1),
{
    ((v as u8) + 49u8) as char
}

impl core::str::FromStr for Move32 {
    type Err = &'static str;

    fn from_str(s: &str) -> (r: Result<Move32, &'static str>)
        ensures
            match move_from_usi_spec(s@) {
                Some(m) => r == Ok::<Move32, &'static str>(Move32(m.0 as u32)),
                None => r == Err::<Move32, &'static str>("invalid USI move"),
            },
    {
        match Move32::from_usi(s) {
            Some(m) => Ok(m),
            None => Err("invalid USI move"),
        }
    }
}

impl vstd::std_specs::convert::FromSpecImpl<Move> for Move32 {
    open spec fn obeys_from_spec() -> bool {
        true
    }

    open spec fn from_spec(v: Move) -> Move32 {
        Move32(v.0 as u32)
    }
}

impl core::convert::From<Move> for Move32 {
    fn from(v: Move) -> Move32 {
        Move32(v.0 as u32)
    }
}

impl vstd::std_specs::convert::FromSpecImpl<Move32> for Move {
    open spec fn obeys_from_spec() -> bool {
        true
    }

    open spec fn from_spec(v: Move32) -> Move {
        v.to_move_spec()
    }
}

impl core::convert::From<Move32> for Move {
    fn from(v: Move32) -> Move {
        v.to_move()
    }
}

/// Packing a move and a piece into a `Move32` keeps both: the move reads back
/// unchanged and the piece reads back as its low five bits (itself for any real
/// piece).
pub proof fn lemma_move32_packing(mv: Move, piece: Piece)
    ensures
        Move32::from_move_with_piece_spec(mv, piece).to_move_spec() == mv,
        Move32::from_move_with_piece_spec(mv, piece).piece_after_spec() == Piece(byte5(piece.0) as i8),
        0 <= piece.0 < 32 ==> Move32::from_move_with_piece_spec(mv, piece).piece_after_spec() == piece,
{
    let b = byte5(piece.0);
    let v = mv.0 + 65536 * b;
    assert(0 <= b < 32);
    assert(0 <= v < 0x1_0000_0000);
    vstd::arithmetic::div_mod::lemma_fundamental_div_mod_converse(v, 65536, b, mv.0 as int);
    vstd::arithmetic::div_mod::lemma_small_mod(b as nat, 32);
}


/// What a move did: the piece after the move, the captured piece, the flags, and
/// the from-to table index (`u16::MAX` when absent).
#[derive(Clone, Copy, Debug, Default, PartialEq, Eq, Hash, Structural)]
pub struct Move32Metadata {
    piece_after_move: Piece,
    captured_piece: Piece,
    is_capture: bool,
    is_promotion: bool,
    is_drop: bool,
    from_to_index: u16,
}

/// The stored form of an optional from-to index: the index when it lies in
/// the table, else `u16::MAX`.
pub open spec fn encode_from_to_index_spec(index: Option<usize>) -> u16 {
    match index {
        Some(i) => if i < FROM_TO_TABLE_SIZE { i as u16 } else { 65535u16 },
        None => 65535u16,
    }
}

impl Move32Metadata {
    pub closed spec fn piece_after_move_spec(self) -> Piece {
        self.piece_after_move
    }

    pub closed spec fn captured_piece_spec(self) -> Piece {
        self.captured_piece
    }

    pub closed spec fn is_capture_spec(self) -> bool {
        self.is_capture
    }

    pub closed spec fn is_promotion_spec(self) -> bool {
        self.is_promotion
    }

    pub closed spec fn is_drop_spec(self) -> bool {
        self.is_drop
    }

    /// The index as read back: `None` for the sentinel.
    pub closed spec fn from_to_index_spec(self) -> Option<usize> {
        if self.from_to_index == 65535 {
            None
        } else {
            Some(self.from_to_index as usize)
        }
    }

    fn encode_from_to_index(index: Option<usize>) -> (r: u16)
        ensures
            r == encode_from_to_index_spec(index),
    {
        match index {
            Some(i) => if i < FROM_TO_TABLE_SIZE { i as u16 } else { 65535u16 },
            None => 65535u16,
        }
    }

    /// Metadata of a move with no promotion and no drop; it is a capture when a
    /// piece was captured. An index outside the table is not kept.
    pub fn new(piece_after_move: Piece, captured_piece: Piece, from_to_index: Option<usize>) -> (r: Self)
        ensures
            r.piece_after_move_spec() == piece_after_move,
            r.captured_piece_spec() == captured_piece,
            r.is_capture_spec() == (captured_piece.0 != 0),
            !r.is_promotion_spec(),
            !r.is_drop_spec(),
            r.from_to_index_spec() == (match from_to_index {
                Some(i) => if i < FROM_TO_TABLE_SIZE { Some(i) } else { None },
                None => None,
            }),
    {
        Move32Metadata {
            piece_after_move,
            captured_piece,
            is_capture: !captured_piece.is_empty(),
            is_promotion: false,
            is_drop: false,
            from_to_index: Self::encode_from_to_index(from_to_index),
        }
    }

    /// Metadata with every field given; an index outside the table is not kept.
    pub fn with_from_to_index(
        piece_after_move: Piece,
        captured_piece: Piece,
        is_capture: bool,
        is_promotion: bool,
        is_drop: bool,
        from_to_index: Option<usize>,
    ) -> (r: Self)
        ensures
            r.piece_after_move_spec() == piece_after_move,
            r.captured_piece_spec() == captured_piece,
            r.is_capture_spec() == is_capture,
            r.is_promotion_spec() == is_promotion,
            r.is_drop_spec() == is_drop,
            r.from_to_index_spec() == (match from_to_index {
                Some(i) => if i < FROM_TO_TABLE_SIZE { Some(i) } else { None },
                None => None,
            }),
    {
        Move32Metadata {
            piece_after_move,
            captured_piece,
            is_capture,
            is_promotion,
            is_drop,
            from_to_index: Self::encode_from_to_index(from_to_index),
        }
    }

    pub fn piece_after_move(self) -> (r: Piece)
        ensures
            r == self.piece_after_move_spec(),
    {
        self.piece_after_move
    }

    pub fn captured_piece(self) -> (r: Piece)
        ensures
            r == self.captured_piece_spec(),
    {
        self.captured_piece
    }

    pub fn captured_piece_type(self) -> (r: PieceType)
        ensures
            r == self.captured_piece_spec().piece_type_spec(),
    {
        self.captured_piece.piece_type()
    }

    pub fn is_capture(self) -> (r: bool)
        ensures
            r == self.is_capture_spec(),
    {
        self.is_capture
    }

    pub fn is_promotion(self) -> (r: bool)
        ensures
            r == self.is_promotion_spec(),
    {
        self.is_promotion
    }

    pub fn is_drop(self) -> (r: bool)
        ensures
            r == self.is_drop_spec(),
    {
        self.is_drop
    }

    pub fn from_to_index(self) -> (r: Option<usize>)
        ensures
            r == self.from_to_index_spec(),
    {
        if self.from_to_index == 65535u16 {
            None
        } else {
            Some(self.from_to_index as usize)
        }
    }
}

/// A move in Apery's 16-bit layout: destination in bits 0-6, origin in bits 7-13
/// (for a drop, `81 + piece type - 1`), promotion flag in bit 14.
#[derive(Clone, Copy, Debug, PartialEq, Eq, PartialOrd, Ord, Hash, Default, Structural)]
pub struct AperyMove(pub u16);

/// The Apery form of a move.
pub open spec fn apery_from_move_spec(mv: Move) -> AperyMove {
    if !mv.is_drop_spec() {
        AperyMove(pack16(low7(mv.0 as int), mid7(mv.0 as int), mv.is_promotion_spec(), false) as u16)
    } else {
        let pt: int = match mv.dropped_piece_spec() {
            Some(pt) => pt.0 as int,
            None => 0,
        };
        AperyMove(pack16(low7(mv.0 as int), 80 + pt, mv.is_promotion_spec(), false) as u16)
    }
}

#[allow(non_snake_case)]
impl AperyMove {
    /// The origin field (bits 7-13).
    pub open spec fn source_spec(self) -> int {
        mid7(self.0 as int)
    }

    pub open spec fn is_drop_spec(self) -> bool {
        self.source_spec() >= 81
    }

    pub open spec fn is_promotion_spec(self) -> bool {
        bit14(self.0 as int)
    }

    /// The `Move` an Apery move stands for. A drop whose promotion flag is set
    /// keeps it as a (malformed) promotion flag.
    pub open spec fn to_move_spec(self) -> Move {
        let t = low7(self.0 as int);
        if self.is_drop_spec() {
            Move(pack16(t, self.source_spec() - 80, true, self.is_promotion_spec()) as u16)
        } else {
            Move(pack16(t, self.source_spec(), false, bit15(self.0 as int) || self.is_promotion_spec()) as u16)
        }
    }

    pub open spec fn dropped_piece_spec(self) -> Option<PieceType> {
        if !self.is_drop_spec() {
            None
        } else {
            let pt = PieceType((self.source_spec() - 80) as i8);
            if pt.is_hand_piece_spec() { Some(pt) } else { None }
        }
    }

    pub fn from_raw(raw: u16) -> (r: AperyMove)
        ensures
            r.0 == raw,
    {
        AperyMove(raw)
    }

    pub fn raw(self) -> (r: u16)
        ensures
            r == self.0,
    {
        self.0
    }

    /// The Apery form of `mv` (see [`apery_from_move_spec`]).
    pub fn from_move(mv: Move) -> (r: AperyMove)
        ensures
            r == apery_from_move_spec(mv),
    {
        proof {
            lemma_u16_fields(mv.0);
        }
        if !mv.is_drop() {
            let base = mv.0 & !0xc000u16;
            proof {
                lemma_u16_build(0, 0, base);
                assert(base as int == low7(mv.0 as int) + 128 * mid7(mv.0 as int)) by {
                    lemma_unpack16(mv.0 as int);
                }
            }
            if mv.is_promotion() {
                return AperyMove(base | 0x4000u16);
            }
            return AperyMove(base);
        }
        let pt: u16 = match mv.dropped_piece() {
            Some(pt) => pt.0 as u16,
            None => 0,
        };
        let source: u16 = 80 + pt;
        let to_sq = mv.to_sq();
        let to: u16 = (to_sq.0 as u16) & 0x7fu16;
        proof {
            lemma_byte7(to_sq.0);
            lemma_u16_build(source, to, 0);
        }
        if mv.is_promotion() {
            AperyMove((source << 7u16) | to | 0x4000u16)
        } else {
            AperyMove((source << 7u16) | to)
        }
    }

    /// The `Move` this stands for (see [`AperyMove::to_move_spec`]).
    pub fn to_move(self) -> (r: Move)
        ensures
            r == self.to_move_spec(),
    {
        proof {
            lemma_u16_fields(self.0);
            lemma_unpack16(self.0 as int);
        }
        let source = (self.0 >> 7u16) & 0x7fu16;
        let to = Square((self.0 & 0x7fu16) as i8);
        if source >= 81 {
            let mut mv = Move::drop(PieceType((source - 80) as i8), to);
            if self.is_promotion() {
                proof {
                    lemma_pack16_fields(low7(self.0 as int), source - 80, true, false);
                    lemma_u16_build(0, 0, mv.0);
                }
                mv = Move(mv.0 | 0x8000u16);
            }
            return mv;
        }
        let cleared = self.0 & !0x4000u16;
        proof {
            lemma_u16_build(0, 0, cleared);
            lemma_pack16_fields(low7(self.0 as int), source as int, false, bit15(self.0 as int));
        }
        if self.is_promotion() {
            Move(cleared | 0x8000u16)
        } else {
            Move(cleared)
        }
    }

    pub fn to_sq(self) -> (r: Square)
        ensures
            r == Square(low7(self.0 as int) as i8),
    {
        proof {
            lemma_u16_fields(self.0);
        }
        Square((self.0 & 0x7fu16) as i8)
    }

    /// The origin square; the "no square" value for a drop.
    pub fn from_sq(self) -> (r: Square)
        ensures
            r == (if self.is_drop_spec() { Square(81) } else { Square(self.source_spec() as i8) }),
    {
        proof {
            lemma_u16_fields(self.0);
        }
        let source = (self.0 >> 7u16) & 0x7fu16;
        if source >= 81 {
            Square(81)
        } else {
            Square(source as i8)
        }
    }

    pub fn is_drop(self) -> (r: bool)
        ensures
            r == self.is_drop_spec(),
    {
        proof {
            lemma_u16_fields(self.0);
        }
        ((self.0 >> 7u16) & 0x7fu16) >= 81
    }

    pub fn is_promotion(self) -> (r: bool)
        ensures
            r == self.is_promotion_spec(),
    {
        proof {
            lemma_u16_fields(self.0);
        }
        self.0 & 0x4000u16 != 0
    }

    pub fn move_type(self) -> (r: MoveType)
        ensures
            r == MoveType::from_bits_spec(self.to_move_spec().0),
    {
        self.to_move().move_type()
    }

    pub fn dropped_piece(self) -> (r: Option<PieceType>)
        ensures
            r == self.dropped_piece_spec(),
    {
        if !self.is_drop() {
            return None;
        }
        proof {
            lemma_u16_fields(self.0);
        }
        let pt = PieceType((((self.0 >> 7u16) & 0x7fu16) - 80) as i8);
        if pt.is_hand_piece() {
            Some(pt)
        } else {
            None
        }
    }

    /// A real move: not a drop with the promotion flag, and its `Move` is real.
    pub fn is_normal(self) -> (r: bool)
        ensures
            r == (!(self.is_drop_spec() && self.is_promotion_spec()) && self.to_move_spec().is_normal_spec()),
    {
        !(self.is_drop() && self.is_promotion()) && self.to_move().is_normal()
    }

    pub fn from_usi(usi: &str) -> (r: Option<AperyMove>)
        ensures
            r == (match move_from_usi_spec(usi@) {
                Some(m) => Some(apery_from_move_spec(m)),
                None => None,
            }),
    {
        match Move::from_usi(usi) {
            Some(mv) => Some(AperyMove::from_move(mv)),
            None => None,
        }
    }

    pub fn to_usi(self) -> (r: String)
        ensures
            r@ == move_usi_text(self.to_move_spec()),
    {
        self.to_move().to_usi()
    }

    /// The same text as [`AperyMove::to_usi`], as `Display` prints it.
    pub fn to_string(&self) -> (r: String)
        ensures
            r@ == move_usi_text(self.to_move_spec()),
    {
        self.to_usi()
    }
}

impl core::str::FromStr for AperyMove {
    type Err = &'static str;

    fn from_str(s: &str) -> (r: Result<AperyMove, &'static str>)
        ensures
            match move_from_usi_spec(s@) {
                Some(m) => r == Ok::<AperyMove, &'static str>(apery_from_move_spec(m)),
                None => r == Err::<AperyMove, &'static str>("invalid USI move"),
            },
    {
        match AperyMove::from_usi(s) {
            Some(m) => Ok(m),
            None => Err("invalid USI move"),
        }
    }
}


/// A real move translated to Apery's layout and back is the same move.
pub proof fn lemma_apery_move_roundtrip(mv: Move)
    requires
        mv.is_normal_spec(),
    ensures
        apery_from_move_spec(mv).to_move_spec() == mv,
{
    let t = low7(mv.0 as int);
    let f = mid7(mv.0 as int);
    lemma_unpack16(mv.0 as int);
    assert(0 <= t < 128 && 0 <= f < 128);
    if mv.is_drop_spec() {
        lemma_pack16_fields(t, 80 + f, mv.is_promotion_spec(), false);
        lemma_pack16_fields(t, f, true, mv.is_promotion_spec());
    } else {
        lemma_pack16_fields(t, f, mv.is_promotion_spec(), false);
        lemma_pack16_fields(t, f, false, mv.is_promotion_spec());
    }
}

/// An Apery value whose bit 15 is clear and whose origin field is a board
/// square or a hand piece (at most 87) translates to a `Move` and back
/// unchanged; this includes a drop carrying the promotion flag.
pub proof fn lemma_apery_value_roundtrip(a: AperyMove)
    requires
        !bit15(a.0 as int),
        a.source_spec() <= 87,
    ensures
        apery_from_move_spec(a.to_move_spec()) == a,
{
    let t = low7(a.0 as int);
    let f = a.source_spec();
    let p = a.is_promotion_spec();
    lemma_unpack16(a.0 as int);
    assert(0 <= t < 128 && 0 <= f < 128);
    if a.is_drop_spec() {
        lemma_pack16_fields(t, f - 80, true, p);
        lemma_pack16_fields(t, f, p, false);
    } else {
        lemma_pack16_fields(t, f, false, p);
        lemma_pack16_fields(t, f, p, false);
    }
}

/// A move in Apery's 32-bit layout: an `AperyMove` in the low half, the piece type
/// before the move in bits 16-19 and the captured piece type in bits 20-23.
#[derive(Clone, Copy, Debug, PartialEq, Eq, PartialOrd, Ord, Hash, Default, Structural)]
pub struct AperyMove32(pub u32);

impl AperyMove32 {
    pub open spec fn to_apery_move_spec(self) -> AperyMove {
        AperyMove((self.0 % 65536) as u16)
    }

    pub open spec fn piece_type_before_spec(self) -> PieceType {
        if self.to_apery_move_spec().is_drop_spec() {
            PieceType(0)
        } else {
            PieceType(((self.0 / 65536) % 16) as i8)
        }
    }

    pub open spec fn captured_piece_type_spec(self) -> PieceType {
        PieceType(((self.0 / 1048576) % 16) as i8)
    }

    pub fn from_raw(raw: u32) -> (r: AperyMove32)
        ensures
            r.0 == raw,
    {
        AperyMove32(raw)
    }

    pub fn raw(self) -> (r: u32)
        ensures
            r == self.0,
    {
        self.0
    }

    pub fn to_apery_move(self) -> (r: AperyMove)
        ensures
            r == self.to_apery_move_spec(),
    {
        proof {
            lemma_u32_bits(self.0, 0, 0);
        }
        AperyMove(self.0 as u16)
    }

    pub fn to_move(self) -> (r: Move)
        ensures
            r == self.to_apery_move_spec().to_move_spec(),
    {
        self.to_apery_move().to_move()
    }

    pub fn to_sq(self) -> (r: Square)
        ensures
            r == Square(low7(self.to_apery_move_spec().0 as int) as i8),
    {
        self.to_apery_move().to_sq()
    }

    pub fn from_sq(self) -> (r: Square)
        ensures
            r == (if self.to_apery_move_spec().is_drop_spec() {
                Square(81)
            } else {
                Square(self.to_apery_move_spec().source_spec() as i8)
            }),
    {
        self.to_apery_move().from_sq()
    }

    pub fn is_drop(self) -> (r: bool)
        ensures
            r == self.to_apery_move_spec().is_drop_spec(),
    {
        self.to_apery_move().is_drop()
    }

    pub fn is_promotion(self) -> (r: bool)
        ensures
            r == self.to_apery_move_spec().is_promotion_spec(),
    {
        self.to_apery_move().is_promotion()
    }

    pub fn is_normal(self) -> (r: bool)
        ensures
            r == ({
                let a = self.to_apery_move_spec();
                !(a.is_drop_spec() && a.is_promotion_spec()) && a.to_move_spec().is_normal_spec()
            }),
    {
        self.to_apery_move().is_normal()
    }

    /// Whether a captured piece type is recorded (bits 20-23 not zero).
    pub fn is_capture(self) -> (r: bool)
        ensures
            r == ((self.0 / 1048576) % 16 != 0),
    {
        proof {
            lemma_u32_bits(self.0, 0, 0);
        }
        ((self.0 >> 20u32) & 0xfu32) != 0
    }

    pub fn move_type(self) -> (r: MoveType)
        ensures
            r == MoveType::from_bits_spec(self.to_apery_move_spec().to_move_spec().0),
    {
        self.to_apery_move().move_type()
    }

    pub fn dropped_piece(self) -> (r: Option<PieceType>)
        ensures
            r == self.to_apery_move_spec().dropped_piece_spec(),
    {
        self.to_apery_move().dropped_piece()
    }

    /// The piece type that moved, from bits 16-19; none for a drop.
    pub fn piece_type_before(self) -> (r: PieceType)
        ensures
            r == self.piece_type_before_spec(),
    {
        proof {
            lemma_u32_bits(self.0, 0, 0);
        }
        if self.is_drop() {
            PieceType(0)
        } else {
            PieceType(((self.0 >> 16u32) & 0xfu32) as i8)
        }
    }

    /// The piece type after the move: the dropped piece, the promoted piece type
    /// for a promotion, else the piece type before.
    pub fn piece_type_after(self) -> (r: PieceType)
        ensures
            r == (if self.to_apery_move_spec().is_drop_spec() {
                match self.to_apery_move_spec().dropped_piece_spec() {
                    Some(pt) => pt,
                    None => PieceType(0),
                }
            } else if self.to_apery_move_spec().is_promotion_spec() {
                self.piece_type_before_spec().promote_spec()
            } else {
                self.piece_type_before_spec()
            }),
    {
        if self.is_drop() {
            match self.dropped_piece() {
                Some(pt) => pt,
                None => PieceType(0),
            }
        } else if self.is_promotion() {
            self.piece_type_before().promote()
        } else {
            self.piece_type_before()
        }
    }

    /// The captured piece type, from bits 20-23.
    pub fn captured_piece_type(self) -> (r: PieceType)
        ensures
            r == self.captured_piece_type_spec(),
    {
        proof {
            lemma_u32_bits(self.0, 0, 0);
        }
        PieceType(((self.0 >> 20u32) & 0xfu32) as i8)
    }

    pub fn to_usi(self) -> (r: String)
        ensures
            r@ == move_usi_text(self.to_apery_move_spec().to_move_spec()),
    {
        self.to_move().to_usi()
    }

    /// The same text as [`AperyMove32::to_usi`], as `Display` prints it.
    pub fn to_string(&self) -> (r: String)
        ensures
            r@ == move_usi_text(self.to_apery_move_spec().to_move_spec()),
    {
        self.to_usi()
    }
}

} // verus!
