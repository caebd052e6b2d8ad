//! Piece types and colored pieces.
use vstd::prelude::*;
use vstd::std_specs::iter::IteratorSpec;
use crate::text::{ascii_lower_seq, ascii_upper_seq, str_chars, string_from_str};
use crate::types::color::Color;

verus! {

/// A piece type: `0` none, `1..=8` pawn, lance, knight, silver, bishop, rook,
/// gold, king; `9..=14` their promoted forms (`raw + 8`); `15` is the internal
/// gold-like marker. Any `i8` can be held.
#[derive(Clone, Copy, Debug, PartialEq, Eq, PartialOrd, Ord, Hash, Structural)]
pub struct PieceType(pub i8);

#[allow(non_snake_case)]
impl PieceType {
    pub const PIECE_TYPE_PROMOTE: i8 = 8;
    pub const COUNT: usize = 16;
    pub const HAND_TABLE_SIZE: usize = 8;

    pub fn NONE() -> (r: PieceType) ensures r.0 == 0 { PieceType(0) }
    pub fn PAWN() -> (r: PieceType) ensures r.0 == 1 { PieceType(1) }
    pub fn LANCE() -> (r: PieceType) ensures r.0 == 2 { PieceType(2) }
    pub fn KNIGHT() -> (r: PieceType) ensures r.0 == 3 { PieceType(3) }
    pub fn SILVER() -> (r: PieceType) ensures r.0 == 4 { PieceType(4) }
    pub fn BISHOP() -> (r: PieceType) ensures r.0 == 5 { PieceType(5) }
    pub fn ROOK() -> (r: PieceType) ensures r.0 == 6 { PieceType(6) }
    pub fn GOLD() -> (r: PieceType) ensures r.0 == 7 { PieceType(7) }
    pub fn KING() -> (r: PieceType) ensures r.0 == 8 { PieceType(8) }
    pub fn PRO_PAWN() -> (r: PieceType) ensures r.0 == 9 { PieceType(9) }
    pub fn PRO_LANCE() -> (r: PieceType) ensures r.0 == 10 { PieceType(10) }
    pub fn PRO_KNIGHT() -> (r: PieceType) ensures r.0 == 11 { PieceType(11) }
    pub fn PRO_SILVER() -> (r: PieceType) ensures r.0 == 12 { PieceType(12) }
    pub fn HORSE() -> (r: PieceType) ensures r.0 == 13 { PieceType(13) }
    pub fn DRAGON() -> (r: PieceType) ensures r.0 == 14 { PieceType(14) }
    pub fn GOLD_LIKE() -> (r: PieceType) ensures r.0 == 15 { PieceType(15) }
    pub fn PIECE_HAND_ZERO() -> (r: PieceType) ensures r.0 == 1 { PieceType(1) }

    pub open spec fn is_valid_spec(self) -> bool {
        0 <= self.0 < 16
    }

    pub open spec fn is_promoted_spec(self) -> bool {
        9 <= self.0 <= 14
    }

    pub open spec fn is_promotable_spec(self) -> bool {
        1 <= self.0 <= 6
    }

    pub open spec fn is_hand_piece_spec(self) -> bool {
        1 <= self.0 <= 7
    }

    pub open spec fn promote_spec(self) -> PieceType {
        if self.is_promotable_spec() { PieceType((self.0 + 8) as i8) } else { self }
    }

    pub open spec fn demote_spec(self) -> PieceType {
        if self.is_promoted_spec() { PieceType((self.0 - 8) as i8) } else { self }
    }

    pub fn new(raw: i8) -> (r: PieceType)
        ensures
            r.0 == raw,
    {
        PieceType(raw)
    }

    pub fn raw(self) -> (r: i8)
        ensures
            r == self.0,
    {
        self.0
    }

    pub fn to_index(self) -> (r: usize)
        ensures
            r == self.0 as usize,
    {
        self.0 as usize
    }

    pub fn is_valid(self) -> (r: bool)
        ensures
            r == self.is_valid_spec(),
    {
        self.0 >= 0 && self.0 < 16
    }

    pub fn is_promoted(self) -> (r: bool)
        ensures
            r == self.is_promoted_spec(),
    {
        9 <= self.0 && self.0 <= 14
    }

    pub fn is_promotable(self) -> (r: bool)
        ensures
            r == self.is_promotable_spec(),
    {
        1 <= self.0 && self.0 <= 6
    }

    pub fn is_unpromotable(self) -> (r: bool)
        ensures
            r == !self.is_promotable_spec(),
    {
        !self.is_promotable()
    }

    pub fn promote(self) -> (r: PieceType)
        ensures
            r == self.promote_spec(),
    {
        if self.is_promotable() { PieceType(self.0 + 8) } else { self }
    }

    pub fn demote(self) -> (r: PieceType)
        ensures
            r == self.demote_spec(),
    {
        if self.is_promoted() { PieceType(self.0 - 8) } else { self }
    }

    pub fn is_hand_piece(self) -> (r: bool)
        ensures
            r == self.is_hand_piece_spec(),
    {
        1 <= self.0 && self.0 <= 7
    }

    /// Lance, knight, silver, gold and the promoted pawn, lance, knight and silver.
    pub fn is_minor(self) -> (r: bool)
        ensures
            r == ((2 <= self.0 <= 4) || self.0 == 7 || (9 <= self.0 <= 12)),
    {
        (2 <= self.0 && self.0 <= 4) || self.0 == 7 || (9 <= self.0 && self.0 <= 12)
    }

    /// The piece types `0..=14` in order (the gold-like marker is excluded).
    pub fn iter() -> (r: std::vec::IntoIter<PieceType>)
        ensures
            r.remaining().len() == 15,
            forall|i: int| 0 <= i < 15 ==> #[trigger] r.remaining()[i] == PieceType(i as i8),
    {
        range_iter(0, 15)
    }

    /// Pawn through king (`1..=8`).
    pub fn raw_pieces() -> (r: std::vec::IntoIter<PieceType>)
        ensures
            r.remaining().len() == 8,
            forall|i: int| 0 <= i < 8 ==> #[trigger] r.remaining()[i] == PieceType((i + 1) as i8),
    {
        range_iter(1, 9)
    }

    /// The seven piece types that can be held in hand (`1..=7`).
    pub fn hand_pieces() -> (r: std::vec::IntoIter<PieceType>)
        ensures
            r.remaining().len() == 7,
            forall|i: int| 0 <= i < 7 ==> #[trigger] r.remaining()[i] == PieceType((i + 1) as i8),
    {
        range_iter(1, 8)
    }

    /// The SFEN letter of the piece type (upper case), `+` first when promoted;
    /// empty for other values. This is what `Display` prints.
    pub fn to_string(&self) -> (r: String)
        ensures
            r@ == piece_type_text(*self),
    {
        string_from_str(piece_type_str(*self))
    }

    /// Parses a piece type letter, ignoring ASCII case; leading `+` signs mark a
    /// promoted piece (gold and king ignore them).
    pub fn parse_text(s: &str) -> (r: Result<PieceType, &'static str>)
        ensures
            r == piece_type_from_text(s@),
    {
        let v = str_chars(s);
        parse_piece_type_chars(&v)
    }
}

/// The piece types with raw values `lo..hi`.
fn range_iter(lo: i8, hi: i8) -> (r: std::vec::IntoIter<PieceType>)
    requires
        0 <= lo <= hi <= 16,
    ensures
        r.remaining().len() == hi - lo,
        forall|i: int| 0 <= i < hi - lo ==> #[trigger] r.remaining()[i] == PieceType((lo + i) as i8),
{
    let mut v: Vec<PieceType> = Vec::new();
    let mut i: i8 = lo;
    while i < hi
        invariant
            lo <= i <= hi,
            v@.len() == i - lo,
            forall|j: int| 0 <= j < i - lo ==> #[trigger] v@[j] == PieceType((lo + j) as i8),
        decreases hi - i,
    {
        v.push(PieceType(i));
        i += 1;
    }
    proof {
        vstd::std_specs::vec::axiom_spec_into_iter(v);
    }
    v.into_iter()
}

/// The text of a piece type: `P L N S B R G K +P +L +N +S +B +R`, else empty.
pub open spec fn piece_type_text(pt: PieceType) -> Seq<char> {
    if pt.0 == 1 { "P"@ }
    else if pt.0 == 2 { "L"@ }
    else if pt.0 == 3 { "N"@ }
    else if pt.0 == 4 { "S"@ }
    else if pt.0 == 5 { "B"@ }
    else if pt.0 == 6 { "R"@ }
    else if pt.0 == 7 { "G"@ }
    else if pt.0 == 8 { "K"@ }
    else if pt.0 == 9 { "+P"@ }
    else if pt.0 == 10 { "+L"@ }
    else if pt.0 == 11 { "+N"@ }
    else if pt.0 == 12 { "+S"@ }
    else if pt.0 == 13 { "+B"@ }
    else if pt.0 == 14 { "+R"@ }
    else { ""@ }
}

fn piece_type_str(pt: PieceType) -> (r: &'static str)
    ensures
        r@ == piece_type_text(pt),
{
    if pt.0 == 1 { "P" }
    else if pt.0 == 2 { "L" }
    else if pt.0 == 3 { "N" }
    else if pt.0 == 4 { "S" }
    else if pt.0 == 5 { "B" }
    else if pt.0 == 6 { "R" }
    else if pt.0 == 7 { "G" }
    else if pt.0 == 8 { "K" }
    else if pt.0 == 9 { "+P" }
    else if pt.0 == 10 { "+L" }
    else if pt.0 == 11 { "+N" }
    else if pt.0 == 12 { "+S" }
    else if pt.0 == 13 { "+B" }
    else if pt.0 == 14 { "+R" }
    else { "" }
}

/// The text with every leading `+` removed.
pub open spec fn trim_plus(s: Seq<char>) -> Seq<char>
    decreases s.len(),
{
    if s.len() > 0 && s[0] == '+' {
        trim_plus(s.drop_first())
    } else {
        s
    }
}

/// What parsing `s` as a piece type gives.
pub open spec fn piece_type_from_text(s: Seq<char>) -> Result<PieceType, &'static str> {
    let plus = s.len() > 0 && s[0] == '+';
    let body = ascii_upper_seq(trim_plus(s));
    if body.len() == 1 && body[0] == 'P' { Ok(if plus { PieceType(9) } else { PieceType(1) }) }
    else if body.len() == 1 && body[0] == 'L' { Ok(if plus { PieceType(10) } else { PieceType(2) }) }
    else if body.len() == 1 && body[0] == 'N' { Ok(if plus { PieceType(11) } else { PieceType(3) }) }
    else if body.len() == 1 && body[0] == 'S' { Ok(if plus { PieceType(12) } else { PieceType(4) }) }
    else if body.len() == 1 && body[0] == 'B' { Ok(if plus { PieceType(13) } else { PieceType(5) }) }
    else if body.len() == 1 && body[0] == 'R' { Ok(if plus { PieceType(14) } else { PieceType(6) }) }
    else if body.len() == 1 && body[0] == 'G' { Ok(PieceType(7)) }
    else if body.len() == 1 && body[0] == 'K' { Ok(PieceType(8)) }
    else { Err("invalid piece type") }
}

#[verifier::spinoff_prover]
#[verifier::rlimit(40)]
pub(crate) fn parse_piece_type_chars(v: &Vec<char>) -> (r: Result<PieceType, &'static str>)
    ensures
        r == piece_type_from_text(v@),
{
    let plus = v.len() > 0 && v[0] == '+';
    let mut start: usize = 0;
    assert(v@.skip(0) =~= v@);
    while start < v.len() && v[start] == '+'
        invariant
            start <= v.len(),
            trim_plus(v@.skip(start as int)) == trim_plus(v@),
        decreases v.len() - start,
    {
        assert(v@.skip(start as int).drop_first() =~= v@.skip(start + 1));
        start += 1;
    }
    assert(trim_plus(v@.skip(start as int)) == v@.skip(start as int));
    if v.len() - start != 1 {
        assert(ascii_upper_seq(trim_plus(v@)).len() != 1);
        return Err("invalid piece type");
    }
    let c = v[start];
    let u = if 'a' <= c && c <= 'z' { ((c as u32) - 32) as u8 as char } else { c };
    assert(u == crate::text::ascii_upper(c));
    let ghost body = ascii_upper_seq(trim_plus(v@));
    assert(body =~= seq![u]);
    if u == 'P' { Ok(if plus { PieceType(9) } else { PieceType(1) }) }
    else if u == 'L' { Ok(if plus { PieceType(10) } else { PieceType(2) }) }
    else if u == 'N' { Ok(if plus { PieceType(11) } else { PieceType(3) }) }
    else if u == 'S' { Ok(if plus { PieceType(12) } else { PieceType(4) }) }
    else if u == 'B' { Ok(if plus { PieceType(13) } else { PieceType(5) }) }
    else if u == 'R' { Ok(if plus { PieceType(14) } else { PieceType(6) }) }
    else if u == 'G' { Ok(PieceType(7)) }
    else if u == 'K' { Ok(PieceType(8)) }
    else { Err("invalid piece type") }
}

impl vstd::std_specs::convert::TryFromSpecImpl<i8> for PieceType {
    open spec fn obeys_try_from_spec() -> bool {
        true
    }

    open spec fn try_from_spec(v: i8) -> Result<PieceType, &'static str> {
        if 0 <= v < 16 { Ok(PieceType(v)) } else { Err("invalid piece type") }
    }
}

impl core::convert::TryFrom<i8> for PieceType {
    type Error = &'static str;

    fn try_from(v: i8) -> (r: Result<PieceType, &'static str>) {
        if PieceType(v).is_valid() { Ok(PieceType(v)) } else { Err("invalid piece type") }
    }
}

impl core::str::FromStr for PieceType {
    type Err = &'static str;

    fn from_str(s: &str) -> (r: Result<PieceType, &'static str>)
        ensures
            r == piece_type_from_text(s@),
    {
        PieceType::parse_text(s)
    }
}

impl core::default::Default for PieceType {
    fn default() -> (r: PieceType)
        ensures
            r.0 == 0,
    {
        PieceType(0)
    }
}

/// A colored piece: `raw = color * 16 + piece_type`, `0` is no piece.
/// Any `i8` can be held.
#[derive(Clone, Copy, Debug, PartialEq, Eq, Hash, Structural)]
pub struct Piece(pub i8);

#[allow(non_snake_case)]
impl Piece {
    pub const COLOR_BIT: i8 = 16;
    pub const PROMOTE_OFFSET: i8 = 8;
    pub const COUNT: usize = 32;
    pub const HAND_TABLE_SIZE: usize = 8;
    pub const RAW_COUNT: usize = 8;

    pub fn NONE() -> (r: Piece) ensures r.0 == 0 { Piece(0) }
    pub fn B_PAWN() -> (r: Piece) ensures r.0 == 1 { Piece(1) }
    pub fn B_LANCE() -> (r: Piece) ensures r.0 == 2 { Piece(2) }
    pub fn B_KNIGHT() -> (r: Piece) ensures r.0 == 3 { Piece(3) }
    pub fn B_SILVER() -> (r: Piece) ensures r.0 == 4 { Piece(4) }
    pub fn B_BISHOP() -> (r: Piece) ensures r.0 == 5 { Piece(5) }
    pub fn B_ROOK() -> (r: Piece) ensures r.0 == 6 { Piece(6) }
    pub fn B_GOLD() -> (r: Piece) ensures r.0 == 7 { Piece(7) }
    pub fn B_KING() -> (r: Piece) ensures r.0 == 8 { Piece(8) }
    pub fn B_PRO_PAWN() -> (r: Piece) ensures r.0 == 9 { Piece(9) }
    pub fn B_PRO_LANCE() -> (r: Piece) ensures r.0 == 10 { Piece(10) }
    pub fn B_PRO_KNIGHT() -> (r: Piece) ensures r.0 == 11 { Piece(11) }
    pub fn B_PRO_SILVER() -> (r: Piece) ensures r.0 == 12 { Piece(12) }
    pub fn B_HORSE() -> (r: Piece) ensures r.0 == 13 { Piece(13) }
    pub fn B_DRAGON() -> (r: Piece) ensures r.0 == 14 { Piece(14) }
    pub fn B_GOLD_LIKE() -> (r: Piece) ensures r.0 == 15 { Piece(15) }
    pub fn W_PAWN() -> (r: Piece) ensures r.0 == 17 { Piece(17) }
    pub fn W_LANCE() -> (r: Piece) ensures r.0 == 18 { Piece(18) }
    pub fn W_KNIGHT() -> (r: Piece) ensures r.0 == 19 { Piece(19) }
    pub fn W_SILVER() -> (r: Piece) ensures r.0 == 20 { Piece(20) }
    pub fn W_BISHOP() -> (r: Piece) ensures r.0 == 21 { Piece(21) }
    pub fn W_ROOK() -> (r: Piece) ensures r.0 == 22 { Piece(22) }
    pub fn W_GOLD() -> (r: Piece) ensures r.0 == 23 { Piece(23) }
    pub fn W_KING() -> (r: Piece) ensures r.0 == 24 { Piece(24) }
    pub fn W_PRO_PAWN() -> (r: Piece) ensures r.0 == 25 { Piece(25) }
    pub fn W_PRO_LANCE() -> (r: Piece) ensures r.0 == 26 { Piece(26) }
    pub fn W_PRO_KNIGHT() -> (r: Piece) ensures r.0 == 27 { Piece(27) }
    pub fn W_PRO_SILVER() -> (r: Piece) ensures r.0 == 28 { Piece(28) }
    pub fn W_HORSE() -> (r: Piece) ensures r.0 == 29 { Piece(29) }
    pub fn W_DRAGON() -> (r: Piece) ensures r.0 == 30 { Piece(30) }
    pub fn W_GOLD_LIKE() -> (r: Piece) ensures r.0 == 31 { Piece(31) }

    /// The color held in bit 4 of the raw value.
    pub open spec fn color_spec(self) -> Color {
        if ((self.0 as u8) >> 4u8) & 1u8 == 0 { Color::Black } else { Color::White }
    }

    /// The piece type held in the low four bits of the raw value.
    pub open spec fn piece_type_spec(self) -> PieceType {
        PieceType(self.0 & 15i8)
    }

    pub open spec fn from_parts_spec(c: Color, p: PieceType) -> Piece {
        Piece((c.index_spec() * 16 + p.0) as i8)
    }

    pub open spec fn is_valid_spec(self) -> bool {
        0 <= self.0 < 32 && self.0 != 16
    }

    pub fn new(v: i8) -> (r: Piece)
        ensures
            r.0 == v,
    {
        Piece(v)
    }

    pub fn raw(self) -> (r: i8)
        ensures
            r == self.0,
    {
        self.0
    }

    pub fn to_index(self) -> (r: usize)
        ensures
            r == self.0 as usize,
    {
        self.0 as usize
    }

    pub fn is_empty(self) -> (r: bool)
        ensures
            r == (self.0 == 0),
    {
        self.0 == 0
    }

    pub fn color(self) -> (r: Color)
        ensures
            r == self.color_spec(),
    {
        Color::new(((self.0 as u8) >> 4u8) & 1u8)
    }

    pub fn piece_type(self) -> (r: PieceType)
        ensures
            r == self.piece_type_spec(),
            0 <= r.0 < 16,
    {
        let x = self.0;
        assert(0 <= x & 15i8 < 16) by (bit_vector);
        PieceType(x & 15i8)
    }

    /// The piece `color * 16 + piece_type`.
    pub fn from_parts(c: Color, p: PieceType) -> (r: Piece)
        requires
            -128 <= c.index_spec() * 16 + p.0 <= 127,
        ensures
            r == Piece::from_parts_spec(c, p),
    {
        Piece(((c.raw() as i16) * 16 + (p.0 as i16)) as i8)
    }

    pub fn promote(self) -> (r: Piece)
        ensures
            r == Piece::from_parts_spec(self.color_spec(), self.piece_type_spec().promote_spec()),
    {
        Piece::from_parts(self.color(), self.piece_type().promote())
    }

    pub fn demote(self) -> (r: Piece)
        ensures
            r == Piece::from_parts_spec(self.color_spec(), self.piece_type_spec().demote_spec()),
    {
        Piece::from_parts(self.color(), self.piece_type().demote())
    }

    pub fn base_piece_type(self) -> (r: PieceType)
        ensures
            r == self.piece_type_spec().demote_spec(),
    {
        self.piece_type().demote()
    }

    pub fn unpromoted_piece(self) -> (r: Piece)
        ensures
            r == Piece::from_parts_spec(self.color_spec(), self.piece_type_spec().demote_spec()),
    {
        self.demote()
    }

    pub fn is_promoted(self) -> (r: bool)
        ensures
            r == self.piece_type_spec().is_promoted_spec(),
    {
        self.piece_type().is_promoted()
    }

    pub fn is_unpromotable(self) -> (r: bool)
        ensures
            r == !self.piece_type_spec().is_promotable_spec(),
    {
        self.piece_type().is_unpromotable()
    }

    /// Lance, bishop, rook, horse and dragon.
    pub fn is_long_range(self) -> (r: bool)
        ensures
            r == ({
                let t = self.piece_type_spec().0;
                t == 2 || t == 5 || t == 6 || t == 13 || t == 14
            }),
    {
        let t = self.piece_type().0;
        t == 2 || t == 5 || t == 6 || t == 13 || t == 14
    }

    pub fn is_valid(self) -> (r: bool)
        ensures
            r == self.is_valid_spec(),
    {
        self.0 >= 0 && self.0 < 32 && self.0 != 16
    }

    /// The SFEN text of the piece: upper case for Black, lower case for White,
    /// empty for no piece. This is what `Display` prints.
    pub fn to_string(&self) -> (r: String)
        ensures
            r@ == piece_text(*self),
    {
        if self.is_empty() {
            return String::new();
        }
        let s = piece_type_str(self.piece_type());
        if self.color() == Color::White {
            let v = str_chars(s);
            let mut out: Vec<char> = Vec::new();
            let mut i: usize = 0;
            while i < v.len()
                invariant
                    i <= v.len(),
                    out@ == ascii_lower_seq(v@.take(i as int)),
                decreases v.len() - i,
            {
                let c = v[i];
                let l = if 'A' <= c && c <= 'Z' { ((c as u32) + 32) as u8 as char } else { c };
                assert(l == crate::text::ascii_lower(c));
                out.push(l);
                i += 1;
                assert(out@ =~= ascii_lower_seq(v@.take(i as int)));
            }
            assert(v@.take(v.len() as int) =~= v@);
            crate::text::string_from_chars(out.as_slice())
        } else {
            string_from_str(s)
        }
    }

    /// Parses one SFEN piece such as `P`, `p`, `+B` or `+r`; lower case is White.
    pub fn parse_text(s: &str) -> (r: Result<Piece, &'static str>)
        ensures
            r == piece_from_text(s@),
    {
        if !s.is_ascii() {
            return Err("invalid piece");
        }
        let v = str_chars(s);
        let symbol_index: usize = if v.len() == 2 && v[0] == '+' {
            1
        } else if v.len() == 1 {
            0
        } else {
            return Err("invalid piece");
        };
        let piece_type = match parse_piece_type_chars(&v) {
            Ok(pt) => pt,
            Err(e) => return Err(e),
        };
        let symbol = v[symbol_index];
        let color = if 'a' <= symbol && symbol <= 'z' { Color::White } else { Color::Black };
        Ok(Piece::from_parts(color, piece_type))
    }
}

/// The text of a piece: its piece type text, lower-cased for White, empty for no piece.
pub open spec fn piece_text(p: Piece) -> Seq<char> {
    if p.0 == 0 {
        Seq::empty()
    } else if p.color_spec() == Color::White {
        ascii_lower_seq(piece_type_text(p.piece_type_spec()))
    } else {
        piece_type_text(p.piece_type_spec())
    }
}

/// What parsing `s` as a piece gives.
pub open spec fn piece_from_text(s: Seq<char>) -> Result<Piece, &'static str> {
    if !vstd::utf8::is_ascii_chars(s) {
        Err("invalid piece")
    } else if !((s.len() == 2 && s[0] == '+') || s.len() == 1) {
        Err("invalid piece")
    } else {
        match piece_type_from_text(s) {
            Err(e) => Err(e),
            Ok(pt) => {
                let symbol = s[s.len() - 1];
                let color = if 'a' <= symbol && symbol <= 'z' { Color::White } else { Color::Black };
                Ok(Piece::from_parts_spec(color, pt))
            }
        }
    }
}

/// Every valid piece type's text parses back to it (and the piece type text of
/// the gold-like marker or other values is empty).
pub proof fn lemma_piece_type_text_roundtrip(pt: PieceType)
    requires
        1 <= pt.0 <= 14,
    ensures
        piece_type_from_text(piece_type_text(pt)) == Ok::<PieceType, &'static str>(pt),
{
    reveal_strlit("P"); reveal_strlit("L"); reveal_strlit("N"); reveal_strlit("S");
    reveal_strlit("B"); reveal_strlit("R"); reveal_strlit("G"); reveal_strlit("K");
    reveal_strlit("+P"); reveal_strlit("+L"); reveal_strlit("+N"); reveal_strlit("+S");
    reveal_strlit("+B"); reveal_strlit("+R");
    reveal_with_fuel(trim_plus, 3);
    let t = piece_type_text(pt);
    if t.len() == 2 {
        assert(t.drop_first().len() == 1);
        assert(trim_plus(t) == trim_plus(t.drop_first()));
        assert(trim_plus(t.drop_first()) == t.drop_first());
        assert(ascii_upper_seq(trim_plus(t)) =~= t.drop_first());
        assert(t.drop_first() =~= seq![t[1]]);
    } else {
        assert(trim_plus(t) == t);
        assert(ascii_upper_seq(trim_plus(t)) =~= t);
        assert(t =~= seq![t[0]]);
    }
}

/// Promoting then demoting a promotable piece type gives it back, and demoting a
/// promoted piece type gives a promotable one (or gold/king stay as they are).
pub proof fn lemma_promote_demote(pt: PieceType)
    ensures
        pt.is_promotable_spec() ==> pt.promote_spec().demote_spec() == pt,
        pt.is_promotable_spec() ==> pt.promote_spec().is_promoted_spec(),
        pt.is_promoted_spec() ==> pt.demote_spec().promote_spec() == pt,
{
}

/// A valid piece splits into its color and piece type, and building a piece from
/// a color and a piece type in `0..16` gives back that color and piece type.
pub proof fn lemma_piece_parts(c: Color, pt: PieceType)
    requires
        0 <= pt.0 < 16,
    ensures
        Piece::from_parts_spec(c, pt).color_spec() == c,
        Piece::from_parts_spec(c, pt).piece_type_spec() == pt,
{
    let x = pt.0;
    if c == Color::Black {
        assert(0 <= x < 16 ==> ((x as u8) >> 4u8) & 1u8 == 0 && (x & 15i8) == x) by (bit_vector);
    } else {
        assert(0 <= x < 16 ==> (((x + 16) as i8 as u8) >> 4u8) & 1u8 == 1 && (((x + 16) as i8) & 15i8) == x)
            by (bit_vector);
    }
}

impl vstd::std_specs::convert::TryFromSpecImpl<i8> for Piece {
    open spec fn obeys_try_from_spec() -> bool {
        true
    }

    open spec fn try_from_spec(v: i8) -> Result<Piece, &'static str> {
        if 0 <= v < 32 && v != 16 { Ok(Piece(v)) } else { Err("invalid piece") }
    }
}

impl core::convert::TryFrom<i8> for Piece {
    type Error = &'static str;

    fn try_from(v: i8) -> (r: Result<Piece, &'static str>) {
        if Piece(v).is_valid() { Ok(Piece(v)) } else { Err("invalid piece") }
    }
}

impl core::str::FromStr for Piece {
    type Err = &'static str;

    fn from_str(s: &str) -> (r: Result<Piece, &'static str>)
        ensures
            r == piece_from_text(s@),
    {
        Piece::parse_text(s)
    }
}

impl core::default::Default for Piece {
    fn default() -> (r: Piece)
        ensures
            r.0 == 0,
    {
        Piece(0)
    }
}

} // verus!
