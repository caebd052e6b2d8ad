//! The KI2 notation of one move, such as `▲７六歩` or `△同　銀`, as a compact value.
//!
//! A `Ki2Notation` packs: the side (bit 0), whether the destination is "same as
//! the last move" (bit 1), the destination index plus one (bits 2-8, zero for
//! "same"), the displayed piece type (bits 9-12), the disambiguation suffix code
//! (bits 13-16) and the promotion code (bits 17-18).
use vstd::prelude::*;
use crate::text::{push_char, str_chars};
use crate::types::color::Color;
use crate::types::piece::PieceType;
use crate::types::square::Square;

verus! {

/// A compact, normalized KI2 notation of one move.
#[derive(Clone, Copy, PartialEq, Eq, Hash, Debug, Structural)]
pub struct Ki2Notation(u32);

/// The text could not be read as a KI2 notation.
#[derive(Clone, Copy, PartialEq, Eq, Debug, Structural)]
pub struct ParseKi2NotationError;

impl ParseKi2NotationError {
    /// The message of the error, as `Display` prints it.
    pub fn to_string(&self) -> (r: String)
        ensures
            r@ == "invalid KI2 notation"@,
    {
        crate::text::string_from_str("invalid KI2 notation")
    }
}

/// A notation could not be resolved to exactly one legal move.
#[derive(Clone, Copy, PartialEq, Eq, Debug, Structural)]
pub enum Ki2ResolveError {
    /// No legal move matches the notation.
    NoMatchingMove,
    /// Several legal moves match the notation.
    Ambiguous,
}

impl Ki2ResolveError {
    /// The message of the error, as `Display` prints it.
    pub fn to_string(&self) -> (r: String)
        ensures
            r@ == (match self {
                Ki2ResolveError::NoMatchingMove => "KI2 notation does not match a legal move"@,
                Ki2ResolveError::Ambiguous => "KI2 notation matches multiple legal moves"@,
            }),
    {
        match self {
            Ki2ResolveError::NoMatchingMove => crate::text::string_from_str(
                "KI2 notation does not match a legal move",
            ),
            Ki2ResolveError::Ambiguous => crate::text::string_from_str(
                "KI2 notation matches multiple legal moves",
            ),
        }
    }
}

/// The suffix codes: 0 none, 1 上, 2 引, 3 寄, 4 直, 5 右, 6 左, 7 右上, 8 右引,
/// 9 左上, 10 左引, 11 打.
pub open spec fn suffix_text(code: int) -> Seq<char> {
    if code == 1 { seq!['上'] }
    else if code == 2 { seq!['引'] }
    else if code == 3 { seq!['寄'] }
    else if code == 4 { seq!['直'] }
    else if code == 5 { seq!['右'] }
    else if code == 6 { seq!['左'] }
    else if code == 7 { seq!['右', '上'] }
    else if code == 8 { seq!['右', '引'] }
    else if code == 9 { seq!['左', '上'] }
    else if code == 10 { seq!['左', '引'] }
    else if code == 11 { seq!['打'] }
    else { Seq::empty() }
}

/// The suffix code of a suffix text.
pub open spec fn suffix_from_text(t: Seq<char>) -> Option<int> {
    if t.len() == 0 { Some(0) }
    else if t.len() == 1 {
        if t[0] == '上' { Some(1) }
        else if t[0] == '引' { Some(2) }
        else if t[0] == '寄' { Some(3) }
        else if t[0] == '直' { Some(4) }
        else if t[0] == '右' { Some(5) }
        else if t[0] == '左' { Some(6) }
        else if t[0] == '打' { Some(11) }
        else { None }
    } else if t.len() == 2 {
        if t[0] == '右' && t[1] == '上' { Some(7) }
        else if t[0] == '右' && t[1] == '引' { Some(8) }
        else if t[0] == '左' && t[1] == '上' { Some(9) }
        else if t[0] == '左' && t[1] == '引' { Some(10) }
        else { None }
    } else {
        None
    }
}

/// The promotion codes: 0 nothing written, 1 成, 2 不成.
pub open spec fn promotion_text(code: int) -> Seq<char> {
    if code == 1 {
        seq!['成']
    } else if code == 2 {
        seq!['不', '成']
    } else {
        Seq::empty()
    }
}

/// The KI2 character of a piece type.
pub open spec fn ki2_piece_char(pt: int) -> Option<char> {
    if pt == 1 { Some('歩') }
    else if pt == 2 { Some('香') }
    else if pt == 3 { Some('桂') }
    else if pt == 4 { Some('銀') }
    else if pt == 7 { Some('金') }
    else if pt == 5 { Some('角') }
    else if pt == 6 { Some('飛') }
    else if pt == 8 { Some('玉') }
    else if pt == 9 { Some('と') }
    else if pt == 10 { Some('杏') }
    else if pt == 11 { Some('圭') }
    else if pt == 12 { Some('全') }
    else if pt == 13 { Some('馬') }
    else if pt == 14 { Some('龍') }
    else { None }
}

/// The piece type of a KI2 piece character.
pub open spec fn ki2_piece_from_char(c: char) -> Option<int> {
    if c == '歩' { Some(1) }
    else if c == '香' { Some(2) }
    else if c == '桂' { Some(3) }
    else if c == '銀' { Some(4) }
    else if c == '金' { Some(7) }
    else if c == '角' { Some(5) }
    else if c == '飛' { Some(6) }
    else if c == '玉' { Some(8) }
    else if c == 'と' { Some(9) }
    else if c == '杏' { Some(10) }
    else if c == '圭' { Some(11) }
    else if c == '全' { Some(12) }
    else if c == '馬' { Some(13) }
    else if c == '龍' { Some(14) }
    else { None }
}

/// The full-width digits `１`..`９`.
pub open spec fn wide_digits() -> Seq<char> {
    seq!['１', '２', '３', '４', '５', '６', '７', '８', '９']
}

/// The kanji numerals `一`..`九` naming ranks.
pub open spec fn kanji_ranks() -> Seq<char> {
    seq!['一', '二', '三', '四', '五', '六', '七', '八', '九']
}

/// The position of `c` in `s`, when it occurs.
pub open spec fn index_in(s: Seq<char>, c: char) -> Option<int> {
    if exists|i: int| 0 <= i < s.len() && s[i] == c {
        Some(choose|i: int| 0 <= i < s.len() && s[i] == c)
    } else {
        None
    }
}

/// The number for the packed fields.
pub open spec fn ki2_raw(white: bool, same: bool, square: int, piece: int, suffix: int, promotion: int) -> int {
    (if white { 1int } else { 0int }) + 2 * (if same { 1int } else { 0int }) + 4 * square + 512 * piece + 8192 * suffix
        + 131072 * promotion
}

impl Ki2Notation {
    pub closed spec fn bits(self) -> u32 {
        self.0
    }

    /// White made the move.
    pub open spec fn white_spec(self) -> bool {
        self.bits() % 2 == 1
    }

    /// The destination is written as "same" (`同`).
    pub open spec fn same_spec(self) -> bool {
        (self.bits() / 2) % 2 == 1
    }

    /// The destination index plus one; zero for "same".
    pub open spec fn square_field(self) -> int {
        ((self.bits() / 4) % 128) as int
    }

    pub open spec fn piece_field(self) -> int {
        ((self.bits() / 512) % 16) as int
    }

    pub open spec fn suffix_field(self) -> int {
        ((self.bits() / 8192) % 16) as int
    }

    pub open spec fn promotion_field(self) -> int {
        ((self.bits() / 131072) % 4) as int
    }

    /// The field values every notation keeps: a real square unless "same", a
    /// piece with a KI2 character, known suffix and promotion codes, a drop only
    /// of a hand piece and without promotion, and a promotion mark only on a
    /// promotable piece.
    pub open spec fn fields_ok(self) -> bool {
        &&& self.bits() < 524288
        &&& if self.same_spec() { self.square_field() == 0 } else { 1 <= self.square_field() <= 81 }
        &&& 1 <= self.piece_field() <= 14
        &&& self.suffix_field() <= 11
        &&& self.promotion_field() <= 2
        &&& self.suffix_field() == 11 ==> self.promotion_field() == 0 && self.piece_field() <= 7
        &&& self.promotion_field() != 0 ==> self.piece_field() <= 6
    }

    #[verifier::type_invariant]
    spec fn inv(self) -> bool {
        self.fields_ok()
    }

    /// The notation with the given fields.
    pub closed spec fn from_fields(white: bool, same: bool, square: int, piece: int, suffix: int, promotion: int) -> Ki2Notation {
        Ki2Notation(ki2_raw(white, same, square, piece, suffix, promotion) as u32)
    }

    proof fn lemma_fields(white: bool, same: bool, square: int, piece: int, suffix: int, promotion: int)
        requires
            0 <= square < 128,
            0 <= piece < 16,
            0 <= suffix < 16,
            0 <= promotion < 4,
        ensures
            ({
                let n = Ki2Notation::from_fields(white, same, square, piece, suffix, promotion);
                &&& n.bits() as int == ki2_raw(white, same, square, piece, suffix, promotion)
                &&& n.white_spec() == white
                &&& n.same_spec() == same
                &&& n.square_field() == square
                &&& n.piece_field() == piece
                &&& n.suffix_field() == suffix
                &&& n.promotion_field() == promotion
                &&& n.bits() < 524288
            }),
    {
        let w: int = if white { 1 } else { 0 };
        let s: int = if same { 1 } else { 0 };
        let v = ki2_raw(white, same, square, piece, suffix, promotion);
        assert(v == w + 2 * (s + 2 * (square + 128 * (piece + 16 * (suffix + 16 * promotion)))));
        vstd::arithmetic::div_mod::lemma_fundamental_div_mod_converse(v, 2, s + 2 * (square + 128 * (piece + 16 * (suffix
            + 16 * promotion))), w);
        let v2 = s + 2 * (square + 128 * (piece + 16 * (suffix + 16 * promotion)));
        vstd::arithmetic::div_mod::lemma_fundamental_div_mod_converse(v2, 2, square + 128 * (piece + 16 * (suffix + 16
            * promotion)), s);
        let v3 = square + 128 * (piece + 16 * (suffix + 16 * promotion));
        vstd::arithmetic::div_mod::lemma_fundamental_div_mod_converse(v3, 128, piece + 16 * (suffix + 16 * promotion),
            square);
        let v4 = piece + 16 * (suffix + 16 * promotion);
        vstd::arithmetic::div_mod::lemma_fundamental_div_mod_converse(v4, 16, suffix + 16 * promotion, piece);
        let v5 = suffix + 16 * promotion;
        vstd::arithmetic::div_mod::lemma_fundamental_div_mod_converse(v5, 16, promotion, suffix);
        vstd::arithmetic::div_mod::lemma_div_denominator(v, 2, 2);
        vstd::arithmetic::div_mod::lemma_div_denominator(v, 4, 128);
        vstd::arithmetic::div_mod::lemma_div_denominator(v, 512, 16);
        vstd::arithmetic::div_mod::lemma_div_denominator(v, 8192, 16);
        vstd::arithmetic::div_mod::lemma_small_mod(promotion as nat, 4);
    }

    fn pack(white: bool, same: bool, square: u32, piece: u32, suffix: u32, promotion: u32) -> (r: Ki2Notation)
        requires
            square < 128,
            piece < 16,
            suffix < 16,
            promotion < 4,
            Ki2Notation::from_fields(white, same, square as int, piece as int, suffix as int, promotion as int).fields_ok(),
        ensures
            r == Ki2Notation::from_fields(white, same, square as int, piece as int, suffix as int, promotion as int),
    {
        proof {
            Ki2Notation::lemma_fields(white, same, square as int, piece as int, suffix as int, promotion as int);
        }
        let w: u32 = if white { 1 } else { 0 };
        let s: u32 = if same { 1 } else { 0 };
        Ki2Notation(w + 2 * s + 4 * square + 512 * piece + 8192 * suffix + 131072 * promotion)
    }

    fn white(self) -> (r: bool)
        ensures
            r == self.white_spec(),
    {
        self.0 % 2 == 1
    }

    fn same(self) -> (r: bool)
        ensures
            r == self.same_spec(),
    {
        (self.0 / 2) % 2 == 1
    }

    fn square_raw(self) -> (r: u32)
        ensures
            r == self.square_field(),
    {
        (self.0 / 4) % 128
    }

    fn piece(self) -> (r: u32)
        ensures
            r == self.piece_field(),
    {
        (self.0 / 512) % 16
    }

    fn suffix(self) -> (r: u32)
        ensures
            r == self.suffix_field(),
    {
        (self.0 / 8192) % 16
    }

    fn promotion(self) -> (r: u32)
        ensures
            r == self.promotion_field(),
    {
        (self.0 / 131072) % 4
    }
}

/// The KI2 text of a notation: `▲` or `△`; `同` (with a full-width space when
/// nothing follows the piece) or the full-width file digit and the kanji rank;
/// the piece; the suffix; the promotion mark.
pub open spec fn ki2_text(n: Ki2Notation) -> Seq<char> {
    let side = if n.white_spec() { '△' } else { '▲' };
    let dest = if n.same_spec() {
        if n.suffix_field() == 0 && n.promotion_field() == 0 {
            seq!['同', '　']
        } else {
            seq!['同']
        }
    } else {
        let i = n.square_field() - 1;
        seq![wide_digits()[i / 9], kanji_ranks()[i % 9]]
    };
    seq![side] + dest + seq![ki2_piece_char(n.piece_field())->0] + suffix_text(n.suffix_field())
        + promotion_text(n.promotion_field())
}

/// Reads the piece, suffix and promotion mark from position `idx` of `s`.
pub open spec fn ki2_from_tail(white: bool, same: bool, square: int, s: Seq<char>, idx: int) -> Result<
    Ki2Notation,
    ParseKi2NotationError,
> {
    if s.len() <= idx {
        Err(ParseKi2NotationError)
    } else {
        match ki2_piece_from_char(s[idx]) {
            None => Err(ParseKi2NotationError),
            Some(piece) => {
                let tail = s.skip(idx + 1);
                let n = tail.len();
                let (st, promotion) = if n >= 2 && tail[n - 2] == '不' && tail[n - 1] == '成' {
                    (tail.take(n - 2), 2int)
                } else if n >= 1 && tail[n - 1] == '成' {
                    (tail.take(n - 1), 1int)
                } else {
                    (tail, 0int)
                };
                match suffix_from_text(st) {
                    None => Err(ParseKi2NotationError),
                    Some(suffix) => {
                        if suffix == 11 && promotion != 0 {
                            Err(ParseKi2NotationError)
                        } else if suffix == 11 && !(1 <= piece <= 7) {
                            Err(ParseKi2NotationError)
                        } else if promotion != 0 && !(1 <= piece <= 6) {
                            Err(ParseKi2NotationError)
                        } else {
                            Ok(Ki2Notation::from_fields(white, same, square, piece, suffix, promotion))
                        }
                    },
                }
            },
        }
    }
}

/// What parsing `s` as a KI2 notation gives.
pub open spec fn ki2_from_text(s: Seq<char>) -> Result<Ki2Notation, ParseKi2NotationError> {
    if s.len() < 2 || !(s[0] == '▲' || s[0] == '△') {
        Err(ParseKi2NotationError)
    } else if s[1] == '同' {
        let idx = if s.len() > 2 && s[2] == '　' { 3int } else { 2int };
        ki2_from_tail(s[0] == '△', true, 0, s, idx)
    } else {
        match (index_in(wide_digits(), s[1]), if s.len() > 2 { index_in(kanji_ranks(), s[2]) } else { None }) {
            (Some(f), Some(r)) => ki2_from_tail(s[0] == '△', false, f * 9 + r + 1, s, 3),
            _ => Err(ParseKi2NotationError),
        }
    }
}

fn index_of(s: &[char], c: char) -> (r: Option<usize>)
    requires
        forall|a: int, b: int| 0 <= a < b < s@.len() ==> s@[a] != s@[b],
    ensures
        r matches Some(i) ==> i < s@.len() && s@[i as int] == c && index_in(s@, c) == Some(i as int),
        r is None ==> index_in(s@, c) is None,
{
    let mut i: usize = 0;
    while i < s.len()
        invariant
            i <= s.len(),
            forall|j: int| 0 <= j < i ==> s@[j] != c,
            forall|a: int, b: int| 0 <= a < b < s@.len() ==> s@[a] != s@[b],
        decreases s.len() - i,
    {
        if s[i] == c {
            proof {
                lemma_distinct_index(s@, i as int);
            }
            return Some(i);
        }
        i += 1;
    }
    None
}

proof fn lemma_distinct_index(s: Seq<char>, i: int)
    requires
        0 <= i < s.len(),
        forall|a: int, b: int| 0 <= a < b < s.len() ==> s[a] != s[b],
    ensures
        index_in(s, s[i]) == Some(i),
{
    let k = choose|j: int| 0 <= j < s.len() && s[j] == s[i];
    assert(k == i);
}

fn wide_digit_table() -> (r: Vec<char>)
    ensures
        r@ == wide_digits(),
{
    let r = vec!['１', '２', '３', '４', '５', '６', '７', '８', '９'];
    assert(r@ =~= wide_digits());
    r
}

fn kanji_rank_table() -> (r: Vec<char>)
    ensures
        r@ == kanji_ranks(),
{
    let r = vec!['一', '二', '三', '四', '五', '六', '七', '八', '九'];
    assert(r@ =~= kanji_ranks());
    r
}

fn piece_char(pt: u32) -> (r: Option<char>)
    ensures
        r == ki2_piece_char(pt as int),
{
    if pt == 1 { Some('歩') }
    else if pt == 2 { Some('香') }
    else if pt == 3 { Some('桂') }
    else if pt == 4 { Some('銀') }
    else if pt == 7 { Some('金') }
    else if pt == 5 { Some('角') }
    else if pt == 6 { Some('飛') }
    else if pt == 8 { Some('玉') }
    else if pt == 9 { Some('と') }
    else if pt == 10 { Some('杏') }
    else if pt == 11 { Some('圭') }
    else if pt == 12 { Some('全') }
    else if pt == 13 { Some('馬') }
    else if pt == 14 { Some('龍') }
    else { None }
}

fn piece_from_char(c: char) -> (r: Option<u32>)
    ensures
        r matches Some(p) ==> ki2_piece_from_char(c) == Some(p as int),
        r is None ==> ki2_piece_from_char(c) is None,
{
    if c == '歩' { Some(1) }
    else if c == '香' { Some(2) }
    else if c == '桂' { Some(3) }
    else if c == '銀' { Some(4) }
    else if c == '金' { Some(7) }
    else if c == '角' { Some(5) }
    else if c == '飛' { Some(6) }
    else if c == '玉' { Some(8) }
    else if c == 'と' { Some(9) }
    else if c == '杏' { Some(10) }
    else if c == '圭' { Some(11) }
    else if c == '全' { Some(12) }
    else if c == '馬' { Some(13) }
    else if c == '龍' { Some(14) }
    else { None }
}

fn suffix_code(t: &[char]) -> (r: Option<u32>)
    ensures
        r matches Some(c) ==> suffix_from_text(t@) == Some(c as int),
        r is None ==> suffix_from_text(t@) is None,
{
    if t.len() == 0 { Some(0) }
    else if t.len() == 1 {
        let a = t[0];
        if a == '上' { Some(1) }
        else if a == '引' { Some(2) }
        else if a == '寄' { Some(3) }
        else if a == '直' { Some(4) }
        else if a == '右' { Some(5) }
        else if a == '左' { Some(6) }
        else if a == '打' { Some(11) }
        else { None }
    } else if t.len() == 2 {
        let a = t[0];
        let b = t[1];
        if a == '右' && b == '上' { Some(7) }
        else if a == '右' && b == '引' { Some(8) }
        else if a == '左' && b == '上' { Some(9) }
        else if a == '左' && b == '引' { Some(10) }
        else { None }
    } else {
        None
    }
}

fn push_seq(s: &mut String, t: &[char])
    ensures
        final(s)@ == old(s)@ + t@,
{
    let mut i: usize = 0;
    while i < t.len()
        invariant
            i <= t.len(),
            s@ == old(s)@ + t@.take(i as int),
        decreases t.len() - i,
    {
        push_char(s, t[i]);
        i += 1;
        assert(s@ =~= old(s)@ + t@.take(i as int));
    }
    assert(t@.take(t.len() as int) =~= t@);
}

fn suffix_chars(code: u32) -> (r: Vec<char>)
    ensures
        r@ == suffix_text(code as int),
{
    let r = if code == 1 { vec!['上'] }
    else if code == 2 { vec!['引'] }
    else if code == 3 { vec!['寄'] }
    else if code == 4 { vec!['直'] }
    else if code == 5 { vec!['右'] }
    else if code == 6 { vec!['左'] }
    else if code == 7 { vec!['右', '上'] }
    else if code == 8 { vec!['右', '引'] }
    else if code == 9 { vec!['左', '上'] }
    else if code == 10 { vec!['左', '引'] }
    else if code == 11 { vec!['打'] }
    else { Vec::new() };
    assert(r@ =~= suffix_text(code as int));
    r
}

fn ki2_tail(white: bool, same: bool, square: u32, v: &Vec<char>, idx: usize) -> (r: Result<Ki2Notation, ParseKi2NotationError>)
    requires
        square < 128,
        same ==> square == 0,
        !same ==> 1 <= square <= 81,
    ensures
        r == ki2_from_tail(white, same, square as int, v@, idx as int),
{
    if v.len() <= idx {
        return Err(ParseKi2NotationError);
    }
    let piece = match piece_from_char(v[idx]) {
        Some(p) => p,
        None => return Err(ParseKi2NotationError),
    };
    let ghost tail = v@.skip(idx + 1);
    let n = v.len() - (idx + 1);
    let (end, promotion): (usize, u32) = if n >= 2 && v[v.len() - 2] == '不' && v[v.len() - 1] == '成' {
        (v.len() - 2, 2)
    } else if n >= 1 && v[v.len() - 1] == '成' {
        (v.len() - 1, 1)
    } else {
        (v.len(), 0)
    };
    let st = vstd::slice::slice_subrange(v.as_slice(), idx + 1, end);
    proof {
        let tn = tail.len();
        if promotion == 2 {
            assert(st@ =~= tail.take(tn - 2));
        } else if promotion == 1 {
            assert(st@ =~= tail.take(tn - 1));
        } else {
            assert(st@ =~= tail);
        }
    }
    let suffix = match suffix_code(st) {
        Some(c) => c,
        None => return Err(ParseKi2NotationError),
    };
    if suffix == 11 && promotion != 0 {
        return Err(ParseKi2NotationError);
    }
    if suffix == 11 && !(1 <= piece && piece <= 7) {
        return Err(ParseKi2NotationError);
    }
    if promotion != 0 && !(1 <= piece && piece <= 6) {
        return Err(ParseKi2NotationError);
    }
    proof {
        Ki2Notation::lemma_fields(white, same, square as int, piece as int, suffix as int, promotion as int);
    }
    Ok(Ki2Notation::pack(white, same, square, piece, suffix, promotion))
}

impl Ki2Notation {
    /// Parses one KI2 notation (see [`ki2_from_text`]).
    pub fn parse_text(text: &str) -> (r: Result<Ki2Notation, ParseKi2NotationError>)
        ensures
            r == ki2_from_text(text@),
    {
        let v = str_chars(text);
        if v.len() < 2 || !(v[0] == '▲' || v[0] == '△') {
            return Err(ParseKi2NotationError);
        }
        let white = v[0] == '△';
        if v[1] == '同' {
            let idx: usize = if v.len() > 2 && v[2] == '　' { 3 } else { 2 };
            return ki2_tail(white, true, 0, &v, idx);
        }
        let digits = wide_digit_table();
        let ranks = kanji_rank_table();
        let f = index_of(digits.as_slice(), v[1]);
        let r = if v.len() > 2 { index_of(ranks.as_slice(), v[2]) } else { None };
        match (f, r) {
            (Some(f), Some(r)) => {
                let sq = (f * 9 + r + 1) as u32;
                ki2_tail(white, false, sq, &v, 3)
            },
            _ => Err(ParseKi2NotationError),
        }
    }

    /// The KI2 text (see [`ki2_text`]); reading it back gives the same notation.
    /// This is what `Display` prints.
    pub fn to_string(&self) -> (r: String)
        ensures
            r@ == ki2_text(*self),
            ki2_from_text(r@) == Ok::<Ki2Notation, ParseKi2NotationError>(*self),
    {
        proof {
            use_type_invariant(self);
        }
        let mut s = String::new();
        push_char(&mut s, if self.white() { '△' } else { '▲' });
        if self.same() {
            push_char(&mut s, '同');
            if self.suffix() == 0 && self.promotion() == 0 {
                push_char(&mut s, '　');
            }
        } else {
            let i = self.square_raw() - 1;
            let digits = wide_digit_table();
            let ranks = kanji_rank_table();
            push_char(&mut s, digits[(i / 9) as usize]);
            push_char(&mut s, ranks[(i % 9) as usize]);
        }
        let pc = piece_char(self.piece());
        match pc {
            Some(c) => push_char(&mut s, c),
            None => {},
        }
        let suf = suffix_chars(self.suffix());
        push_seq(&mut s, suf.as_slice());
        let pro: Vec<char> = if self.promotion() == 1 {
            vec!['成']
        } else if self.promotion() == 2 {
            vec!['不', '成']
        } else {
            Vec::new()
        };
        assert(pro@ =~= promotion_text(self.promotion_field()));
        push_seq(&mut s, pro.as_slice());
        assert(s@ =~= ki2_text(*self));
        proof {
            lemma_ki2_text_roundtrip(*self);
        }
        s
    }
}

/// The text of every well-formed notation reads back as that notation.
proof fn lemma_ki2_text_roundtrip(n: Ki2Notation)
    requires
        n.fields_ok(),
    ensures
        ki2_from_text(ki2_text(n)) == Ok::<Ki2Notation, ParseKi2NotationError>(n),
{
    let t = ki2_text(n);
    let white = n.white_spec();
    let same = n.same_spec();
    let sq = n.square_field();
    let piece = n.piece_field();
    let suffix = n.suffix_field();
    let promotion = n.promotion_field();
    Ki2Notation::lemma_fields(white, same, sq, piece, suffix, promotion);
    assert(n.bits() as int == ki2_raw(white, same, sq, piece, suffix, promotion)) by {
        let v = n.bits() as int;
        let w: int = if white { 1 } else { 0 };
        let s: int = if same { 1 } else { 0 };
        vstd::arithmetic::div_mod::lemma_fundamental_div_mod(v, 2);
        vstd::arithmetic::div_mod::lemma_fundamental_div_mod(v / 2, 2);
        vstd::arithmetic::div_mod::lemma_fundamental_div_mod(v / 4, 128);
        vstd::arithmetic::div_mod::lemma_fundamental_div_mod(v / 512, 16);
        vstd::arithmetic::div_mod::lemma_fundamental_div_mod(v / 8192, 16);
        vstd::arithmetic::div_mod::lemma_div_denominator(v, 2, 2);
        vstd::arithmetic::div_mod::lemma_div_denominator(v, 4, 128);
        vstd::arithmetic::div_mod::lemma_div_denominator(v, 512, 16);
        vstd::arithmetic::div_mod::lemma_div_denominator(v, 8192, 16);
        assert(v / 131072 < 4);
        vstd::arithmetic::div_mod::lemma_small_mod((v / 131072) as nat, 4);
    }
    assert(Ki2Notation::from_fields(white, same, sq, piece, suffix, promotion) == n);
    let pc = ki2_piece_char(piece)->0;
    assert(ki2_piece_from_char(pc) == Some(piece));
    let idx: int = if same {
        if suffix == 0 && promotion == 0 { 3 } else { 2 }
    } else {
        3
    };
    assert(t[idx] == pc);
    let tail = t.skip(idx + 1);
    assert(tail =~= suffix_text(suffix) + promotion_text(promotion));
    let tn = tail.len();
    if promotion == 2 {
        assert(tail.take(tn - 2) =~= suffix_text(suffix));
    } else if promotion == 1 {
        assert(tail.take(tn - 1) =~= suffix_text(suffix));
    } else {
        assert(tail =~= suffix_text(suffix));
        assert(tn >= 1 ==> tail[tn - 1] != '成');
    }
    assert(suffix_from_text(suffix_text(suffix)) == Some(suffix));
    if !same {
        let i = sq - 1;
        let digits = wide_digits();
        let ranks = kanji_ranks();
        assert(forall|a: int, b: int| 0 <= a < b < digits.len() ==> digits[a] != digits[b]);
        assert(forall|a: int, b: int| 0 <= a < b < ranks.len() ==> ranks[a] != ranks[b]);
        lemma_distinct_index(digits, i / 9);
        lemma_distinct_index(ranks, i % 9);
        assert(t[1] == digits[i / 9] && t[2] == ranks[i % 9]);
        assert((i / 9) * 9 + i % 9 + 1 == sq);
    } else if suffix == 0 && promotion == 0 {
        assert(t[2] == '　');
    } else {
        assert(t[2] == pc);
        assert(pc != '　');
    }
}

impl core::str::FromStr for Ki2Notation {
    type Err = ParseKi2NotationError;

    fn from_str(text: &str) -> (r: Result<Ki2Notation, ParseKi2NotationError>)
        ensures
            r == ki2_from_text(text@),
    {
        Ki2Notation::parse_text(text)
    }
}

} // verus!
