//! The notation pieces of KIF and KI2 text: piece names, square names,
//! hands, move markers and the direction of a KI2 move.
use vstd::prelude::*;
use crate::records::formats::kif::{kanji_number, kanji_number_spec};
use crate::records::time_control::digits_in;
use crate::text::{
    chars_contain, chars_start_with, digits_value, has_char, is_digit, leading_space, leading_space_count,
    replace_all, replace_chars, starts_with, str_chars, string_from_chars, text_lines,
};
use crate::types::color::Color;
use crate::types::hand::Hand;
use crate::types::ki2::{kanji_ranks, wide_digits};
use crate::types::piece::PieceType;
use crate::types::square::{tdiv9, tmod9, Square};

verus! {

/// Whether `c` marks the start of a KI2 move (`▲△▼▽☗☖`).
pub open spec fn ki2_marker_spec(c: char) -> bool {
    c == '▲' || c == '△' || c == '▼' || c == '▽' || c == '☗' || c == '☖'
}

/// Whether `ch` marks the start of a KI2 move (see [`ki2_marker_spec`]).
pub fn is_ki2_move_marker(ch: char) -> (r: bool)
    ensures
        r == ki2_marker_spec(ch),
{
    ch == '▲' || ch == '△' || ch == '▼' || ch == '▽' || ch == '☗' || ch == '☖'
}

/// Whether a line looks like KI2 moves: after leading white space it starts
/// with a move marker, `同`, an ASCII digit or a full-width digit.
pub open spec fn ki2_move_line_spec(line: Seq<char>) -> bool {
    let t = line.skip(leading_space(line) as int);
    t.len() > 0 && (ki2_marker_spec(t[0]) || t[0] == '同' || is_digit(t[0]) || has_char(wide_digits(), t[0]))
}

fn is_wide_digit(c: char) -> (r: bool)
    ensures
        r == has_char(wide_digits(), c),
{
    let r = c == '１' || c == '２' || c == '３' || c == '４' || c == '５' || c == '６' || c == '７' || c == '８'
        || c == '９';
    proof {
        let w = wide_digits();
        if r {
            if c == '１' { assert(w[0] == c); }
            else if c == '２' { assert(w[1] == c); }
            else if c == '３' { assert(w[2] == c); }
            else if c == '４' { assert(w[3] == c); }
            else if c == '５' { assert(w[4] == c); }
            else if c == '６' { assert(w[5] == c); }
            else if c == '７' { assert(w[6] == c); }
            else if c == '８' { assert(w[7] == c); }
            else { assert(w[8] == c); }
        }
    }
    r
}

/// Whether a line looks like KI2 moves (see [`ki2_move_line_spec`]).
pub fn looks_like_ki2_move_line(line: &str) -> (r: bool)
    ensures
        r == ki2_move_line_spec(line@),
{
    let v = str_chars(line);
    let a = leading_space_count(v.as_slice());
    if a >= v.len() {
        return false;
    }
    let c = v[a];
    is_ki2_move_marker(c) || c == '同' || ('0' <= c && c <= '9') || is_wide_digit(c)
}

/// Whether a line is the file header of a KIF board diagram: it holds `９`
/// and `１` and starts, after leading white space, with `９`.
pub open spec fn board_header_spec(line: Seq<char>) -> bool {
    let t = line.skip(leading_space(line) as int);
    has_char(line, '９') && has_char(line, '１') && t.len() > 0 && t[0] == '９'
}

/// Whether a line is the file header of a board diagram (see
/// [`board_header_spec`]).
pub fn is_board_header_line(line: &str) -> (r: bool)
    ensures
        r == board_header_spec(line@),
{
    let v = str_chars(line);
    let a = leading_space_count(v.as_slice());
    chars_contain(v.as_slice(), '９') && chars_contain(v.as_slice(), '１') && a < v.len() && v[a] == '９'
}

/// The move number of a KIF variation line (`変化：12手`): its ASCII digits
/// read as one number; 0 when there is none or it exceeds `usize`.
pub open spec fn variation_start_spec(line: Seq<char>) -> usize {
    let d = digits_in(line);
    if d.len() == 0 || digits_value(d) > usize::MAX {
        0
    } else {
        digits_value(d) as usize
    }
}

proof fn lemma_digits_in_step(s: Seq<char>, i: int)
    requires
        0 <= i < s.len(),
    ensures
        digits_in(s.take(i + 1)) == (if is_digit(s[i]) {
            digits_in(s.take(i)).push(s[i])
        } else {
            digits_in(s.take(i))
        }),
{
    assert(s.take(i + 1).drop_last() =~= s.take(i));
}

/// The move number of a KIF variation line (see [`variation_start_spec`]).
pub fn parse_variation_start(line: &str) -> (r: usize)
    ensures
        r == variation_start_spec(line@),
{
    let v = str_chars(line);
    let n = v.len();
    let mut value: usize = 0;
    let mut count: usize = 0;
    let mut overflow = false;
    let mut i: usize = 0;
    while i < n
        invariant
            n == v@.len(),
            v@ == line@,
            i <= n,
            count == digits_in(v@.take(i as int)).len(),
            count <= i,
            !overflow ==> value == digits_value(digits_in(v@.take(i as int))),
            overflow ==> digits_value(digits_in(v@.take(i as int))) > usize::MAX,
        decreases n - i,
    {
        proof {
            lemma_digits_in_step(v@, i as int);
        }
        let c = v[i];
        if '0' <= c && c <= '9' {
            let ghost d = digits_in(v@.take(i as int));
            assert(d.push(c).drop_last() =~= d);
            let digit = (c as u32 - 48) as usize;
            if !overflow {
                if value > (usize::MAX - digit) / 10 {
                    overflow = true;
                } else {
                    value = value * 10 + digit;
                }
            }
            count = count + 1;
        }
        i += 1;
    }
    assert(v@.take(n as int) =~= v@);
    if count == 0 || overflow {
        0
    } else {
        value
    }
}

/// The KIF name of a piece type in a move (`成香` for a promoted lance); a
/// king for anything else.
pub open spec fn kif_move_name(pt: int) -> Seq<char> {
    if pt == 1 { seq!['歩'] }
    else if pt == 2 { seq!['香'] }
    else if pt == 3 { seq!['桂'] }
    else if pt == 4 { seq!['銀'] }
    else if pt == 7 { seq!['金'] }
    else if pt == 5 { seq!['角'] }
    else if pt == 6 { seq!['飛'] }
    else if pt == 9 { seq!['と'] }
    else if pt == 10 { seq!['成', '香'] }
    else if pt == 11 { seq!['成', '桂'] }
    else if pt == 12 { seq!['成', '銀'] }
    else if pt == 13 { seq!['馬'] }
    else if pt == 14 { seq!['龍'] }
    else { seq!['玉'] }
}

/// The KIF name of a piece type on a board diagram (one character: `杏` for
/// a promoted lance); a king for anything else.
pub open spec fn kif_board_name(pt: int) -> Seq<char> {
    if pt == 10 { seq!['杏'] }
    else if pt == 11 { seq!['圭'] }
    else if pt == 12 { seq!['全'] }
    else { kif_move_name(pt) }
}

/// The KIF name of a piece type in a move (see [`kif_move_name`]).
pub fn piece_type_to_kif_move(piece_type: PieceType) -> (r: &'static str)
    ensures
        r@ == kif_move_name(piece_type.0 as int),
{
    proof {
        reveal_strlit("歩");
        reveal_strlit("香");
        reveal_strlit("桂");
        reveal_strlit("銀");
        reveal_strlit("金");
        reveal_strlit("角");
        reveal_strlit("飛");
        reveal_strlit("玉");
        reveal_strlit("と");
        reveal_strlit("成香");
        reveal_strlit("成桂");
        reveal_strlit("成銀");
        reveal_strlit("馬");
        reveal_strlit("龍");
    }
    let p = piece_type.0;
    if p == 1 { "歩" }
    else if p == 2 { "香" }
    else if p == 3 { "桂" }
    else if p == 4 { "銀" }
    else if p == 7 { "金" }
    else if p == 5 { "角" }
    else if p == 6 { "飛" }
    else if p == 9 { "と" }
    else if p == 10 { "成香" }
    else if p == 11 { "成桂" }
    else if p == 12 { "成銀" }
    else if p == 13 { "馬" }
    else if p == 14 { "龍" }
    else { "玉" }
}

/// The KIF name of a piece type on a board diagram (see [`kif_board_name`]).
pub fn piece_type_to_kif_board(piece_type: PieceType) -> (r: &'static str)
    ensures
        r@ == kif_board_name(piece_type.0 as int),
{
    proof {
        reveal_strlit("杏");
        reveal_strlit("圭");
        reveal_strlit("全");
    }
    let p = piece_type.0;
    if p == 10 {
        "杏"
    } else if p == 11 {
        "圭"
    } else if p == 12 {
        "全"
    } else {
        piece_type_to_kif_move(piece_type)
    }
}

/// The full-width digit of a file number from 1 to 9.
pub fn format_fullwidth_digit(value: u8) -> (r: char)
    requires
        1 <= value <= 9,
    ensures
        r == wide_digits()[value - 1],
{
    if value == 1 { '１' }
    else if value == 2 { '２' }
    else if value == 3 { '３' }
    else if value == 4 { '４' }
    else if value == 5 { '５' }
    else if value == 6 { '６' }
    else if value == 7 { '７' }
    else if value == 8 { '８' }
    else { '９' }
}

/// The kanji numeral of a rank number from 1 to 9.
pub fn format_kanji_rank(value: u8) -> (r: char)
    requires
        1 <= value <= 9,
    ensures
        r == kanji_ranks()[value - 1],
{
    if value == 1 { '一' }
    else if value == 2 { '二' }
    else if value == 3 { '三' }
    else if value == 4 { '四' }
    else if value == 5 { '五' }
    else if value == 6 { '六' }
    else if value == 7 { '七' }
    else if value == 8 { '八' }
    else { '九' }
}

/// The KIF name of a square, such as `７六`: its file as a full-width digit
/// and its rank as a kanji numeral; none for a square off the board.
pub open spec fn kifu_square_spec(sq: Square) -> Option<Seq<char>> {
    if sq.is_valid_spec() {
        Some(seq![wide_digits()[sq.file_spec()], kanji_ranks()[sq.rank_spec()]])
    } else {
        None
    }
}

/// The KIF name of a square (see [`kifu_square_spec`]).
pub fn kifu_square_name(sq: Square) -> (r: Option<String>)
    ensures
        match kifu_square_spec(sq) {
            Some(t) => r matches Some(s) && s@ == t,
            None => r is None,
        },
{
    if !sq.is_on_board() {
        return None;
    }
    let file = sq.file().raw() + 1;
    let rank = sq.rank().raw() + 1;
    assert(1 <= file <= 9 && 1 <= rank <= 9);
    let mut s = String::new();
    crate::text::push_char(&mut s, format_fullwidth_digit(file as u8));
    crate::text::push_char(&mut s, format_kanji_rank(rank as u8));
    assert(s@ =~= kifu_square_spec(sq)->Some_0);
    Some(s)
}

/// The piece that a KI2 move text starts with, and the length in bytes of
/// its name: the three two-character names of promoted silver, knight and
/// lance are tried first, then the one-character names.
pub open spec fn ki2_piece_spec(t: Seq<char>) -> Option<(i8, usize)> {
    if starts_with(t, seq!['成', '銀']) {
        Some((12, 6))
    } else if starts_with(t, seq!['成', '桂']) {
        Some((11, 6))
    } else if starts_with(t, seq!['成', '香']) {
        Some((10, 6))
    } else if t.len() == 0 {
        None
    } else {
        match ki2_piece_char_spec(t[0]) {
            Some(p) => Some((p, 3)),
            None => None,
        }
    }
}

/// The piece type of a one-character KI2 piece name.
pub open spec fn ki2_piece_char_spec(c: char) -> Option<i8> {
    if c == '王' || c == '玉' { Some(8) }
    else if c == '飛' { Some(6) }
    else if c == '龍' || c == '竜' { Some(14) }
    else if c == '角' { Some(5) }
    else if c == '馬' { Some(13) }
    else if c == '金' { Some(7) }
    else if c == '銀' { Some(4) }
    else if c == '全' { Some(12) }
    else if c == '桂' { Some(3) }
    else if c == '圭' { Some(11) }
    else if c == '香' { Some(2) }
    else if c == '杏' { Some(10) }
    else if c == '歩' { Some(1) }
    else if c == 'と' { Some(9) }
    else { None }
}

/// The piece that a KI2 move text starts with (see [`ki2_piece_spec`]).
pub fn parse_ki2_piece(text: &str) -> (r: Option<(PieceType, usize)>)
    ensures
        match ki2_piece_spec(text@) {
            Some((p, len)) => r matches Some((pt, l)) && pt.0 == p && l == len,
            None => r is None,
        },
{
    proof {
        reveal_strlit("成銀");
        reveal_strlit("成桂");
        reveal_strlit("成香");
        assert("成銀"@ =~= seq!['成', '銀']);
        assert("成桂"@ =~= seq!['成', '桂']);
        assert("成香"@ =~= seq!['成', '香']);
    }
    let v = str_chars(text);
    let t = v.as_slice();
    if chars_start_with(t, "成銀") {
        return Some((PieceType(12), 6));
    }
    if chars_start_with(t, "成桂") {
        return Some((PieceType(11), 6));
    }
    if chars_start_with(t, "成香") {
        return Some((PieceType(10), 6));
    }
    if t.len() == 0 {
        return None;
    }
    let c = t[0];
    let p: i8 = if c == '王' || c == '玉' { 8 }
        else if c == '飛' { 6 }
        else if c == '龍' || c == '竜' { 14 }
        else if c == '角' { 5 }
        else if c == '馬' { 13 }
        else if c == '金' { 7 }
        else if c == '銀' { 4 }
        else if c == '全' { 12 }
        else if c == '桂' { 3 }
        else if c == '圭' { 11 }
        else if c == '香' { 2 }
        else if c == '杏' { 10 }
        else if c == '歩' { 1 }
        else if c == 'と' { 9 }
        else { 0 };
    if p == 0 {
        None
    } else {
        Some((PieceType(p), 3))
    }
}

/// The horizontal direction of a KI2 move, seen from the side that moves.
#[derive(Copy, Clone, Debug, PartialEq, Eq, Structural)]
pub enum Ki2HDirection {
    Left,
    Right,
    /// Neither left nor right: the file does not change.
    Straight,
}

/// The vertical direction of a KI2 move, seen from the side that moves.
#[derive(Copy, Clone, Debug, PartialEq, Eq, Structural)]
pub enum Ki2VDirection {
    Up,
    Down,
    /// Neither up nor down: the rank does not change.
    Level,
}

/// The file and rank of a square as the side to move sees it: unchanged for
/// Black, the rotated square's for White.
pub open spec fn seen_from(sq: Square, black: bool) -> (int, int) {
    if black {
        (sq.file_spec(), sq.rank_spec())
    } else {
        (tdiv9(80 - sq.0 as int), tmod9(80 - sq.0 as int))
    }
}

/// The direction of a move from `from` to `to`: right when the file seen
/// from the mover decreases, up when the rank decreases.
pub open spec fn ki2_direction_spec(from: Square, to: Square, black: bool) -> (Ki2HDirection, Ki2VDirection) {
    let (ff, fr) = seen_from(from, black);
    let (tf, tr) = seen_from(to, black);
    (
        if ff > tf { Ki2HDirection::Right } else if ff < tf { Ki2HDirection::Left } else { Ki2HDirection::Straight },
        if fr > tr { Ki2VDirection::Up } else if fr < tr { Ki2VDirection::Down } else { Ki2VDirection::Level },
    )
}

/// The direction of a KI2 move (see [`ki2_direction_spec`]).
pub fn ki2_direction(from: Square, to: Square, side: Color) -> (r: (Ki2HDirection, Ki2VDirection))
    requires
        side != Color::Black ==> from.0 >= -47 && to.0 >= -47,
    ensures
        r == ki2_direction_spec(from, to, side == Color::Black),
{
    let black = side == Color::Black;
    let (from_file, from_rank) = if black {
        (from.file().raw(), from.rank().raw())
    } else {
        let flipped = crate::types::square::flip(from);
        (flipped.file().raw(), flipped.rank().raw())
    };
    let (to_file, to_rank) = if black {
        (to.file().raw(), to.rank().raw())
    } else {
        let flipped = crate::types::square::flip(to);
        (flipped.file().raw(), flipped.rank().raw())
    };
    let h = if from_file > to_file {
        Ki2HDirection::Right
    } else if from_file < to_file {
        Ki2HDirection::Left
    } else {
        Ki2HDirection::Straight
    };
    let v = if from_rank > to_rank {
        Ki2VDirection::Up
    } else if from_rank < to_rank {
        Ki2VDirection::Down
    } else {
        Ki2VDirection::Level
    };
    (h, v)
}


/// The text of one kind of piece in hand: nothing for none, the name alone
/// for one, else the name and the count in kanji.
pub open spec fn hand_part(name: char, count: u32) -> Seq<Seq<char>> {
    if count == 0 {
        Seq::empty()
    } else if count == 1 {
        seq![seq![name]]
    } else {
        seq![seq![name] + kanji_number_spec(count as u8)]
    }
}

/// The texts of the pieces in hand, in the order of `order` (piece type and
/// name).
pub open spec fn hand_parts(hand: Hand, order: Seq<(i8, char)>) -> Seq<Seq<char>>
    decreases order.len(),
{
    if order.len() == 0 {
        Seq::empty()
    } else {
        hand_parts(hand, order.drop_last()) + hand_part(order.last().1, hand.count_spec(order.last().0 - 1))
    }
}

/// Texts joined by a separator.
pub open spec fn join_with(parts: Seq<Seq<char>>, sep: char) -> Seq<char>
    decreases parts.len(),
{
    if parts.len() == 0 {
        Seq::empty()
    } else if parts.len() == 1 {
        parts[0]
    } else {
        join_with(parts.drop_last(), sep).push(sep) + parts.last()
    }
}

/// The text of a hand: its parts joined by a full-width space, or `なし`
/// for an empty hand.
pub open spec fn hand_text_spec(hand: Hand, order: Seq<(i8, char)>) -> Seq<char> {
    if hand_parts(hand, order).len() == 0 {
        "なし"@
    } else {
        join_with(hand_parts(hand, order), '　')
    }
}

/// The order of a KIF hand line: pawn, lance, knight, silver, gold, bishop,
/// rook.
pub open spec fn kif_hand_order() -> Seq<(i8, char)> {
    seq![(1i8, '歩'), (2i8, '香'), (3i8, '桂'), (4i8, '銀'), (7i8, '金'), (5i8, '角'), (6i8, '飛')]
}

/// The order of a BOD hand line: rook, bishop, gold, silver, knight, lance,
/// pawn.
pub open spec fn bod_hand_order() -> Seq<(i8, char)> {
    seq![(6i8, '飛'), (5i8, '角'), (7i8, '金'), (4i8, '銀'), (3i8, '桂'), (2i8, '香'), (1i8, '歩')]
}

fn hand_text_in_order(hand: Hand, order: &[(i8, char)]) -> (r: String)
    requires
        order@.len() == 7,
        forall|i: int| 0 <= i < 7 ==> 1 <= (#[trigger] order@[i]).0 <= 7,
    ensures
        r@ == hand_text_spec(hand, order@),
{
    let mut out = String::new();
    let mut any = false;
    let mut i: usize = 0;
    while i < 7
        invariant
            order@.len() == 7,
            forall|j: int| 0 <= j < 7 ==> 1 <= (#[trigger] order@[j]).0 <= 7,
            i <= 7,
            any == (hand_parts(hand, order@.take(i as int)).len() > 0),
            any ==> out@ == join_with(hand_parts(hand, order@.take(i as int)), '　'),
        decreases 7 - i,
    {
        let (pt, name) = order[i];
        let ghost prev = hand_parts(hand, order@.take(i as int));
        assert(order@.take(i + 1).drop_last() =~= order@.take(i as int));
        assert(order@.take(i + 1).last() == order@[i as int]);
        let count = match crate::types::hand::HandPiece::from_piece_type(PieceType(pt)) {
            Some(hp) => hand.count(hp),
            None => 0,
        };
        if count > 0 {
            let mut part = String::new();
            crate::text::push_char(&mut part, name);
            if count > 1 {
                let number = kanji_number(count as u8);
                crate::text::push_str(&mut part, number.as_str());
            }
            let ghost p = part@;
            assert(hand_parts(hand, order@.take(i + 1)) =~= prev.push(p));
            if any {
                crate::text::push_char(&mut out, '　');
                crate::text::push_str(&mut out, part.as_str());
                assert(prev.push(p).drop_last() =~= prev);
            } else {
                out = part;
                assert(prev.len() == 0);
            }
            any = true;
        } else {
            assert(hand_parts(hand, order@.take(i + 1)) =~= prev);
        }
        i += 1;
    }
    assert(order@.take(7) =~= order@);
    if !any {
        out = crate::text::string_from_str("なし");
    }
    out
}

/// The KIF text of a hand (see [`hand_text_spec`] and [`kif_hand_order`]).
pub fn format_hand_text(hand: Hand) -> (r: String)
    ensures
        r@ == hand_text_spec(hand, kif_hand_order()),
{
    let order: [(i8, char); 7] = [(1, '歩'), (2, '香'), (3, '桂'), (4, '銀'), (7, '金'), (5, '角'), (6, '飛')];
    assert(order@ =~= kif_hand_order());
    hand_text_in_order(hand, &order)
}

/// The BOD text of a hand (see [`hand_text_spec`] and [`bod_hand_order`]).
pub fn format_hand_text_bod(hand: Hand) -> (r: String)
    ensures
        r@ == hand_text_spec(hand, bod_hand_order()),
{
    let order: [(i8, char); 7] = [(6, '飛'), (5, '角'), (7, '金'), (4, '銀'), (3, '桂'), (2, '香'), (1, '歩')];
    assert(order@ =~= bod_hand_order());
    hand_text_in_order(hand, &order)
}


/// A KIF line with its variant spellings made uniform: `王` becomes `玉`,
/// `竜` becomes `龍`, and the two-character promoted pieces `成銀`, `成桂`,
/// `成香`, `成歩` become `全`, `圭`, `杏`, `と`, replaced in that order.
pub open spec fn normalized_kif_line(line: Seq<char>) -> Seq<char> {
    let a = replace_all(line, seq!['王'], seq!['玉']);
    let b = replace_all(a, seq!['竜'], seq!['龍']);
    let c = replace_all(b, seq!['成', '銀'], seq!['全']);
    let d = replace_all(c, seq!['成', '桂'], seq!['圭']);
    let e = replace_all(d, seq!['成', '香'], seq!['杏']);
    replace_all(e, seq!['成', '歩'], seq!['と'])
}

/// A KIF line with its variant spellings made uniform (see
/// [`normalized_kif_line`]).
pub fn normalize_kif_line(line: &str) -> (r: String)
    ensures
        r@ == normalized_kif_line(line@),
{
    let v = str_chars(line);
    let king = vec!['王'];
    let jade = vec!['玉'];
    let dragon_variant = vec!['竜'];
    let dragon = vec!['龍'];
    let pro_silver = vec!['成', '銀'];
    let silver_one = vec!['全'];
    let pro_knight = vec!['成', '桂'];
    let knight_one = vec!['圭'];
    let pro_lance = vec!['成', '香'];
    let lance_one = vec!['杏'];
    let pro_pawn = vec!['成', '歩'];
    let pawn_one = vec!['と'];
    assert(king@ =~= seq!['王']);
    assert(jade@ =~= seq!['玉']);
    assert(dragon_variant@ =~= seq!['竜']);
    assert(dragon@ =~= seq!['龍']);
    assert(pro_silver@ =~= seq!['成', '銀']);
    assert(silver_one@ =~= seq!['全']);
    assert(pro_knight@ =~= seq!['成', '桂']);
    assert(knight_one@ =~= seq!['圭']);
    assert(pro_lance@ =~= seq!['成', '香']);
    assert(lance_one@ =~= seq!['杏']);
    assert(pro_pawn@ =~= seq!['成', '歩']);
    assert(pawn_one@ =~= seq!['と']);
    let a = replace_chars(v.as_slice(), king.as_slice(), jade.as_slice());
    let b = replace_chars(a.as_slice(), dragon_variant.as_slice(), dragon.as_slice());
    let c = replace_chars(b.as_slice(), pro_silver.as_slice(), silver_one.as_slice());
    let d = replace_chars(c.as_slice(), pro_knight.as_slice(), knight_one.as_slice());
    let e = replace_chars(d.as_slice(), pro_lance.as_slice(), lance_one.as_slice());
    let f = replace_chars(e.as_slice(), pro_pawn.as_slice(), pawn_one.as_slice());
    string_from_chars(f.as_slice())
}

/// The first position at or after `from` that holds a move marker, or the
/// length of `s`.
pub open spec fn next_marker(s: Seq<char>, from: int) -> int
    decreases s.len() - from,
{
    if from >= s.len() {
        s.len() as int
    } else if ki2_marker_spec(s[from]) {
        from
    } else {
        next_marker(s, from + 1)
    }
}

proof fn lemma_next_marker_bounds(s: Seq<char>, from: int)
    requires
        0 <= from,
    ensures
        from <= next_marker(s, from) || (from > s.len() && next_marker(s, from) == s.len()),
        next_marker(s, from) <= s.len(),
    decreases s.len() - from,
{
    if from < s.len() && !ki2_marker_spec(s[from]) {
        lemma_next_marker_bounds(s, from + 1);
    }
}

proof fn lemma_next_marker_at(s: Seq<char>, from: int, k: int)
    requires
        0 <= from <= k <= s.len(),
        forall|j: int| from <= j < k ==> !ki2_marker_spec(#[trigger] s[j]),
        k == s.len() || ki2_marker_spec(s[k]),
    ensures
        next_marker(s, from) == k,
    decreases k - from,
{
    if from < k {
        lemma_next_marker_at(s, from + 1, k);
    }
}

/// A KI2 move text split before each move marker: the pieces, none of them
/// empty, that start at the beginning and at every marker after the first
/// character.
pub open spec fn ki2_sections_spec(s: Seq<char>) -> Seq<Seq<char>>
    decreases s.len(),
{
    if s.len() == 0 {
        Seq::empty()
    } else {
        let j = next_marker(s, 1);
        if 1 <= j <= s.len() {
            seq![s.take(j)] + ki2_sections_spec(s.skip(j))
        } else {
            Seq::empty()
        }
    }
}

/// A KI2 move text split before each move marker (see
/// [`ki2_sections_spec`]).
pub fn split_ki2_sections(text: &str) -> (r: Vec<String>)
    ensures
        text_lines(r@) == ki2_sections_spec(text@),
{
    let v = str_chars(text);
    let n = v.len();
    let mut sections: Vec<String> = Vec::new();
    if n == 0 {
        assert(text_lines(sections@) =~= Seq::<Seq<char>>::empty());
        return sections;
    }
    let mut last: usize = 0;
    let mut i: usize = 1;
    assert(v@.skip(0) =~= v@);
    while i < n
        invariant
            n == v@.len(),
            v@ == text@,
            last < i <= n,
            forall|j: int| last < j < i ==> !ki2_marker_spec(#[trigger] v@[j]),
            text_lines(sections@) + ki2_sections_spec(v@.skip(last as int)) == ki2_sections_spec(v@),
        decreases n - i,
    {
        if is_ki2_move_marker(v[i]) {
            let ghost rest = v@.skip(last as int);
            proof {
                assert forall|j: int| 1 <= j < i - last implies !ki2_marker_spec(#[trigger] rest[j]) by {
                    assert(rest[j] == v@[last + j]);
                }
                assert(rest[i - last] == v@[i as int]);
                lemma_next_marker_at(rest, 1, i - last);
            }
            let piece = vstd::slice::slice_subrange(v.as_slice(), last, i);
            assert(piece@ =~= rest.take(i - last));
            assert(rest.skip(i - last) =~= v@.skip(i as int));
            let ghost before = text_lines(sections@);
            crate::text::push_line(&mut sections, string_from_chars(piece));
            assert(text_lines(sections@) + ki2_sections_spec(v@.skip(i as int)) =~= before + ki2_sections_spec(rest));
            last = i;
        }
        i += 1;
    }
    let ghost rest = v@.skip(last as int);
    proof {
        assert forall|j: int| 1 <= j < n - last implies !ki2_marker_spec(#[trigger] rest[j]) by {
            assert(rest[j] == v@[last + j]);
        }
        lemma_next_marker_at(rest, 1, n - last);
    }
    let piece = vstd::slice::slice_subrange(v.as_slice(), last, n);
    assert(piece@ =~= rest.take(n - last));
    assert(rest.skip(n - last) =~= Seq::<char>::empty());
    assert(ki2_sections_spec(Seq::<char>::empty()) == Seq::<Seq<char>>::empty());
    assert(rest.len() == n - last);
    assert(ki2_sections_spec(rest) == seq![rest.take(n - last)] + ki2_sections_spec(rest.skip(n - last)));
    let ghost before = text_lines(sections@);
    crate::text::push_line(&mut sections, string_from_chars(piece));
    assert(text_lines(sections@) =~= before + ki2_sections_spec(rest));
    sections
}

} // verus!
