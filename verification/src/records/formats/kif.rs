//! The KIF and KI2 record formats: errors, terminal names and summaries,
//! header lines, elapsed times and the decoding of record bytes.
use vstd::prelude::*;
use crate::records::formats::common::{record_text_spec, shift_jis_decode, shift_jis_size_ok, utf8_text};
use vstd::utf8::valid_utf8;
use crate::records::record::{SpecialMove, SpecialMoveEntry};
use crate::records::formats::kif_notation::normalized_kif_line;
use crate::records::metadata::{
    appended_comment, map_get, with_standard, RecordMetadata, RecordMetadataBuilder, RecordMetadataKey,
    RecordMetadataView,
};
use crate::text::{
    chars_contain, chars_eq_str, chars_start_with, decimal, find_char, find_char_index, find_either_from,
    has_char, is_digit, leading_space, trim_end_spec, find_seq, find_seq_index, opt_as_str,
    opt_line, parse_u32, parse_u32_spec, prefixed_lines, push_decimal, push_line, push_opt_line,
    push_prefixed_lines, push_str, starts_with, str_chars, string_from_chars, string_from_str, text_lines,
    trim_chars, trim_spec,
};
use crate::records::time_control::{
    spec_text, colon_time_in_range, colon_time_ms, colon_time_ms_spec, fold_time_fields, from_spec_spec, kif_time_control_spec,
    kif_time_in_range, opt_spec_text, parse_kif_time_control, time_fields, time_fold, TimeControl,
};
use crate::types::color::Color;
use crate::types::square::{square_usi_spec, Square};
use crate::types::moves::{move_from_usi_spec, Move};
use crate::types::game_result::GameResult;

verus! {

/// Errors of the KIF format.
#[derive(Debug, Clone, PartialEq, Eq)]
pub enum KifError {
    /// A line that is not KIF.
    InvalidLine(String),
    /// A move that is not KIF.
    InvalidMove(String),
    /// An illegal move, by index.
    IllegalMove { index: usize },
    /// The result line is missing.
    MissingResult,
}

impl KifError {
    /// The message of the error.
    pub open spec fn message(&self) -> Seq<char> {
        match self {
            KifError::InvalidLine(s) => "invalid KIF line: "@ + s@,
            KifError::InvalidMove(s) => "invalid KIF move: "@ + s@,
            KifError::IllegalMove { index } => "illegal move at index "@ + decimal(*index as nat),
            KifError::MissingResult => "missing KIF result"@,
        }
    }

    /// The message of the error (see [`KifError::message`]).
    pub fn to_string(&self) -> (r: String)
        ensures
            r@ == self.message(),
    {
        match self {
            KifError::InvalidLine(t) => {
                let mut s = string_from_str("invalid KIF line: ");
                push_str(&mut s, t.as_str());
                s
            },
            KifError::InvalidMove(t) => {
                let mut s = string_from_str("invalid KIF move: ");
                push_str(&mut s, t.as_str());
                s
            },
            KifError::IllegalMove { index } => {
                let mut s = string_from_str("illegal move at index ");
                push_decimal(&mut s, *index as u64);
                s
            },
            KifError::MissingResult => string_from_str("missing KIF result"),
        }
    }
}

/// Errors of the KI2 format.
#[derive(Debug, Clone, PartialEq, Eq)]
pub enum Ki2Error {
    /// A line that is not KI2.
    InvalidLine(String),
    /// A move that is not KI2.
    InvalidMove(String),
    /// An illegal move, by index.
    IllegalMove { index: usize },
}

impl Ki2Error {
    /// The message of the error.
    pub open spec fn message(&self) -> Seq<char> {
        match self {
            Ki2Error::InvalidLine(s) => "invalid KI2 line: "@ + s@,
            Ki2Error::InvalidMove(s) => "invalid KI2 move: "@ + s@,
            Ki2Error::IllegalMove { index } => "illegal move at index "@ + decimal(*index as nat),
        }
    }

    /// The message of the error (see [`Ki2Error::message`]).
    pub fn to_string(&self) -> (r: String)
        ensures
            r@ == self.message(),
    {
        match self {
            Ki2Error::InvalidLine(t) => {
                let mut s = string_from_str("invalid KI2 line: ");
                push_str(&mut s, t.as_str());
                s
            },
            Ki2Error::InvalidMove(t) => {
                let mut s = string_from_str("invalid KI2 move: ");
                push_str(&mut s, t.as_str());
                s
            },
            Ki2Error::IllegalMove { index } => {
                let mut s = string_from_str("illegal move at index ");
                push_decimal(&mut s, *index as u64);
                s
            },
        }
    }
}

/// The kind (see [`SpecialMove::kind_view`]) and result a KIF terminal name
/// stands for; `black` tells whether Black is to move. An unknown name is an
/// unknown terminal of that name with no result.
pub open spec fn kif_name_spec(n: Seq<char>, black: bool) -> ((int, Seq<char>), GameResult) {
    if n == "投了"@ || n == "詰み"@ || n == "詰"@ {
        ((1, Seq::empty()), if black { GameResult::WhiteWin } else { GameResult::BlackWin })
    } else if n == "切れ負け"@ {
        ((8, Seq::empty()), if black { GameResult::WhiteWinByTimeout } else { GameResult::BlackWinByTimeout })
    } else if n == "反則勝ち"@ {
        ((9, Seq::empty()), if black { GameResult::BlackWinByIllegalMove } else { GameResult::WhiteWinByIllegalMove })
    } else if n == "反則負け"@ {
        ((10, Seq::empty()), if black { GameResult::WhiteWinByIllegalMove } else { GameResult::BlackWinByIllegalMove })
    } else if n == "入玉宣言"@ || n == "入玉勝ち"@ {
        ((11, Seq::empty()), if black { GameResult::BlackWinByDeclaration } else { GameResult::WhiteWinByDeclaration })
    } else if n == "不戦勝"@ {
        ((12, Seq::empty()), if black { GameResult::BlackWinByForfeit } else { GameResult::WhiteWinByForfeit })
    } else if n == "不戦敗"@ {
        ((13, Seq::empty()), if black { GameResult::WhiteWinByForfeit } else { GameResult::BlackWinByForfeit })
    } else if n == "千日手"@ {
        ((5, Seq::empty()), GameResult::DrawByRepetition)
    } else if n == "最大手数"@ {
        ((2, Seq::empty()), GameResult::DrawByMaxPlies)
    } else if n == "持将棋"@ {
        ((3, Seq::empty()), GameResult::DrawByImpasse)
    } else if n == "中断"@ {
        ((0, Seq::empty()), GameResult::Paused)
    } else if n == "不詰"@ {
        ((7, Seq::empty()), GameResult::Paused)
    } else if n == "トライ"@ {
        ((14, Seq::empty()), GameResult::Paused)
    } else {
        ((15, n), GameResult::Paused)
    }
}

fn entry(kind: SpecialMove, result: GameResult) -> (r: SpecialMoveEntry)
    ensures
        r.kind_spec().kind_view() == kind.kind_view(),
        r.result_spec() == result,
        r.raw_spec() is None,
{
    SpecialMoveEntry::new(kind, result)
}

/// The terminal entry of a KIF terminal name (see [`kif_name_spec`]).
pub fn terminal_from_kif_name(name: &str, side_to_move: Color) -> (r: SpecialMoveEntry)
    ensures
        (r.kind_spec().kind_view(), r.result_spec()) == kif_name_spec(name@, side_to_move == Color::Black),
        r.raw_spec() is None,
{
    let black = side_to_move == Color::Black;
    let v = str_chars(name);
    let n = v.as_slice();
    if chars_eq_str(n, "投了") || chars_eq_str(n, "詰み") || chars_eq_str(n, "詰") {
        entry(SpecialMove::Resign, if black { GameResult::WhiteWin } else { GameResult::BlackWin })
    } else if chars_eq_str(n, "切れ負け") {
        entry(SpecialMove::Timeout, if black { GameResult::WhiteWinByTimeout } else { GameResult::BlackWinByTimeout })
    } else if chars_eq_str(n, "反則勝ち") {
        entry(
            SpecialMove::WinByIllegalMove,
            if black { GameResult::BlackWinByIllegalMove } else { GameResult::WhiteWinByIllegalMove },
        )
    } else if chars_eq_str(n, "反則負け") {
        entry(
            SpecialMove::LoseByIllegalMove,
            if black { GameResult::WhiteWinByIllegalMove } else { GameResult::BlackWinByIllegalMove },
        )
    } else if chars_eq_str(n, "入玉宣言") || chars_eq_str(n, "入玉勝ち") {
        entry(
            SpecialMove::WinByDeclaration,
            if black { GameResult::BlackWinByDeclaration } else { GameResult::WhiteWinByDeclaration },
        )
    } else if chars_eq_str(n, "不戦勝") {
        entry(SpecialMove::WinByDefault, if black { GameResult::BlackWinByForfeit } else { GameResult::WhiteWinByForfeit })
    } else if chars_eq_str(n, "不戦敗") {
        entry(SpecialMove::LoseByDefault, if black { GameResult::WhiteWinByForfeit } else { GameResult::BlackWinByForfeit })
    } else if chars_eq_str(n, "千日手") {
        entry(SpecialMove::RepetitionDraw, GameResult::DrawByRepetition)
    } else if chars_eq_str(n, "最大手数") {
        entry(SpecialMove::MaxMoves, GameResult::DrawByMaxPlies)
    } else if chars_eq_str(n, "持将棋") {
        entry(SpecialMove::Impasse, GameResult::DrawByImpasse)
    } else if chars_eq_str(n, "中断") {
        entry(SpecialMove::Interrupt, GameResult::Paused)
    } else if chars_eq_str(n, "不詰") {
        entry(SpecialMove::NoMate, GameResult::Paused)
    } else if chars_eq_str(n, "トライ") {
        entry(SpecialMove::Try, GameResult::Paused)
    } else {
        entry(SpecialMove::Unknown(string_from_chars(n)), GameResult::Paused)
    }
}

/// Whether `p` occurs in `t`.
pub open spec fn contains_text(t: Seq<char>, p: Seq<char>) -> bool {
    find_seq(t, p) is Some
}

/// The kind and result a KIF summary line (`まで…`) states, read from the
/// line without surrounding white space; none for other lines and for
/// summaries that name no outcome.
pub open spec fn kif_summary_spec(line: Seq<char>, black: bool) -> Option<((int, Seq<char>), GameResult)> {
    let t = trim_spec(line);
    let sente = contains_text(t, "先手"@);
    let gote = contains_text(t, "後手"@);
    if !starts_with(t, "まで"@) {
        None
    } else if contains_text(t, "時間切れ"@) && sente {
        Some(((8, Seq::empty()), GameResult::BlackWinByTimeout))
    } else if contains_text(t, "時間切れ"@) && gote {
        Some(((8, Seq::empty()), GameResult::WhiteWinByTimeout))
    } else if contains_text(t, "千日手"@) {
        Some(((5, Seq::empty()), GameResult::DrawByRepetition))
    } else if contains_text(t, "最大手数"@) {
        Some(((2, Seq::empty()), GameResult::DrawByMaxPlies))
    } else if contains_text(t, "持将棋"@) {
        Some(((3, Seq::empty()), GameResult::DrawByImpasse))
    } else if contains_text(t, "中断"@) {
        Some(((0, Seq::empty()), GameResult::Paused))
    } else if contains_text(t, "入玉宣言"@) || contains_text(t, "入玉勝ち"@) {
        if sente {
            Some(((11, Seq::empty()), GameResult::BlackWinByDeclaration))
        } else if gote {
            Some(((11, Seq::empty()), GameResult::WhiteWinByDeclaration))
        } else {
            None
        }
    } else if contains_text(t, "反則勝ち"@) && sente {
        Some(((9, Seq::empty()), GameResult::BlackWinByIllegalMove))
    } else if contains_text(t, "反則勝ち"@) && gote {
        Some(((9, Seq::empty()), GameResult::WhiteWinByIllegalMove))
    } else if contains_text(t, "反則負け"@) && sente {
        Some(((10, Seq::empty()), GameResult::WhiteWinByIllegalMove))
    } else if contains_text(t, "反則負け"@) && gote {
        Some(((10, Seq::empty()), GameResult::BlackWinByIllegalMove))
    } else if contains_text(t, "不詰"@) {
        Some(((7, Seq::empty()), GameResult::Paused))
    } else if t.len() > 0 && t.last() == '詰' {
        Some(kif_name_spec("詰"@, black))
    } else if contains_text(t, "勝ち"@) && sente {
        Some(((1, Seq::empty()), GameResult::BlackWin))
    } else if contains_text(t, "勝ち"@) && gote {
        Some(((1, Seq::empty()), GameResult::WhiteWin))
    } else {
        None
    }
}

fn has_text(t: &[char], p: &str) -> (r: bool)
    ensures
        r == contains_text(t@, p@),
{
    let pv = str_chars(p);
    find_seq_index(t, pv.as_slice()).is_some()
}

/// The terminal entry a KIF summary line states (see [`kif_summary_spec`]).
pub fn parse_kif_summary_result(line: &str, side_to_move: Color) -> (r: Option<SpecialMoveEntry>)
    ensures
        match kif_summary_spec(line@, side_to_move == Color::Black) {
            Some((k, res)) => r matches Some(e) && e.kind_spec().kind_view() == k && e.result_spec() == res
                && e.raw_spec() is None,
            None => r is None,
        },
{
    let tv = str_chars(line);
    let trimmed = trim_chars(tv.as_slice());
    let t = trimmed.as_slice();
    if !chars_start_with(t, "まで") {
        return None;
    }
    let sente = has_text(t, "先手");
    let gote = has_text(t, "後手");
    if has_text(t, "時間切れ") {
        if sente {
            return Some(entry(SpecialMove::Timeout, GameResult::BlackWinByTimeout));
        }
        if gote {
            return Some(entry(SpecialMove::Timeout, GameResult::WhiteWinByTimeout));
        }
    }
    if has_text(t, "千日手") {
        return Some(entry(SpecialMove::RepetitionDraw, GameResult::DrawByRepetition));
    }
    if has_text(t, "最大手数") {
        return Some(entry(SpecialMove::MaxMoves, GameResult::DrawByMaxPlies));
    }
    if has_text(t, "持将棋") {
        return Some(entry(SpecialMove::Impasse, GameResult::DrawByImpasse));
    }
    if has_text(t, "中断") {
        return Some(entry(SpecialMove::Interrupt, GameResult::Paused));
    }
    if has_text(t, "入玉宣言") || has_text(t, "入玉勝ち") {
        if sente {
            return Some(entry(SpecialMove::WinByDeclaration, GameResult::BlackWinByDeclaration));
        }
        if gote {
            return Some(entry(SpecialMove::WinByDeclaration, GameResult::WhiteWinByDeclaration));
        }
        return None;
    }
    if has_text(t, "反則勝ち") {
        if sente {
            return Some(entry(SpecialMove::WinByIllegalMove, GameResult::BlackWinByIllegalMove));
        }
        if gote {
            return Some(entry(SpecialMove::WinByIllegalMove, GameResult::WhiteWinByIllegalMove));
        }
    }
    if has_text(t, "反則負け") {
        if sente {
            return Some(entry(SpecialMove::LoseByIllegalMove, GameResult::WhiteWinByIllegalMove));
        }
        if gote {
            return Some(entry(SpecialMove::LoseByIllegalMove, GameResult::BlackWinByIllegalMove));
        }
    }
    if has_text(t, "不詰") {
        return Some(entry(SpecialMove::NoMate, GameResult::Paused));
    }
    if t.len() > 0 && t[t.len() - 1] == '詰' {
        return Some(terminal_from_kif_name("詰", side_to_move));
    }
    if has_text(t, "勝ち") {
        if sente {
            return Some(entry(SpecialMove::Resign, GameResult::BlackWin));
        }
        if gote {
            return Some(entry(SpecialMove::Resign, GameResult::WhiteWin));
        }
    }
    None
}

/// The terminal entry a KI2 summary line states: the KIF reading of the line
/// without surrounding white space, when that starts with `まで`.
pub fn parse_ki2_summary_result(line: &str, side_to_move: Color) -> (r: Option<SpecialMoveEntry>)
    ensures
        !starts_with(trim_spec(line@), "まで"@) ==> r is None,
        starts_with(trim_spec(line@), "まで"@) ==> match kif_summary_spec(trim_spec(line@), side_to_move == Color::Black) {
            Some((k, res)) => r matches Some(e) && e.kind_spec().kind_view() == k && e.result_spec() == res
                && e.raw_spec() is None,
            None => r is None,
        },
{
    let tv = str_chars(line);
    let trimmed = trim_chars(tv.as_slice());
    if !chars_start_with(trimmed.as_slice(), "まで") {
        return None;
    }
    let text = string_from_chars(trimmed.as_slice());
    parse_kif_summary_result(text.as_str(), side_to_move)
}

/// The display width of a text in KIF columns: one per ASCII character, two
/// per other character.
pub open spec fn kif_width(t: Seq<char>) -> nat
    decreases t.len(),
{
    if t.len() == 0 {
        0
    } else {
        kif_width(t.drop_last()) + (if (t.last() as u32) < 128 { 1nat } else { 2nat })
    }
}

/// The display width of a text (see [`kif_width`]).
pub fn kif_display_width(text: &str) -> (r: usize)
    requires
        text@.len() <= 0x1000_0000,
    ensures
        r == kif_width(text@),
{
    let v = str_chars(text);
    let mut w: usize = 0;
    let mut i: usize = 0;
    while i < v.len()
        invariant
            i <= v@.len(),
            v@ == text@,
            v@.len() <= 0x1000_0000,
            w == kif_width(v@.take(i as int)),
            w <= 2 * i,
        decreases v.len() - i,
    {
        assert(v@.take(i + 1).drop_last() =~= v@.take(i as int));
        w = w + if (v[i] as u32) < 128 { 1 } else { 2 };
        i += 1;
    }
    assert(v@.take(i as int) =~= v@);
    w
}

/// A text padded with spaces to a display width of twelve.
pub open spec fn kif_padded(t: Seq<char>) -> Seq<char> {
    if kif_width(t) >= 12 {
        t
    } else {
        t + Seq::new((12 - kif_width(t)) as nat, |i: int| ' ')
    }
}

/// Pads a text with spaces to a display width of twelve (see
/// [`kif_padded`]).
pub fn pad_kif_move_text(text: &str) -> (r: String)
    requires
        text@.len() <= 0x1000_0000,
    ensures
        r@ == kif_padded(text@),
{
    let width = kif_display_width(text);
    let mut s = string_from_str(text);
    if width < 12 {
        let mut k: usize = 0;
        while k < 12 - width
            invariant
                width < 12,
                k <= 12 - width,
                s@ == text@ + Seq::new(k as nat, |i: int| ' '),
            decreases 12 - width - k,
        {
            crate::text::push_char(&mut s, ' ');
            k += 1;
            assert(s@ =~= text@ + Seq::new(k as nat, |i: int| ' '));
        }
    }
    s
}

/// The KIF name of a terminal kind (see [`SpecialMove::kind_view`]).
pub open spec fn kif_text_spec(kind: (int, Seq<char>)) -> Seq<char> {
    if kind.0 == 0 { "中断"@ }
    else if kind.0 == 1 { "投了"@ }
    else if kind.0 == 2 { "最大手数"@ }
    else if kind.0 == 3 { "持将棋"@ }
    else if kind.0 == 4 { "引き分け"@ }
    else if kind.0 == 5 { "千日手"@ }
    else if kind.0 == 6 { "詰み"@ }
    else if kind.0 == 7 { "不詰"@ }
    else if kind.0 == 8 { "切れ負け"@ }
    else if kind.0 == 9 { "反則勝ち"@ }
    else if kind.0 == 10 { "反則負け"@ }
    else if kind.0 == 11 { "入玉勝ち"@ }
    else if kind.0 == 12 { "不戦勝"@ }
    else if kind.0 == 13 { "不戦敗"@ }
    else if kind.0 == 14 { "トライ"@ }
    else { kind.1 }
}

/// The KIF text of a terminal entry: its name padded to the move column.
pub fn special_move_to_kif_text(special: &SpecialMoveEntry) -> (r: String)
    requires
        special.kind_spec().kind_view().1.len() <= 0x1000_0000,
    ensures
        r@ == kif_padded(kif_text_spec(special.kind_spec().kind_view())),
{
    let text: &str = match special.kind() {
        SpecialMove::Resign => "投了",
        SpecialMove::Interrupt => "中断",
        SpecialMove::MaxMoves => "最大手数",
        SpecialMove::Impasse => "持将棋",
        SpecialMove::Draw => "引き分け",
        SpecialMove::RepetitionDraw => "千日手",
        SpecialMove::Mate => "詰み",
        SpecialMove::NoMate => "不詰",
        SpecialMove::Timeout => "切れ負け",
        SpecialMove::WinByIllegalMove => "反則勝ち",
        SpecialMove::LoseByIllegalMove => "反則負け",
        SpecialMove::WinByDeclaration => "入玉勝ち",
        SpecialMove::WinByDefault => "不戦勝",
        SpecialMove::LoseByDefault => "不戦敗",
        SpecialMove::Try => "トライ",
        SpecialMove::Unknown(name) => name.as_str(),
    };
    proof {
        reveal_strlit("投了");
        reveal_strlit("中断");
        reveal_strlit("最大手数");
        reveal_strlit("持将棋");
        reveal_strlit("引き分け");
        reveal_strlit("千日手");
        reveal_strlit("詰み");
        reveal_strlit("不詰");
        reveal_strlit("切れ負け");
        reveal_strlit("反則勝ち");
        reveal_strlit("反則負け");
        reveal_strlit("入玉勝ち");
        reveal_strlit("不戦勝");
        reveal_strlit("不戦敗");
        reveal_strlit("トライ");
    }
    pad_kif_move_text(text)
}

proof fn lemma_names_differ(a: Seq<char>, b: Seq<char>)
    ensures
        (a.len() != b.len() || exists|i: int| 0 <= i < a.len() && i < b.len() && a[i] != b[i]) ==> a != b,
{
}

/// The KIF name of every terminal kind but a draw (`引き分け`) and a mate
/// (`詰み`, read as a resignation) reads back as that kind.
pub proof fn lemma_kif_terminal_name_roundtrip(k: int, black: bool)
    requires
        0 <= k <= 14,
        k != 4,
        k != 6,
    ensures
        kif_name_spec(kif_text_spec((k, Seq::empty())), black).0 == (k, Seq::<char>::empty()),
{
    reveal_strlit("投了");
    reveal_strlit("詰み");
    reveal_strlit("詰");
    reveal_strlit("切れ負け");
    reveal_strlit("反則勝ち");
    reveal_strlit("反則負け");
    reveal_strlit("入玉宣言");
    reveal_strlit("入玉勝ち");
    reveal_strlit("不戦勝");
    reveal_strlit("不戦敗");
    reveal_strlit("千日手");
    reveal_strlit("最大手数");
    reveal_strlit("持将棋");
    reveal_strlit("中断");
    reveal_strlit("不詰");
    reveal_strlit("トライ");
    assert("投了"@[0] == '投');
    assert("投了"@[1] == '了');
    assert("詰み"@[0] == '詰');
    assert("詰み"@[1] == 'み');
    assert("詰"@[0] == '詰');
    assert("切れ負け"@[0] == '切');
    assert("切れ負け"@[1] == 'れ');
    assert("切れ負け"@[2] == '負');
    assert("切れ負け"@[3] == 'け');
    assert("反則勝ち"@[0] == '反');
    assert("反則勝ち"@[1] == '則');
    assert("反則勝ち"@[2] == '勝');
    assert("反則勝ち"@[3] == 'ち');
    assert("反則負け"@[0] == '反');
    assert("反則負け"@[1] == '則');
    assert("反則負け"@[2] == '負');
    assert("反則負け"@[3] == 'け');
    assert("入玉宣言"@[0] == '入');
    assert("入玉宣言"@[1] == '玉');
    assert("入玉宣言"@[2] == '宣');
    assert("入玉宣言"@[3] == '言');
    assert("入玉勝ち"@[0] == '入');
    assert("入玉勝ち"@[1] == '玉');
    assert("入玉勝ち"@[2] == '勝');
    assert("入玉勝ち"@[3] == 'ち');
    assert("不戦勝"@[0] == '不');
    assert("不戦勝"@[1] == '戦');
    assert("不戦勝"@[2] == '勝');
    assert("不戦敗"@[0] == '不');
    assert("不戦敗"@[1] == '戦');
    assert("不戦敗"@[2] == '敗');
    assert("千日手"@[0] == '千');
    assert("千日手"@[1] == '日');
    assert("千日手"@[2] == '手');
    assert("最大手数"@[0] == '最');
    assert("最大手数"@[1] == '大');
    assert("最大手数"@[2] == '手');
    assert("最大手数"@[3] == '数');
    assert("持将棋"@[0] == '持');
    assert("持将棋"@[1] == '将');
    assert("持将棋"@[2] == '棋');
    assert("中断"@[0] == '中');
    assert("中断"@[1] == '断');
    assert("不詰"@[0] == '不');
    assert("不詰"@[1] == '詰');
    assert("トライ"@[0] == 'ト');
    assert("トライ"@[1] == 'ラ');
    assert("トライ"@[2] == 'イ');
    let t = kif_text_spec((k, Seq::empty()));
    // Names that differ in a character are different.
    lemma_names_differ(t, "投了"@);
    lemma_names_differ(t, "詰み"@);
    lemma_names_differ(t, "詰"@);
    lemma_names_differ(t, "切れ負け"@);
    lemma_names_differ(t, "反則勝ち"@);
    lemma_names_differ(t, "反則負け"@);
    lemma_names_differ(t, "入玉宣言"@);
    lemma_names_differ(t, "入玉勝ち"@);
    lemma_names_differ(t, "不戦勝"@);
    lemma_names_differ(t, "不戦敗"@);
    lemma_names_differ(t, "千日手"@);
    lemma_names_differ(t, "最大手数"@);
    lemma_names_differ(t, "持将棋"@);
    lemma_names_differ(t, "中断"@);
    lemma_names_differ(t, "不詰"@);
    lemma_names_differ(t, "トライ"@);
}

/// `a + b`, held at 255.
pub open spec fn sat_add(a: int, b: int) -> u8 {
    if a + b > 255 {
        255
    } else {
        (a + b) as u8
    }
}

/// `a * b`, held at 255.
pub open spec fn sat_mul(a: int, b: int) -> u8 {
    if a * b > 255 {
        255
    } else {
        (a * b) as u8
    }
}

/// The value of a kanji digit, or none.
pub open spec fn kanji_digit(c: char) -> Option<u8> {
    if c == '〇' || c == '零' { Some(0) }
    else if c == '一' { Some(1) }
    else if c == '二' { Some(2) }
    else if c == '三' { Some(3) }
    else if c == '四' { Some(4) }
    else if c == '五' { Some(5) }
    else if c == '六' { Some(6) }
    else if c == '七' { Some(7) }
    else if c == '八' { Some(8) }
    else if c == '九' { Some(9) }
    else { None }
}

/// Reading one more character of a kanji number: the total so far and the
/// digits since the last `十`, both held at 255; `十` adds ten times those
/// digits (at least one) to the total; other characters are skipped.
pub open spec fn kanji_step(state: (u8, u8), c: char) -> (u8, u8) {
    if c == '十' {
        let cur: int = if state.1 == 0 { 1 } else { state.1 as int };
        (sat_add(state.0 as int, sat_mul(cur, 10) as int), 0)
    } else {
        match kanji_digit(c) {
            Some(d) => (state.0, sat_add(sat_mul(state.1 as int, 10) as int, d as int)),
            None => state,
        }
    }
}

/// The state after reading all of `s`.
pub open spec fn kanji_fold(s: Seq<char>) -> (u8, u8)
    decreases s.len(),
{
    if s.len() == 0 {
        (0, 0)
    } else {
        kanji_step(kanji_fold(s.drop_last()), s.last())
    }
}

/// The value of a kanji number such as `十八`, held at 255; 1 for an empty
/// text or a value of zero.
pub open spec fn kanji_to_int_spec(s: Seq<char>) -> u8 {
    if s.len() == 0 {
        1
    } else {
        let t = sat_add(kanji_fold(s).0 as int, kanji_fold(s).1 as int);
        if t == 0 {
            1
        } else {
            t
        }
    }
}

fn sat_add_u8(a: u8, b: u8) -> (r: u8)
    ensures
        r == sat_add(a as int, b as int),
{
    let s = a as u16 + b as u16;
    if s > 255 {
        255
    } else {
        s as u8
    }
}

fn sat_mul_u8(a: u8, b: u8) -> (r: u8)
    ensures
        r == sat_mul(a as int, b as int),
{
    assert((a as u32) * (b as u32) <= 65025) by (nonlinear_arith)
        requires
            a <= 255,
            b <= 255,
    ;
    let p = a as u32 * b as u32;
    if p > 255 {
        255
    } else {
        p as u8
    }
}

fn kanji_digit_value(c: char) -> (r: Option<u8>)
    ensures
        r == kanji_digit(c),
{
    if c == '〇' || c == '零' { Some(0) }
    else if c == '一' { Some(1) }
    else if c == '二' { Some(2) }
    else if c == '三' { Some(3) }
    else if c == '四' { Some(4) }
    else if c == '五' { Some(5) }
    else if c == '六' { Some(6) }
    else if c == '七' { Some(7) }
    else if c == '八' { Some(8) }
    else if c == '九' { Some(9) }
    else { None }
}

/// The value of a kanji number (see [`kanji_to_int_spec`]).
pub fn kanji_to_int(text: &str) -> (r: u8)
    ensures
        r == kanji_to_int_spec(text@),
{
    let v = str_chars(text);
    if v.len() == 0 {
        return 1;
    }
    let mut total: u8 = 0;
    let mut current: u8 = 0;
    let mut i: usize = 0;
    while i < v.len()
        invariant
            i <= v@.len(),
            v@ == text@,
            (total, current) == kanji_fold(v@.take(i as int)),
        decreases v.len() - i,
    {
        assert(v@.take(i + 1).drop_last() =~= v@.take(i as int));
        let c = v[i];
        if c == '十' {
            let cur = if current == 0 { 1 } else { current };
            total = sat_add_u8(total, sat_mul_u8(cur, 10));
            current = 0;
        } else {
            match kanji_digit_value(c) {
                Some(d) => {
                    current = sat_add_u8(sat_mul_u8(current, 10), d);
                },
                None => {},
            }
        }
        i += 1;
    }
    assert(v@.take(i as int) =~= v@);
    let t = sat_add_u8(total, current);
    if t == 0 {
        1
    } else {
        t
    }
}

/// The kanji of a number from 1 to 10; decimal digits for any other value.
pub open spec fn kanji_number_spec(value: u8) -> Seq<char> {
    if value == 1 { seq!['一'] }
    else if value == 2 { seq!['二'] }
    else if value == 3 { seq!['三'] }
    else if value == 4 { seq!['四'] }
    else if value == 5 { seq!['五'] }
    else if value == 6 { seq!['六'] }
    else if value == 7 { seq!['七'] }
    else if value == 8 { seq!['八'] }
    else if value == 9 { seq!['九'] }
    else if value == 10 { seq!['十'] }
    else { decimal(value as nat) }
}

/// The kanji of a number (see [`kanji_number_spec`]).
pub fn kanji_number(value: u8) -> (r: String)
    ensures
        r@ == kanji_number_spec(value),
{
    let c = if value == 1 { '一' }
        else if value == 2 { '二' }
        else if value == 3 { '三' }
        else if value == 4 { '四' }
        else if value == 5 { '五' }
        else if value == 6 { '六' }
        else if value == 7 { '七' }
        else if value == 8 { '八' }
        else if value == 9 { '九' }
        else if value == 10 { '十' }
        else { ' ' };
    if c == ' ' {
        return crate::text::decimal_string(value as u64);
    }
    let mut s = String::new();
    crate::text::push_char(&mut s, c);
    s
}

/// The kanji written for a number from 1 to 10 reads back as that number.
pub proof fn lemma_kanji_number_roundtrip(value: u8)
    requires
        1 <= value <= 10,
    ensures
        kanji_to_int_spec(kanji_number_spec(value)) == value,
{
    let s = kanji_number_spec(value);
    assert(s.drop_last() =~= Seq::<char>::empty());
    assert(kanji_fold(Seq::<char>::empty()) == (0u8, 0u8));
}

/// A number in decimal, right-aligned in two columns.
pub open spec fn space_pad2(n: nat) -> Seq<char> {
    if n < 10 {
        seq![' '] + decimal(n)
    } else {
        decimal(n)
    }
}

/// A number in decimal with at least two digits.
pub open spec fn zero_pad2(n: nat) -> Seq<char> {
    if n < 10 {
        seq!['0'] + decimal(n)
    } else {
        decimal(n)
    }
}

fn push_padded2(s: &mut String, n: u32, pad: char)
    requires
        pad == ' ' || pad == '0',
    ensures
        pad == ' ' ==> final(s)@ == old(s)@ + space_pad2(n as nat),
        pad == '0' ==> final(s)@ == old(s)@ + zero_pad2(n as nat),
{
    if n < 10 {
        crate::text::push_char(s, pad);
    }
    push_decimal(s, n as u64);
    assert(pad == ' ' ==> final(s)@ =~= old(s)@ + space_pad2(n as nat));
    assert(pad == '0' ==> final(s)@ =~= old(s)@ + zero_pad2(n as nat));
}

/// Elapsed time as `m:ss`, the minutes right-aligned in two columns (whole
/// seconds of `time_ms`).
pub open spec fn time_mss_spec(time_ms: u32) -> Seq<char> {
    let total = time_ms / 1000;
    space_pad2((total / 60) as nat) + seq![':'] + zero_pad2((total % 60) as nat)
}

/// Elapsed time as `m:ss` (see [`time_mss_spec`]).
pub fn format_time_mss(time_ms: u32) -> (r: String)
    ensures
        r@ == time_mss_spec(time_ms),
{
    let total = time_ms / 1000;
    let mut s = String::new();
    push_padded2(&mut s, total / 60, ' ');
    crate::text::push_char(&mut s, ':');
    push_padded2(&mut s, total % 60, '0');
    assert(s@ =~= time_mss_spec(time_ms));
    s
}

/// Elapsed time as `hh:mm:ss`, each part with at least two digits.
pub open spec fn time_hhmmss_spec(time_ms: u32) -> Seq<char> {
    let total = time_ms / 1000;
    zero_pad2((total / 3600) as nat) + seq![':'] + zero_pad2(((total % 3600) / 60) as nat) + seq![':'] + zero_pad2(
        (total % 60) as nat,
    )
}

/// Elapsed time as `hh:mm:ss` (see [`time_hhmmss_spec`]).
pub fn format_time_hhmmss(time_ms: u32) -> (r: String)
    ensures
        r@ == time_hhmmss_spec(time_ms),
{
    let total = time_ms / 1000;
    let mut s = String::new();
    push_padded2(&mut s, total / 3600, '0');
    crate::text::push_char(&mut s, ':');
    push_padded2(&mut s, (total % 3600) / 60, '0');
    crate::text::push_char(&mut s, ':');
    push_padded2(&mut s, total % 60, '0');
    assert(s@ =~= time_hhmmss_spec(time_ms));
    s
}

/// The KIF text of a time control: none when every part is zero; else the
/// base time as `{h}時間{m}分` (or `{m}分` under an hour) when there is one,
/// then `秒読み{b}秒` and `加算{i}秒` for a byoyomi and an increment.
pub open spec fn kif_time_control_text(v: (u32, u32, u32)) -> Option<Seq<char>> {
    if v.0 == 0 && v.1 == 0 && v.2 == 0 {
        None
    } else {
        let h = v.0 / 3600;
        let m = (v.0 % 3600) / 60;
        let base = if v.0 == 0 {
            Seq::empty()
        } else if h > 0 {
            decimal(h as nat) + "時間"@ + decimal(m as nat) + "分"@
        } else {
            decimal(m as nat) + "分"@
        };
        let byoyomi = if v.1 > 0 {
            "秒読み"@ + decimal(v.1 as nat) + "秒"@
        } else {
            Seq::empty()
        };
        let increment = if v.2 > 0 {
            "加算"@ + decimal(v.2 as nat) + "秒"@
        } else {
            Seq::empty()
        };
        Some(base + byoyomi + increment)
    }
}

/// The KIF text of a time control (see [`kif_time_control_text`]).
pub fn format_kif_time_control_text(time_control: &TimeControl) -> (r: Option<String>)
    ensures
        match kif_time_control_text(time_control@) {
            Some(t) => r matches Some(s) && s@ == t,
            None => r is None,
        },
{
    let base = time_control.base_seconds();
    let byoyomi = time_control.byoyomi_seconds();
    let increment = time_control.increment_seconds();
    if base == 0 && byoyomi == 0 && increment == 0 {
        return None;
    }
    let mut s = String::new();
    if base > 0 {
        let hours = base / 3600;
        let minutes = (base % 3600) / 60;
        if hours > 0 {
            push_decimal(&mut s, hours as u64);
            push_str(&mut s, "時間");
        }
        push_decimal(&mut s, minutes as u64);
        push_str(&mut s, "分");
    }
    let ghost after_base = s@;
    if byoyomi > 0 {
        push_str(&mut s, "秒読み");
        push_decimal(&mut s, byoyomi as u64);
        push_str(&mut s, "秒");
    }
    let ghost after_byoyomi = s@;
    if increment > 0 {
        push_str(&mut s, "加算");
        push_decimal(&mut s, increment as u64);
        push_str(&mut s, "秒");
    }
    assert(s@ =~= kif_time_control_text(time_control@)->Some_0);
    Some(s)
}


/// The key and value of a header line `key：value`, split at the first
/// full-width colon or else at the first `:`, each without surrounding white
/// space; none for a line with neither.
pub open spec fn metadata_field_spec(line: Seq<char>) -> Option<(Seq<char>, Seq<char>)> {
    let t = trim_spec(line);
    let at = match find_char(t, '：') {
        Some(i) => Some(i),
        None => find_char(t, ':'),
    };
    match at {
        Some(i) => Some((trim_spec(t.take(i)), trim_spec(t.skip(i + 1)))),
        None => None,
    }
}

/// The key and value of a header line (see [`metadata_field_spec`]).
pub fn split_metadata_field(line: &str) -> (r: Option<(String, String)>)
    ensures
        match metadata_field_spec(line@) {
            Some((k, v)) => r matches Some((a, b)) && a@ == k && b@ == v,
            None => r is None,
        },
{
    let v = str_chars(line);
    let t = trim_chars(v.as_slice());
    let at = match find_char_index(t.as_slice(), '：') {
        Some(i) => Some(i),
        None => find_char_index(t.as_slice(), ':'),
    };
    proof {
        crate::text::lemma_find_char_from_bounds(t@, '：', 0);
        crate::text::lemma_find_char_from_bounds(t@, ':', 0);
    }
    match at {
        None => None,
        Some(i) => {
            let head = vstd::slice::slice_subrange(t.as_slice(), 0, i);
            let tail = vstd::slice::slice_subrange(t.as_slice(), i + 1, t.len());
            assert(head@ =~= t@.take(i as int));
            assert(tail@ =~= t@.skip(i + 1));
            let key = trim_chars(head);
            let value = trim_chars(tail);
            Some((string_from_chars(key.as_slice()), string_from_chars(value.as_slice())))
        },
    }
}

/// A time control read from a header value: the KIF form, or else the
/// `base+byoyomi+increment` form.
pub open spec fn kif_header_time_control(v: Seq<char>) -> Option<(u32, u32, u32)> {
    match kif_time_control_spec(v) {
        Some(x) => Some(x),
        None => from_spec_spec(v),
    }
}

/// A header line whose time control can be read without overflow.
pub open spec fn kif_header_in_range(line: Seq<char>) -> bool {
    match metadata_field_spec(line) {
        Some((k, v)) => k == "持ち時間"@ ==> kif_time_in_range(v),
        None => true,
    }
}

/// The metadata after reading a KIF header line: the players, event, site,
/// dates, time controls, move limit, impasse rule and remarks go to their
/// fields, any other key to the attributes; a line that is no `key：value`
/// changes nothing.
pub open spec fn kif_header_applied(m: RecordMetadataView, line: Seq<char>) -> RecordMetadataView {
    match metadata_field_spec(line) {
        None => m,
        Some((k, v)) => if k == "先手"@ || k == "下手"@ {
            with_standard(m, RecordMetadataKey::BlackPlayer.key_view(), Some(v))
        } else if k == "後手"@ || k == "上手"@ {
            with_standard(m, RecordMetadataKey::WhitePlayer.key_view(), Some(v))
        } else if k == "棋戦"@ {
            with_standard(m, RecordMetadataKey::Event.key_view(), Some(v))
        } else if k == "場所"@ {
            with_standard(m, RecordMetadataKey::Site.key_view(), Some(v))
        } else if k == "開始日時"@ || k == "開始日"@ {
            with_standard(m, RecordMetadataKey::StartDate.key_view(), Some(v))
        } else if k == "終了日時"@ || k == "終了日"@ {
            with_standard(m, RecordMetadataKey::EndDate.key_view(), Some(v))
        } else if k == "持ち時間"@ {
            RecordMetadataView { time_control: kif_header_time_control(v), ..m }
        } else if k == "先手持ち時間"@ {
            RecordMetadataView { black_time_control: from_spec_spec(v), ..m }
        } else if k == "後手持ち時間"@ {
            RecordMetadataView { white_time_control: from_spec_spec(v), ..m }
        } else if k == "最大手数"@ {
            RecordMetadataView { max_moves: parse_u32_spec(v), ..m }
        } else if k == "持将棋"@ {
            RecordMetadataView { impasse_rule: Some(v), ..m }
        } else if k == "備考"@ {
            if v.len() == 0 {
                m
            } else {
                with_standard(
                    m,
                    RecordMetadataKey::Comment.key_view(),
                    appended_comment(map_get(m.standard, RecordMetadataKey::Comment.key_view()), v),
                )
            }
        } else {
            RecordMetadataView { custom: m.custom.insert(k, v), ..m }
        },
    }
}

/// Reads a KIF header line into the metadata (see [`kif_header_applied`]).
pub fn apply_metadata_line(builder: &mut RecordMetadataBuilder, line: &str)
    requires
        kif_header_in_range(line@),
    ensures
        final(builder)@ == kif_header_applied(old(builder)@, line@),
{
    let (key, value) = match split_metadata_field(line) {
        None => return,
        Some(kv) => kv,
    };
    let kc = str_chars(key.as_str());
    let k = kc.as_slice();
    if chars_eq_str(k, "先手") || chars_eq_str(k, "下手") {
        builder.black_player(Some(value));
    } else if chars_eq_str(k, "後手") || chars_eq_str(k, "上手") {
        builder.white_player(Some(value));
    } else if chars_eq_str(k, "棋戦") {
        builder.event(Some(value));
    } else if chars_eq_str(k, "場所") {
        builder.site(Some(value));
    } else if chars_eq_str(k, "開始日時") || chars_eq_str(k, "開始日") {
        builder.start_date(Some(value));
    } else if chars_eq_str(k, "終了日時") || chars_eq_str(k, "終了日") {
        builder.end_date(Some(value));
    } else if chars_eq_str(k, "持ち時間") {
        let parsed = match parse_kif_time_control(value.as_str()) {
            Some(t) => Some(t),
            None => TimeControl::from_spec(value.as_str()),
        };
        builder.time_control(parsed);
    } else if chars_eq_str(k, "先手持ち時間") {
        builder.black_time_control(TimeControl::from_spec(value.as_str()));
    } else if chars_eq_str(k, "後手持ち時間") {
        builder.white_time_control(TimeControl::from_spec(value.as_str()));
    } else if chars_eq_str(k, "最大手数") {
        let vc = str_chars(value.as_str());
        builder.max_moves(parse_u32(vc.as_slice()));
    } else if chars_eq_str(k, "持将棋") {
        builder.impasse_rule(Some(value));
    } else if chars_eq_str(k, "備考") {
        builder.append_comment_line(value.as_str());
    } else {
        builder.add_attribute(key, value);
    }
}


/// Appends the comment lines of a KIF move: each non-blank line of the
/// comment, trimmed, after `*` (see [`prefixed_lines`]).
pub fn append_kif_comments(lines: &mut Vec<String>, comment: &str)
    ensures
        text_lines(final(lines)@) == text_lines(old(lines)@) + prefixed_lines("*"@, comment@),
{
    push_prefixed_lines(lines, "*", comment);
}

/// The attribute keys that the KIF header does not repeat.
pub open spec fn kif_skipped_attribute(k: Seq<char>) -> bool {
    ||| k == "棋戦"@
    ||| k == "場所"@
    ||| k == "開始日時"@
    ||| k == "終了日時"@
    ||| k == "持ち時間"@
    ||| k == "先手持ち時間"@
    ||| k == "後手持ち時間"@
    ||| k == "最大手数"@
    ||| k == "持将棋"@
    ||| k == "先手"@
    ||| k == "後手"@
    ||| k == "手合割"@
}

/// The `key：value` lines of the attributes, in the order given, leaving out
/// the keys of [`kif_skipped_attribute`].
pub open spec fn kif_attribute_lines(attrs: Seq<(String, String)>) -> Seq<Seq<char>>
    decreases attrs.len(),
{
    if attrs.len() == 0 {
        Seq::empty()
    } else {
        let rest = kif_attribute_lines(attrs.drop_last());
        let e = attrs.last();
        if kif_skipped_attribute(e.0@) {
            rest
        } else {
            rest.push(e.0@ + "："@ + e.1@)
        }
    }
}

/// The KIF header lines of the event, site and start and end dates that are
/// set, in that order.
pub open spec fn kif_event_lines(m: RecordMetadataView) -> Seq<Seq<char>> {
    opt_line("棋戦："@, map_get(m.standard, RecordMetadataKey::Event.key_view())) + opt_line(
        "場所："@,
        map_get(m.standard, RecordMetadataKey::Site.key_view()),
    ) + opt_line("開始日時："@, map_get(m.standard, RecordMetadataKey::StartDate.key_view())) + opt_line(
        "終了日時："@,
        map_get(m.standard, RecordMetadataKey::EndDate.key_view()),
    )
}

/// The KIF header lines of the time controls, move limit and impasse rule
/// that are set, in that order.
pub open spec fn kif_limit_lines(m: RecordMetadataView) -> Seq<Seq<char>> {
    opt_line(
        "持ち時間："@,
        match m.time_control {
            Some(v) => kif_time_control_text(v),
            None => None,
        },
    ) + opt_line("先手持ち時間："@, opt_spec_text(m.black_time_control)) + opt_line(
        "後手持ち時間："@,
        opt_spec_text(m.white_time_control),
    ) + opt_line(
        "最大手数："@,
        match m.max_moves {
            Some(n) => Some(decimal(n as nat)),
            None => None,
        },
    ) + opt_line("持将棋："@, m.impasse_rule)
}

/// The KIF header lines of the remarks and the players.
pub open spec fn kif_player_lines(m: RecordMetadataView) -> Seq<Seq<char>> {
    (match map_get(m.standard, RecordMetadataKey::Comment.key_view()) {
        Some(c) => prefixed_lines("備考："@, c),
        None => Seq::empty(),
    }) + opt_line("先手："@, map_get(m.standard, RecordMetadataKey::BlackPlayer.key_view())) + opt_line(
        "後手："@,
        map_get(m.standard, RecordMetadataKey::WhitePlayer.key_view()),
    )
}

/// The KIF header lines of metadata: event, site, dates, time controls, move
/// limit, impasse rule, remarks and players, then the other attributes in the
/// order given.
pub open spec fn kif_metadata_lines(m: RecordMetadataView, attrs: Seq<(String, String)>) -> Seq<Seq<char>> {
    kif_event_lines(m) + kif_limit_lines(m) + kif_player_lines(m) + kif_attribute_lines(attrs)
}

fn push_kif_event_lines(lines: &mut Vec<String>, metadata: &RecordMetadata)
    ensures
        text_lines(final(lines)@) == text_lines(old(lines)@) + kif_event_lines(metadata@),
{
    let ghost start = text_lines(lines@);
    push_opt_line(lines, "棋戦：", metadata.event());
    push_opt_line(lines, "場所：", metadata.site());
    push_opt_line(lines, "開始日時：", metadata.start_date());
    push_opt_line(lines, "終了日時：", metadata.end_date());
    assert(text_lines(lines@) =~= start + kif_event_lines(metadata@));
}

fn push_kif_limit_lines(lines: &mut Vec<String>, metadata: &RecordMetadata)
    ensures
        text_lines(final(lines)@) == text_lines(old(lines)@) + kif_limit_lines(metadata@),
{
    let ghost start = text_lines(lines@);
    let tc_text = match metadata.time_control() {
        Some(tc) => format_kif_time_control_text(tc),
        None => None,
    };
    let black_tc = match metadata.black_time_control() {
        Some(tc) => Some(tc.to_spec()),
        None => None,
    };
    let white_tc = match metadata.white_time_control() {
        Some(tc) => Some(tc.to_spec()),
        None => None,
    };
    let max_moves = match metadata.max_moves() {
        Some(n) => Some(crate::text::decimal_string(n as u64)),
        None => None,
    };
    push_opt_line(lines, "持ち時間：", opt_as_str(&tc_text));
    push_opt_line(lines, "先手持ち時間：", opt_as_str(&black_tc));
    push_opt_line(lines, "後手持ち時間：", opt_as_str(&white_tc));
    push_opt_line(lines, "最大手数：", opt_as_str(&max_moves));
    push_opt_line(lines, "持将棋：", metadata.impasse_rule());
    assert(text_lines(lines@) =~= start + kif_limit_lines(metadata@));
}

fn push_kif_player_lines(lines: &mut Vec<String>, metadata: &RecordMetadata)
    ensures
        text_lines(final(lines)@) == text_lines(old(lines)@) + kif_player_lines(metadata@),
{
    let ghost start = text_lines(lines@);
    match metadata.comment() {
        Some(c) => push_prefixed_lines(lines, "備考：", c),
        None => {},
    }
    let ghost after_comment = text_lines(lines@);
    assert(after_comment =~= start + match map_get(metadata@.standard, RecordMetadataKey::Comment.key_view()) {
        Some(c) => prefixed_lines("備考："@, c),
        None => Seq::empty(),
    });
    push_opt_line(lines, "先手：", metadata.black_player());
    push_opt_line(lines, "後手：", metadata.white_player());
    assert(text_lines(lines@) =~= start + kif_player_lines(metadata@));
}

fn push_kif_attribute_lines(lines: &mut Vec<String>, metadata: &RecordMetadata)
    ensures
        text_lines(final(lines)@) == text_lines(old(lines)@) + kif_attribute_lines(metadata.attribute_entries()),
{
    let ghost before = text_lines(lines@);
    let entries = metadata.attributes().entries();
    let n = entries.len();
    let mut i: usize = 0;
    while i < n
        invariant
            n == entries@.len(),
            i <= n,
            entries@ == metadata.attribute_entries(),
            text_lines(lines@) == before + kif_attribute_lines(entries@.take(i as int)),
        decreases n - i,
    {
        let key = &entries[i].0;
        let value = &entries[i].1;
        let kc = str_chars(key.as_str());
        let k = kc.as_slice();
        let skip = chars_eq_str(k, "棋戦") || chars_eq_str(k, "場所") || chars_eq_str(k, "開始日時")
            || chars_eq_str(k, "終了日時") || chars_eq_str(k, "持ち時間") || chars_eq_str(k, "先手持ち時間")
            || chars_eq_str(k, "後手持ち時間") || chars_eq_str(k, "最大手数") || chars_eq_str(k, "持将棋")
            || chars_eq_str(k, "先手") || chars_eq_str(k, "後手") || chars_eq_str(k, "手合割");
        let ghost prefix = entries@.take(i + 1);
        assert(prefix.drop_last() =~= entries@.take(i as int));
        assert(prefix.last() == entries@[i as int]);
        if !skip {
            let mut line = string_from_str(key.as_str());
            push_str(&mut line, "：");
            push_str(&mut line, value.as_str());
            push_line(lines, line);
        }
        i += 1;
    }
    assert(entries@.take(n as int) =~= entries@);
}

/// Appends the KIF header lines of metadata (see [`kif_metadata_lines`]).
pub fn append_kif_metadata(lines: &mut Vec<String>, metadata: &RecordMetadata)
    ensures
        text_lines(final(lines)@) == text_lines(old(lines)@) + kif_metadata_lines(
            metadata@,
            metadata.attribute_entries(),
        ),
{
    let ghost start = text_lines(lines@);
    push_kif_event_lines(lines, metadata);
    push_kif_limit_lines(lines, metadata);
    push_kif_player_lines(lines, metadata);
    push_kif_attribute_lines(lines, metadata);
    assert(text_lines(lines@) =~= start + kif_metadata_lines(metadata@, metadata.attribute_entries()));
}


/// The KIF summary line of a terminal after `ply` moves (see
/// [`SpecialMove::kind_view`] for `kind`); `black` tells whether Black is to
/// move, `先手`/`後手` naming the side to move or the side that moved last as
/// the outcome needs.
pub open spec fn kif_summary_text(kind: (int, Seq<char>), black: bool, ply: nat) -> Seq<char> {
    let next = if black { "先手"@ } else { "後手"@ };
    let last = if black { "後手"@ } else { "先手"@ };
    let head = "まで"@ + decimal(ply) + "手で"@;
    if kind.0 == 0 { head + "中断"@ }
    else if kind.0 == 1 { head + last + "の勝ち"@ }
    else if kind.0 == 2 { head + "最大手数"@ }
    else if kind.0 == 3 { head + "持将棋"@ }
    else if kind.0 == 4 { head + "引き分け"@ }
    else if kind.0 == 5 { head + "千日手"@ }
    else if kind.0 == 6 { head + "詰み"@ }
    else if kind.0 == 7 { head + "不詰"@ }
    else if kind.0 == 8 { head + "時間切れにより"@ + last + "の勝ち"@ }
    else if kind.0 == 9 { head + next + "の反則勝ち"@ }
    else if kind.0 == 10 { head + next + "の反則負け"@ }
    else if kind.0 == 11 { head + next + "の入玉勝ち"@ }
    else if kind.0 == 12 { head + next + "の不戦勝"@ }
    else if kind.0 == 13 { head + next + "の不戦敗"@ }
    else if kind.0 == 14 { head + next + "のトライ"@ }
    else { head + kind.1 }
}

/// The KIF summary line of a terminal (see [`kif_summary_text`]).
pub fn format_kif_summary(terminal: &SpecialMoveEntry, side_to_move: Color, ply: usize) -> (r: String)
    ensures
        r@ == kif_summary_text(terminal.kind_spec().kind_view(), side_to_move == Color::Black, ply as nat),
{
    let black = side_to_move == Color::Black;
    let next = if black { "先手" } else { "後手" };
    let last = if black { "後手" } else { "先手" };
    let mut s = string_from_str("まで");
    push_decimal(&mut s, ply as u64);
    push_str(&mut s, "手で");
    match terminal.kind() {
        SpecialMove::Interrupt => push_str(&mut s, "中断"),
        SpecialMove::Resign => {
            push_str(&mut s, last);
            push_str(&mut s, "の勝ち");
        },
        SpecialMove::MaxMoves => push_str(&mut s, "最大手数"),
        SpecialMove::Impasse => push_str(&mut s, "持将棋"),
        SpecialMove::Draw => push_str(&mut s, "引き分け"),
        SpecialMove::RepetitionDraw => push_str(&mut s, "千日手"),
        SpecialMove::Mate => push_str(&mut s, "詰み"),
        SpecialMove::NoMate => push_str(&mut s, "不詰"),
        SpecialMove::Timeout => {
            push_str(&mut s, "時間切れにより");
            push_str(&mut s, last);
            push_str(&mut s, "の勝ち");
        },
        SpecialMove::WinByIllegalMove => {
            push_str(&mut s, next);
            push_str(&mut s, "の反則勝ち");
        },
        SpecialMove::LoseByIllegalMove => {
            push_str(&mut s, next);
            push_str(&mut s, "の反則負け");
        },
        SpecialMove::WinByDeclaration => {
            push_str(&mut s, next);
            push_str(&mut s, "の入玉勝ち");
        },
        SpecialMove::WinByDefault => {
            push_str(&mut s, next);
            push_str(&mut s, "の不戦勝");
        },
        SpecialMove::LoseByDefault => {
            push_str(&mut s, next);
            push_str(&mut s, "の不戦敗");
        },
        SpecialMove::Try => {
            push_str(&mut s, next);
            push_str(&mut s, "のトライ");
        },
        SpecialMove::Unknown(name) => push_str(&mut s, name.as_str()),
    }
    s
}

/// A number in decimal, right-aligned in four columns.
pub open spec fn right_aligned4(n: nat) -> Seq<char> {
    if decimal(n).len() < 4 {
        Seq::new((4 - decimal(n).len()) as nat, |i: int| ' ') + decimal(n)
    } else {
        decimal(n)
    }
}

/// A KIF move line: the move number right-aligned in four columns, the move
/// text, the elapsed and total time in brackets, and `+` when the move has
/// variations.
pub open spec fn kif_move_line_text(
    move_no: nat,
    move_text: Seq<char>,
    elapsed_ms: u32,
    total_ms: u32,
    has_branch: bool,
) -> Seq<char> {
    let line = right_aligned4(move_no) + seq![' '] + move_text + seq![' ', '('] + time_mss_spec(elapsed_ms) + seq!['/']
        + time_hhmmss_spec(total_ms) + seq![')'];
    if has_branch {
        line.push('+')
    } else {
        line
    }
}

/// A KIF move line (see [`kif_move_line_text`]).
pub fn format_kif_move_line(
    move_no: usize,
    move_text: &str,
    elapsed_ms: u32,
    total_ms: u32,
    has_branch: bool,
) -> (r: String)
    ensures
        r@ == kif_move_line_text(move_no as nat, move_text@, elapsed_ms, total_ms, has_branch),
{
    let number = crate::text::decimal_string(move_no as u64);
    let mut s = String::new();
    let width = number.as_str().unicode_len();
    if width < 4 {
        let mut k: usize = 0;
        while k < 4 - width
            invariant
                width < 4,
                k <= 4 - width,
                s@ == Seq::new(k as nat, |i: int| ' '),
            decreases 4 - width - k,
        {
            crate::text::push_char(&mut s, ' ');
            k += 1;
            assert(s@ =~= Seq::new(k as nat, |i: int| ' '));
        }
    }
    push_str(&mut s, number.as_str());
    crate::text::push_char(&mut s, ' ');
    push_str(&mut s, move_text);
    crate::text::push_char(&mut s, ' ');
    crate::text::push_char(&mut s, '(');
    let elapsed = format_time_mss(elapsed_ms);
    push_str(&mut s, elapsed.as_str());
    crate::text::push_char(&mut s, '/');
    let total = format_time_hhmmss(total_ms);
    push_str(&mut s, total.as_str());
    crate::text::push_char(&mut s, ')');
    if has_branch {
        crate::text::push_char(&mut s, '+');
    }
    assert(s@ =~= kif_move_line_text(move_no as nat, move_text@, elapsed_ms, total_ms, has_branch));
    s
}


/// An elapsed time `h:mm:ss` in milliseconds (see [`colon_time_ms_spec`]).
pub fn parse_colon_time_to_ms(text: &str) -> (r: Option<u32>)
    requires
        colon_time_in_range(text@),
    ensures
        r == colon_time_ms_spec(text@),
{
    colon_time_ms(text)
}

/// The text of a KIF time line after `消費時間`, or the whole line when it
/// has none.
pub open spec fn consumed_time_text(line: Seq<char>) -> Seq<char> {
    match find_seq(line, "消費時間"@) {
        Some(i) => line.skip(i + "消費時間"@.len()),
        None => line,
    }
}

/// The time a KIF time line states in milliseconds: its fields read as in
/// [`time_fold`]; none when they add up to zero.
pub open spec fn kif_time_ms_spec(line: Seq<char>) -> Option<u32> {
    let f = time_fold(time_fields(consumed_time_text(line)));
    if f.0 == 0 {
        None
    } else {
        Some((f.0 * 1000) as u32)
    }
}

/// Whether a KIF time line can be read without overflow.
pub open spec fn kif_time_line_in_range(line: Seq<char>) -> bool {
    colon_time_in_range(consumed_time_text(line))
}

/// The time a KIF time line states (see [`kif_time_ms_spec`]).
pub fn parse_time_to_ms(line: &str) -> (r: Option<u32>)
    requires
        kif_time_line_in_range(line@),
    ensures
        r == kif_time_ms_spec(line@),
{
    let v = str_chars(line);
    let marker = str_chars("消費時間");
    let m = marker.as_slice();
    let vl = v.len();
    let ml = m.len();
    let text = match find_seq_index(v.as_slice(), m) {
        Some(i) => {
            assert(i + ml <= vl);
            let rest = vstd::slice::slice_subrange(v.as_slice(), i + ml, vl);
            assert(rest@ =~= v@.skip(i + m@.len()));
            rest
        },
        None => v.as_slice(),
    };
    let (seconds, _) = fold_time_fields(text);
    if seconds == 0 {
        None
    } else {
        Some(seconds * 1000)
    }
}


/// The part of a text before its first `/`, or the whole text.
pub open spec fn before_slash(inner: Seq<char>) -> Seq<char> {
    match find_char(inner, '/') {
        Some(i) => inner.take(i),
        None => inner,
    }
}

fn chars_before_slash(v: &[char]) -> (r: &[char])
    ensures
        r@ == before_slash(v@),
{
    match find_char_index(v, '/') {
        Some(i) => {
            let r = vstd::slice::slice_subrange(v, 0, i);
            assert(r@ =~= v@.take(i as int));
            r
        },
        None => v,
    }
}

/// The text inside the first bracket of a terminal line: after the first
/// `(` (or, when there is none, the first `（`) up to the first `)` after it
/// (or else the first `）`, or else the end).
pub open spec fn paren_inner(text: Seq<char>) -> Option<Seq<char>> {
    let open = match find_char(text, '(') {
        Some(i) => Some(i),
        None => find_char(text, '（'),
    };
    match open {
        None => None,
        Some(o) => {
            let rest = text.skip(o + 1);
            let close = match find_char(rest, ')') {
                Some(c) => c,
                None => match find_char(rest, '）') {
                    Some(c) => c,
                    None => rest.len() as int,
                },
            };
            Some(rest.take(close))
        },
    }
}

/// The elapsed time of a terminal line such as `まで64手で投了 ( 0:12/00:10:30)`
/// in milliseconds: the time before the `/` in the bracket, when the bracket
/// holds a `/` and that time a colon.
pub open spec fn terminal_elapsed_spec(text: Seq<char>) -> Option<u32> {
    match paren_inner(text) {
        None => None,
        Some(inner) => {
            let e = trim_spec(before_slash(inner));
            if !has_char(e, ':') && !has_char(e, '：') {
                None
            } else if !has_char(inner, '/') {
                None
            } else {
                colon_time_ms_spec(e)
            }
        },
    }
}

/// Whether the elapsed time of a terminal line can be read without overflow.
pub open spec fn terminal_elapsed_in_range(text: Seq<char>) -> bool {
    match paren_inner(text) {
        None => true,
        Some(inner) => colon_time_in_range(trim_spec(before_slash(inner))),
    }
}

/// The elapsed time of a KIF terminal line (see [`terminal_elapsed_spec`]).
pub fn parse_kif_terminal_elapsed_time_ms(text: &str) -> (r: Option<u32>)
    requires
        terminal_elapsed_in_range(text@),
    ensures
        r == terminal_elapsed_spec(text@),
{
    let (inner, elapsed) = match bracket_elapsed(text) {
        Some(p) => p,
        None => return None,
    };
    if !chars_contain(elapsed.as_slice(), ':') && !chars_contain(elapsed.as_slice(), '：') {
        return None;
    }
    if !chars_contain(inner.as_slice(), '/') {
        return None;
    }
    let e = string_from_chars(elapsed.as_slice());
    colon_time_ms(e.as_str())
}

/// Whether the elapsed time of a terminal line can be read without
/// overflow (see [`terminal_elapsed_in_range`]).
pub fn terminal_elapsed_fits(text: &str) -> (r: bool)
    ensures
        r == terminal_elapsed_in_range(text@),
{
    match bracket_elapsed(text) {
        Some((_, elapsed)) => crate::records::time_control::colon_time_fits(elapsed.as_slice()),
        None => true,
    }
}

/// The text inside the first bracket of `text` and the trimmed text before
/// its `/` (see [`paren_inner`]).
fn bracket_elapsed(text: &str) -> (r: Option<(Vec<char>, Vec<char>)>)
    ensures
        match paren_inner(text@) {
            None => r is None,
            Some(inner) => r matches Some((i, e)) && i@ == inner && e@ == trim_spec(before_slash(inner)),
        },
{
    let v = str_chars(text);
    let found = match find_char_index(v.as_slice(), '(') {
        Some(i) => Some(i),
        None => find_char_index(v.as_slice(), '（'),
    };
    proof {
        crate::text::lemma_find_char_from_bounds(v@, '(', 0);
        crate::text::lemma_find_char_from_bounds(v@, '（', 0);
    }
    let open = match found {
        Some(i) => i,
        None => return None,
    };
    let n = v.len();
    assert(open < n);
    let rest = vstd::slice::slice_subrange(v.as_slice(), open + 1, n);
    assert(rest@ =~= v@.skip(open + 1));
    let close = match find_char_index(rest, ')') {
        Some(c) => c,
        None => match find_char_index(rest, '）') {
            Some(c) => c,
            None => rest.len(),
        },
    };
    proof {
        crate::text::lemma_find_char_from_bounds(rest@, ')', 0);
        crate::text::lemma_find_char_from_bounds(rest@, '）', 0);
    }
    let inner = vstd::slice::slice_subrange(rest, 0, close);
    assert(inner@ =~= rest@.take(close as int));
    let elapsed = trim_chars(chars_before_slash(inner));
    Some((vstd::slice::slice_to_vec(inner), elapsed))
}

/// The text in the bracket opened at position `p`, up to the first closing
/// bracket after it; none when no bracket closes.
pub open spec fn inline_inner(n: Seq<char>, p: int) -> Option<Seq<char>> {
    let rest = n.skip(p + 1);
    match find_either_from(rest, ')', '）', 0) {
        Some(c) => Some(rest.take(c)),
        None => None,
    }
}

/// Whether position `p` opens a bracket that holds an elapsed time: a
/// closed bracket whose text has a `/` and a colon.
pub open spec fn inline_time_at(n: Seq<char>, p: int) -> bool {
    &&& 0 <= p < n.len()
    &&& n[p] == '(' || n[p] == '（'
    &&& match inline_inner(n, p) {
        Some(inner) => has_char(inner, '/') && (has_char(inner, ':') || has_char(inner, '：')),
        None => false,
    }
}

/// The last position before `k` that opens a bracket with an elapsed time.
pub open spec fn last_inline_time(n: Seq<char>, k: int) -> Option<int>
    decreases k,
{
    if k <= 0 {
        None
    } else if inline_time_at(n, k - 1) {
        Some(k - 1)
    } else {
        last_inline_time(n, k - 1)
    }
}

/// The elapsed time in the bracket opened at `p`: the text before its `/`,
/// without surrounding white space.
pub open spec fn inline_elapsed(n: Seq<char>, p: int) -> Seq<char> {
    trim_spec(before_slash(inline_inner(n, p)->Some_0))
}

/// A KIF move line split from its elapsed time: the line with its spellings
/// made uniform (see [`normalized_kif_line`]), and, when a bracket holds an
/// elapsed time, the text before the last such bracket (without trailing
/// white space) and that time in milliseconds.
pub open spec fn inline_time_spec(line: Seq<char>) -> (Seq<char>, Option<u32>) {
    let n = normalized_kif_line(line);
    match last_inline_time(n, n.len() as int) {
        Some(p) => (trim_end_spec(n.take(p)), colon_time_ms_spec(inline_elapsed(n, p))),
        None => (n, None),
    }
}

/// Whether the elapsed time of a KIF move line can be read without
/// overflow.
pub open spec fn inline_time_in_range(line: Seq<char>) -> bool {
    let n = normalized_kif_line(line);
    match last_inline_time(n, n.len() as int) {
        Some(p) => colon_time_in_range(inline_elapsed(n, p)),
        None => true,
    }
}

/// A KIF move line split from its elapsed time (see [`inline_time_spec`]).
pub fn split_kif_inline_elapsed_time(line: &str) -> (r: (String, Option<u32>))
    requires
        inline_time_in_range(line@),
    ensures
        r.0@ == inline_time_spec(line@).0,
        r.1 == inline_time_spec(line@).1,
{
    let normalized = crate::records::formats::kif_notation::normalize_kif_line(line);
    let v = str_chars(normalized.as_str());
    let ghost n = v@;
    let len = v.len();
    let mut k: usize = len;
    while k > 0
        invariant
            k <= len,
            len == n.len(),
            n == v@,
            n == normalized_kif_line(line@),
            inline_time_in_range(line@),
            last_inline_time(n, len as int) == last_inline_time(n, k as int),
        decreases k,
    {
        let p = k - 1;
        let c = v[p];
        if c == '(' || c == '（' {
            let rest = vstd::slice::slice_subrange(v.as_slice(), p + 1, len);
            assert(rest@ =~= n.skip(p + 1));
            match crate::text::find_either_index(rest, ')', '）') {
                Some(close) => {
                    let inner = vstd::slice::slice_subrange(rest, 0, close);
                    assert(inner@ =~= rest@.take(close as int));
                    if chars_contain(inner, '/') && (chars_contain(inner, ':') || chars_contain(inner, '：')) {
                        assert(inline_time_at(n, p as int));
                        let elapsed = trim_chars(chars_before_slash(inner));
                        let e = string_from_chars(elapsed.as_slice());
                        let time_ms = colon_time_ms(e.as_str());
                        let head = vstd::slice::slice_subrange(v.as_slice(), 0, p);
                        assert(head@ =~= n.take(p as int));
                        let trimmed = crate::text::trim_end_chars(head);
                        return (string_from_chars(trimmed.as_slice()), time_ms);
                    }
                },
                None => {},
            }
        }
        assert(!inline_time_at(n, p as int));
        k -= 1;
    }
    (normalized, None)
}

/// The time of a KIF move: the time on its own line when there is one, which
/// also clears a time read from a separate line, or else that pending time.
pub fn resolve_kif_move_time(inline_time_ms: Option<u32>, pending_time_ms: &mut Option<u32>) -> (r: Option<u32>)
    ensures
        *final(pending_time_ms) is None,
        r == (match inline_time_ms {
            Some(t) => Some(t),
            None => *old(pending_time_ms),
        }),
{
    match inline_time_ms {
        Some(time_ms) => {
            *pending_time_ms = None;
            Some(time_ms)
        },
        None => pending_time_ms.take(),
    }
}


/// The text of KIF or KI2 bytes (see [`record_text_spec`]).
pub fn decode_kif_bytes(data: &[u8]) -> (r: String)
    requires
        !valid_utf8(data@) ==> shift_jis_size_ok(data@.len()),
    ensures
        r@ == record_text_spec(data@),
{
    match utf8_text(data) {
        Some(s) => s,
        None => shift_jis_decode(data),
    }
}


/// A header line `key：value`, for a key without white space or colons and
/// a value without surrounding white space, splits into that key and value.
proof fn lemma_metadata_field_of_line(k: Seq<char>, v: Seq<char>)
    requires
        k.len() > 0,
        forall|j: int| 0 <= j < k.len() ==> !crate::text::is_white_space(#[trigger] k[j]) && k[j] != '：',
        crate::text::is_trimmed(v),
    ensures
        metadata_field_spec(k + seq!['：'] + v) == Some((k, v)),
{
    let line = k + seq!['：'] + v;
    assert(line[0] == k[0]);
    if v.len() > 0 {
        assert(line.last() == v.last());
    } else {
        assert(line.last() == '：');
    }
    crate::text::lemma_trim_of_trimmed(line);
    crate::text::lemma_find_char_after(k, '：', v, 0);
    assert(line.take(k.len() as int) =~= k);
    assert(line.skip(k.len() as int + 1) =~= v);
    assert(k.len() > 0 ==> !crate::text::is_white_space(k[0]) && !crate::text::is_white_space(k.last()));
    crate::text::lemma_trim_of_trimmed(k);
    crate::text::lemma_trim_of_trimmed(v);
}

proof fn lemma_kif_header_keys()
    ensures
        "棋戦："@ == "棋戦"@ + seq!['：'],
        "場所："@ == "場所"@ + seq!['：'],
        "先手："@ == "先手"@ + seq!['：'],
        "後手："@ == "後手"@ + seq!['：'],
        "開始日時："@ == "開始日時"@ + seq!['：'],
        "終了日時："@ == "終了日時"@ + seq!['：'],
        "持将棋："@ == "持将棋"@ + seq!['：'],
        "最大手数："@ == "最大手数"@ + seq!['：'],
        "先手持ち時間："@ == "先手持ち時間"@ + seq!['：'],
        "後手持ち時間："@ == "後手持ち時間"@ + seq!['：'],
        forall|j: int| 0 <= j < "棋戦"@.len() ==> !crate::text::is_white_space(#[trigger] "棋戦"@[j]) && "棋戦"@[j] != '：',
        forall|j: int| 0 <= j < "場所"@.len() ==> !crate::text::is_white_space(#[trigger] "場所"@[j]) && "場所"@[j] != '：',
        forall|j: int| 0 <= j < "先手"@.len() ==> !crate::text::is_white_space(#[trigger] "先手"@[j]) && "先手"@[j] != '：',
        forall|j: int| 0 <= j < "後手"@.len() ==> !crate::text::is_white_space(#[trigger] "後手"@[j]) && "後手"@[j] != '：',
        forall|j: int|
            0 <= j < "開始日時"@.len() ==> !crate::text::is_white_space(#[trigger] "開始日時"@[j]) && "開始日時"@[j] != '：',
        forall|j: int|
            0 <= j < "終了日時"@.len() ==> !crate::text::is_white_space(#[trigger] "終了日時"@[j]) && "終了日時"@[j] != '：',
        forall|j: int|
            0 <= j < "持将棋"@.len() ==> !crate::text::is_white_space(#[trigger] "持将棋"@[j]) && "持将棋"@[j] != '：',
        forall|j: int|
            0 <= j < "最大手数"@.len() ==> !crate::text::is_white_space(#[trigger] "最大手数"@[j]) && "最大手数"@[j] != '：',
        forall|j: int|
            0 <= j < "先手持ち時間"@.len() ==> !crate::text::is_white_space(#[trigger] "先手持ち時間"@[j])
                && "先手持ち時間"@[j] != '：',
        forall|j: int|
            0 <= j < "後手持ち時間"@.len() ==> !crate::text::is_white_space(#[trigger] "後手持ち時間"@[j])
                && "後手持ち時間"@[j] != '：',
        "棋戦"@.len() == 2 && "棋戦"@[0] == '棋',
        "場所"@.len() == 2 && "場所"@[0] == '場',
        "先手"@.len() == 2 && "先手"@[0] == '先',
        "後手"@.len() == 2 && "後手"@[0] == '後',
        "下手"@.len() == 2 && "下手"@[0] == '下',
        "上手"@.len() == 2 && "上手"@[0] == '上',
        "開始日時"@.len() == 4 && "開始日時"@[0] == '開',
        "開始日"@.len() == 3 && "開始日"@[0] == '開',
        "終了日時"@.len() == 4 && "終了日時"@[0] == '終',
        "終了日"@.len() == 3 && "終了日"@[0] == '終',
        "持ち時間"@.len() == 4 && "持ち時間"@[0] == '持' && "持ち時間"@[1] == 'ち',
        "先手持ち時間"@.len() == 6 && "先手持ち時間"@[0] == '先',
        "後手持ち時間"@.len() == 6 && "後手持ち時間"@[0] == '後',
        "最大手数"@.len() == 4 && "最大手数"@[0] == '最',
        "持将棋"@.len() == 3 && "持将棋"@[0] == '持' && "持将棋"@[1] == '将',
        "備考"@.len() == 2 && "備考"@[0] == '備',
{
    reveal_strlit("棋戦：");
    reveal_strlit("場所：");
    reveal_strlit("先手：");
    reveal_strlit("後手：");
    reveal_strlit("開始日時：");
    reveal_strlit("終了日時：");
    reveal_strlit("持将棋：");
    reveal_strlit("最大手数：");
    reveal_strlit("先手持ち時間：");
    reveal_strlit("後手持ち時間：");
    reveal_strlit("棋戦");
    reveal_strlit("場所");
    reveal_strlit("先手");
    reveal_strlit("後手");
    reveal_strlit("下手");
    reveal_strlit("上手");
    reveal_strlit("開始日時");
    reveal_strlit("開始日");
    reveal_strlit("終了日時");
    reveal_strlit("終了日");
    reveal_strlit("持ち時間");
    reveal_strlit("先手持ち時間");
    reveal_strlit("後手持ち時間");
    reveal_strlit("最大手数");
    reveal_strlit("持将棋");
    reveal_strlit("備考");
    assert("棋戦："@ =~= "棋戦"@ + seq!['：']);
    assert("場所："@ =~= "場所"@ + seq!['：']);
    assert("先手："@ =~= "先手"@ + seq!['：']);
    assert("後手："@ =~= "後手"@ + seq!['：']);
    assert("開始日時："@ =~= "開始日時"@ + seq!['：']);
    assert("終了日時："@ =~= "終了日時"@ + seq!['：']);
    assert("持将棋："@ =~= "持将棋"@ + seq!['：']);
    assert("最大手数："@ =~= "最大手数"@ + seq!['：']);
    assert("先手持ち時間："@ =~= "先手持ち時間"@ + seq!['：']);
    assert("後手持ち時間："@ =~= "後手持ち時間"@ + seq!['：']);
}

/// A KIF header line written for the event, site, players, dates, impasse
/// rule, move limit or the time control of one side reads back as the value
/// written, for a value without surrounding white space.
pub proof fn lemma_kif_header_roundtrip(m: RecordMetadataView, v: Seq<char>, n: u32, t: (u32, u32, u32))
    requires
        crate::text::is_trimmed(v),
    ensures
        kif_header_applied(m, "棋戦："@ + v) == with_standard(m, RecordMetadataKey::Event.key_view(), Some(v)),
        kif_header_applied(m, "場所："@ + v) == with_standard(m, RecordMetadataKey::Site.key_view(), Some(v)),
        kif_header_applied(m, "先手："@ + v) == with_standard(m, RecordMetadataKey::BlackPlayer.key_view(), Some(v)),
        kif_header_applied(m, "後手："@ + v) == with_standard(m, RecordMetadataKey::WhitePlayer.key_view(), Some(v)),
        kif_header_applied(m, "開始日時："@ + v) == with_standard(m, RecordMetadataKey::StartDate.key_view(), Some(v)),
        kif_header_applied(m, "終了日時："@ + v) == with_standard(m, RecordMetadataKey::EndDate.key_view(), Some(v)),
        kif_header_applied(m, "持将棋："@ + v).impasse_rule == Some(v),
        kif_header_applied(m, "最大手数："@ + decimal(n as nat)).max_moves == Some(n),
        kif_header_applied(m, "先手持ち時間："@ + spec_text(t)).black_time_control == Some(t),
        kif_header_applied(m, "後手持ち時間："@ + spec_text(t)).white_time_control == Some(t),
{
    lemma_kif_header_keys();
    lemma_metadata_field_of_line("棋戦"@, v);
    lemma_metadata_field_of_line("場所"@, v);
    lemma_metadata_field_of_line("先手"@, v);
    lemma_metadata_field_of_line("後手"@, v);
    lemma_metadata_field_of_line("開始日時"@, v);
    lemma_metadata_field_of_line("終了日時"@, v);
    lemma_metadata_field_of_line("持将棋"@, v);
    let d = decimal(n as nat);
    crate::text::lemma_decimal_value(n as nat);
    crate::records::time_control::lemma_decimal_field_of_decimal(n);
    assert(crate::text::is_trimmed(d));
    lemma_metadata_field_of_line("最大手数"@, d);
    let st = spec_text(t);
    crate::records::time_control::lemma_time_control_text_roundtrip(t);
    crate::text::lemma_decimal_value(t.0 as nat);
    crate::text::lemma_decimal_value(t.2 as nat);
    assert(st[0] == decimal(t.0 as nat)[0]);
    assert(st.last() == decimal(t.2 as nat).last());
    lemma_metadata_field_of_line("先手持ち時間"@, st);
    lemma_metadata_field_of_line("後手持ち時間"@, st);
    assert("棋戦"@ + seq!['：'] + v == "棋戦："@ + v);
    assert("場所"@ + seq!['：'] + v == "場所："@ + v);
    assert("先手"@ + seq!['：'] + v == "先手："@ + v);
    assert("後手"@ + seq!['：'] + v == "後手："@ + v);
    assert("開始日時"@ + seq!['：'] + v == "開始日時："@ + v);
    assert("終了日時"@ + seq!['：'] + v == "終了日時："@ + v);
    assert("持将棋"@ + seq!['：'] + v == "持将棋："@ + v);
    assert("最大手数"@ + seq!['：'] + d == "最大手数："@ + d);
    assert("先手持ち時間"@ + seq!['：'] + st == "先手持ち時間："@ + st);
    assert("後手持ち時間"@ + seq!['：'] + st == "後手持ち時間："@ + st);
    // The decimal text is the move limit.
    assert(crate::records::time_control::decimal_field_spec(d) == Some(n));
    crate::text::lemma_trim_of_trimmed(d);
}


/// The file number of a destination's first character: a full-width digit
/// `１`-`９` gives 1 to 9, an ASCII digit its value.
pub open spec fn kif_file_digit(c: char) -> Option<int> {
    match crate::types::ki2::index_in(crate::types::ki2::wide_digits(), c) {
        Some(i) => Some(i + 1),
        None => if crate::text::is_digit(c) {
            Some(c as int - 48)
        } else {
            None
        },
    }
}

/// The square and byte length of a KIF destination such as `７六` or `同`:
/// `同` is the previous destination; else a file digit from 1 to 9 and a
/// kanji rank. None for anything else.
pub open spec fn kif_destination_spec(t: Seq<char>, last_to: Option<Square>) -> Option<(Square, usize)> {
    if t.len() == 0 {
        None
    } else if t[0] == '同' {
        match last_to {
            Some(sq) => Some((sq, 3)),
            None => None,
        }
    } else {
        match kif_file_digit(t[0]) {
            None => None,
            Some(f) => if t.len() < 2 || f < 1 {
                None
            } else {
                match crate::types::ki2::index_in(crate::types::ki2::kanji_ranks(), t[1]) {
                    None => None,
                    Some(r) => Some(
                        (Square(((f - 1) * 9 + r) as i8), (if crate::text::is_digit(t[0]) { 4usize } else { 6usize })),
                    ),
                }
            },
        }
    }
}

fn wide_digit_value(c: char) -> (r: Option<u8>)
    ensures
        match crate::types::ki2::index_in(crate::types::ki2::wide_digits(), c) {
            Some(i) => r == Some((i + 1) as u8),
            None => r is None,
        },
{
    let ghost w = crate::types::ki2::wide_digits();
    proof {
        assert(w[0] == '１' && w[1] == '２' && w[2] == '３' && w[3] == '４' && w[4] == '５' && w[5] == '６' && w[6]
            == '７' && w[7] == '８' && w[8] == '９');
    }
    let r: u8 = if c == '１' { 1 }
        else if c == '２' { 2 }
        else if c == '３' { 3 }
        else if c == '４' { 4 }
        else if c == '５' { 5 }
        else if c == '６' { 6 }
        else if c == '７' { 7 }
        else if c == '８' { 8 }
        else if c == '９' { 9 }
        else { 0 };
    proof {
        if r == 0 {
            assert(forall|i: int| 0 <= i < w.len() ==> w[i] != c);
        } else {
            assert(w[r - 1] == c);
            assert(forall|i: int| 0 <= i < w.len() && w[i] == c ==> i == r - 1);
        }
    }
    if r == 0 { None } else { Some(r) }
}

fn kanji_rank_value(c: char) -> (r: Option<u8>)
    ensures
        match crate::types::ki2::index_in(crate::types::ki2::kanji_ranks(), c) {
            Some(i) => r == Some(i as u8),
            None => r is None,
        },
{
    let ghost w = crate::types::ki2::kanji_ranks();
    proof {
        assert(w[0] == '一' && w[1] == '二' && w[2] == '三' && w[3] == '四' && w[4] == '五' && w[5] == '六' && w[6]
            == '七' && w[7] == '八' && w[8] == '九');
    }
    let r: u8 = if c == '一' { 1 }
        else if c == '二' { 2 }
        else if c == '三' { 3 }
        else if c == '四' { 4 }
        else if c == '五' { 5 }
        else if c == '六' { 6 }
        else if c == '七' { 7 }
        else if c == '八' { 8 }
        else if c == '九' { 9 }
        else { 0 };
    proof {
        if r == 0 {
            assert(forall|i: int| 0 <= i < w.len() ==> w[i] != c);
        } else {
            assert(w[r - 1] == c);
            assert(forall|i: int| 0 <= i < w.len() && w[i] == c ==> i == r - 1);
        }
    }
    if r == 0 { None } else { Some(r - 1) }
}

/// The square and byte length of a KIF destination (see
/// [`kif_destination_spec`]); a text that is none is an invalid move.
pub fn parse_kif_destination(text: &str, last_to: Option<Square>) -> (r: Result<(Square, usize), KifError>)
    ensures
        match kif_destination_spec(text@, last_to) {
            Some(d) => r == Ok::<(Square, usize), KifError>(d),
            None => r matches Err(KifError::InvalidMove(s)) && s@ == text@,
        },
{
    let v = str_chars(text);
    if v.len() == 0 {
        return Err(KifError::InvalidMove(string_from_str(text)));
    }
    let first = v[0];
    if first == '同' {
        return match last_to {
            Some(sq) => Ok((sq, 3)),
            None => Err(KifError::InvalidMove(string_from_str(text))),
        };
    }
    let ascii = '0' <= first && first <= '9';
    let wd = wide_digit_value(first);
    let file: u8 = match wd {
        Some(f) => f,
        None => if ascii {
            (first as u32 - 48) as u8
        } else {
            return Err(KifError::InvalidMove(string_from_str(text)));
        },
    };
    if v.len() < 2 || file < 1 {
        return Err(KifError::InvalidMove(string_from_str(text)));
    }
    let rank = match kanji_rank_value(v[1]) {
        Some(r) => r,
        None => return Err(KifError::InvalidMove(string_from_str(text))),
    };
    assert(wd is Some ==> !ascii) by {
        let w = crate::types::ki2::wide_digits();
        assert(w[0] == '１' && w[1] == '２' && w[2] == '３' && w[3] == '４' && w[4] == '５' && w[5] == '６' && w[6]
            == '７' && w[7] == '８' && w[8] == '９');
    }
    let width: usize = if ascii { 1 } else { 3 };
    let sq = Square(((file - 1) * 9 + rank) as i8);
    Ok((sq, width + 3))
}

/// The number of ASCII digits at the start of `s`.
pub open spec fn leading_digits(s: Seq<char>) -> nat
    decreases s.len(),
{
    if s.len() > 0 && crate::text::is_digit(s[0]) {
        1 + leading_digits(s.drop_first())
    } else {
        0
    }
}

proof fn lemma_leading_digits(s: Seq<char>, i: int)
    requires
        0 <= i <= s.len(),
        forall|j: int| 0 <= j < i ==> crate::text::is_digit(#[trigger] s[j]),
        i == s.len() || !crate::text::is_digit(s[i]),
    ensures
        leading_digits(s) == i,
    decreases i,
{
    if i > 0 {
        assert forall|j: int| 0 <= j < i - 1 implies crate::text::is_digit(#[trigger] s.drop_first()[j]) by {
            assert(s.drop_first()[j] == s[j + 1]);
        }
        if i < s.len() {
            assert(s.drop_first()[i - 1] == s[i]);
        }
        lemma_leading_digits(s.drop_first(), i - 1);
    }
}

/// Whether `c` ends the name of a KIF terminal: white space or an opening
/// bracket.
pub open spec fn name_stop(c: char) -> bool {
    crate::text::is_white_space(c) || c == '(' || c == '（'
}

/// The position of the first name stop in `s`, or its length.
pub open spec fn name_end(s: Seq<char>, from: int) -> int
    decreases s.len() - from,
{
    if from < 0 || from >= s.len() {
        s.len() as int
    } else if name_stop(s[from]) {
        from
    } else {
        name_end(s, from + 1)
    }
}

proof fn lemma_name_end_at(s: Seq<char>, from: int, k: int)
    requires
        0 <= from <= k <= s.len(),
        forall|j: int| from <= j < k ==> !name_stop(#[trigger] s[j]),
        k == s.len() || name_stop(s[k]),
    ensures
        name_end(s, from) == k,
    decreases k - from,
{
    if from < k {
        lemma_name_end_at(s, from + 1, k);
    }
}

/// The name and the rest of a KIF terminal line such as `  64 投了 ( 0:12/)`
/// with its spellings made uniform: white space, a move number, white
/// space, then the name up to white space or a bracket. None for a line of
/// another shape or an empty name.
pub open spec fn kif_terminal_parts(line: Seq<char>) -> Option<(Seq<char>, Seq<char>)> {
    let n = normalized_kif_line(line);
    let s1 = n.skip(leading_space(n) as int);
    let d = leading_digits(s1);
    let s2 = s1.skip(d as int);
    let w = leading_space(s2);
    let body = s2.skip(w as int);
    let end = name_end(body, 0);
    if d == 0 || w == 0 || body.len() == 0 || end == 0 {
        None
    } else {
        Some((body.take(end), body.skip(end)))
    }
}

/// Whether the elapsed time of a KIF terminal line can be read without
/// overflow.
pub open spec fn kif_terminal_line_in_range(line: Seq<char>) -> bool {
    match kif_terminal_parts(line) {
        Some((_, rest)) => terminal_elapsed_in_range(rest),
        None => true,
    }
}

fn leading_digits_count(v: &[char]) -> (r: usize)
    ensures
        r == leading_digits(v@),
        r <= v@.len(),
{
    let n = v.len();
    let mut a: usize = 0;
    while a < n && '0' <= v[a] && v[a] <= '9'
        invariant
            a <= n,
            n == v@.len(),
            forall|j: int| 0 <= j < a ==> crate::text::is_digit(#[trigger] v@[j]),
        decreases n - a,
    {
        a += 1;
    }
    proof {
        lemma_leading_digits(v@, a as int);
    }
    a
}

/// The terminal of a KIF terminal line and its elapsed time in
/// milliseconds (see [`kif_terminal_parts`], [`kif_name_spec`] and
/// [`terminal_elapsed_spec`]).
pub fn parse_kif_terminal_record_from_line(line: &str, side_to_move: Color) -> (r: Option<(SpecialMoveEntry, Option<u32>)>)
    requires
        kif_terminal_line_in_range(line@),
    ensures
        match kif_terminal_parts(line@) {
            Some((name, rest)) => r matches Some((e, t)) && (e.kind_spec().kind_view(), e.result_spec())
                == kif_name_spec(name, side_to_move == Color::Black) && e.raw_spec() is None && t
                == terminal_elapsed_spec(rest),
            None => r is None,
        },
{
    let (name, rest) = match terminal_parts_of(line) {
        Some(p) => p,
        None => return None,
    };
    let name_text = string_from_chars(name.as_slice());
    let record = terminal_from_kif_name(name_text.as_str(), side_to_move);
    let rest_text = string_from_chars(rest.as_slice());
    let elapsed = parse_kif_terminal_elapsed_time_ms(rest_text.as_str());
    Some((record, elapsed))
}

/// The name and the rest of a KIF terminal line (see
/// [`kif_terminal_parts`]).
fn terminal_parts_of(line: &str) -> (r: Option<(Vec<char>, Vec<char>)>)
    ensures
        match kif_terminal_parts(line@) {
            Some((name, rest)) => r matches Some((n, t)) && n@ == name && t@ == rest,
            None => r is None,
        },
{
    let normalized = crate::records::formats::kif_notation::normalize_kif_line(line);
    let v = str_chars(normalized.as_str());
    let n = v.len();
    let a = crate::text::leading_space_count(v.as_slice());
    let s1 = vstd::slice::slice_subrange(v.as_slice(), a, n);
    assert(s1@ =~= v@.skip(a as int));
    let d = leading_digits_count(s1);
    let s2 = vstd::slice::slice_subrange(s1, d, s1.len());
    assert(s2@ =~= s1@.skip(d as int));
    let w = crate::text::leading_space_count(s2);
    let body = vstd::slice::slice_subrange(s2, w, s2.len());
    assert(body@ =~= s2@.skip(w as int));
    if d == 0 || w == 0 || body.len() == 0 {
        return None;
    }
    let mut end: usize = 0;
    while end < body.len() && !(crate::text::char_is_white_space(body[end]) || body[end] == '(' || body[end] == '（')
        invariant
            end <= body@.len(),
            forall|j: int| 0 <= j < end ==> !name_stop(#[trigger] body@[j]),
        decreases body.len() - end,
    {
        end += 1;
    }
    proof {
        lemma_name_end_at(body@, 0, end as int);
    }
    if end == 0 {
        return None;
    }
    let name = vstd::slice::slice_subrange(body, 0, end);
    assert(name@ =~= body@.take(end as int));
    let rest = vstd::slice::slice_subrange(body, end, body.len());
    assert(rest@ =~= body@.skip(end as int));
    Some((vstd::slice::slice_to_vec(name), vstd::slice::slice_to_vec(rest)))
}

/// Whether the elapsed time of a KIF terminal line can be read without
/// overflow (see [`kif_terminal_line_in_range`]).
pub fn kif_terminal_line_fits(line: &str) -> (r: bool)
    ensures
        r == kif_terminal_line_in_range(line@),
{
    match terminal_parts_of(line) {
        Some((_, rest)) => {
            let t = string_from_chars(rest.as_slice());
            terminal_elapsed_fits(t.as_str())
        },
        None => true,
    }
}

/// Whether a KIF time line can be read without overflow (see
/// [`kif_time_line_in_range`]).
pub fn kif_time_line_fits(line: &str) -> (r: bool)
    ensures
        r == kif_time_line_in_range(line@),
{
    let v = str_chars(line);
    let marker = str_chars("消費時間");
    let m = marker.as_slice();
    let vl = v.len();
    let ml = m.len();
    let text = match find_seq_index(v.as_slice(), m) {
        Some(i) => {
            assert(i + ml <= vl);
            let rest = vstd::slice::slice_subrange(v.as_slice(), i + ml, vl);
            assert(rest@ =~= v@.skip(i + m@.len()));
            rest
        },
        None => v.as_slice(),
    };
    crate::records::time_control::colon_time_fits(text)
}

/// Whether a KIF header line can be read without overflow (see
/// [`kif_header_in_range`]).
pub fn kif_header_line_fits(line: &str) -> (r: bool)
    ensures
        r == kif_header_in_range(line@),
{
    match split_metadata_field(line) {
        None => true,
        Some((key, value)) => {
            let kc = str_chars(key.as_str());
            if chars_eq_str(kc.as_slice(), "持ち時間") {
                crate::records::time_control::kif_time_fits(value.as_str())
            } else {
                true
            }
        },
    }
}

/// `s` without its leading white space.
pub open spec fn skip_space(s: Seq<char>) -> Seq<char> {
    s.skip(leading_space(s) as int)
}

/// The USI piece letters of a piece moved in a KIF move: `歩香桂銀金角飛`,
/// the kings `玉王`, and the promoted pieces `と杏圭全馬` and `龍竜` after
/// `+`.
pub open spec fn kif_move_piece(c: char) -> Option<Seq<char>> {
    if c == '歩' { Some(seq!['P']) }
    else if c == '香' { Some(seq!['L']) }
    else if c == '桂' { Some(seq!['N']) }
    else if c == '銀' { Some(seq!['S']) }
    else if c == '金' { Some(seq!['G']) }
    else if c == '角' { Some(seq!['B']) }
    else if c == '飛' { Some(seq!['R']) }
    else if c == '玉' || c == '王' { Some(seq!['K']) }
    else if c == 'と' { Some(seq!['+', 'P']) }
    else if c == '杏' { Some(seq!['+', 'L']) }
    else if c == '圭' { Some(seq!['+', 'N']) }
    else if c == '全' { Some(seq!['+', 'S']) }
    else if c == '馬' { Some(seq!['+', 'B']) }
    else if c == '龍' || c == '竜' { Some(seq!['+', 'R']) }
    else { None }
}

/// The text between the first `(` of `f` and the first `)` after it; none
/// when there is no `(`, and an empty inner none when no `)` follows.
pub open spec fn paren_text(f: Seq<char>) -> Option<Option<Seq<char>>> {
    match crate::text::find_char(f, '(') {
        None => None,
        Some(o) => {
            let g = f.skip(o + 1);
            match crate::text::find_char(g, ')') {
                None => Some(None),
                Some(c) => Some(Some(g.take(c))),
            }
        },
    }
}

/// Whether a source text is two ASCII digits.
pub open spec fn two_digits(t: Seq<char>) -> bool {
    t.len() == 2 && is_digit(t[0]) && is_digit(t[1])
}

/// What follows the destination of a KIF move (after white space), read
/// with the destination `to`: a piece name, `成` for a promotion, then `打`
/// for a drop, or the source square as two digits in parentheses. The move
/// is what its USI text gives (see [`move_from_usi_spec`]): `P*7f` for a
/// drop, the source digits, the destination and `+` for a board move; none
/// for any other text.
pub open spec fn kif_move_tail(e: Seq<char>, to: Square) -> Option<Move> {
    if e.len() == 0 {
        None
    } else {
        match kif_move_piece(e[0]) {
            None => None,
            Some(code) => {
                let promote = e.len() > 1 && e[1] == '成';
                let f = skip_space(e.skip(if promote { 2int } else { 1int }));
                if starts_with(f, seq!['打']) {
                    move_from_usi_spec(code + seq!['*'] + square_usi_spec(to))
                } else {
                    match paren_text(f) {
                        Some(Some(t)) => if two_digits(t) {
                            move_from_usi_spec(
                                seq![t[0], ((t[1] as int - 49 + 97) as char)] + square_usi_spec(to) + if promote {
                                    seq!['+']
                                } else {
                                    Seq::empty()
                                },
                            )
                        } else {
                            None
                        },
                        _ => None,
                    }
                }
            },
        }
    }
}

/// The text of a KIF move line after its move number: the line split from
/// its elapsed time (see [`inline_time_spec`]), without leading white
/// space, the move number and the white space after it.
pub open spec fn kif_move_text(line: Seq<char>) -> Seq<char> {
    let a = skip_space(inline_time_spec(line).0);
    skip_space(a.skip(leading_digits(a) as int))
}

/// The move of a KIF move line, with `last_to` the destination of the
/// previous move: the destination (see [`kif_destination_spec`]) and what
/// follows it (see [`kif_move_tail`]). The error text is the line's move
/// text when its destination cannot be read, else the line.
pub open spec fn kif_move_spec(line: Seq<char>, last_to: Option<Square>) -> Result<(Move, Square), Seq<char>> {
    let d = kif_move_text(line);
    match kif_destination_spec(d, last_to) {
        None => Err(d),
        Some((to, _)) => {
            let e = skip_space(d.skip(if d[0] == '同' { 1int } else { 2int }));
            match kif_move_tail(e, to) {
                Some(m) => Ok((m, to)),
                None => Err(line),
            }
        },
    }
}

/// Whether what follows a destination names no source square with a rank
/// digit `0`.
pub open spec fn kif_tail_in_range(e: Seq<char>) -> bool {
    e.len() > 0 && kif_move_piece(e[0]) is Some ==> {
        let promote = e.len() > 1 && e[1] == '成';
        let f = skip_space(e.skip(if promote { 2int } else { 1int }));
        starts_with(f, seq!['打']) || match paren_text(f) {
            Some(Some(t)) => two_digits(t) ==> t[1] != '0',
            _ => true,
        }
    }
}

/// Whether a KIF move line can be read without overflow: its elapsed time
/// is in range, and a two-digit source has a rank digit other than `0`.
pub open spec fn kif_move_in_range(line: Seq<char>, last_to: Option<Square>) -> bool {
    &&& inline_time_in_range(line)
    &&& (last_to matches Some(sq) ==> sq.is_valid_spec())
    &&& {
        let d = kif_move_text(line);
        match kif_destination_spec(d, last_to) {
            None => true,
            Some((to, _)) => {
                let e = skip_space(d.skip(if d[0] == '同' { 1int } else { 2int }));
                kif_tail_in_range(e)
            },
        }
    }
}

fn kif_move_piece_of(c: char) -> (r: Option<(bool, char)>)
    ensures
        match kif_move_piece(c) {
            Some(code) => r matches Some((p, l)) && code == (if p { seq!['+', l] } else { seq![l] }),
            None => r is None,
        },
{
    if c == '歩' { Some((false, 'P')) }
    else if c == '香' { Some((false, 'L')) }
    else if c == '桂' { Some((false, 'N')) }
    else if c == '銀' { Some((false, 'S')) }
    else if c == '金' { Some((false, 'G')) }
    else if c == '角' { Some((false, 'B')) }
    else if c == '飛' { Some((false, 'R')) }
    else if c == '玉' || c == '王' { Some((false, 'K')) }
    else if c == 'と' { Some((true, 'P')) }
    else if c == '杏' { Some((true, 'L')) }
    else if c == '圭' { Some((true, 'N')) }
    else if c == '全' { Some((true, 'S')) }
    else if c == '馬' { Some((true, 'B')) }
    else if c == '龍' || c == '竜' { Some((true, 'R')) }
    else { None }
}

fn skip_space_chars(v: &[char]) -> (r: Vec<char>)
    ensures
        r@ == skip_space(v@),
{
    let k = crate::text::leading_space_count(v);
    let n = v.len();
    let t = vstd::slice::slice_subrange(v, k, n);
    assert(t@ =~= v@.skip(k as int));
    vstd::slice::slice_to_vec(t)
}

fn kif_move_tail_of(e: &[char], to: Square) -> (r: Option<Move>)
    requires
        to.is_valid_spec(),
        kif_tail_in_range(e@),
    ensures
        r == kif_move_tail(e@, to),
{
    if e.len() == 0 {
        return None;
    }
    let (promoted_piece, letter) = match kif_move_piece_of(e[0]) {
        None => return None,
        Some(p) => p,
    };
    let promote = e.len() > 1 && e[1] == '成';
    let el = e.len();
    let after = vstd::slice::slice_subrange(e, if promote { 2 } else { 1 }, el);
    assert(after@ =~= e@.skip(if promote { 2int } else { 1int }));
    let f = skip_space_chars(after);
    let ghost code = kif_move_piece(e@[0])->Some_0;
    if f.len() > 0 && f[0] == '打' {
        assert(starts_with(f@, seq!['打'])) by {
            assert(f@.take(1) =~= seq!['打']);
        }
        let mut usi = String::new();
        if promoted_piece {
            crate::text::push_char(&mut usi, '+');
        }
        crate::text::push_char(&mut usi, letter);
        crate::text::push_char(&mut usi, '*');
        let sq = to.to_usi();
        crate::text::push_str(&mut usi, sq.as_str());
        assert(usi@ =~= code + seq!['*'] + square_usi_spec(to));
        return Move::from_usi(usi.as_str());
    }
    assert(!starts_with(f@, seq!['打'])) by {
        if f@.len() >= 1 {
            assert(seq!['打'].len() == 1);
            assert(f@.take(1)[0] == f@[0]);
        }
    }
    let o = match crate::text::find_char_index(f.as_slice(), '(') {
        None => return None,
        Some(o) => o,
    };
    let fl = f.len();
    let g = vstd::slice::slice_subrange(f.as_slice(), o + 1, fl);
    assert(g@ =~= f@.skip(o + 1));
    let c = match crate::text::find_char_index(g, ')') {
        None => return None,
        Some(c) => c,
    };
    let t = vstd::slice::slice_subrange(g, 0, c);
    assert(t@ =~= g@.take(c as int));
    if !(t.len() == 2 && '0' <= t[0] && t[0] <= '9' && '0' <= t[1] && t[1] <= '9') {
        return None;
    }
    let rank_char = (((t[1] as u32) - 49 + 97) as u8) as char;
    let mut usi = String::new();
    crate::text::push_char(&mut usi, t[0]);
    crate::text::push_char(&mut usi, rank_char);
    let sq = to.to_usi();
    crate::text::push_str(&mut usi, sq.as_str());
    if promote {
        crate::text::push_char(&mut usi, '+');
    }
    assert(usi@ =~= seq![t@[0], ((t@[1] as int - 49 + 97) as char)] + square_usi_spec(to) + if promote {
        seq!['+']
    } else {
        Seq::<char>::empty()
    });
    Move::from_usi(usi.as_str())
}

/// Reads a KIF move line, with `last_to` the destination of the previous
/// move (see [`kif_move_spec`]): the move, its destination and the line's
/// elapsed time (see [`inline_time_spec`]); an invalid move otherwise.
pub fn parse_kif_move(line: &str, last_to: Option<Square>) -> (r: Result<(Move, Square, Option<u32>), KifError>)
    requires
        kif_move_in_range(line@, last_to),
    ensures
        match kif_move_spec(line@, last_to) {
            Ok((m, to)) => r == Ok::<(Move, Square, Option<u32>), KifError>((m, to, inline_time_spec(line@).1)),
            Err(t) => r matches Err(KifError::InvalidMove(s)) && s@ == t,
        },
{
    let (normalized, time) = split_kif_inline_elapsed_time(line);
    let nv = str_chars(normalized.as_str());
    let a = skip_space_chars(nv.as_slice());
    let k = leading_digits_count(a.as_slice());
    let al = a.len();
    let b = vstd::slice::slice_subrange(a.as_slice(), k, al);
    assert(b@ =~= a@.skip(k as int));
    let d = skip_space_chars(b);
    assert(d@ == kif_move_text(line@));
    let dstr = string_from_chars(d.as_slice());
    let to = match parse_kif_destination(dstr.as_str(), last_to) {
        Ok((to, _)) => to,
        Err(e) => return Err(e),
    };
    let dc: usize = if d[0] == '同' { 1 } else { 2 };
    let dl = d.len();
    let rest = vstd::slice::slice_subrange(d.as_slice(), dc, dl);
    assert(rest@ =~= d@.skip(dc as int));
    let e = skip_space_chars(rest);
    match kif_move_tail_of(e.as_slice(), to) {
        Some(m) => Ok((m, to, time)),
        None => Err(KifError::InvalidMove(string_from_str(line))),
    }
}

/// Whether a KIF move line's elapsed time can be read without overflow (see
/// [`inline_time_in_range`]).
pub fn inline_time_fits(line: &str) -> (r: bool)
    ensures
        r == inline_time_in_range(line@),
{
    let normalized = crate::records::formats::kif_notation::normalize_kif_line(line);
    let v = str_chars(normalized.as_str());
    let ghost n = v@;
    let len = v.len();
    let mut k: usize = len;
    while k > 0
        invariant
            k <= len,
            len == n.len(),
            n == v@,
            n == normalized_kif_line(line@),
            last_inline_time(n, len as int) == last_inline_time(n, k as int),
        decreases k,
    {
        let p = k - 1;
        let c = v[p];
        if c == '(' || c == '（' {
            let rest = vstd::slice::slice_subrange(v.as_slice(), p + 1, len);
            assert(rest@ =~= n.skip(p + 1));
            match crate::text::find_either_index(rest, ')', '）') {
                Some(close) => {
                    let inner = vstd::slice::slice_subrange(rest, 0, close);
                    assert(inner@ =~= rest@.take(close as int));
                    if chars_contain(inner, '/') && (chars_contain(inner, ':') || chars_contain(inner, '：')) {
                        assert(inline_time_at(n, p as int));
                        let elapsed = trim_chars(chars_before_slash(inner));
                        return crate::records::time_control::colon_time_fits(elapsed.as_slice());
                    }
                },
                None => {},
            }
        }
        assert(!inline_time_at(n, p as int));
        k -= 1;
    }
    true
}

fn kif_tail_fits(e: &[char]) -> (r: bool)
    ensures
        r == kif_tail_in_range(e@),
{
    if e.len() == 0 {
        return true;
    }
    if kif_move_piece_of(e[0]).is_none() {
        return true;
    }
    let promote = e.len() > 1 && e[1] == '成';
    let el = e.len();
    let after = vstd::slice::slice_subrange(e, if promote { 2 } else { 1 }, el);
    assert(after@ =~= e@.skip(if promote { 2int } else { 1int }));
    let f = skip_space_chars(after);
    if f.len() > 0 && f[0] == '打' {
        assert(starts_with(f@, seq!['打'])) by {
            assert(f@.take(1) =~= seq!['打']);
        }
        return true;
    }
    assert(!starts_with(f@, seq!['打'])) by {
        if f@.len() >= 1 {
            assert(f@.take(1)[0] == f@[0]);
        }
    }
    let o = match crate::text::find_char_index(f.as_slice(), '(') {
        None => return true,
        Some(o) => o,
    };
    let fl = f.len();
    let g = vstd::slice::slice_subrange(f.as_slice(), o + 1, fl);
    assert(g@ =~= f@.skip(o + 1));
    let c = match crate::text::find_char_index(g, ')') {
        None => return true,
        Some(c) => c,
    };
    let t = vstd::slice::slice_subrange(g, 0, c);
    assert(t@ =~= g@.take(c as int));
    if t.len() == 2 && '0' <= t[0] && t[0] <= '9' && '0' <= t[1] && t[1] <= '9' {
        t[1] != '0'
    } else {
        true
    }
}

/// Whether [`parse_kif_move`] may be called on a line (see
/// [`kif_move_in_range`]).
pub fn kif_move_line_fits(line: &str, last_to: Option<Square>) -> (r: bool)
    ensures
        r == kif_move_in_range(line@, last_to),
{
    if !inline_time_fits(line) {
        return false;
    }
    match last_to {
        Some(sq) => {
            if !(0 <= sq.0 && sq.0 < 81) {
                return false;
            }
        },
        None => {},
    }
    let (normalized, _) = split_kif_inline_elapsed_time(line);
    let nv = str_chars(normalized.as_str());
    let a = skip_space_chars(nv.as_slice());
    let k = leading_digits_count(a.as_slice());
    let al = a.len();
    let b = vstd::slice::slice_subrange(a.as_slice(), k, al);
    assert(b@ =~= a@.skip(k as int));
    let d = skip_space_chars(b);
    assert(d@ == kif_move_text(line@));
    let dstr = string_from_chars(d.as_slice());
    match parse_kif_destination(dstr.as_str(), last_to) {
        Ok(_) => {},
        Err(_) => return true,
    }
    let dc: usize = if d[0] == '同' { 1 } else { 2 };
    let dl = d.len();
    let rest = vstd::slice::slice_subrange(d.as_slice(), dc, dl);
    assert(rest@ =~= d@.skip(dc as int));
    let e = skip_space_chars(rest);
    kif_tail_fits(e.as_slice())
}

/// Every piece name of a KIF move is read as the piece the KI2 reader gives
/// it, written as its USI letters (`+R` for a dragon), whichever of two
/// names (`龍` or `竜`, `玉` or `王`) is written.
pub proof fn lemma_kif_move_piece_names(c: char)
    ensures
        kif_move_piece(c) == (match crate::records::formats::kif_notation::ki2_piece_char_spec(c) {
            Some(p) => crate::records::formats::jkf::piece_sfen_spec(crate::types::piece::PieceType(p), true),
            None => None,
        }),
{
}

/// A KIF board move, a piece name then its source square in brackets
/// (`龍(28)`), gives the move from that source to the destination whatever
/// piece name is written, as long as it names a piece: the move that the
/// USI text of source and destination gives.
pub proof fn lemma_kif_board_move_any_piece(c: char, f: char, r: char, to: Square)
    requires
        crate::records::formats::kif_notation::ki2_piece_char_spec(c) is Some,
        '1' <= f <= '9',
        '1' <= r <= '9',
    ensures
        kif_move_tail(seq![c, '(', f, r, ')'], to) == move_from_usi_spec(
            seq![f, ((r as int - 49 + 97) as char)] + square_usi_spec(to),
        ),
{
    lemma_kif_move_piece_names(c);
    let e = seq![c, '(', f, r, ')'];
    let rest = e.skip(1);
    assert(rest =~= seq!['(', f, r, ')']);
    assert(leading_space(rest) == 0);
    assert(rest.skip(0) =~= rest);
    assert(!starts_with(rest, seq!['打'])) by {
        assert(rest.take(1)[0] == '(');
    }
    assert(crate::text::find_char(rest, '(') == Some(0int));
    let g = rest.skip(1);
    assert(g =~= seq![f, r, ')']);
    assert(crate::text::find_char_from(g, ')', 2) == Some(2int));
    assert(crate::text::find_char_from(g, ')', 1) == Some(2int));
    assert(crate::text::find_char(g, ')') == Some(2int));
    assert(g.take(2) =~= seq![f, r]);
}

/// A KIF move line whose move text (after its move number) is a written
/// destination, a piece name and a source square in brackets reads as the
/// move from that source to the destination, whatever piece name is
/// written, as long as it names a piece (see [`lemma_kif_board_move_any_piece`]).
pub proof fn lemma_kif_move_line_any_piece(
    line: Seq<char>,
    last_to: Option<Square>,
    df: char,
    dr: char,
    c: char,
    f: char,
    r: char,
)
    requires
        kif_move_text(line) == seq![df, dr, c, '(', f, r, ')'],
        df != '同',
        kif_destination_spec(seq![df, dr, c, '(', f, r, ')'], last_to) is Some,
        crate::records::formats::kif_notation::ki2_piece_char_spec(c) is Some,
        '1' <= f <= '9',
        '1' <= r <= '9',
    ensures
        kif_move_spec(line, last_to) == (match move_from_usi_spec(
            seq![f, ((r as int - 49 + 97) as char)] + square_usi_spec(
                kif_destination_spec(seq![df, dr, c, '(', f, r, ')'], last_to)->Some_0.0,
            ),
        ) {
            Some(m) => Ok::<(Move, Square), Seq<char>>(
                (m, kif_destination_spec(seq![df, dr, c, '(', f, r, ')'], last_to)->Some_0.0),
            ),
            None => Err::<(Move, Square), Seq<char>>(line),
        }),
{
    let d = seq![df, dr, c, '(', f, r, ')'];
    let to = kif_destination_spec(d, last_to)->Some_0.0;
    let e = d.skip(2);
    assert(e =~= seq![c, '(', f, r, ')']);
    assert(!crate::text::is_white_space(c)) by {
        lemma_kif_move_piece_names(c);
    }
    assert(leading_space(e) == 0);
    assert(e.skip(0) =~= e);
    lemma_kif_board_move_any_piece(c, f, r, to);
}

/// Whether `c` does not occur in `s`.
pub open spec fn lacks(s: Seq<char>, c: char) -> bool {
    forall|j: int| 0 <= j < s.len() ==> s[j] != c
}

proof fn lemma_lacks_add(a: Seq<char>, b: Seq<char>, c: char)
    requires
        lacks(a, c),
        lacks(b, c),
    ensures
        lacks(a + b, c),
{
    assert forall|j: int| 0 <= j < (a + b).len() implies (a + b)[j] != c by {
        if j < a.len() {
            assert((a + b)[j] == a[j]);
        } else {
            assert((a + b)[j] == b[j - a.len()]);
        }
    }
}

proof fn lemma_find_seq_at(s: Seq<char>, p: Seq<char>, from: int, i: int)
    requires
        0 <= from <= i,
        i + p.len() <= s.len(),
        s.subrange(i, i + p.len()) == p,
    ensures
        crate::text::find_seq_from(s, p, from) is Some,
    decreases i - from,
{
    if from < i && s.subrange(from, from + p.len()) != p {
        lemma_find_seq_at(s, p, from + 1, i);
    }
}

proof fn lemma_find_seq_absent(s: Seq<char>, p: Seq<char>, q: int, from: int)
    requires
        0 <= q < p.len(),
        lacks(s, p[q]),
    ensures
        crate::text::find_seq_from(s, p, from) is None,
    decreases s.len() + 1 - from,
{
    if 0 <= from && from + p.len() <= s.len() {
        assert(s.subrange(from, from + p.len())[q] == s[from + q]);
        lemma_find_seq_absent(s, p, q, from + 1);
    }
}

/// The text before the outcome of a KIF summary line.
pub open spec fn summary_head(ply: nat) -> Seq<char> {
    "まで"@ + decimal(ply) + "手で"@
}

proof fn lemma_summary_head(ply: nat, c: char)
    requires
        !is_digit(c),
        c != 'ま',
        c != 'で',
        c != '手',
    ensures
        lacks(summary_head(ply), c),
        summary_head(ply).len() == decimal(ply).len() + 4,
        summary_head(ply).take(2) == "まで"@,
{
    reveal_strlit("まで");
    reveal_strlit("手で");
    crate::text::lemma_decimal_value(ply);
    let d = decimal(ply);
    lemma_lacks_add("まで"@, d, c);
    lemma_lacks_add("まで"@ + d, "手で"@, c);
    assert(summary_head(ply).take(2) =~= "まで"@);
}

/// Reads back a summary `head + mid` where `mid` is non-empty and ends with
/// no white space: it starts with `まで` and is its own trimmed form.
proof fn lemma_summary_line(ply: nat, mid: Seq<char>)
    requires
        mid.len() > 0,
        !crate::text::is_white_space(mid.last()),
    ensures
        trim_spec(summary_head(ply) + mid) == summary_head(ply) + mid,
        starts_with(summary_head(ply) + mid, "まで"@),
        (summary_head(ply) + mid).last() == mid.last(),
{
    reveal_strlit("まで");
    lemma_summary_head(ply, '時');
    let t = summary_head(ply) + mid;
    assert(t[0] == 'ま');
    assert(t.last() == mid.last());
    crate::text::lemma_trim_of_trimmed(t);
    assert(t.take(2) =~= "まで"@);
}

proof fn lemma_summary_lacks(ply: nat, mid: Seq<char>, p: Seq<char>, q: int)
    requires
        0 <= q < p.len(),
        !is_digit(p[q]),
        p[q] != 'ま',
        p[q] != 'で',
        p[q] != '手',
        lacks(mid, p[q]),
    ensures
        !contains_text(summary_head(ply) + mid, p),
{
    lemma_summary_head(ply, p[q]);
    lemma_lacks_add(summary_head(ply), mid, p[q]);
    lemma_find_seq_absent(summary_head(ply) + mid, p, q, 0);
}

proof fn lemma_summary_has(ply: nat, mid: Seq<char>, p: Seq<char>, i: int)
    requires
        0 <= i,
        i + p.len() <= mid.len(),
        mid.subrange(i, i + p.len()) == p,
    ensures
        contains_text(summary_head(ply) + mid, p),
{
    let h = summary_head(ply);
    let t = h + mid;
    assert(t.subrange(h.len() + i, h.len() + i + p.len()) =~= p);
    lemma_find_seq_at(t, p, 0, h.len() + i);
}

proof fn reveal_summary_words()
    ensures
        "先手"@ == seq!['先', '手'],
        "後手"@ == seq!['後', '手'],
        "時間切れ"@ == seq!['時', '間', '切', 'れ'],
        "千日手"@ == seq!['千', '日', '手'],
        "最大手数"@ == seq!['最', '大', '手', '数'],
        "持将棋"@ == seq!['持', '将', '棋'],
        "中断"@ == seq!['中', '断'],
        "入玉宣言"@ == seq!['入', '玉', '宣', '言'],
        "入玉勝ち"@ == seq!['入', '玉', '勝', 'ち'],
        "反則勝ち"@ == seq!['反', '則', '勝', 'ち'],
        "反則負け"@ == seq!['反', '則', '負', 'け'],
        "不詰"@ == seq!['不', '詰'],
        "勝ち"@ == seq!['勝', 'ち'],
        "の勝ち"@ == seq!['の', '勝', 'ち'],
        "時間切れにより"@ == seq!['時', '間', '切', 'れ', 'に', 'よ', 'り'],
        "の反則勝ち"@ == seq!['の', '反', '則', '勝', 'ち'],
        "の反則負け"@ == seq!['の', '反', '則', '負', 'け'],
        "の入玉勝ち"@ == seq!['の', '入', '玉', '勝', 'ち'],
{
    reveal_strlit("先手");
    reveal_strlit("後手");
    reveal_strlit("時間切れ");
    reveal_strlit("千日手");
    reveal_strlit("最大手数");
    reveal_strlit("持将棋");
    reveal_strlit("中断");
    reveal_strlit("入玉宣言");
    reveal_strlit("入玉勝ち");
    reveal_strlit("反則勝ち");
    reveal_strlit("反則負け");
    reveal_strlit("不詰");
    reveal_strlit("勝ち");
    reveal_strlit("の勝ち");
    reveal_strlit("時間切れにより");
    reveal_strlit("の反則勝ち");
    reveal_strlit("の反則負け");
    reveal_strlit("の入玉勝ち");
}

/// A declaration win written as a KIF summary line reads back, with the
/// same side to move, as a declaration win of the side to move.
pub proof fn lemma_kif_summary_declaration(x: Seq<char>, black: bool, ply: nat)
    ensures
        kif_summary_spec(kif_summary_text((11, x), black, ply), black) == Some(
            (
                (11int, Seq::<char>::empty()),
                if black {
                    GameResult::BlackWinByDeclaration
                } else {
                    GameResult::WhiteWinByDeclaration
                },
            ),
        ),
{
    reveal_summary_words();
    let name: Seq<char> = if black { seq!['先', '手'] } else { seq!['後', '手'] };
    let mid = name + seq!['の', '入', '玉', '勝', 'ち'];
    let t = summary_head(ply) + mid;
    assert(kif_summary_text((11, x), black, ply) =~= t);
    lemma_summary_line(ply, mid);
    lemma_summary_lacks(ply, mid, "時間切れ"@, 0);
    lemma_summary_lacks(ply, mid, "千日手"@, 0);
    lemma_summary_lacks(ply, mid, "最大手数"@, 0);
    lemma_summary_lacks(ply, mid, "持将棋"@, 0);
    lemma_summary_lacks(ply, mid, "中断"@, 0);
    assert(mid.subrange(3, 7) =~= "入玉勝ち"@);
    lemma_summary_has(ply, mid, "入玉勝ち"@, 3);
    assert(mid.subrange(0, 2) =~= name);
    if black {
        lemma_summary_has(ply, mid, "先手"@, 0);
    } else {
        lemma_summary_lacks(ply, mid, "先手"@, 0);
        lemma_summary_has(ply, mid, "後手"@, 0);
    }
}

proof fn lemma_kif_summary_resign(x: Seq<char>, black: bool, ply: nat)
    ensures
        kif_summary_spec(kif_summary_text((1, x), black, ply), black) == Some(
            ((1int, Seq::<char>::empty()), if black { GameResult::WhiteWin } else { GameResult::BlackWin }),
        ),
{
    reveal_summary_words();
    let name: Seq<char> = if !black { seq!['先', '手'] } else { seq!['後', '手'] };
    let mid = name + seq!['の', '勝', 'ち'];
    let t = summary_head(ply) + mid;
    assert(kif_summary_text((1, x), black, ply) =~= t);
    lemma_summary_line(ply, mid);
    lemma_summary_lacks(ply, mid, "時間切れ"@, 0);
    lemma_summary_lacks(ply, mid, "千日手"@, 0);
    lemma_summary_lacks(ply, mid, "最大手数"@, 0);
    lemma_summary_lacks(ply, mid, "持将棋"@, 0);
    lemma_summary_lacks(ply, mid, "中断"@, 0);
    lemma_summary_lacks(ply, mid, "入玉宣言"@, 0);
    lemma_summary_lacks(ply, mid, "入玉勝ち"@, 0);
    lemma_summary_lacks(ply, mid, "反則勝ち"@, 0);
    lemma_summary_lacks(ply, mid, "反則負け"@, 0);
    lemma_summary_lacks(ply, mid, "不詰"@, 0);
    assert(mid.subrange(3, 5) =~= "勝ち"@);
    lemma_summary_has(ply, mid, "勝ち"@, 3);
    assert(mid.subrange(0, 2) =~= name);
    if !black {
        lemma_summary_has(ply, mid, "先手"@, 0);
    } else {
        lemma_summary_lacks(ply, mid, "先手"@, 0);
        lemma_summary_has(ply, mid, "後手"@, 0);
    }
}

proof fn lemma_kif_summary_timeout(x: Seq<char>, black: bool, ply: nat)
    ensures
        kif_summary_spec(kif_summary_text((8, x), black, ply), black) == Some(
            ((8int, Seq::<char>::empty()), if black { GameResult::WhiteWinByTimeout } else { GameResult::BlackWinByTimeout }),
        ),
{
    reveal_summary_words();
    let name: Seq<char> = if !black { seq!['先', '手'] } else { seq!['後', '手'] };
    let mid = seq!['時', '間', '切', 'れ', 'に', 'よ', 'り'] + name + seq!['の', '勝', 'ち'];
    let t = summary_head(ply) + mid;
    assert(kif_summary_text((8, x), black, ply) =~= t);
    lemma_summary_line(ply, mid);
    assert(mid.subrange(0, 4) =~= "時間切れ"@);
    lemma_summary_has(ply, mid, "時間切れ"@, 0);
    assert(mid.subrange(7, 9) =~= name);
    if !black {
        lemma_summary_has(ply, mid, "先手"@, 7);
    } else {
        lemma_summary_lacks(ply, mid, "先手"@, 0);
        lemma_summary_has(ply, mid, "後手"@, 7);
    }
}

proof fn lemma_kif_summary_illegal_win(x: Seq<char>, black: bool, ply: nat)
    ensures
        kif_summary_spec(kif_summary_text((9, x), black, ply), black) == Some(
            ((9int, Seq::<char>::empty()), if black { GameResult::BlackWinByIllegalMove } else { GameResult::WhiteWinByIllegalMove }),
        ),
{
    reveal_summary_words();
    let name: Seq<char> = if black { seq!['先', '手'] } else { seq!['後', '手'] };
    let mid = name + seq!['の', '反', '則', '勝', 'ち'];
    let t = summary_head(ply) + mid;
    assert(kif_summary_text((9, x), black, ply) =~= t);
    lemma_summary_line(ply, mid);
    lemma_summary_lacks(ply, mid, "時間切れ"@, 0);
    lemma_summary_lacks(ply, mid, "千日手"@, 0);
    lemma_summary_lacks(ply, mid, "最大手数"@, 0);
    lemma_summary_lacks(ply, mid, "持将棋"@, 0);
    lemma_summary_lacks(ply, mid, "中断"@, 0);
    lemma_summary_lacks(ply, mid, "入玉宣言"@, 0);
    lemma_summary_lacks(ply, mid, "入玉勝ち"@, 0);
    assert(mid.subrange(3, 7) =~= "反則勝ち"@);
    lemma_summary_has(ply, mid, "反則勝ち"@, 3);
    assert(mid.subrange(0, 2) =~= name);
    if black {
        lemma_summary_has(ply, mid, "先手"@, 0);
    } else {
        lemma_summary_lacks(ply, mid, "先手"@, 0);
        lemma_summary_has(ply, mid, "後手"@, 0);
    }
}

proof fn lemma_kif_summary_illegal_loss(x: Seq<char>, black: bool, ply: nat)
    ensures
        kif_summary_spec(kif_summary_text((10, x), black, ply), black) == Some(
            ((10int, Seq::<char>::empty()), if black { GameResult::WhiteWinByIllegalMove } else { GameResult::BlackWinByIllegalMove }),
        ),
{
    reveal_summary_words();
    let name: Seq<char> = if black { seq!['先', '手'] } else { seq!['後', '手'] };
    let mid = name + seq!['の', '反', '則', '負', 'け'];
    let t = summary_head(ply) + mid;
    assert(kif_summary_text((10, x), black, ply) =~= t);
    lemma_summary_line(ply, mid);
    lemma_summary_lacks(ply, mid, "時間切れ"@, 0);
    lemma_summary_lacks(ply, mid, "千日手"@, 0);
    lemma_summary_lacks(ply, mid, "最大手数"@, 0);
    lemma_summary_lacks(ply, mid, "持将棋"@, 0);
    lemma_summary_lacks(ply, mid, "中断"@, 0);
    lemma_summary_lacks(ply, mid, "入玉宣言"@, 0);
    lemma_summary_lacks(ply, mid, "入玉勝ち"@, 0);
    lemma_summary_lacks(ply, mid, "反則勝ち"@, 2);
    assert(mid.subrange(3, 7) =~= "反則負け"@);
    lemma_summary_has(ply, mid, "反則負け"@, 3);
    assert(mid.subrange(0, 2) =~= name);
    if black {
        lemma_summary_has(ply, mid, "先手"@, 0);
    } else {
        lemma_summary_lacks(ply, mid, "先手"@, 0);
        lemma_summary_has(ply, mid, "後手"@, 0);
    }
}

/// A KIF summary line that names a winner reads back, with the same side to
/// move, as the same kind of ending won by the same side: the side to move
/// loses by resigning (`1`) or on time (`8`), and wins by a foul of the
/// other side (`9`) and by declaration (`11`); it loses by its own foul
/// (`10`).
pub proof fn lemma_kif_summary_winner(k: int, x: Seq<char>, black: bool, ply: nat)
    requires
        k == 1 || k == 8 || k == 9 || k == 10 || k == 11,
    ensures
        kif_summary_spec(kif_summary_text((k, x), black, ply), black) == Some(
            (
                (k, Seq::<char>::empty()),
                if k == 1 {
                    if black { GameResult::WhiteWin } else { GameResult::BlackWin }
                } else if k == 8 {
                    if black { GameResult::WhiteWinByTimeout } else { GameResult::BlackWinByTimeout }
                } else if k == 9 {
                    if black { GameResult::BlackWinByIllegalMove } else { GameResult::WhiteWinByIllegalMove }
                } else if k == 10 {
                    if black { GameResult::WhiteWinByIllegalMove } else { GameResult::BlackWinByIllegalMove }
                } else {
                    if black { GameResult::BlackWinByDeclaration } else { GameResult::WhiteWinByDeclaration }
                },
            ),
        ),
{
    if k == 1 {
        lemma_kif_summary_resign(x, black, ply);
    } else if k == 8 {
        lemma_kif_summary_timeout(x, black, ply);
    } else if k == 9 {
        lemma_kif_summary_illegal_win(x, black, ply);
    } else if k == 10 {
        lemma_kif_summary_illegal_loss(x, black, ply);
    } else {
        lemma_kif_summary_declaration(x, black, ply);
    }
}

} // verus!
