//! The CSA record format: errors, terminal markers, header lines, notes,
//! time tokens and the decoding of record bytes.
use vstd::prelude::*;
use vstd::utf8::{decode_utf8, encode_utf8, valid_utf8};
use crate::records::formats::common::{
    board_index, board_map_to_sfen, csa_code_index, csa_code_position, first_unknown_code, hand_counts_to_sfen,
    hand_index, hand_sfen, record_text_spec, rows_text, shift_jis_decode, shift_jis_size_ok, unknown_code_text, utf8_text, BoardMap,
    HandCounts,
};
use crate::records::record::{SpecialMove, SpecialMoveEntry};
use crate::records::metadata::{
    appended_comment, map_get, opt_time_control, with_standard, RecordMetadata, RecordMetadataBuilder,
    RecordMetadataKey, RecordMetadataView,
};
use crate::text::{
    chars_eq_str, concat2, decimal, opt_as_str, opt_line, parse_u32, push_char, push_decimal, push_line,
    push_opt_line, push_str, starts_with, str_chars, string_from_chars, string_from_str, text_lines, trim_chars,
    trim_spec,
};
use crate::records::time_control::{
    colon_time_in_range, colon_time_ms, colon_time_ms_spec, csa_time_control_spec, csa_time_in_range,
    csa_v22_fields, decimal_field_spec, from_spec_spec, opt_spec_text, parse_csa_time_control, spec_text,
    split3_spec, TimeControl,
};
use crate::types::color::Color;
use crate::types::game_result::GameResult;

verus! {

/// Errors of the CSA format.
#[derive(Debug, Clone, PartialEq, Eq)]
pub enum CsaError {
    /// A line that is not CSA.
    InvalidLine(String),
    /// A board line that is not CSA.
    InvalidBoard(String),
    /// A move line that is not CSA.
    InvalidMove(String),
    /// An illegal move, by index.
    IllegalMove { index: usize },
    /// The end marker is missing.
    MissingEndMarker,
}

impl CsaError {
    /// The message of the error.
    pub open spec fn message(&self) -> Seq<char> {
        match self {
            CsaError::InvalidLine(s) => "invalid CSA line: "@ + s@,
            CsaError::InvalidBoard(s) => "invalid CSA board line: "@ + s@,
            CsaError::InvalidMove(s) => "invalid CSA move line: "@ + s@,
            CsaError::IllegalMove { index } => "illegal move at index "@ + decimal(*index as nat),
            CsaError::MissingEndMarker => "missing CSA end marker"@,
        }
    }

    /// The message of the error (see [`CsaError::message`]).
    pub fn to_string(&self) -> (r: String)
        ensures
            r@ == self.message(),
    {
        match self {
            CsaError::InvalidLine(t) => {
                let mut s = string_from_str("invalid CSA line: ");
                push_str(&mut s, t.as_str());
                s
            },
            CsaError::InvalidBoard(t) => {
                let mut s = string_from_str("invalid CSA board line: ");
                push_str(&mut s, t.as_str());
                s
            },
            CsaError::InvalidMove(t) => {
                let mut s = string_from_str("invalid CSA move line: ");
                push_str(&mut s, t.as_str());
                s
            },
            CsaError::IllegalMove { index } => {
                let mut s = string_from_str("illegal move at index ");
                push_decimal(&mut s, *index as u64);
                s
            },
            CsaError::MissingEndMarker => string_from_str("missing CSA end marker"),
        }
    }
}

/// `m` without its leading `%` characters.
pub open spec fn strip_percent(m: Seq<char>) -> Seq<char>
    decreases m.len(),
{
    if m.len() > 0 && m[0] == '%' {
        strip_percent(m.drop_first())
    } else {
        m
    }
}

/// The kind (see [`SpecialMove::kind_view`]) and result a CSA terminal marker
/// stands for; `black` tells whether Black is to move. An unknown marker is
/// an unknown terminal named by the marker without its leading `%`, with no
/// result.
pub open spec fn csa_terminal_spec(m: Seq<char>, black: bool) -> ((int, Seq<char>), GameResult) {
    if m == "%TORYO"@ {
        ((1, Seq::empty()), if black { GameResult::WhiteWin } else { GameResult::BlackWin })
    } else if m == "%SENNICHITE"@ {
        ((5, Seq::empty()), GameResult::DrawByRepetition)
    } else if m == "%HIKIWAKE"@ {
        ((4, Seq::empty()), GameResult::DrawByImpasse)
    } else if m == "%JISHOGI"@ {
        ((3, Seq::empty()), GameResult::DrawByImpasse)
    } else if m == "%MAX_MOVES"@ {
        ((2, Seq::empty()), GameResult::DrawByMaxPlies)
    } else if m == "%KACHI"@ {
        ((11, Seq::empty()), if black { GameResult::BlackWinByDeclaration } else { GameResult::WhiteWinByDeclaration })
    } else if m == "%CHUDAN"@ {
        ((0, Seq::empty()), GameResult::Paused)
    } else if m == "%TSUMI"@ {
        ((6, Seq::empty()), if black { GameResult::WhiteWin } else { GameResult::BlackWin })
    } else if m == "%FUZUMI"@ {
        ((7, Seq::empty()), GameResult::Paused)
    } else if m == "%ILLEGAL_MOVE"@ {
        ((9, Seq::empty()), if black { GameResult::BlackWinByIllegalMove } else { GameResult::WhiteWinByIllegalMove })
    } else if m == "%+ILLEGAL_ACTION"@ {
        if black {
            ((9, Seq::empty()), GameResult::BlackWinByIllegalMove)
        } else {
            ((10, Seq::empty()), GameResult::WhiteWinByIllegalMove)
        }
    } else if m == "%-ILLEGAL_ACTION"@ {
        if black {
            ((10, Seq::empty()), GameResult::BlackWinByIllegalMove)
        } else {
            ((9, Seq::empty()), GameResult::WhiteWinByIllegalMove)
        }
    } else if m == "%TIME_UP"@ {
        ((8, Seq::empty()), if black { GameResult::BlackWinByTimeout } else { GameResult::WhiteWinByTimeout })
    } else if m == "%ERROR"@ {
        ((15, "ERROR"@), GameResult::Error)
    } else {
        ((15, strip_percent(m)), GameResult::Paused)
    }
}

fn strip_leading_percent(v: &[char]) -> (r: String)
    ensures
        r@ == strip_percent(v@),
{
    let mut i: usize = 0;
    assert(v@.skip(0) =~= v@);
    while i < v.len() && v[i] == '%'
        invariant
            i <= v@.len(),
            strip_percent(v@) == strip_percent(v@.skip(i as int)),
        decreases v.len() - i,
    {
        assert(v@.skip(i as int).drop_first() =~= v@.skip(i + 1));
        i += 1;
    }
    let rest = vstd::slice::slice_subrange(v, i, v.len());
    assert(rest@ =~= v@.skip(i as int));
    string_from_chars(rest)
}

fn entry(kind: SpecialMove, result: GameResult) -> (r: SpecialMoveEntry)
    ensures
        r.kind_spec().kind_view() == kind.kind_view(),
        r.result_spec() == result,
        r.raw_spec() is None,
{
    SpecialMoveEntry::new(kind, result)
}

/// The terminal entry of a CSA `%` marker (see [`csa_terminal_spec`]).
pub fn terminal_from_marker(marker: &str, side_to_move: Color) -> (r: SpecialMoveEntry)
    ensures
        (r.kind_spec().kind_view(), r.result_spec()) == csa_terminal_spec(marker@, side_to_move == Color::Black),
        r.raw_spec() is None,
{
    let black = side_to_move == Color::Black;
    let v = str_chars(marker);
    let m = v.as_slice();
    if chars_eq_str(m, "%TORYO") {
        entry(SpecialMove::Resign, if black { GameResult::WhiteWin } else { GameResult::BlackWin })
    } else if chars_eq_str(m, "%SENNICHITE") {
        entry(SpecialMove::RepetitionDraw, GameResult::DrawByRepetition)
    } else if chars_eq_str(m, "%HIKIWAKE") {
        entry(SpecialMove::Draw, GameResult::DrawByImpasse)
    } else if chars_eq_str(m, "%JISHOGI") {
        entry(SpecialMove::Impasse, GameResult::DrawByImpasse)
    } else if chars_eq_str(m, "%MAX_MOVES") {
        entry(SpecialMove::MaxMoves, GameResult::DrawByMaxPlies)
    } else if chars_eq_str(m, "%KACHI") {
        entry(
            SpecialMove::WinByDeclaration,
            if black { GameResult::BlackWinByDeclaration } else { GameResult::WhiteWinByDeclaration },
        )
    } else if chars_eq_str(m, "%CHUDAN") {
        entry(SpecialMove::Interrupt, GameResult::Paused)
    } else if chars_eq_str(m, "%TSUMI") {
        entry(SpecialMove::Mate, if black { GameResult::WhiteWin } else { GameResult::BlackWin })
    } else if chars_eq_str(m, "%FUZUMI") {
        entry(SpecialMove::NoMate, GameResult::Paused)
    } else if chars_eq_str(m, "%ILLEGAL_MOVE") {
        entry(
            SpecialMove::WinByIllegalMove,
            if black { GameResult::BlackWinByIllegalMove } else { GameResult::WhiteWinByIllegalMove },
        )
    } else if chars_eq_str(m, "%+ILLEGAL_ACTION") {
        if black {
            entry(SpecialMove::WinByIllegalMove, GameResult::BlackWinByIllegalMove)
        } else {
            entry(SpecialMove::LoseByIllegalMove, GameResult::WhiteWinByIllegalMove)
        }
    } else if chars_eq_str(m, "%-ILLEGAL_ACTION") {
        if black {
            entry(SpecialMove::LoseByIllegalMove, GameResult::BlackWinByIllegalMove)
        } else {
            entry(SpecialMove::WinByIllegalMove, GameResult::WhiteWinByIllegalMove)
        }
    } else if chars_eq_str(m, "%TIME_UP") {
        entry(
            SpecialMove::Timeout,
            if black { GameResult::BlackWinByTimeout } else { GameResult::WhiteWinByTimeout },
        )
    } else if chars_eq_str(m, "%ERROR") {
        entry(SpecialMove::Unknown(string_from_str("ERROR")), GameResult::Error)
    } else {
        entry(SpecialMove::Unknown(strip_leading_percent(m)), GameResult::Paused)
    }
}

/// The CSA marker of a terminal kind (see [`SpecialMove::kind_view`]): an
/// unknown terminal's name with a `%` added unless it has one.
pub open spec fn csa_marker_spec(kind: (int, Seq<char>)) -> Seq<char> {
    if kind.0 == 0 {
        "%CHUDAN"@
    } else if kind.0 == 1 {
        "%TORYO"@
    } else if kind.0 == 2 {
        "%MAX_MOVES"@
    } else if kind.0 == 3 {
        "%JISHOGI"@
    } else if kind.0 == 4 {
        "%HIKIWAKE"@
    } else if kind.0 == 5 {
        "%SENNICHITE"@
    } else if kind.0 == 6 {
        "%TSUMI"@
    } else if kind.0 == 7 {
        "%FUZUMI"@
    } else if kind.0 == 8 {
        "%TIME_UP"@
    } else if kind.0 == 9 || kind.0 == 10 {
        "%ILLEGAL_MOVE"@
    } else if kind.0 == 11 || kind.0 == 12 || kind.0 == 13 || kind.0 == 14 {
        "%KACHI"@
    } else if kind.1.len() > 0 && kind.1[0] == '%' {
        kind.1
    } else {
        seq!['%'] + kind.1
    }
}

/// The CSA marker of a terminal entry (see [`csa_marker_spec`]).
pub fn marker_from_terminal(terminal: &SpecialMoveEntry) -> (r: String)
    ensures
        r@ == csa_marker_spec(terminal.kind_spec().kind_view()),
{
    match terminal.kind() {
        SpecialMove::Interrupt => string_from_str("%CHUDAN"),
        SpecialMove::Resign => string_from_str("%TORYO"),
        SpecialMove::MaxMoves => string_from_str("%MAX_MOVES"),
        SpecialMove::Impasse => string_from_str("%JISHOGI"),
        SpecialMove::Draw => string_from_str("%HIKIWAKE"),
        SpecialMove::RepetitionDraw => string_from_str("%SENNICHITE"),
        SpecialMove::Mate => string_from_str("%TSUMI"),
        SpecialMove::NoMate => string_from_str("%FUZUMI"),
        SpecialMove::Timeout => string_from_str("%TIME_UP"),
        SpecialMove::WinByIllegalMove | SpecialMove::LoseByIllegalMove => string_from_str("%ILLEGAL_MOVE"),
        SpecialMove::WinByDeclaration => string_from_str("%KACHI"),
        SpecialMove::WinByDefault | SpecialMove::LoseByDefault | SpecialMove::Try => string_from_str("%KACHI"),
        SpecialMove::Unknown(name) => {
            let v = str_chars(name.as_str());
            if v.len() > 0 && v[0] == '%' {
                string_from_chars(v.as_slice())
            } else {
                let mut s = String::new();
                push_char(&mut s, '%');
                push_str(&mut s, name.as_str());
                assert(s@ =~= seq!['%'] + name@);
                s
            }
        },
    }
}

/// Writing the terminal a CSA marker reads as gives the marker back, for a
/// marker that starts with exactly one `%`, except the two
/// `ILLEGAL_ACTION` markers, which are written `%ILLEGAL_MOVE`.
pub proof fn lemma_csa_marker_roundtrip(m: Seq<char>, black: bool)
    requires
        m.len() > 0,
        m[0] == '%',
        m.len() == 1 || m[1] != '%',
        m != "%+ILLEGAL_ACTION"@,
        m != "%-ILLEGAL_ACTION"@,
    ensures
        csa_marker_spec(csa_terminal_spec(m, black).0) == m,
{
    reveal_strlit("ERROR");
    reveal_strlit("%ERROR");
    let t = m.drop_first();
    assert(strip_percent(t) == t);
    assert(strip_percent(m) == t);
    assert(m =~= seq!['%'] + t);
    assert("%ERROR"@ =~= seq!['%'] + "ERROR"@);
}

/// The text of an escaped `$NOTE` value: `\n` is a line break, `\\` a
/// backslash, any other backslash is kept with what follows it.
pub open spec fn note_unescape(s: Seq<char>) -> Seq<char>
    decreases s.len(),
{
    if s.len() == 0 {
        Seq::empty()
    } else if s[0] != '\\' {
        seq![s[0]] + note_unescape(s.drop_first())
    } else if s.len() == 1 {
        seq!['\\']
    } else if s[1] == 'n' {
        seq!['\n'] + note_unescape(s.skip(2))
    } else if s[1] == '\\' {
        seq!['\\'] + note_unescape(s.skip(2))
    } else {
        seq!['\\', s[1]] + note_unescape(s.skip(2))
    }
}

/// A character of a `$NOTE` value, escaped.
pub open spec fn note_escape_char(c: char) -> Seq<char> {
    if c == '\\' {
        seq!['\\', '\\']
    } else if c == '\n' {
        seq!['\\', 'n']
    } else {
        seq![c]
    }
}

/// A text escaped for a `$NOTE` value: backslashes doubled, line breaks
/// written `\n`.
pub open spec fn note_escape(s: Seq<char>) -> Seq<char>
    decreases s.len(),
{
    if s.len() == 0 {
        Seq::empty()
    } else {
        note_escape_char(s[0]) + note_escape(s.drop_first())
    }
}

/// The text of a `$NOTE` value (see [`note_unescape`]).
pub fn parse_csa_note_value(value: &str) -> (r: String)
    ensures
        r@ == note_unescape(value@),
{
    let v = str_chars(value);
    let n = v.len();
    let mut out = String::new();
    let mut i: usize = 0;
    assert(v@.skip(0) =~= v@);
    while i < n
        invariant
            n == v@.len(),
            v@ == value@,
            i <= n,
            out@ + note_unescape(v@.skip(i as int)) == note_unescape(v@),
        decreases n - i,
    {
        let ghost rest = v@.skip(i as int);
        let c = v[i];
        if c != '\\' {
            push_char(&mut out, c);
            assert(rest.drop_first() =~= v@.skip(i + 1));
            assert(out@ + note_unescape(v@.skip(i + 1)) =~= out@.drop_last() + (seq![c] + note_unescape(rest.drop_first())));
            i += 1;
        } else if i + 1 == n {
            push_char(&mut out, '\\');
            assert(v@.skip(n as int) =~= Seq::<char>::empty());
            assert(out@ + note_unescape(v@.skip(n as int)) =~= out@);
            i += 1;
        } else {
            let d = v[i + 1];
            assert(rest.skip(2) =~= v@.skip(i + 2));
            if d == 'n' {
                push_char(&mut out, '\n');
                assert(out@ + note_unescape(v@.skip(i + 2)) =~= out@.drop_last() + (seq!['\n'] + note_unescape(rest.skip(2))));
            } else if d == '\\' {
                push_char(&mut out, '\\');
                assert(out@ + note_unescape(v@.skip(i + 2)) =~= out@.drop_last() + (seq!['\\'] + note_unescape(rest.skip(2))));
            } else {
                let ghost before = out@;
                push_char(&mut out, '\\');
                push_char(&mut out, d);
                assert(out@ + note_unescape(v@.skip(i + 2)) =~= before + (seq!['\\', d] + note_unescape(rest.skip(2))));
            }
            i += 2;
        }
    }
    assert(v@.skip(n as int) =~= Seq::<char>::empty());
    assert(out@ + note_unescape(Seq::<char>::empty()) =~= out@);
    out
}

/// A text escaped for a `$NOTE` value (see [`note_escape`]).
pub fn format_csa_note_value(value: &str) -> (r: String)
    ensures
        r@ == note_escape(value@),
{
    let v = str_chars(value);
    let n = v.len();
    let mut out = String::new();
    let mut i: usize = 0;
    assert(v@.skip(0) =~= v@);
    while i < n
        invariant
            n == v@.len(),
            v@ == value@,
            i <= n,
            out@ + note_escape(v@.skip(i as int)) == note_escape(v@),
        decreases n - i,
    {
        let ghost before = out@;
        let ghost rest = v@.skip(i as int);
        let c = v[i];
        if c == '\\' {
            push_char(&mut out, '\\');
            push_char(&mut out, '\\');
        } else if c == '\n' {
            push_char(&mut out, '\\');
            push_char(&mut out, 'n');
        } else {
            push_char(&mut out, c);
        }
        assert(rest.drop_first() =~= v@.skip(i + 1));
        assert(out@ =~= before + note_escape_char(c));
        assert(out@ + note_escape(v@.skip(i + 1)) =~= before + (note_escape_char(rest[0]) + note_escape(rest.drop_first())));
        i += 1;
    }
    assert(v@.skip(n as int) =~= Seq::<char>::empty());
    assert(out@ + note_escape(Seq::<char>::empty()) =~= out@);
    out
}

/// Reading an escaped `$NOTE` value gives back the text that was escaped.
pub proof fn lemma_note_roundtrip(s: Seq<char>)
    ensures
        note_unescape(note_escape(s)) == s,
    decreases s.len(),
{
    if s.len() > 0 {
        let c = s[0];
        let rest = s.drop_first();
        lemma_note_roundtrip(rest);
        let e = note_escape(s);
        let t = note_escape(rest);
        assert(e == note_escape_char(c) + t);
        if c == '\\' {
            assert(e.skip(2) =~= t);
        } else if c == '\n' {
            assert(e.skip(2) =~= t);
        } else {
            assert(e.drop_first() =~= t);
        }
        assert(s =~= seq![c] + rest);
    }
}

/// A number in decimal with at least two digits.
pub open spec fn pad2(n: nat) -> Seq<char> {
    if n < 10 {
        seq!['0'] + decimal(n)
    } else {
        decimal(n)
    }
}

/// The CSA header of a time control: none when every part is zero; with no
/// increment, `TIME_LIMIT` with `HH:MM+byoyomi` (seconds of the base time
/// dropped); else `TIME` with `base+byoyomi+increment`.
pub open spec fn csa_time_limit_spec(v: (u32, u32, u32)) -> Option<(Seq<char>, Seq<char>)> {
    if v.0 == 0 && v.1 == 0 && v.2 == 0 {
        None
    } else if v.2 == 0 {
        Some(
            (
                "TIME_LIMIT"@,
                pad2((v.0 / 3600) as nat) + seq![':'] + pad2(((v.0 % 3600) / 60) as nat) + seq!['+'] + decimal(
                    v.1 as nat,
                ),
            ),
        )
    } else {
        Some(("TIME"@, spec_text(v)))
    }
}

fn push_pad2(s: &mut String, n: u32)
    ensures
        final(s)@ == old(s)@ + pad2(n as nat),
{
    if n < 10 {
        push_char(s, '0');
    }
    push_decimal(s, n as u64);
    assert(final(s)@ =~= old(s)@ + pad2(n as nat));
}

/// The CSA header of a time control (see [`csa_time_limit_spec`]).
pub fn format_csa_time_limit(tc: &TimeControl) -> (r: Option<(String, String)>)
    ensures
        match csa_time_limit_spec(tc@) {
            Some((k, v)) => r matches Some((a, b)) && a@ == k && b@ == v,
            None => r is None,
        },
{
    let base = tc.base_seconds();
    let byoyomi = tc.byoyomi_seconds();
    let increment = tc.increment_seconds();
    if base == 0 && byoyomi == 0 && increment == 0 {
        return None;
    }
    if increment == 0 {
        let hours = base / 3600;
        let minutes = (base % 3600) / 60;
        let mut value = String::new();
        push_pad2(&mut value, hours);
        push_char(&mut value, ':');
        push_pad2(&mut value, minutes);
        push_char(&mut value, '+');
        push_decimal(&mut value, byoyomi as u64);
        assert(value@ =~= csa_time_limit_spec(tc@)->Some_0.1);
        return Some((string_from_str("TIME_LIMIT"), value));
    }
    Some((string_from_str("TIME"), tc.to_spec()))
}

proof fn lemma_pad2_field(n: u32)
    ensures
        decimal_field_spec(pad2(n as nat)) == Some(n),
        forall|j: int| 0 <= j < pad2(n as nat).len() ==> crate::text::is_digit(#[trigger] pad2(n as nat)[j]),
{
    let d = decimal(n as nat);
    crate::text::lemma_decimal_value(n as nat);
    let p = pad2(n as nat);
    if n < 10 {
        assert(d.len() == 1);
        assert(p =~= seq!['0', d[0]]);
        let z = seq!['0'];
        assert(p.drop_last() =~= z);
        assert(z.drop_last() =~= Seq::<char>::empty());
        assert(z.last() == '0');
        assert(crate::text::digits_value(Seq::<char>::empty()) == 0);
        assert(('0' as u32) == 48);
        assert(crate::text::digits_value(z) == 0);
        assert(crate::text::digits_value(p) == crate::text::digits_value(d)) by {
            assert(d.drop_last() =~= Seq::<char>::empty());
        }
    }
    assert forall|j: int| 0 <= j < p.len() implies crate::text::is_digit(#[trigger] p[j]) by {
        if n < 10 && j == 1 {
            assert(p[1] == d[0]);
        }
    }
    assert(!crate::text::is_white_space(p[0]));
    assert(!crate::text::is_white_space(p.last()));
    assert(crate::text::leading_space(p) == 0);
    assert(p.skip(0) =~= p);
    assert(crate::text::trailing_space(p) == 0);
    assert(p.take(p.len() as int) =~= p);
    assert(crate::text::trim_spec(p) == p);
    assert(crate::text::unsigned_body(p) == p);
}

proof fn lemma_find_in_digits_text(s: Seq<char>, c: char, from: int)
    requires
        0 <= from,
        c != '0' && c != '1' && c != '2' && c != '3' && c != '4' && c != '5' && c != '6' && c != '7' && c != '8' && c
            != '9',
        forall|j: int| 0 <= j < s.len() ==> crate::text::is_digit(#[trigger] s[j]),
    ensures
        crate::text::find_char_from(s, c, from) is None,
    decreases s.len() - from,
{
    if from < s.len() {
        lemma_find_in_digits_text(s, c, from + 1);
    }
}

proof fn lemma_first_char(a: Seq<char>, c: char, rest: Seq<char>, k: int)
    requires
        0 <= k <= a.len(),
        forall|j: int| 0 <= j < a.len() ==> a[j] != c,
    ensures
        crate::text::find_char_from(a + seq![c] + rest, c, k) == Some(a.len() as int),
    decreases a.len() - k,
{
    let s = a + seq![c] + rest;
    if k < a.len() {
        assert(s[k] == a[k]);
        lemma_first_char(a, c, rest, k + 1);
    } else {
        assert(s[a.len() as int] == c);
    }
}

/// The header written for a time control reads back as that time control,
/// with the seconds of the base time dropped when it has no increment: the
/// `TIME_LIMIT` and `TIME` writers and the CSA time reader agree.
pub proof fn lemma_csa_time_limit_roundtrip(v: (u32, u32, u32))
    requires
        csa_time_limit_spec(v) is Some,
    ensures
        csa_time_in_range(csa_time_limit_spec(v)->Some_0.1),
        csa_time_control_spec(csa_time_limit_spec(v)->Some_0.1) == (if v.2 == 0 {
            Some(((v.0 / 60 * 60) as u32, v.1, 0u32))
        } else {
            Some(v)
        }),
{
    if v.2 != 0 {
        crate::records::time_control::lemma_time_control_text_roundtrip(v);
    } else {
        let h = v.0 / 3600;
        let m = (v.0 % 3600) / 60;
        let ph = pad2(h as nat);
        let pm = pad2(m as nat);
        let db = decimal(v.1 as nat);
        crate::text::lemma_decimal_value(v.1 as nat);
        crate::records::time_control::lemma_decimal_field_of_decimal(v.1);
        lemma_pad2_field(h);
        lemma_pad2_field(m);
        let base = ph + seq![':'] + pm;
        let text = base + seq!['+'] + db;
        assert(csa_time_limit_spec(v)->Some_0.1 == text);
        // The base part has no `+`.
        assert forall|j: int| 0 <= j < base.len() implies base[j] != '+' by {
            if j < ph.len() {
                assert(base[j] == ph[j]);
            } else if j > ph.len() {
                assert(base[j] == pm[j - ph.len() - 1]);
            }
        }
        lemma_first_char(base, '+', db, 0);
        assert(text.take(base.len() as int) =~= base);
        assert(text.skip(base.len() as int + 1) =~= db);
        lemma_first_char(ph, ':', pm, 0);
        assert(base.take(ph.len() as int) =~= ph);
        assert(base.skip(ph.len() as int + 1) =~= pm);
        lemma_find_in_digits_text(db, '+', 0);
        assert(csa_v22_fields(text) == Some((h, m, v.1)));
        // The text has one `+`, so it is no `base+byoyomi+increment` text.
        assert(split3_spec(text) is None) by {
            assert(crate::text::find_char(text.skip(base.len() as int + 1), '+') is None);
        }
        assert(from_spec_spec(text) is None);
        assert(h * 3600 + m * 60 == v.0 / 60 * 60);
    }
}

/// The text of a CSA `'*` comment line, without surrounding white space;
/// none for other lines and for the program lines `'** ` and `'**評価値=`.
pub open spec fn program_comment_spec(line: Seq<char>) -> Option<Seq<char>> {
    let t = crate::text::trim_spec(line);
    if crate::text::starts_with(t, "'** "@) || crate::text::starts_with(t, "'**評価値="@) {
        None
    } else if crate::text::starts_with(t, "'*"@) {
        Some(crate::text::trim_spec(t.skip(2)))
    } else {
        None
    }
}

/// The text of a CSA comment line (see [`program_comment_spec`]).
pub fn parse_csa_program_comment_text(line: &str) -> (r: Option<String>)
    ensures
        match program_comment_spec(line@) {
            Some(t) => r matches Some(s) && s@ == t,
            None => r is None,
        },
{
    let v = str_chars(line);
    let t = crate::text::trim_chars(v.as_slice());
    if crate::text::chars_start_with(t.as_slice(), "'** ") || crate::text::chars_start_with(t.as_slice(), "'**評価値=") {
        return None;
    }
    if !crate::text::chars_start_with(t.as_slice(), "'*") {
        return None;
    }
    proof {
        reveal_strlit("'*");
    }
    let rest = vstd::slice::slice_subrange(t.as_slice(), 2, t.len());
    assert(rest@ =~= t@.skip(2));
    let trimmed = crate::text::trim_chars(rest);
    Some(string_from_chars(trimmed.as_slice()))
}

/// The CSA `PI` command and side to move for a standard or handicap initial
/// position given as SFEN.
pub open spec fn p_command_spec(sfen: Seq<char>) -> Option<(Seq<char>, Seq<char>)> {
    if sfen == "lnsgkgsnl/1r5b1/ppppppppp/9/9/9/PPPPPPPPP/1B5R1/LNSGKGSNL b - 1"@ {
        Some(("PI"@, "+"@))
    } else if sfen == "lnsgkgsn1/1r5b1/ppppppppp/9/9/9/PPPPPPPPP/1B5R1/LNSGKGSNL w - 1"@ {
        Some(("PI11KY"@, "-"@))
    } else if sfen == "1nsgkgsnl/1r5b1/ppppppppp/9/9/9/PPPPPPPPP/1B5R1/LNSGKGSNL w - 1"@ {
        Some(("PI91KY"@, "-"@))
    } else if sfen == "lnsgkgsnl/1r7/ppppppppp/9/9/9/PPPPPPPPP/1B5R1/LNSGKGSNL w - 1"@ {
        Some(("PI22KA"@, "-"@))
    } else if sfen == "lnsgkgsnl/7b1/ppppppppp/9/9/9/PPPPPPPPP/1B5R1/LNSGKGSNL w - 1"@ {
        Some(("PI82HI"@, "-"@))
    } else if sfen == "lnsgkgsn1/7b1/ppppppppp/9/9/9/PPPPPPPPP/1B5R1/LNSGKGSNL w - 1"@ {
        Some(("PI82HI11KY"@, "-"@))
    } else if sfen == "lnsgkgsnl/9/ppppppppp/9/9/9/PPPPPPPPP/1B5R1/LNSGKGSNL w - 1"@ {
        Some(("PI82HI22KA"@, "-"@))
    } else if sfen == "1nsgkgsn1/9/ppppppppp/9/9/9/PPPPPPPPP/1B5R1/LNSGKGSNL w - 1"@ {
        Some(("PI82HI22KA11KY91KY"@, "-"@))
    } else if sfen == "2sgkgs2/9/ppppppppp/9/9/9/PPPPPPPPP/1B5R1/LNSGKGSNL w - 1"@ {
        Some(("PI82HI22KA21KE81KE11KY91KY"@, "-"@))
    } else if sfen == "3gkg3/9/ppppppppp/9/9/9/PPPPPPPPP/1B5R1/LNSGKGSNL w - 1"@ {
        Some(("PI82HI22KA31GI71GI21KE81KE11KY91KY"@, "-"@))
    } else if sfen == "4k4/9/ppppppppp/9/9/9/PPPPPPPPP/1B5R1/LNSGKGSNL w - 1"@ {
        Some(("PI82HI22KA41KI61KI31GI71GI21KE81KE11KY91KY"@, "-"@))
    } else {
        None
    }
}

/// The CSA `PI` command of an initial position (see [`p_command_spec`]).
pub fn csa_position_p_command(sfen: &str) -> (r: Option<(&'static str, &'static str)>)
    ensures
        match p_command_spec(sfen@) {
            Some((a, b)) => r matches Some((x, y)) && x@ == a && y@ == b,
            None => r is None,
        },
{
    let v = str_chars(sfen);
    let s = v.as_slice();
    if chars_eq_str(s, "lnsgkgsnl/1r5b1/ppppppppp/9/9/9/PPPPPPPPP/1B5R1/LNSGKGSNL b - 1") {
        Some(("PI", "+"))
    } else if chars_eq_str(s, "lnsgkgsn1/1r5b1/ppppppppp/9/9/9/PPPPPPPPP/1B5R1/LNSGKGSNL w - 1") {
        Some(("PI11KY", "-"))
    } else if chars_eq_str(s, "1nsgkgsnl/1r5b1/ppppppppp/9/9/9/PPPPPPPPP/1B5R1/LNSGKGSNL w - 1") {
        Some(("PI91KY", "-"))
    } else if chars_eq_str(s, "lnsgkgsnl/1r7/ppppppppp/9/9/9/PPPPPPPPP/1B5R1/LNSGKGSNL w - 1") {
        Some(("PI22KA", "-"))
    } else if chars_eq_str(s, "lnsgkgsnl/7b1/ppppppppp/9/9/9/PPPPPPPPP/1B5R1/LNSGKGSNL w - 1") {
        Some(("PI82HI", "-"))
    } else if chars_eq_str(s, "lnsgkgsn1/7b1/ppppppppp/9/9/9/PPPPPPPPP/1B5R1/LNSGKGSNL w - 1") {
        Some(("PI82HI11KY", "-"))
    } else if chars_eq_str(s, "lnsgkgsnl/9/ppppppppp/9/9/9/PPPPPPPPP/1B5R1/LNSGKGSNL w - 1") {
        Some(("PI82HI22KA", "-"))
    } else if chars_eq_str(s, "1nsgkgsn1/9/ppppppppp/9/9/9/PPPPPPPPP/1B5R1/LNSGKGSNL w - 1") {
        Some(("PI82HI22KA11KY91KY", "-"))
    } else if chars_eq_str(s, "2sgkgs2/9/ppppppppp/9/9/9/PPPPPPPPP/1B5R1/LNSGKGSNL w - 1") {
        Some(("PI82HI22KA21KE81KE11KY91KY", "-"))
    } else if chars_eq_str(s, "3gkg3/9/ppppppppp/9/9/9/PPPPPPPPP/1B5R1/LNSGKGSNL w - 1") {
        Some(("PI82HI22KA31GI71GI21KE81KE11KY91KY", "-"))
    } else if chars_eq_str(s, "4k4/9/ppppppppp/9/9/9/PPPPPPPPP/1B5R1/LNSGKGSNL w - 1") {
        Some(("PI82HI22KA41KI61KI31GI71GI21KE81KE11KY91KY", "-"))
    } else {
        None
    }
}


/// A `$` header whose time control can be read without overflow.
pub open spec fn csa_header_in_range(key: Seq<char>, value: Seq<char>) -> bool {
    (key == "TIME_LIMIT"@ || key == "TIME"@ || key == "TIME+"@ || key == "TIME-"@) ==> csa_time_in_range(value)
}

/// The metadata after reading a CSA `$key:value` header: event, site, start
/// and end time, the time controls, move limit, impasse rule and notes go to
/// their fields, any other key to the attributes.
pub open spec fn csa_header_applied(m: RecordMetadataView, key: Seq<char>, value: Seq<char>) -> RecordMetadataView {
    if key == "EVENT"@ {
        with_standard(m, RecordMetadataKey::Event.key_view(), Some(value))
    } else if key == "SITE"@ {
        with_standard(m, RecordMetadataKey::Site.key_view(), Some(value))
    } else if key == "START_TIME"@ {
        with_standard(m, RecordMetadataKey::StartDate.key_view(), Some(value))
    } else if key == "END_TIME"@ {
        with_standard(m, RecordMetadataKey::EndDate.key_view(), Some(value))
    } else if key == "TIME_LIMIT"@ || key == "TIME"@ {
        RecordMetadataView { time_control: csa_time_control_spec(value), ..m }
    } else if key == "TIME+"@ {
        RecordMetadataView { black_time_control: csa_time_control_spec(value), ..m }
    } else if key == "TIME-"@ {
        RecordMetadataView { white_time_control: csa_time_control_spec(value), ..m }
    } else if key == "MAX_MOVES"@ {
        RecordMetadataView { max_moves: decimal_field_spec(value), ..m }
    } else if key == "JISHOGI"@ {
        RecordMetadataView { impasse_rule: Some(value), ..m }
    } else if key == "NOTE"@ {
        let line = note_unescape(value);
        if line.len() == 0 {
            m
        } else {
            with_standard(
                m,
                RecordMetadataKey::Comment.key_view(),
                appended_comment(map_get(m.standard, RecordMetadataKey::Comment.key_view()), line),
            )
        }
    } else {
        RecordMetadataView { custom: m.custom.insert(key, value), ..m }
    }
}

fn read_csa_time_control(value: &str) -> (r: Option<TimeControl>)
    requires
        csa_time_in_range(value@),
    ensures
        opt_time_control(r) == csa_time_control_spec(value@),
{
    match parse_csa_time_control(value) {
        Some(t) => Some(t),
        None => TimeControl::from_spec(value),
    }
}

/// Reads a CSA `$key:value` header into the metadata (see
/// [`csa_header_applied`]).
pub fn apply_csa_metadata(builder: &mut RecordMetadataBuilder, key: &str, value: &str)
    requires
        csa_header_in_range(key@, value@),
    ensures
        final(builder)@ == csa_header_applied(old(builder)@, key@, value@),
{
    let kc = str_chars(key);
    let k = kc.as_slice();
    if chars_eq_str(k, "EVENT") {
        builder.event(Some(string_from_str(value)));
    } else if chars_eq_str(k, "SITE") {
        builder.site(Some(string_from_str(value)));
    } else if chars_eq_str(k, "START_TIME") {
        builder.start_date(Some(string_from_str(value)));
    } else if chars_eq_str(k, "END_TIME") {
        builder.end_date(Some(string_from_str(value)));
    } else if chars_eq_str(k, "TIME_LIMIT") || chars_eq_str(k, "TIME") {
        builder.time_control(read_csa_time_control(value));
    } else if chars_eq_str(k, "TIME+") {
        builder.black_time_control(read_csa_time_control(value));
    } else if chars_eq_str(k, "TIME-") {
        builder.white_time_control(read_csa_time_control(value));
    } else if chars_eq_str(k, "MAX_MOVES") {
        let vc = str_chars(value);
        let t = trim_chars(vc.as_slice());
        builder.max_moves(parse_u32(t.as_slice()));
    } else if chars_eq_str(k, "JISHOGI") {
        builder.impasse_rule(Some(string_from_str(value)));
    } else if chars_eq_str(k, "NOTE") {
        let line = parse_csa_note_value(value);
        builder.append_comment_line(line.as_str());
    } else {
        builder.add_attribute(string_from_str(key), string_from_str(value));
    }
}


/// The key and text of the time-limit header of the metadata, if any.
pub open spec fn csa_time_limit_line(m: RecordMetadataView) -> Option<(Seq<char>, Seq<char>)> {
    match m.time_control {
        Some(v) => csa_time_limit_spec(v),
        None => None,
    }
}

/// Whether the CSA header lines of the metadata already hold `k`.
pub open spec fn csa_emitted_key(m: RecordMetadataView, k: Seq<char>) -> bool {
    ||| k == "NOTE"@ && m.standard.contains_key(RecordMetadataKey::Comment.key_view())
    ||| k == "N+"@ && m.standard.contains_key(RecordMetadataKey::BlackPlayer.key_view())
    ||| k == "N-"@ && m.standard.contains_key(RecordMetadataKey::WhitePlayer.key_view())
    ||| k == "EVENT"@ && m.standard.contains_key(RecordMetadataKey::Event.key_view())
    ||| k == "SITE"@ && m.standard.contains_key(RecordMetadataKey::Site.key_view())
    ||| k == "START_TIME"@ && m.standard.contains_key(RecordMetadataKey::StartDate.key_view())
    ||| k == "END_TIME"@ && m.standard.contains_key(RecordMetadataKey::EndDate.key_view())
    ||| csa_time_limit_line(m) matches Some((key, _)) && k == key
    ||| k == "TIME+"@ && m.black_time_control is Some
    ||| k == "TIME-"@ && m.white_time_control is Some
    ||| k == "MAX_MOVES"@ && m.max_moves is Some
    ||| k == "JISHOGI"@ && m.impasse_rule is Some
}

/// The `$key:value` lines of the attributes whose key no earlier header line
/// holds, in the order given.
pub open spec fn csa_attribute_lines(m: RecordMetadataView, attrs: Seq<(String, String)>) -> Seq<Seq<char>>
    decreases attrs.len(),
{
    if attrs.len() == 0 {
        Seq::empty()
    } else {
        let rest = csa_attribute_lines(m, attrs.drop_last());
        let e = attrs.last();
        if csa_emitted_key(m, e.0@) {
            rest
        } else {
            rest.push("$"@ + e.0@ + ":"@ + e.1@)
        }
    }
}

/// The CSA header lines of the note, players, event, site and start and end
/// time that are set, in that order.
pub open spec fn csa_standard_lines(m: RecordMetadataView) -> Seq<Seq<char>> {
    opt_line(
        "$NOTE:"@,
        match map_get(m.standard, RecordMetadataKey::Comment.key_view()) {
            Some(c) => Some(note_escape(c)),
            None => None,
        },
    ) + opt_line("N+"@, map_get(m.standard, RecordMetadataKey::BlackPlayer.key_view())) + opt_line(
        "N-"@,
        map_get(m.standard, RecordMetadataKey::WhitePlayer.key_view()),
    ) + opt_line("$EVENT:"@, map_get(m.standard, RecordMetadataKey::Event.key_view())) + opt_line(
        "$SITE:"@,
        map_get(m.standard, RecordMetadataKey::Site.key_view()),
    ) + opt_line("$START_TIME:"@, map_get(m.standard, RecordMetadataKey::StartDate.key_view())) + opt_line(
        "$END_TIME:"@,
        map_get(m.standard, RecordMetadataKey::EndDate.key_view()),
    )
}

/// The CSA header lines of the time limits, move limit and impasse rule that
/// are set, in that order.
pub open spec fn csa_limit_lines(m: RecordMetadataView) -> Seq<Seq<char>> {
    (match csa_time_limit_line(m) {
        Some((k, t)) => seq!["$"@ + k + ":"@ + t],
        None => Seq::empty(),
    }) + opt_line("$TIME+:"@, opt_spec_text(m.black_time_control)) + opt_line(
        "$TIME-:"@,
        opt_spec_text(m.white_time_control),
    ) + opt_line(
        "$MAX_MOVES:"@,
        match m.max_moves {
            Some(n) => Some(decimal(n as nat)),
            None => None,
        },
    ) + opt_line("$JISHOGI:"@, m.impasse_rule)
}

/// The CSA header lines of metadata: the note, players, event, site, start
/// and end time, time limits, move limit and impasse rule that are set, in
/// that order, then the other attributes in the order given.
pub open spec fn csa_metadata_lines(m: RecordMetadataView, attrs: Seq<(String, String)>) -> Seq<Seq<char>> {
    csa_standard_lines(m) + csa_limit_lines(m) + csa_attribute_lines(m, attrs)
}


fn csa_time_limit_of(metadata: &RecordMetadata) -> (r: Option<(String, String)>)
    ensures
        match csa_time_limit_line(metadata@) {
            Some((k, t)) => r matches Some((a, b)) && a@ == k && b@ == t,
            None => r is None,
        },
{
    match metadata.time_control() {
        Some(tc) => format_csa_time_limit(tc),
        None => None,
    }
}

fn push_csa_time_limit_line(lines: &mut Vec<String>, metadata: &RecordMetadata)
    ensures
        text_lines(final(lines)@) == text_lines(old(lines)@) + match csa_time_limit_line(metadata@) {
            Some((k, t)) => seq!["$"@ + k + ":"@ + t],
            None => Seq::<Seq<char>>::empty(),
        },
{
    let ghost before = text_lines(lines@);
    match csa_time_limit_of(metadata) {
        Some((k, t)) => {
            let mut line = concat2("$", k.as_str());
            push_str(&mut line, ":");
            push_str(&mut line, t.as_str());
            push_line(lines, line);
            assert(text_lines(lines@) =~= before + seq![line@]);
        },
        None => {
            assert(text_lines(lines@) =~= before + Seq::<Seq<char>>::empty());
        },
    }
}


#[verifier::spinoff_prover]
fn push_csa_attribute_lines(lines: &mut Vec<String>, metadata: &RecordMetadata)
    ensures
        text_lines(final(lines)@) == text_lines(old(lines)@) + csa_attribute_lines(
            metadata@,
            metadata.attribute_entries(),
        ),
{
    let ghost m = metadata@;
    let ghost before = text_lines(lines@);
    let time_limit = csa_time_limit_of(metadata);
    let has_note = metadata.comment().is_some();
    let has_black = metadata.black_player().is_some();
    let has_white = metadata.white_player().is_some();
    let has_event = metadata.event().is_some();
    let has_site = metadata.site().is_some();
    let has_start = metadata.start_date().is_some();
    let has_end = metadata.end_date().is_some();
    let has_black_tc = metadata.black_time_control().is_some();
    let has_white_tc = metadata.white_time_control().is_some();
    let has_max = metadata.max_moves().is_some();
    let has_rule = metadata.impasse_rule().is_some();
    let entries = metadata.attributes().entries();
    let n = entries.len();
    let mut i: usize = 0;
    while i < n
        invariant
            n == entries@.len(),
            i <= n,
            entries@ == metadata.attribute_entries(),
            m == metadata@,
            has_note == m.standard.contains_key(RecordMetadataKey::Comment.key_view()),
            has_black == m.standard.contains_key(RecordMetadataKey::BlackPlayer.key_view()),
            has_white == m.standard.contains_key(RecordMetadataKey::WhitePlayer.key_view()),
            has_event == m.standard.contains_key(RecordMetadataKey::Event.key_view()),
            has_site == m.standard.contains_key(RecordMetadataKey::Site.key_view()),
            has_start == m.standard.contains_key(RecordMetadataKey::StartDate.key_view()),
            has_end == m.standard.contains_key(RecordMetadataKey::EndDate.key_view()),
            has_black_tc == m.black_time_control is Some,
            has_white_tc == m.white_time_control is Some,
            has_max == m.max_moves is Some,
            has_rule == m.impasse_rule is Some,
            match csa_time_limit_line(m) {
                Some((k, t)) => time_limit matches Some((a, b)) && a@ == k && b@ == t,
                None => time_limit is None,
            },
            text_lines(lines@) == before + csa_attribute_lines(m, entries@.take(i as int)),
        decreases n - i,
    {
        let key = &entries[i].0;
        let value = &entries[i].1;
        let kc = str_chars(key.as_str());
        let k = kc.as_slice();
        let in_time_limit = match &time_limit {
            Some((tk, _)) => chars_eq_str(k, tk.as_str()),
            None => false,
        };
        let skip = (has_note && chars_eq_str(k, "NOTE")) || (has_black && chars_eq_str(k, "N+")) || (has_white
            && chars_eq_str(k, "N-")) || (has_event && chars_eq_str(k, "EVENT")) || (has_site && chars_eq_str(
            k,
            "SITE",
        )) || (has_start && chars_eq_str(k, "START_TIME")) || (has_end && chars_eq_str(k, "END_TIME"))
            || in_time_limit || (has_black_tc && chars_eq_str(k, "TIME+")) || (has_white_tc && chars_eq_str(
            k,
            "TIME-",
        )) || (has_max && chars_eq_str(k, "MAX_MOVES")) || (has_rule && chars_eq_str(k, "JISHOGI"));
        let ghost prefix = entries@.take(i + 1);
        assert(prefix.drop_last() =~= entries@.take(i as int));
        assert(prefix.last() == entries@[i as int]);
        assert(skip == csa_emitted_key(m, entries@[i as int].0@));
        if !skip {
            let mut line = concat2("$", key.as_str());
            push_str(&mut line, ":");
            push_str(&mut line, value.as_str());
            push_line(lines, line);
        }
        i += 1;
    }
    assert(entries@.take(n as int) =~= entries@);
}

#[verifier::spinoff_prover]
#[verifier::rlimit(60)]
fn push_csa_standard_lines(lines: &mut Vec<String>, metadata: &RecordMetadata)
    ensures
        text_lines(final(lines)@) == text_lines(old(lines)@) + csa_standard_lines(metadata@),
{
    let ghost start = text_lines(lines@);
    let note = match metadata.comment() {
        Some(c) => Some(format_csa_note_value(c)),
        None => None,
    };
    push_opt_line(lines, "$NOTE:", opt_as_str(&note));
    push_opt_line(lines, "N+", metadata.black_player());
    push_opt_line(lines, "N-", metadata.white_player());
    push_opt_line(lines, "$EVENT:", metadata.event());
    push_opt_line(lines, "$SITE:", metadata.site());
    push_opt_line(lines, "$START_TIME:", metadata.start_date());
    push_opt_line(lines, "$END_TIME:", metadata.end_date());
    assert(text_lines(lines@) =~= start + csa_standard_lines(metadata@));
}

#[verifier::spinoff_prover]
fn push_csa_limit_lines(lines: &mut Vec<String>, metadata: &RecordMetadata)
    ensures
        text_lines(final(lines)@) == text_lines(old(lines)@) + csa_limit_lines(metadata@),
{
    let ghost start = text_lines(lines@);
    push_csa_time_limit_line(lines, metadata);
    let black_tc = match metadata.black_time_control() {
        Some(tc) => Some(tc.to_spec()),
        None => None,
    };
    let white_tc = match metadata.white_time_control() {
        Some(tc) => Some(tc.to_spec()),
        None => None,
    };
    let max_moves = match metadata.max_moves() {
        Some(n) => Some(crate::text::decimal_string(n as u64)),
        None => None,
    };
    push_opt_line(lines, "$TIME+:", opt_as_str(&black_tc));
    push_opt_line(lines, "$TIME-:", opt_as_str(&white_tc));
    push_opt_line(lines, "$MAX_MOVES:", opt_as_str(&max_moves));
    push_opt_line(lines, "$JISHOGI:", metadata.impasse_rule());
    assert(text_lines(lines@) =~= start + csa_limit_lines(metadata@));
}

/// Appends the CSA header lines of metadata (see [`csa_metadata_lines`]).
#[verifier::spinoff_prover]
pub fn append_csa_metadata(lines: &mut Vec<String>, metadata: &RecordMetadata)
    ensures
        text_lines(final(lines)@) == text_lines(old(lines)@) + csa_metadata_lines(
            metadata@,
            metadata.attribute_entries(),
        ),
{
    let ghost start = text_lines(lines@);
    push_csa_standard_lines(lines, metadata);
    push_csa_limit_lines(lines, metadata);
    push_csa_attribute_lines(lines, metadata);
    assert(text_lines(lines@) =~= start + csa_metadata_lines(metadata@, metadata.attribute_entries()));
}


/// An elapsed time `h:mm:ss` in milliseconds (see [`colon_time_ms_spec`]).
pub fn parse_time_text(text: &str) -> (r: Option<u32>)
    requires
        colon_time_in_range(text@),
    ensures
        r == colon_time_ms_spec(text@),
{
    colon_time_ms(text)
}

/// `s` without every leading repetition of `p` (as `str::trim_start_matches`
/// gives it).
pub open spec fn strip_all_prefix(s: Seq<char>, p: Seq<char>) -> Seq<char>
    decreases s.len(),
{
    if p.len() > 0 && starts_with(s, p) {
        strip_all_prefix(s.skip(p.len() as int), p)
    } else {
        s
    }
}

fn strip_all_prefix_chars(v: &[char], p: &str) -> (r: Vec<char>)
    requires
        p@.len() > 0,
    ensures
        r@ == strip_all_prefix(v@, p@),
{
    let pv = str_chars(p);
    let m = pv.len();
    let n = v.len();
    let mut i: usize = 0;
    let mut more = true;
    assert(v@.skip(0) =~= v@);
    while more
        invariant
            i <= n,
            n == v@.len(),
            m == p@.len(),
            m > 0,
            strip_all_prefix(v@.skip(i as int), p@) == strip_all_prefix(v@, p@),
            !more ==> !starts_with(v@.skip(i as int), p@),
        decreases n - i + (if more { 1int } else { 0int }),
    {
        let tail = vstd::slice::slice_subrange(v, i, n);
        assert(tail@ =~= v@.skip(i as int));
        if crate::text::chars_start_with(tail, p) {
            assert(v@.skip(i as int).skip(m as int) =~= v@.skip(i + m));
            i = i + m;
        } else {
            more = false;
        }
    }
    let rest = vstd::slice::slice_subrange(v, i, n);
    assert(rest@ =~= v@.skip(i as int));
    let mut out: Vec<char> = Vec::new();
    let mut k: usize = 0;
    while k < rest.len()
        invariant
            k <= rest@.len(),
            out@ == rest@.take(k as int),
        decreases rest.len() - k,
    {
        out.push(rest[k]);
        k += 1;
        assert(out@ =~= rest@.take(k as int));
    }
    assert(rest@.take(rest@.len() as int) =~= rest@);
    out
}

/// The text of a CSA time token `T12` or `T=1:30` after its marker: every
/// leading `T=` removed when it starts with `T=`, else every leading `T`;
/// none for a token that does not start with `T` (after surrounding white
/// space is removed).
pub open spec fn csa_time_token_text(token: Seq<char>) -> Option<Seq<char>> {
    let t = trim_spec(token);
    if starts_with(t, "T="@) {
        Some(strip_all_prefix(t, "T="@))
    } else if starts_with(t, "T"@) {
        Some(strip_all_prefix(t, "T"@))
    } else {
        None
    }
}

/// The time a CSA time token states in milliseconds.
pub open spec fn csa_time_token_spec(token: Seq<char>) -> Option<u32> {
    match csa_time_token_text(token) {
        Some(t) => colon_time_ms_spec(t),
        None => None,
    }
}

/// Whether a CSA time token can be read without overflow.
pub open spec fn csa_time_token_in_range(token: Seq<char>) -> bool {
    match csa_time_token_text(token) {
        Some(t) => colon_time_in_range(t),
        None => true,
    }
}

/// The time a CSA time token states (see [`csa_time_token_spec`]).
pub fn parse_csa_time_token(token: &str) -> (r: Option<u32>)
    requires
        csa_time_token_in_range(token@),
    ensures
        r == csa_time_token_spec(token@),
{
    proof {
        reveal_strlit("T=");
        reveal_strlit("T");
    }
    let v = str_chars(token);
    let t = trim_chars(v.as_slice());
    let rest = if crate::text::chars_start_with(t.as_slice(), "T=") {
        strip_all_prefix_chars(t.as_slice(), "T=")
    } else if crate::text::chars_start_with(t.as_slice(), "T") {
        strip_all_prefix_chars(t.as_slice(), "T")
    } else {
        return None;
    };
    let text = string_from_chars(rest.as_slice());
    parse_time_text(text.as_str())
}

/// A comment after appending a text: unchanged for an empty text, else the
/// text alone when there was no comment, or the comment, a line break and
/// the text.
pub open spec fn comment_with(slot: Option<Seq<char>>, text: Seq<char>) -> Option<Seq<char>> {
    if text.len() == 0 {
        slot
    } else {
        match slot {
            Some(c) => Some(c.push('\n') + text),
            None => Some(text),
        }
    }
}

/// Appends a text to a comment (see [`comment_with`]).
pub fn append_comment_text(slot: &mut Option<String>, text: &str)
    ensures
        crate::text::opt_text(*final(slot)) == comment_with(crate::text::opt_text(*old(slot)), text@),
{
    if text.is_empty() {
        return;
    }
    match slot {
        Some(existing) => {
            push_char(existing, '\n');
            push_str(existing, text);
        },
        None => {
            *slot = Some(string_from_str(text));
        },
    }
}


/// The text of CSA bytes (see [`record_text_spec`]).
pub fn decode_csa_bytes(data: &[u8]) -> (r: String)
    requires
        !valid_utf8(data@) ==> shift_jis_size_ok(data@.len()),
    ensures
        r@ == record_text_spec(data@),
{
    match utf8_text(data) {
        Some(s) => s,
        None => shift_jis_decode(data),
    }
}


proof fn lemma_csa_header_keys_differ()
    ensures
        "NOTE"@ != "EVENT"@,
        "NOTE"@ != "SITE"@,
        "NOTE"@ != "START_TIME"@,
        "NOTE"@ != "END_TIME"@,
        "NOTE"@ != "TIME_LIMIT"@,
        "NOTE"@ != "TIME"@,
        "NOTE"@ != "TIME+"@,
        "NOTE"@ != "TIME-"@,
        "NOTE"@ != "MAX_MOVES"@,
        "NOTE"@ != "JISHOGI"@,
        "TIME"@ != "EVENT"@,
        "TIME"@ != "SITE"@,
        "TIME"@ != "START_TIME"@,
        "TIME"@ != "END_TIME"@,
        "TIME+"@ != "EVENT"@,
        "TIME+"@ != "SITE"@,
        "TIME+"@ != "START_TIME"@,
        "TIME+"@ != "END_TIME"@,
        "TIME+"@ != "TIME_LIMIT"@,
        "TIME+"@ != "TIME"@,
        "TIME-"@ != "EVENT"@,
        "TIME-"@ != "SITE"@,
        "TIME-"@ != "START_TIME"@,
        "TIME-"@ != "END_TIME"@,
        "TIME-"@ != "TIME_LIMIT"@,
        "TIME-"@ != "TIME"@,
        "TIME-"@ != "TIME+"@,
        "MAX_MOVES"@ != "EVENT"@,
        "MAX_MOVES"@ != "SITE"@,
        "MAX_MOVES"@ != "START_TIME"@,
        "MAX_MOVES"@ != "END_TIME"@,
        "MAX_MOVES"@ != "TIME_LIMIT"@,
        "MAX_MOVES"@ != "TIME"@,
        "MAX_MOVES"@ != "TIME+"@,
        "MAX_MOVES"@ != "TIME-"@,
{
    reveal_strlit("NOTE");
    reveal_strlit("EVENT");
    reveal_strlit("SITE");
    reveal_strlit("START_TIME");
    reveal_strlit("END_TIME");
    reveal_strlit("TIME_LIMIT");
    reveal_strlit("TIME");
    reveal_strlit("TIME+");
    reveal_strlit("TIME-");
    reveal_strlit("MAX_MOVES");
    reveal_strlit("JISHOGI");
    assert("NOTE"@[0] == 'N');
    assert("EVENT"@[0] == 'E');
    assert("SITE"@[0] == 'S');
    assert("START_TIME"@[0] == 'S');
    assert("END_TIME"@[0] == 'E');
    assert("TIME_LIMIT"@[0] == 'T');
    assert("TIME"@[0] == 'T');
    assert("TIME+"@[0] == 'T');
    assert("TIME+"@[4] == '+');
    assert("TIME-"@[4] == '-');
    assert("TIME"@.len() == 4);
    assert("TIME+"@.len() == 5);
    assert("TIME-"@.len() == 5);
    assert("MAX_MOVES"@[0] == 'M');
    assert("JISHOGI"@[0] == 'J');
}

/// A header written for the note, the time limits or the move limit reads
/// back as the value written: the escaped note as the comment (when there
/// was none), a `base+byoyomi+increment` text as the time control of both
/// sides, of Black or of White, and a decimal number as the move limit.
pub proof fn lemma_csa_header_roundtrip(m: RecordMetadataView, note: Seq<char>, v: (u32, u32, u32), n: u32)
    requires
        note.len() > 0,
        !m.standard.contains_key(RecordMetadataKey::Comment.key_view()),
    ensures
        map_get(csa_header_applied(m, "NOTE"@, note_escape(note)).standard, RecordMetadataKey::Comment.key_view())
            == Some(note),
        csa_header_applied(m, "TIME"@, spec_text(v)).time_control == Some(v),
        csa_header_applied(m, "TIME+"@, spec_text(v)).black_time_control == Some(v),
        csa_header_applied(m, "TIME-"@, spec_text(v)).white_time_control == Some(v),
        csa_header_applied(m, "MAX_MOVES"@, decimal(n as nat)).max_moves == Some(n),
{
    lemma_csa_header_keys_differ();
    lemma_note_roundtrip(note);
    crate::records::time_control::lemma_time_control_text_roundtrip(v);
    crate::records::time_control::lemma_decimal_field_of_decimal(n);
}


/// The unpromoted CSA code of a piece code (`TO` is `FU`, `RY` is `HI`);
/// any other code is itself.
pub open spec fn base_code(code: Seq<char>) -> Seq<char> {
    if code == seq!['T', 'O'] { seq!['F', 'U'] }
    else if code == seq!['N', 'Y'] { seq!['K', 'Y'] }
    else if code == seq!['N', 'K'] { seq!['K', 'E'] }
    else if code == seq!['N', 'G'] { seq!['G', 'I'] }
    else if code == seq!['U', 'M'] { seq!['K', 'A'] }
    else if code == seq!['R', 'Y'] { seq!['H', 'I'] }
    else { code }
}

fn two_chars_are(v: &[char], a: char, b: char) -> (r: bool)
    ensures
        r == (v@ == seq![a, b]),
{
    let r = v.len() == 2 && v[0] == a && v[1] == b;
    proof {
        if r {
            assert(v@ =~= seq![a, b]);
        } else if v@.len() == 2 {
            assert(seq![a, b][0] == a && seq![a, b][1] == b);
        }
    }
    r
}

/// The unpromoted CSA code of a piece code (see [`base_code`]).
pub fn base_piece(piece_code: &str) -> (r: &str)
    ensures
        r@ == base_code(piece_code@),
{
    proof {
        reveal_strlit("FU");
        reveal_strlit("KY");
        reveal_strlit("KE");
        reveal_strlit("GI");
        reveal_strlit("KA");
        reveal_strlit("HI");
        assert("FU"@ =~= seq!['F', 'U']);
        assert("KY"@ =~= seq!['K', 'Y']);
        assert("KE"@ =~= seq!['K', 'E']);
        assert("GI"@ =~= seq!['G', 'I']);
        assert("KA"@ =~= seq!['K', 'A']);
        assert("HI"@ =~= seq!['H', 'I']);
    }
    let v = str_chars(piece_code);
    let k = v.as_slice();
    if two_chars_are(k, 'T', 'O') { "FU" }
    else if two_chars_are(k, 'N', 'Y') { "KY" }
    else if two_chars_are(k, 'N', 'K') { "KE" }
    else if two_chars_are(k, 'N', 'G') { "GI" }
    else if two_chars_are(k, 'U', 'M') { "KA" }
    else if two_chars_are(k, 'R', 'Y') { "HI" }
    else { piece_code }
}

/// A text without its ASCII spaces.
pub open spec fn without_spaces(s: Seq<char>) -> Seq<char>
    decreases s.len(),
{
    if s.len() == 0 {
        Seq::empty()
    } else if s.last() == ' ' {
        without_spaces(s.drop_last())
    } else {
        without_spaces(s.drop_last()).push(s.last())
    }
}

/// The entries of the data of a `P+`/`P-` line, four bytes each: a square
/// and a piece code of two bytes each, both read as UTF-8; none when a part
/// is not valid UTF-8 or the bytes do not divide into entries.
pub open spec fn piece_chunks(color: char, bytes: Seq<u8>) -> Option<Seq<(char, Seq<char>, Seq<char>)>>
    decreases bytes.len(),
{
    if bytes.len() == 0 {
        Some(Seq::empty())
    } else if bytes.len() < 4 {
        None
    } else {
        let a = bytes.take(2);
        let b = bytes.subrange(2, 4);
        if valid_utf8(a) && valid_utf8(b) {
            match piece_chunks(color, bytes.skip(4)) {
                Some(rest) => Some(seq![(color, decode_utf8(a), decode_utf8(b))] + rest),
                None => None,
            }
        } else {
            None
        }
    }
}

/// The pieces of a CSA `P+`/`P-` line: the side, and for each four bytes of
/// the rest (spaces removed) a square and a code; none for a line that is
/// not of that shape.
pub open spec fn piece_line_spec(line: Seq<char>) -> Option<Seq<(char, Seq<char>, Seq<char>)>> {
    if line.len() < 2 || line[0] != 'P' || (line[1] != '+' && line[1] != '-') {
        None
    } else {
        let bytes = encode_utf8(without_spaces(line.skip(2)));
        if bytes.len() % 4 != 0 {
            None
        } else {
            piece_chunks(line[1], bytes)
        }
    }
}

/// The view of a list of piece entries.
pub open spec fn entries_view(v: Seq<(char, String, String)>) -> Seq<(char, Seq<char>, Seq<char>)> {
    v.map_values(|e: (char, String, String)| (e.0, e.1@, e.2@))
}

/// Prepends entries to an optional list.
pub open spec fn prepend_entries(
    done: Seq<(char, Seq<char>, Seq<char>)>,
    o: Option<Seq<(char, Seq<char>, Seq<char>)>>,
) -> Option<Seq<(char, Seq<char>, Seq<char>)>> {
    match o {
        Some(rest) => Some(done + rest),
        None => None,
    }
}

fn invalid_line(line: &str) -> (r: CsaError)
    ensures
        r matches CsaError::InvalidLine(s) && s@ == line@,
{
    CsaError::InvalidLine(string_from_str(line))
}

/// The pieces of a CSA `P+`/`P-` line (see [`piece_line_spec`]); a line of
/// another shape is an invalid line.
pub fn parse_piece_line(line: &str) -> (r: Result<Vec<(char, String, String)>, CsaError>)
    ensures
        match piece_line_spec(line@) {
            Some(e) => r matches Ok(v) && entries_view(v@) == e,
            None => r matches Err(CsaError::InvalidLine(s)) && s@ == line@,
        },
{
    let v = str_chars(line);
    let n = v.len();
    if n < 2 || v[0] != 'P' || (v[1] != '+' && v[1] != '-') {
        return Err(invalid_line(line));
    }
    let color = v[1];
    let mut data = String::new();
    let mut i: usize = 2;
    assert(v@.skip(2).take(0) =~= Seq::<char>::empty());
    while i < n
        invariant
            2 <= i <= n,
            n == v@.len(),
            data@ == without_spaces(v@.skip(2).take(i - 2)),
        decreases n - i,
    {
        assert(v@.skip(2).take(i + 1 - 2).drop_last() =~= v@.skip(2).take(i - 2));
        assert(v@.skip(2).take(i + 1 - 2).last() == v@[i as int]);
        if v[i] != ' ' {
            push_char(&mut data, v[i]);
        }
        i += 1;
    }
    assert(v@.skip(2).take(n - 2) =~= v@.skip(2));
    let bytes = data.as_str().as_bytes();
    let len = bytes.len();
    if len % 4 != 0 {
        return Err(invalid_line(line));
    }
    let ghost all = bytes@;
    assert(piece_line_spec(line@) == piece_chunks(color, all));
    let mut out: Vec<(char, String, String)> = Vec::new();
    let mut idx: usize = 0;
    assert(all.skip(0) =~= all);
    assert(entries_view(out@) =~= Seq::<(char, Seq<char>, Seq<char>)>::empty());
    assert(Seq::<(char, Seq<char>, Seq<char>)>::empty() + piece_chunks(color, all)->Some_0 =~= piece_chunks(color, all)->Some_0);
    while idx < len
        invariant
            len == all.len(),
            all == bytes@,
            idx <= len,
            idx % 4 == 0,
            len % 4 == 0,
            piece_line_spec(line@) == piece_chunks(color, all),
            piece_chunks(color, all) == prepend_entries(entries_view(out@), piece_chunks(color, all.skip(idx as int))),
        decreases len - idx,
    {
        let ghost rest = all.skip(idx as int);
        assert(len - idx >= 4) by (nonlinear_arith)
            requires
                idx % 4 == 0,
                len % 4 == 0,
                idx < len,
        ;
        let square_bytes = vstd::slice::slice_subrange(bytes, idx, idx + 2);
        let code_bytes = vstd::slice::slice_subrange(bytes, idx + 2, idx + 4);
        assert(square_bytes@ =~= rest.take(2));
        assert(code_bytes@ =~= rest.subrange(2, 4));
        assert(rest.skip(4) =~= all.skip(idx + 4));
        let square = match utf8_text(square_bytes) {
            Some(t) => t,
            None => {
                assert(piece_chunks(color, rest) is None);
                return Err(invalid_line(line));
            },
        };
        let code = match utf8_text(code_bytes) {
            Some(t) => t,
            None => {
                assert(piece_chunks(color, rest) is None);
                return Err(invalid_line(line));
            },
        };
        let ghost done = entries_view(out@);
        let ghost entry = (color, square@, code@);
        out.push((color, square, code));
        assert(entries_view(out@) =~= done.push(entry));
        assert(forall|t: Seq<(char, Seq<char>, Seq<char>)>| done + (seq![entry] + t) =~= done.push(entry) + t);
        idx = idx + 4;
    }
    assert(all.skip(len as int) =~= Seq::<u8>::empty());
    assert(entries_view(out@) + Seq::<(char, Seq<char>, Seq<char>)>::empty() =~= entries_view(out@));
    Ok(out)
}


/// The rank digit of a board row line such as `P1`: its second character,
/// when an ASCII digit.
pub open spec fn row_digit(line: Seq<char>) -> Option<int> {
    if line.len() >= 2 && crate::text::is_digit(line[1]) {
        Some(line[1] as int - 48)
    } else {
        None
    }
}

/// The index of the first line from `k` on that has no rank digit.
pub open spec fn first_rowless(lines: Seq<Seq<char>>, k: int) -> Option<int>
    decreases lines.len() - k,
{
    if k < 0 || k >= lines.len() {
        None
    } else if row_digit(lines[k]) is None {
        Some(k)
    } else {
        first_rowless(lines, k + 1)
    }
}

/// The text of rank `r`: what follows the first two characters of the last
/// line before `k` with that rank digit; empty when there is none.
pub open spec fn rank_text(lines: Seq<Seq<char>>, r: int, k: int) -> Seq<char>
    decreases k,
{
    if k <= 0 {
        Seq::empty()
    } else if row_digit(lines[k - 1]) == Some(r) {
        lines[k - 1].skip(2)
    } else {
        rank_text(lines, r, k - 1)
    }
}

/// The pieces of a board row (spaces removed), from file `file` down: `*`
/// for an empty square, `+` or `-` and a two-character code for a piece;
/// reading stops after file 1 or at the end. None for another character or
/// a code cut short.
pub open spec fn row_cells(c: Seq<char>, idx: int, file: int) -> Option<Seq<(int, char, Seq<char>)>>
    decreases c.len() - idx,
{
    if file < 1 || idx < 0 || idx >= c.len() {
        Some(Seq::empty())
    } else if c[idx] == '+' || c[idx] == '-' {
        if idx + 2 >= c.len() {
            None
        } else {
            let cell = (file, c[idx], c.subrange(idx + 1, idx + 3));
            if file == 1 {
                Some(seq![cell])
            } else {
                match row_cells(c, idx + 3, file - 1) {
                    Some(rest) => Some(seq![cell] + rest),
                    None => None,
                }
            }
        }
    } else if c[idx] == '*' {
        if file == 1 {
            Some(Seq::empty())
        } else {
            row_cells(c, idx + 1, file - 1)
        }
    } else {
        None
    }
}

/// The piece that the cells put on file `f`.
pub open spec fn cell_of(cells: Seq<(int, char, Seq<char>)>, f: int) -> Option<(char, Seq<char>)>
    decreases cells.len(),
{
    if cells.len() == 0 {
        None
    } else if cells.last().0 == f {
        Some((cells.last().1, cells.last().2))
    } else {
        cell_of(cells.drop_last(), f)
    }
}

/// The cells of rank `r` of the row lines.
pub open spec fn rank_cells(lines: Seq<Seq<char>>, r: int) -> Option<Seq<(int, char, Seq<char>)>> {
    row_cells(without_spaces(rank_text(lines, r, lines.len() as int)), 0, 9)
}

/// The first rank from `r` to 9 whose row cannot be read.
pub open spec fn first_bad_rank(lines: Seq<Seq<char>>, r: int) -> Option<int>
    decreases 10 - r,
{
    if r > 9 || r < 1 {
        None
    } else if rank_cells(lines, r) is None {
        Some(r)
    } else {
        first_bad_rank(lines, r + 1)
    }
}

/// The board that the row lines give, for the ranks before `upto`.
pub open spec fn rows_board(lines: Seq<Seq<char>>, upto: int) -> Seq<Option<(char, Seq<char>)>> {
    Seq::new(
        81,
        |i: int|
            if i % 9 + 1 < upto {
                cell_of(rank_cells(lines, i % 9 + 1)->Some_0, i / 9 + 1)
            } else {
                None
            },
    )
}

/// Whether the row lines can be cut after their second character: a line
/// with a rank digit starts with an ASCII character.
pub open spec fn row_lines_sliceable(lines: Seq<Seq<char>>) -> bool {
    forall|k: int| 0 <= k < lines.len() && row_digit(lines[k]) is Some ==> (lines[k][0] as u32) < 128
}

/// The view of a list of row cells.
pub open spec fn cells_view(v: Seq<(u8, char, String)>) -> Seq<(int, char, Seq<char>)> {
    v.map_values(|e: (u8, char, String)| (e.0 as int, e.1, e.2@))
}

/// Prepends cells to an optional list.
pub open spec fn prepend_cells(
    done: Seq<(int, char, Seq<char>)>,
    o: Option<Seq<(int, char, Seq<char>)>>,
) -> Option<Seq<(int, char, Seq<char>)>> {
    match o {
        Some(rest) => Some(done + rest),
        None => None,
    }
}

proof fn lemma_row_cells_files(c: Seq<char>, idx: int, file: int)
    requires
        1 <= file <= 9,
    ensures
        row_cells(c, idx, file) matches Some(cs) ==> forall|j: int| 0 <= j < cs.len() ==> 1 <= (#[trigger] cs[j]).0 <= file,
    decreases c.len() - idx,
{
    if 0 <= idx < c.len() && file > 1 {
        if c[idx] == '+' || c[idx] == '-' {
            if idx + 2 < c.len() {
                lemma_row_cells_files(c, idx + 3, file - 1);
                if let Some(rest) = row_cells(c, idx + 3, file - 1) {
                    let cell = (file, c[idx], c.subrange(idx + 1, idx + 3));
                    let cs = seq![cell] + rest;
                    assert forall|j: int| 0 <= j < cs.len() implies 1 <= (#[trigger] cs[j]).0 <= file by {
                        if j > 0 {
                            assert(cs[j] == rest[j - 1]);
                        }
                    }
                }
            }
        } else if c[idx] == '*' {
            lemma_row_cells_files(c, idx + 1, file - 1);
        }
    }
}

/// `v` without its ASCII spaces (see [`without_spaces`]).
pub fn remove_spaces(v: &[char]) -> (r: Vec<char>)
    ensures
        r@ == without_spaces(v@),
{
    let n = v.len();
    let mut out: Vec<char> = Vec::new();
    let mut i: usize = 0;
    while i < n
        invariant
            i <= n,
            n == v@.len(),
            out@ == without_spaces(v@.take(i as int)),
        decreases n - i,
    {
        assert(v@.take(i + 1).drop_last() =~= v@.take(i as int));
        if v[i] != ' ' {
            out.push(v[i]);
        }
        i += 1;
    }
    assert(v@.take(n as int) =~= v@);
    out
}

/// The pieces of a board row (see [`row_cells`]).
pub fn parse_row_cells(c: &[char]) -> (r: Option<Vec<(u8, char, String)>>)
    ensures
        match row_cells(c@, 0, 9) {
            Some(cs) => r matches Some(v) && cells_view(v@) == cs,
            None => r is None,
        },
{
    let n = c.len();
    let mut idx: usize = 0;
    let mut file: u8 = 9;
    let mut out: Vec<(u8, char, String)> = Vec::new();
    let mut done = false;
    assert(cells_view(out@) =~= Seq::<(int, char, Seq<char>)>::empty());
    proof {
        if let Some(cs) = row_cells(c@, 0, 9) {
            assert(Seq::<(int, char, Seq<char>)>::empty() + cs =~= cs);
        }
    }
    while !done && idx < n
        invariant
            1 <= file <= 9,
            idx <= n,
            n == c@.len(),
            !done ==> row_cells(c@, 0, 9) == prepend_cells(cells_view(out@), row_cells(c@, idx as int, file as int)),
            done ==> row_cells(c@, 0, 9) == Some(cells_view(out@)),
        decreases (if done { 0 } else { n - idx + 1 }),
    {
        let t = c[idx];
        let ghost before = cells_view(out@);
        if t == '+' || t == '-' {
            if n - idx <= 2 {
                return None;
            }
            let code_chars = vstd::slice::slice_subrange(c, idx + 1, idx + 3);
            let code = crate::text::string_from_chars(code_chars);
            assert(code@ =~= c@.subrange(idx + 1, idx + 3));
            let ghost cell = (file as int, t, code@);
            out.push((file, t, code));
            assert(cells_view(out@) =~= before.push(cell));
            assert(forall|rest: Seq<(int, char, Seq<char>)>| before + (seq![cell] + rest) =~= before.push(cell) + rest);
            idx = idx + 3;
            if file == 1 {
                assert(before.push(cell) =~= before + seq![cell]);
            }
        } else if t == '*' {
            idx = idx + 1;
            if file == 1 {
                assert(before + Seq::<(int, char, Seq<char>)>::empty() =~= before);
            }
        } else {
            return None;
        }
        if file == 1 {
            done = true;
        } else {
            file = file - 1;
        }
    }
    proof {
        if !done {
            assert(cells_view(out@) + Seq::<(int, char, Seq<char>)>::empty() =~= cells_view(out@));
        }
    }
    Some(out)
}

fn invalid_board(text: &[char]) -> (r: CsaError)
    ensures
        r matches CsaError::InvalidBoard(s) && s@ == text@,
{
    CsaError::InvalidBoard(string_from_chars(text))
}

fn rank_text_of(lines: &[String], r: u8) -> (t: Vec<char>)
    requires
        row_lines_sliceable(text_lines(lines@)),
    ensures
        t@ == rank_text(text_lines(lines@), r as int, lines@.len() as int),
{
    let ghost lv = text_lines(lines@);
    let mut k: usize = lines.len();
    while k > 0
        invariant
            k <= lines@.len(),
            lv == text_lines(lines@),
            rank_text(lv, r as int, lines@.len() as int) == rank_text(lv, r as int, k as int),
        decreases k,
    {
        let v = str_chars(lines[k - 1].as_str());
        assert(v@ == lv[k - 1]);
        if v.len() >= 2 && '0' <= v[1] && v[1] <= '9' && (v[1] as u32) - 48 == r as u32 {
            let rest = vstd::slice::slice_subrange(v.as_slice(), 2, v.len());
            assert(rest@ =~= v@.skip(2));
            let mut out: Vec<char> = Vec::new();
            let mut j: usize = 0;
            while j < rest.len()
                invariant
                    j <= rest@.len(),
                    out@ == rest@.take(j as int),
                decreases rest.len() - j,
            {
                out.push(rest[j]);
                j += 1;
                assert(out@ =~= rest@.take(j as int));
            }
            assert(rest@.take(rest@.len() as int) =~= rest@);
            return out;
        }
        k -= 1;
    }
    Vec::new()
}

/// The board of CSA row lines `P1`..`P9` (see [`rows_board`]): a line
/// without a rank digit is an invalid board line, and so is the text of the
/// first rank whose row cannot be read.
pub fn parse_row_lines(lines: &[String]) -> (r: Result<BoardMap, CsaError>)
    requires
        row_lines_sliceable(text_lines(lines@)),
    ensures
        match first_rowless(text_lines(lines@), 0) {
            Some(k) => r matches Err(CsaError::InvalidBoard(s)) && s@ == text_lines(lines@)[k],
            None => match first_bad_rank(text_lines(lines@), 1) {
                Some(rk) => r matches Err(CsaError::InvalidBoard(s)) && s@ == rank_text(
                    text_lines(lines@),
                    rk,
                    lines@.len() as int,
                ),
                None => r matches Ok(b) && b@ == rows_board(text_lines(lines@), 10),
            },
        },
{
    let ghost lv = text_lines(lines@);
    let n = lines.len();
    let mut k: usize = 0;
    while k < n
        invariant
            k <= n,
            n == lines@.len(),
            lv == text_lines(lines@),
            first_rowless(lv, 0) == first_rowless(lv, k as int),
        decreases n - k,
    {
        let v = str_chars(lines[k].as_str());
        assert(v@ == lv[k as int]);
        if !(v.len() >= 2 && '0' <= v[1] && v[1] <= '9') {
            return Err(CsaError::InvalidBoard(crate::text::string_from_str(lines[k].as_str())));
        }
        k += 1;
    }
    let mut board = BoardMap::new();
    assert(board@ =~= rows_board(lv, 1));
    let mut rank: u8 = 1;
    while rank <= 9
        invariant
            1 <= rank <= 10,
            lv == text_lines(lines@),
            row_lines_sliceable(lv),
            first_rowless(lv, 0) is None,
            first_bad_rank(lv, 1) == first_bad_rank(lv, rank as int),
            board@ == rows_board(lv, rank as int),
        decreases 10 - rank,
    {
        let text = rank_text_of(lines, rank);
        let compact = remove_spaces(text.as_slice());
        let cells = match parse_row_cells(compact.as_slice()) {
            Some(cs) => cs,
            None => return Err(invalid_board(text.as_slice())),
        };
        let ghost cs = cells_view(cells@);
        proof {
            lemma_row_cells_files(compact@, 0, 9);
        }
        let mut j: usize = 0;
        while j < cells.len()
            invariant
                j <= cells@.len(),
                1 <= rank <= 9,
                cs == cells_view(cells@),
                rank_cells(lv, rank as int) == Some(cs),
                forall|t: int| 0 <= t < cs.len() ==> 1 <= (#[trigger] cs[t]).0 <= 9,
                board@ == Seq::new(
                    81,
                    |i: int|
                        if i % 9 + 1 < rank {
                            cell_of(rank_cells(lv, i % 9 + 1)->Some_0, i / 9 + 1)
                        } else if i % 9 + 1 == rank {
                            cell_of(cs.take(j as int), i / 9 + 1)
                        } else {
                            None
                        },
                ),
            decreases cells.len() - j,
        {
            let (file, color, code) = (cells[j].0, cells[j].1, crate::text::string_from_str(cells[j].2.as_str()));
            assert(cs[j as int] == (file as int, color, code@));
            let ghost before = board@;
            board.insert(file, rank, color, code);
            assert(cs.take(j + 1).drop_last() =~= cs.take(j as int));
            assert(board@ =~= Seq::new(
                81,
                |i: int|
                    if i % 9 + 1 < rank {
                        cell_of(rank_cells(lv, i % 9 + 1)->Some_0, i / 9 + 1)
                    } else if i % 9 + 1 == rank {
                        cell_of(cs.take(j + 1), i / 9 + 1)
                    } else {
                        None
                    },
            ));
            j += 1;
        }
        assert(cs.take(cs.len() as int) =~= cs);
        assert(board@ =~= rows_board(lv, rank + 1));
        rank += 1;
    }
    Ok(board)
}


/// The CSA code of the back-rank piece on file `f`: lance, knight, silver,
/// gold from the edges in, the king in the middle.
pub open spec fn back_rank_code(f: int) -> Seq<char> {
    if f == 1 || f == 9 { seq!['K', 'Y'] }
    else if f == 2 || f == 8 { seq!['K', 'E'] }
    else if f == 3 || f == 7 { seq!['G', 'I'] }
    else if f == 4 || f == 6 { seq!['K', 'I'] }
    else { seq!['O', 'U'] }
}

/// The piece on file `f`, rank `r` of the standard initial position.
pub open spec fn hirate_cell(f: int, r: int) -> Option<(char, Seq<char>)> {
    if r == 1 {
        Some(('-', back_rank_code(f)))
    } else if r == 2 && f == 8 {
        Some(('-', seq!['H', 'I']))
    } else if r == 2 && f == 2 {
        Some(('-', seq!['K', 'A']))
    } else if r == 3 {
        Some(('-', seq!['F', 'U']))
    } else if r == 7 {
        Some(('+', seq!['F', 'U']))
    } else if r == 8 && f == 8 {
        Some(('+', seq!['K', 'A']))
    } else if r == 8 && f == 2 {
        Some(('+', seq!['H', 'I']))
    } else if r == 9 {
        Some(('+', back_rank_code(f)))
    } else {
        None
    }
}

/// The CSA board of the standard initial position.
pub open spec fn hirate_board() -> Seq<Option<(char, Seq<char>)>> {
    Seq::new(81, |i: int| hirate_cell(i / 9 + 1, i % 9 + 1))
}

pub(crate) fn code_string(a: char, b: char) -> (r: String)
    ensures
        r@ == seq![a, b],
{
    let mut s = String::new();
    push_char(&mut s, a);
    push_char(&mut s, b);
    assert(s@ =~= seq![a, b]);
    s
}

/// The board of the standard initial position (see [`hirate_board`]).
pub fn decode_start_board() -> (r: BoardMap)
    ensures
        r@ == hirate_board(),
{
    let mut board = BoardMap::new();
    let mut f: u8 = 1;
    while f <= 9
        invariant
            1 <= f <= 10,
            board@ == Seq::new(
                81,
                |i: int|
                    if i / 9 + 1 < f && (i % 9 + 1 == 1 || i % 9 + 1 == 3 || i % 9 + 1 == 7 || i % 9 + 1 == 9) {
                        hirate_cell(i / 9 + 1, i % 9 + 1)
                    } else {
                        None
                    },
            ),
        decreases 10 - f,
    {
        let (a, b) = if f == 1 || f == 9 { ('K', 'Y') }
            else if f == 2 || f == 8 { ('K', 'E') }
            else if f == 3 || f == 7 { ('G', 'I') }
            else if f == 4 || f == 6 { ('K', 'I') }
            else { ('O', 'U') };
        assert(seq![a, b] == back_rank_code(f as int));
        board.insert(f, 1, '-', code_string(a, b));
        board.insert(f, 3, '-', code_string('F', 'U'));
        board.insert(f, 7, '+', code_string('F', 'U'));
        board.insert(f, 9, '+', code_string(a, b));
        assert(board@ =~= Seq::new(
            81,
            |i: int|
                if i / 9 + 1 < f + 1 && (i % 9 + 1 == 1 || i % 9 + 1 == 3 || i % 9 + 1 == 7 || i % 9 + 1 == 9) {
                    hirate_cell(i / 9 + 1, i % 9 + 1)
                } else {
                    None
                },
        ));
        f += 1;
    }
    board.insert(8, 2, '-', code_string('H', 'I'));
    board.insert(2, 2, '-', code_string('K', 'A'));
    board.insert(8, 8, '+', code_string('K', 'A'));
    board.insert(2, 8, '+', code_string('H', 'I'));
    assert(board@ =~= hirate_board());
    board
}


/// The value of an ASCII digit; 0 for any other character.
pub open spec fn digit_or_zero(c: char) -> int {
    if crate::text::is_digit(c) {
        c as int - 48
    } else {
        0
    }
}

/// The file and rank that a square text such as `77` names: the values of
/// its first two characters when digits, else 0.
pub open spec fn square_digits(sq: Seq<char>) -> (int, int) {
    (
        if sq.len() > 0 { digit_or_zero(sq[0]) } else { 0 },
        if sq.len() > 1 { digit_or_zero(sq[1]) } else { 0 },
    )
}

/// The squares named by the data of a `PI` line, four bytes an entry whose
/// first two bytes, read as UTF-8, name the square; none when those bytes
/// are not valid UTF-8.
pub open spec fn pi_removals(bytes: Seq<u8>) -> Option<Seq<(int, int)>>
    decreases bytes.len(),
{
    if bytes.len() < 4 {
        Some(Seq::empty())
    } else {
        let a = bytes.take(2);
        if !valid_utf8(a) {
            None
        } else {
            match pi_removals(bytes.skip(4)) {
                Some(rest) => Some(seq![square_digits(decode_utf8(a))] + rest),
                None => None,
            }
        }
    }
}

/// A board with the named squares emptied (squares with a zero file or
/// rank name nothing).
pub open spec fn without_squares(b: Seq<Option<(char, Seq<char>)>>, rm: Seq<(int, int)>) -> Seq<
    Option<(char, Seq<char>)>,
>
    decreases rm.len(),
{
    if rm.len() == 0 {
        b
    } else {
        let b2 = without_squares(b, rm.drop_last());
        let (f, r) = rm.last();
        if f >= 1 && r >= 1 {
            b2.update(board_index(f, r), None)
        } else {
            b2
        }
    }
}

/// The board of a `PI` line: the standard initial position without the
/// squares its data names; none when the data (without surrounding white
/// space) is not a whole number of four-byte entries or a square is not
/// valid UTF-8.
pub open spec fn pi_board(pi: Seq<char>) -> Option<Seq<Option<(char, Seq<char>)>>> {
    let suffix = trim_spec(pi.skip(2));
    let bytes = encode_utf8(suffix);
    if bytes.len() % 4 != 0 {
        None
    } else {
        match pi_removals(bytes) {
            Some(rm) => Some(without_squares(hirate_board(), rm)),
            None => None,
        }
    }
}

/// Prepends removals to an optional list.
pub open spec fn prepend_removals(done: Seq<(int, int)>, o: Option<Seq<(int, int)>>) -> Option<Seq<(int, int)>> {
    match o {
        Some(rest) => Some(done + rest),
        None => None,
    }
}

proof fn lemma_without_squares_push(b: Seq<Option<(char, Seq<char>)>>, rm: Seq<(int, int)>, x: (int, int))
    ensures
        without_squares(b, rm.push(x)) == (if x.0 >= 1 && x.1 >= 1 {
            without_squares(b, rm).update(board_index(x.0, x.1), None)
        } else {
            without_squares(b, rm)
        }),
{
    assert(rm.push(x).drop_last() =~= rm);
}

fn square_digit_values(sq: &str) -> (r: (u8, u8))
    ensures
        r.0 as int == square_digits(sq@).0,
        r.1 as int == square_digits(sq@).1,
{
    let v = str_chars(sq);
    let f: u8 = if v.len() > 0 && '0' <= v[0] && v[0] <= '9' { (v[0] as u32 - 48) as u8 } else { 0 };
    let r: u8 = if v.len() > 1 && '0' <= v[1] && v[1] <= '9' { (v[1] as u32 - 48) as u8 } else { 0 };
    (f, r)
}

/// The board of a `PI` line (see [`pi_board`]); otherwise an invalid board
/// line.
pub fn pi_line_board(pi: &str) -> (r: Result<BoardMap, CsaError>)
    requires
        starts_with(pi@, seq!['P', 'I']),
    ensures
        match pi_board(pi@) {
            Some(b) => r matches Ok(m) && m@ == b,
            None => r matches Err(CsaError::InvalidBoard(s)) && s@ == pi@,
        },
{
    let v = str_chars(pi);
    let rest = vstd::slice::slice_subrange(v.as_slice(), 2, v.len());
    assert(rest@ =~= pi@.skip(2));
    let suffix = trim_chars(rest);
    let text = string_from_chars(suffix.as_slice());
    let bytes = text.as_str().as_bytes();
    let len = bytes.len();
    if len % 4 != 0 {
        return Err(CsaError::InvalidBoard(string_from_str(pi)));
    }
    let ghost all = bytes@;
    let mut board = decode_start_board();
    let ghost mut removed: Seq<(int, int)> = Seq::empty();
    let mut idx: usize = 0;
    assert(all.skip(0) =~= all);
    proof {
        if let Some(rm) = pi_removals(all) {
            assert(Seq::<(int, int)>::empty() + rm =~= rm);
        }
    }
    while idx < len
        invariant
            len == all.len(),
            all == bytes@,
            all == encode_utf8(trim_spec(pi@.skip(2))),
            idx <= len,
            idx % 4 == 0,
            len % 4 == 0,
            pi_removals(all) == prepend_removals(removed, pi_removals(all.skip(idx as int))),
            board@ == without_squares(hirate_board(), removed),
        decreases len - idx,
    {
        let ghost tail = all.skip(idx as int);
        assert(len - idx >= 4) by (nonlinear_arith)
            requires
                idx % 4 == 0,
                len % 4 == 0,
                idx < len,
        ;
        let square_bytes = vstd::slice::slice_subrange(bytes, idx, idx + 2);
        assert(square_bytes@ =~= tail.take(2));
        assert(tail.skip(4) =~= all.skip(idx + 4));
        let square = match utf8_text(square_bytes) {
            Some(t) => t,
            None => {
                assert(pi_removals(tail) is None);
                return Err(CsaError::InvalidBoard(string_from_str(pi)));
            },
        };
        let (f, r) = square_digit_values(square.as_str());
        proof {
            lemma_without_squares_push(hirate_board(), removed, (f as int, r as int));
            assert(forall|t: Seq<(int, int)>| removed + (seq![(f as int, r as int)] + t) =~= removed.push((f as int, r as int)) + t);
            removed = removed.push((f as int, r as int));
        }
        if f >= 1 && r >= 1 {
            board.remove(f, r);
        }
        idx = idx + 4;
    }
    assert(all.skip(len as int) =~= Seq::<u8>::empty());
    assert(removed + Seq::<(int, int)>::empty() =~= removed);
    Ok(board)
}


/// What the piece lines of a CSA position have set so far: the board, the
/// count in hand of each known code by side (see [`hand_index`]), and
/// whether each side takes all remaining pieces (`00AL`).
pub struct PieceState {
    pub board: Seq<Option<(char, Seq<char>)>>,
    pub hand: Seq<int>,
    pub fill_black: bool,
    pub fill_white: bool,
}

/// The state after one entry of a piece line: `00AL` marks the side to take
/// the remaining pieces, another entry on square `00` adds a piece in hand
/// (pieces of an unknown code are not kept), an entry on a square puts the
/// piece there (a zero file or rank names no square).
pub open spec fn apply_entry(st: PieceState, e: (char, Seq<char>, Seq<char>)) -> PieceState {
    let white = e.0 == '-';
    if e.1 == seq!['0', '0'] {
        if e.2 == seq!['A', 'L'] {
            PieceState { fill_black: st.fill_black || !white, fill_white: st.fill_white || white, ..st }
        } else {
            match csa_code_index(e.2) {
                Some(k) => PieceState {
                    hand: st.hand.update(hand_index(white, k), st.hand[hand_index(white, k)] + 1),
                    ..st
                },
                None => st,
            }
        }
    } else {
        let (f, r) = square_digits(e.1);
        if f >= 1 && r >= 1 {
            PieceState { board: st.board.update(board_index(f, r), Some((e.0, e.2))), ..st }
        } else {
            st
        }
    }
}

/// The state after the entries, in order.
pub open spec fn apply_entries(st: PieceState, es: Seq<(char, Seq<char>, Seq<char>)>) -> PieceState
    decreases es.len(),
{
    if es.len() == 0 {
        st
    } else {
        apply_entry(apply_entries(st, es.drop_last()), es.last())
    }
}

/// The entries of the piece lines, in order; none when a line cannot be
/// read.
pub open spec fn lines_entries(lines: Seq<Seq<char>>) -> Option<Seq<(char, Seq<char>, Seq<char>)>>
    decreases lines.len(),
{
    if lines.len() == 0 {
        Some(Seq::empty())
    } else {
        match (lines_entries(lines.drop_last()), piece_line_spec(lines.last())) {
            (Some(a), Some(b)) => Some(a + b),
            _ => None,
        }
    }
}

/// The index of the first piece line from `k` on that cannot be read.
pub open spec fn first_bad_piece_line(lines: Seq<Seq<char>>, k: int) -> Option<int>
    decreases lines.len() - k,
{
    if k < 0 || k >= lines.len() {
        None
    } else if piece_line_spec(lines[k]) is None {
        Some(k)
    } else {
        first_bad_piece_line(lines, k + 1)
    }
}

/// The number of entries for square `00` with side `color` and code `code`.
pub open spec fn hand_entry_count(es: Seq<(char, Seq<char>, Seq<char>)>, color: char, code: Seq<char>) -> nat
    decreases es.len(),
{
    if es.len() == 0 {
        0
    } else {
        hand_entry_count(es.drop_last(), color, code) + if es.last().0 == color && es.last().1 == seq!['0', '0']
            && es.last().2 == code {
            1nat
        } else {
            0nat
        }
    }
}

proof fn lemma_hand_count_bound(st: PieceState, es: Seq<(char, Seq<char>, Seq<char>)>, white: bool, code: Seq<char>)
    requires
        csa_code_index(code) is Some,
        code != seq!['A', 'L'],
        st.hand.len() == 28,
        forall|i: int| 0 <= i < es.len() ==> (#[trigger] es[i]).0 == '+' || es[i].0 == '-',
    ensures
        apply_entries(st, es).hand.len() == 28,
        apply_entries(st, es).hand[hand_index(white, csa_code_index(code)->Some_0)] == st.hand[hand_index(
            white,
            csa_code_index(code)->Some_0,
        )] + hand_entry_count(es, if white { '-' } else { '+' }, code),
    decreases es.len(),
{
    if es.len() > 0 {
        lemma_hand_count_bound(st, es.drop_last(), white, code);
        let e = es.last();
        let k = csa_code_index(code)->Some_0;
        assert(e == es[es.len() - 1]);
        assert(e.0 == '+' || e.0 == '-');
        if e.1 == seq!['0', '0'] && e.2 != seq!['A', 'L'] {
            if let Some(j) = csa_code_index(e.2) {
                if hand_index(e.0 == '-', j) == hand_index(white, k) {
                    assert(j == k);
                    assert(e.2 == code);
                }
            }
        }
    }
}


proof fn lemma_lines_entries_push(lines: Seq<Seq<char>>, k: int)
    requires
        0 <= k < lines.len(),
    ensures
        lines.take(k + 1).drop_last() == lines.take(k),
        lines.take(k + 1).last() == lines[k],
{
    assert(lines.take(k + 1).drop_last() =~= lines.take(k));
}

proof fn lemma_first_bad_none(lines: Seq<Seq<char>>, k: int)
    requires
        0 <= k <= lines.len(),
        first_bad_piece_line(lines, k) is None,
        lines_entries(lines.take(k)) is Some,
    ensures
        lines_entries(lines) is Some,
    decreases lines.len() - k,
{
    if k < lines.len() {
        lemma_lines_entries_push(lines, k);
        lemma_first_bad_none(lines, k + 1);
    } else {
        assert(lines.take(k) =~= lines);
    }
}

/// The entries of the piece lines (see [`lines_entries`]); the first line
/// that cannot be read is an invalid line.
pub fn collect_piece_entries(lines: &[String]) -> (r: Result<Vec<(char, String, String)>, CsaError>)
    ensures
        match first_bad_piece_line(text_lines(lines@), 0) {
            Some(k) => r matches Err(CsaError::InvalidLine(s)) && s@ == text_lines(lines@)[k],
            None => r matches Ok(v) && lines_entries(text_lines(lines@)) == Some(entries_view(v@)),
        },
{
    let ghost lv = text_lines(lines@);
    let n = lines.len();
    let mut out: Vec<(char, String, String)> = Vec::new();
    let mut k: usize = 0;
    assert(lv.take(0) =~= Seq::<Seq<char>>::empty());
    assert(entries_view(out@) =~= Seq::<(char, Seq<char>, Seq<char>)>::empty());
    while k < n
        invariant
            k <= n,
            n == lines@.len(),
            lv == text_lines(lines@),
            first_bad_piece_line(lv, 0) == first_bad_piece_line(lv, k as int),
            lines_entries(lv.take(k as int)) == Some(entries_view(out@)),
        decreases n - k,
    {
        assert(lines@[k as int]@ == lv[k as int]);
        let entries = match parse_piece_line(lines[k].as_str()) {
            Ok(e) => e,
            Err(e) => return Err(e),
        };
        proof {
            lemma_lines_entries_push(lv, k as int);
        }
        let ghost before = entries_view(out@);
        let mut j: usize = 0;
        while j < entries.len()
            invariant
                j <= entries@.len(),
                entries_view(out@) == before + entries_view(entries@).take(j as int),
            decreases entries.len() - j,
        {
            let (c, sq, code) = (entries[j].0, string_from_str(entries[j].1.as_str()), string_from_str(entries[j].2.as_str()));
            let ghost item = (c, sq@, code@);
            let ghost prev = out@;
            assert(entries_view(entries@)[j as int] == item);
            out.push((c, sq, code));
            assert(entries_view(out@) =~= entries_view(prev).push(item));
            assert(entries_view(entries@).take(j + 1) =~= entries_view(entries@).take(j as int).push(item));
            j += 1;
            assert(entries_view(out@) =~= before + entries_view(entries@).take(j as int));
        }
        assert(entries_view(entries@).take(entries@.len() as int) =~= entries_view(entries@));
        k += 1;
    }
    proof {
        lemma_first_bad_none(lv, n as int);
        assert(lv.take(n as int) =~= lv);
    }
    Ok(out)
}


/// The piece lines before the first one that cannot be read.
pub open spec fn good_piece_lines(pl: Seq<Seq<char>>) -> Seq<Seq<char>> {
    match first_bad_piece_line(pl, 0) {
        Some(k) => pl.take(k),
        None => pl,
    }
}

/// The entries of the piece lines before the first one that cannot be
/// read, and whether every line reads.
fn good_piece_entries(lines: &[String]) -> (r: (Vec<(char, String, String)>, bool))
    ensures
        r.1 == (first_bad_piece_line(text_lines(lines@), 0) is None),
        lines_entries(good_piece_lines(text_lines(lines@))) == Some(entries_view(r.0@)),
{
    let ghost lv = text_lines(lines@);
    let n = lines.len();
    let mut out: Vec<(char, String, String)> = Vec::new();
    let mut k: usize = 0;
    assert(lv.take(0) =~= Seq::<Seq<char>>::empty());
    assert(entries_view(out@) =~= Seq::<(char, Seq<char>, Seq<char>)>::empty());
    while k < n
        invariant
            k <= n,
            n == lines@.len(),
            lv == text_lines(lines@),
            first_bad_piece_line(lv, 0) == first_bad_piece_line(lv, k as int),
            lines_entries(lv.take(k as int)) == Some(entries_view(out@)),
        decreases n - k,
    {
        assert(lines@[k as int]@ == lv[k as int]);
        let entries = match parse_piece_line(lines[k].as_str()) {
            Ok(e) => e,
            Err(_) => {
                assert(good_piece_lines(lv) == lv.take(k as int));
                return (out, false);
            },
        };
        proof {
            lemma_lines_entries_push(lv, k as int);
        }
        let ghost before = entries_view(out@);
        let mut j: usize = 0;
        while j < entries.len()
            invariant
                j <= entries@.len(),
                entries_view(out@) == before + entries_view(entries@).take(j as int),
            decreases entries.len() - j,
        {
            let (c, sq, code) = (entries[j].0, string_from_str(entries[j].1.as_str()), string_from_str(entries[j].2.as_str()));
            let ghost item = (c, sq@, code@);
            let ghost prev = out@;
            assert(entries_view(entries@)[j as int] == item);
            out.push((c, sq, code));
            assert(entries_view(out@) =~= entries_view(prev).push(item));
            assert(entries_view(entries@).take(j + 1) =~= entries_view(entries@).take(j as int).push(item));
            j += 1;
            assert(entries_view(out@) =~= before + entries_view(entries@).take(j as int));
        }
        assert(entries_view(entries@).take(entries@.len() as int) =~= entries_view(entries@));
        k += 1;
    }
    proof {
        lemma_first_bad_none(lv, n as int);
        assert(lv.take(n as int) =~= lv);
    }
    (out, true)
}


/// The counts of a hand view as integers.
pub open spec fn hand_ints(h: Seq<u8>) -> Seq<int> {
    h.map_values(|x: u8| x as int)
}

/// Whether every entry belongs to Black (`+`) or White (`-`).
pub open spec fn entries_colored(es: Seq<(char, Seq<char>, Seq<char>)>) -> bool {
    forall|i: int| 0 <= i < es.len() ==> (#[trigger] es[i]).0 == '+' || es[i].0 == '-'
}

proof fn lemma_hand_entry_count_prefix(es: Seq<(char, Seq<char>, Seq<char>)>, i: int, color: char, code: Seq<char>)
    requires
        0 <= i <= es.len(),
    ensures
        hand_entry_count(es.take(i), color, code) <= hand_entry_count(es, color, code),
    decreases es.len() - i,
{
    if i < es.len() {
        assert(es.take(i + 1).drop_last() =~= es.take(i));
        lemma_hand_entry_count_prefix(es, i + 1, color, code);
    } else {
        assert(es.take(i) =~= es);
    }
}

proof fn lemma_colored_prefix(es: Seq<(char, Seq<char>, Seq<char>)>, i: int)
    requires
        0 <= i <= es.len(),
        entries_colored(es),
    ensures
        entries_colored(es.take(i)),
{
    assert forall|j: int| 0 <= j < es.take(i).len() implies (#[trigger] es.take(i)[j]).0 == '+' || es.take(i)[j].0
        == '-' by {
        assert(es.take(i)[j] == es[j]);
    }
}

/// The code at a known index (see [`csa_code_index`]).
pub open spec fn code_at(k: int) -> Seq<char> {
    if k == 0 { seq!['F', 'U'] }
    else if k == 1 { seq!['K', 'Y'] }
    else if k == 2 { seq!['K', 'E'] }
    else if k == 3 { seq!['G', 'I'] }
    else if k == 4 { seq!['K', 'I'] }
    else if k == 5 { seq!['K', 'A'] }
    else if k == 6 { seq!['H', 'I'] }
    else if k == 7 { seq!['O', 'U'] }
    else if k == 8 { seq!['T', 'O'] }
    else if k == 9 { seq!['N', 'Y'] }
    else if k == 10 { seq!['N', 'K'] }
    else if k == 11 { seq!['N', 'G'] }
    else if k == 12 { seq!['U', 'M'] }
    else { seq!['R', 'Y'] }
}

proof fn lemma_code_at(code: Seq<char>)
    requires
        csa_code_index(code) is Some,
    ensures
        code_at(csa_code_index(code)->Some_0) == code,
        code != seq!['A', 'L'],
{
    assert(seq!['A', 'L'][0] == 'A');
    assert(seq!['F', 'U'][0] == 'F');
    assert(seq!['K', 'Y'][0] == 'K');
    assert(seq!['K', 'E'][0] == 'K');
    assert(seq!['G', 'I'][0] == 'G');
    assert(seq!['K', 'I'][0] == 'K');
    assert(seq!['K', 'A'][0] == 'K');
    assert(seq!['H', 'I'][0] == 'H');
    assert(seq!['O', 'U'][0] == 'O');
    assert(seq!['T', 'O'][0] == 'T');
    assert(seq!['N', 'Y'][0] == 'N');
    assert(seq!['N', 'K'][0] == 'N');
    assert(seq!['N', 'G'][0] == 'N');
    assert(seq!['U', 'M'][0] == 'U');
    assert(seq!['R', 'Y'][0] == 'R');
}

/// Applies the entries of piece lines to a board, hands and the flags of
/// the sides that take the remaining pieces (see [`apply_entries`]).
pub fn apply_piece_entries(
    board: &mut BoardMap,
    hands: &mut HandCounts,
    fill: &mut (bool, bool),
    entries: &[(char, String, String)],
)
    requires
        entries_colored(entries_view(entries@)),
        old(hands)@.len() == 28,
        forall|white: bool, k: int|
            0 <= k < 14 ==> old(hands)@[hand_index(white, k)] + hand_entry_count(
                entries_view(entries@),
                if white { '-' } else { '+' },
                code_at(k),
            ) <= 255,
    ensures
        final(hands)@.len() == 28,
        (PieceState {
            board: final(board)@,
            hand: hand_ints(final(hands)@),
            fill_black: final(fill).0,
            fill_white: final(fill).1,
        }) == apply_entries(
            PieceState {
                board: old(board)@,
                hand: hand_ints(old(hands)@),
                fill_black: old(fill).0,
                fill_white: old(fill).1,
            },
            entries_view(entries@),
        ),
{
    let ghost ev = entries_view(entries@);
    let ghost st0 = PieceState {
        board: board@,
        hand: hand_ints(hands@),
        fill_black: fill.0,
        fill_white: fill.1,
    };
    let n = entries.len();
    let mut i: usize = 0;
    assert(ev.take(0) =~= Seq::<(char, Seq<char>, Seq<char>)>::empty());
    while i < n
        invariant
            i <= n,
            n == ev.len(),
            ev == entries_view(entries@),
            entries_colored(ev),
            st0.hand.len() == 28,
            hands@.len() == 28,
            forall|white: bool, k: int|
                0 <= k < 14 ==> st0.hand[hand_index(white, k)] + hand_entry_count(
                    ev,
                    if white { '-' } else { '+' },
                    code_at(k),
                ) <= 255,
            (PieceState { board: board@, hand: hand_ints(hands@), fill_black: fill.0, fill_white: fill.1 })
                == apply_entries(st0, ev.take(i as int)),
        decreases n - i,
    {
        let ghost e = ev[i as int];
        let ghost cur = apply_entries(st0, ev.take(i as int));
        assert(ev.take(i + 1).drop_last() =~= ev.take(i as int));
        assert(ev.take(i + 1).last() == e);
        let color = entries[i].0;
        let sq = str_chars(entries[i].1.as_str());
        let code = str_chars(entries[i].2.as_str());
        assert(e == (color, sq@, code@));
        let white = color == '-';
        if two_chars_are(sq.as_slice(), '0', '0') {
            if two_chars_are(code.as_slice(), 'A', 'L') {
                if white {
                    fill.1 = true;
                } else {
                    fill.0 = true;
                }
            } else {
                match csa_code_position(code.as_slice()) {
                    Some(k) => {
                        proof {
                            lemma_code_at(code@);
                            lemma_colored_prefix(ev, i as int);
                            lemma_colored_prefix(ev, i + 1);
                            lemma_hand_count_bound(st0, ev.take(i + 1), white, code@);
                            lemma_hand_entry_count_prefix(ev, i + 1, color, code@);
                            assert(color == (if white { '-' } else { '+' }));
                        }
                        let ghost before = hands@;
                        hands.add(white, k, 1);
                        assert(hand_ints(hands@) =~= cur.hand.update(hand_index(white, k as int), cur.hand[hand_index(white, k as int)] + 1));
                    },
                    None => {},
                }
            }
        } else {
            let (f, r) = square_digit_values(entries[i].1.as_str());
            if f >= 1 && r >= 1 {
                let c = string_from_str(entries[i].2.as_str());
                board.insert(f, r, color, c);
            }
        }
        i += 1;
    }
    assert(ev.take(n as int) =~= ev);
}


/// How many pieces of each unpromoted kind a side starts with: nine pawns,
/// two lances, knights, silvers and golds, one bishop, rook and king (by
/// the index of [`csa_code_index`]).
pub open spec fn initial_count(k: int) -> int {
    if k == 0 {
        9
    } else if k <= 4 {
        2
    } else {
        1
    }
}

/// The index of the unpromoted kind of a known code index.
pub open spec fn base_index(j: int) -> int {
    if j == 8 { 0 }
    else if j == 9 { 1 }
    else if j == 10 { 2 }
    else if j == 11 { 3 }
    else if j == 12 { 5 }
    else if j == 13 { 6 }
    else { j }
}

/// The number of pieces of side `color` and unpromoted kind `k` on the
/// first `n` squares of a board.
pub open spec fn board_placed(b: Seq<Option<(char, Seq<char>)>>, color: char, k: int, n: int) -> int
    decreases n,
{
    if n <= 0 {
        0
    } else {
        board_placed(b, color, k, n - 1) + match b[n - 1] {
            Some((c, code)) => if c == color && (csa_code_index(code) matches Some(j) && base_index(j) == k) {
                1int
            } else {
                0int
            },
            None => 0int,
        }
    }
}

/// The number of pieces of unpromoted kind `k` among the first `n` codes of
/// a side's hand.
pub open spec fn hand_placed(h: Seq<int>, white: bool, k: int, n: int) -> int
    decreases n,
{
    if n <= 0 {
        0
    } else {
        hand_placed(h, white, k, n - 1) + if base_index(n - 1) == k {
            h[hand_index(white, n - 1)]
        } else {
            0
        }
    }
}

/// The number of pieces of a side and unpromoted kind on the board and in
/// hand.
pub open spec fn placed(st: PieceState, white: bool, k: int) -> int {
    board_placed(st.board, if white { '-' } else { '+' }, k, 81) + hand_placed(st.hand, white, k, 14)
}

/// The hands after a side that takes the remaining pieces is given, of each
/// unpromoted kind, what it lacks of its initial count.
pub open spec fn filled_hand(st: PieceState) -> Seq<int> {
    Seq::new(
        28,
        |i: int|
            {
                let white = i >= 14;
                let k = i % 14;
                let fill = if white { st.fill_white } else { st.fill_black };
                if k < 8 && fill && placed(st, white, k) < initial_count(k) {
                    st.hand[i] + initial_count(k) - placed(st, white, k)
                } else {
                    st.hand[i]
                }
            },
    )
}

/// Whether counting the placed pieces and filling the hands stays within
/// `u8`.
pub open spec fn fill_in_range(st: PieceState) -> bool {
    &&& forall|white: bool, k: int| 0 <= k < 8 ==> 0 <= #[trigger] placed(st, white, k) <= 255
    &&& forall|i: int| 0 <= i < 28 ==> 0 <= #[trigger] filled_hand(st)[i] <= 255
    &&& forall|i: int| 0 <= i < 28 ==> 0 <= #[trigger] st.hand[i] <= 255
}

proof fn lemma_board_placed_bounds(b: Seq<Option<(char, Seq<char>)>>, color: char, k: int, n: int, m: int)
    requires
        0 <= n <= m,
    ensures
        0 <= board_placed(b, color, k, n) <= board_placed(b, color, k, m),
    decreases m,
{
    if m > n {
        lemma_board_placed_bounds(b, color, k, n, m - 1);
    } else if n > 0 {
        lemma_board_placed_bounds(b, color, k, n - 1, n - 1);
    }
}

proof fn lemma_hand_placed_bounds(h: Seq<int>, white: bool, k: int, n: int, m: int)
    requires
        0 <= n <= m <= 14,
        h.len() == 28,
        forall|i: int| 0 <= i < 28 ==> 0 <= #[trigger] h[i],
    ensures
        0 <= hand_placed(h, white, k, n) <= hand_placed(h, white, k, m),
    decreases m,
{
    if m > n {
        lemma_hand_placed_bounds(h, white, k, n, m - 1);
        assert(0 <= hand_index(white, m - 1) < 28);
    } else if n > 0 {
        lemma_hand_placed_bounds(h, white, k, n - 1, n - 1);
        assert(0 <= hand_index(white, n - 1) < 28);
    }
}

fn base_of(j: usize) -> (r: usize)
    ensures
        r == base_index(j as int),
{
    if j == 8 { 0 }
    else if j == 9 { 1 }
    else if j == 10 { 2 }
    else if j == 11 { 3 }
    else if j == 12 { 5 }
    else if j == 13 { 6 }
    else { j }
}

/// The number of pieces of a side and unpromoted kind on the board and in
/// hand (see [`placed`]).
fn count_placed(board: &BoardMap, hands: &HandCounts, fill_state: Ghost<PieceState>, white: bool, k: usize) -> (r: u32)
    requires
        k < 8,
        hands@.len() == 28,
        fill_state@.board == board@,
        fill_state@.hand == hand_ints(hands@),
    ensures
        r == placed(fill_state@, white, k as int),
{
    let ghost st = fill_state@;
    let color = if white { '-' } else { '+' };
    let mut total: u32 = 0;
    let mut sq: u8 = 0;
    while sq < 81
        invariant
            sq <= 81,
            k < 8,
            st == fill_state@,
            st.board == board@,
            color == (if white { '-' } else { '+' }),
            total <= sq,
            total == board_placed(st.board, color, k as int, sq as int),
        decreases 81 - sq,
    {
        let file = sq / 9 + 1;
        let rank = sq % 9 + 1;
        assert(board_index(file as int, rank as int) == sq as int);
        match board.get(file, rank) {
            Some((c, code)) => {
                let cv = str_chars(code);
                if c == color {
                    match csa_code_position(cv.as_slice()) {
                        Some(j) => {
                            if base_of(j) == k {
                                total = total + 1;
                            }
                        },
                        None => {},
                    }
                }
            },
            None => {},
        }
        sq = sq + 1;
    }
    let mut j: usize = 0;
    while j < 14
        invariant
            j <= 14,
            k < 8,
            color == (if white { '-' } else { '+' }),
            st == fill_state@,
            st.hand == hand_ints(hands@),
            hands@.len() == 28,
            total <= 81 + 255 * j,
            total == board_placed(st.board, color, k as int, 81) + hand_placed(st.hand, white, k as int, j as int),
        decreases 14 - j,
    {
        if base_of(j) == k {
            let c = hands.count(white, j);
            assert(hand_ints(hands@)[hand_index(white, j as int)] == hands@[hand_index(white, j as int)] as int);
            assert(c as int == st.hand[hand_index(white, j as int)]);
            assert(hand_placed(st.hand, white, k as int, j + 1) == hand_placed(st.hand, white, k as int, j as int) + c);
            total = total + c as u32;
        }
        j += 1;
    }
    total
}

/// Gives each side that takes the remaining pieces what it lacks (see
/// [`filled_hand`]).
pub fn fill_remaining_pieces(board: &BoardMap, hands: &mut HandCounts, fill: (bool, bool))
    requires
        old(hands)@.len() == 28,
        fill_in_range(PieceState { board: board@, hand: hand_ints(old(hands)@), fill_black: fill.0, fill_white: fill.1 }),
    ensures
        hand_ints(final(hands)@) == filled_hand(
            PieceState { board: board@, hand: hand_ints(old(hands)@), fill_black: fill.0, fill_white: fill.1 },
        ),
{
    let ghost st = PieceState { board: board@, hand: hand_ints(hands@), fill_black: fill.0, fill_white: fill.1 };
    let mut counts: Vec<u8> = Vec::new();
    let mut side: usize = 0;
    while side < 2
        invariant
            side <= 2,
            counts@.len() == side * 8,
            hands@.len() == 28,
            st.board == board@,
            st.hand == hand_ints(hands@),
            fill_in_range(st),
            forall|t: int| 0 <= t < counts@.len() ==> counts@[t] == placed(st, t >= 8, t % 8),
        decreases 2 - side,
    {
        let mut k: usize = 0;
        while k < 8
            invariant
                k <= 8,
                side < 2,
                counts@.len() == side * 8 + k,
                hands@.len() == 28,
                st.board == board@,
                st.hand == hand_ints(hands@),
                fill_in_range(st),
                forall|t: int| 0 <= t < counts@.len() ==> counts@[t] == placed(st, t >= 8, t % 8),
            decreases 8 - k,
        {
            let c = count_placed(board, hands, Ghost(st), side == 1, k);
            assert(placed(st, side == 1, k as int) <= 255);
            counts.push(c as u8);
            k += 1;
        }
        side += 1;
    }
    let ghost h0 = hands@;
    let mut side: usize = 0;
    while side < 2
        invariant
            side <= 2,
            counts@.len() == 16,
            hands@.len() == 28,
            h0.len() == 28,
            st.hand == hand_ints(h0),
            st.fill_black == fill.0,
            st.fill_white == fill.1,
            fill_in_range(st),
            forall|t: int| 0 <= t < 16 ==> counts@[t] == placed(st, t >= 8, t % 8),
            forall|i: int| 0 <= i < 28 ==> hand_ints(hands@)[i] == (if i / 14 < side {
                filled_hand(st)[i]
            } else {
                st.hand[i]
            }),
        decreases 2 - side,
    {
        let white = side == 1;
        let flag = if white { fill.1 } else { fill.0 };
        let mut k: usize = 0;
        while k < 8
            invariant
                k <= 8,
                side < 2,
                white == (side == 1),
                flag == (if white { st.fill_white } else { st.fill_black }),
                counts@.len() == 16,
                hands@.len() == 28,
                st.hand == hand_ints(h0),
                fill_in_range(st),
                forall|t: int| 0 <= t < 16 ==> counts@[t] == placed(st, t >= 8, t % 8),
                forall|i: int| 0 <= i < 28 ==> hand_ints(hands@)[i] == (if i / 14 < side || (i / 14 == side && i
                    % 14 < k) {
                    filled_hand(st)[i]
                } else {
                    st.hand[i]
                }),
            decreases 8 - k,
        {
            let ghost idx = hand_index(white, k as int);
            assert(counts@[(side * 8 + k) as int] == placed(st, white, k as int));
            let p = counts[side * 8 + k];
            let init: u8 = if k == 0 { 9 } else if k <= 4 { 2 } else { 1 };
            assert(init as int == initial_count(k as int));
            if flag && p < init {
                let ghost before = hands@;
                assert(hand_ints(hands@)[idx] == hands@[idx] as int);
                assert(hands@[idx] as int == st.hand[idx]);
                assert(filled_hand(st)[idx] == st.hand[idx] + init - p);
                assert(0 <= filled_hand(st)[idx] <= 255);
                hands.add(white, k, init - p);
                assert(hands@[idx] as int == filled_hand(st)[idx]);
                assert forall|i: int| 0 <= i < 28 implies hand_ints(hands@)[i] == (if i / 14 < side || (i / 14
                    == side && i % 14 < k + 1) {
                    filled_hand(st)[i]
                } else {
                    st.hand[i]
                }) by {
                    if i / 14 == side && i % 14 == k {
                        assert(i == idx);
                    }
                    if i != idx {
                        assert(hands@[i] == before[i]);
                        assert(hand_ints(before)[i] == before[i] as int);
                    }
                }
            } else {
                assert(idx >= 14 <==> white);
                assert(idx % 14 == k);
                assert(filled_hand(st)[idx] == st.hand[idx]);
                assert forall|i: int| 0 <= i < 28 implies hand_ints(hands@)[i] == (if i / 14 < side || (i / 14
                    == side && i % 14 < k + 1) {
                    filled_hand(st)[i]
                } else {
                    st.hand[i]
                }) by {
                    if i / 14 == side && i % 14 == k {
                        assert(i == idx);
                    }
                }
            }
            k += 1;
        }
        assert forall|i: int| 0 <= i < 28 implies hand_ints(hands@)[i] == (if i / 14 < side + 1 {
            filled_hand(st)[i]
        } else {
            st.hand[i]
        }) by {
            if i / 14 == side && i % 14 >= 8 {
                assert(filled_hand(st)[i] == st.hand[i]);
            }
        }
        side += 1;
    }
    assert(hand_ints(hands@) =~= filled_hand(st));
}


/// Whether a position line is a board row line (`P1`..`P9`).
pub open spec fn is_row_line(l: Seq<char>) -> bool {
    l.len() >= 2 && l[0] == 'P' && crate::text::is_digit(l[1])
}

/// Whether a position line lists pieces (`P+` or `P-`).
pub open spec fn is_piece_line(l: Seq<char>) -> bool {
    starts_with(l, seq!['P', '+']) || starts_with(l, seq!['P', '-'])
}

/// The board row lines among the position lines, in order.
pub open spec fn row_lines_of(lines: Seq<Seq<char>>) -> Seq<Seq<char>>
    decreases lines.len(),
{
    if lines.len() == 0 {
        Seq::empty()
    } else if is_row_line(lines.last()) {
        row_lines_of(lines.drop_last()).push(lines.last())
    } else {
        row_lines_of(lines.drop_last())
    }
}

/// The piece lines among the position lines, in order.
pub open spec fn piece_lines_of(lines: Seq<Seq<char>>) -> Seq<Seq<char>>
    decreases lines.len(),
{
    if lines.len() == 0 {
        Seq::empty()
    } else if is_piece_line(lines.last()) {
        piece_lines_of(lines.drop_last()).push(lines.last())
    } else {
        piece_lines_of(lines.drop_last())
    }
}

/// The first `PI` line from `k` on.
pub open spec fn first_pi_line(lines: Seq<Seq<char>>, k: int) -> Option<Seq<char>>
    decreases lines.len() - k,
{
    if k < 0 || k >= lines.len() {
        None
    } else if starts_with(lines[k], seq!['P', 'I']) {
        Some(lines[k])
    } else {
        first_pi_line(lines, k + 1)
    }
}

/// The board that the position lines start from: the standard position
/// when there is no line, the row lines when there are some, else the
/// first `PI` line, else an empty board. An error holds the text of the
/// invalid board line.
pub open spec fn start_board_spec(lines: Seq<Seq<char>>) -> Result<Seq<Option<(char, Seq<char>)>>, Seq<char>> {
    let rows = row_lines_of(lines);
    if lines.len() == 0 {
        Ok(hirate_board())
    } else if rows.len() > 0 {
        match first_rowless(rows, 0) {
            Some(k) => Err(rows[k]),
            None => match first_bad_rank(rows, 1) {
                Some(rk) => Err(rank_text(rows, rk, rows.len() as int)),
                None => Ok(rows_board(rows, 10)),
            },
        }
    } else {
        match first_pi_line(lines, 0) {
            Some(pi) => match pi_board(pi) {
                Some(b) => Ok(b),
                None => Err(pi),
            },
            None => Ok(Seq::new(81, |i: int| None::<(char, Seq<char>)>)),
        }
    }
}

/// The state before the piece lines: a board, empty hands, no side taking
/// the remaining pieces.
pub open spec fn start_state(b: Seq<Option<(char, Seq<char>)>>) -> PieceState {
    PieceState { board: b, hand: Seq::new(28, |i: int| 0int), fill_black: false, fill_white: false }
}

/// The SFEN of the initial position that the position lines of a CSA
/// record give, with `w` when the side-to-move token is `-` and `b`
/// otherwise: the board, the pieces lines, the remaining pieces, then the
/// board and hand texts. An error is an invalid board line (`true`) or an
/// invalid line (`false`), with its text.
pub open spec fn csa_initial_sfen_spec(lines: Seq<Seq<char>>, side: Option<char>) -> Result<Seq<char>, (bool, Seq<char>)> {
    match start_board_spec(lines) {
        Err(t) => Err((true, t)),
        Ok(b) => {
            let pl = piece_lines_of(lines);
            match first_bad_piece_line(pl, 0) {
                Some(k) => Err((false, pl[k])),
                None => {
                    let st = apply_entries(start_state(b), lines_entries(pl)->Some_0);
                    match first_unknown_code(st.board, 0) {
                        Some(code) => Err((true, unknown_code_text(code))),
                        None => Ok(
                            rows_text(st.board, 1) + seq![' '] + (if side == Some('-') {
                                seq!['w']
                            } else {
                                seq!['b']
                            }) + seq![' '] + hand_sfen(filled_hand(st).map_values(|x: int| x as u8)) + seq![' ', '1'],
                        ),
                    }
                },
            }
        },
    }
}

/// Whether there are at most 255 hand entries of each side and code (other
/// than `AL`).
pub open spec fn entry_counts_ok(es: Seq<(char, Seq<char>, Seq<char>)>) -> bool {
    forall|color: char, code: Seq<char>|
        (color == '+' || color == '-') && code != seq!['A', 'L'] ==> #[trigger] hand_entry_count(es, color, code) <= 255
}

/// Whether the hand counts of the position lines stay within `u8`: at most
/// 255 hand entries of a side and code before the first unreadable piece
/// line, and, when every piece line reads, counting and filling the hands
/// stays in range.
pub open spec fn csa_initial_in_range(lines: Seq<Seq<char>>) -> bool {
    match start_board_spec(lines) {
        Err(_) => true,
        Ok(b) => {
            let pl = piece_lines_of(lines);
            let good = match first_bad_piece_line(pl, 0) {
                Some(k) => pl.take(k),
                None => pl,
            };
            &&& entry_counts_ok(lines_entries(good)->Some_0)
            &&& first_bad_piece_line(pl, 0) is None ==> fill_in_range(
                apply_entries(start_state(b), lines_entries(pl)->Some_0),
            )
        },
    }
}

proof fn lemma_piece_chunks_colored(color: char, bytes: Seq<u8>)
    requires
        color == '+' || color == '-',
    ensures
        piece_chunks(color, bytes) matches Some(es) ==> entries_colored(es),
    decreases bytes.len(),
{
    if bytes.len() >= 4 {
        lemma_piece_chunks_colored(color, bytes.skip(4));
        if let Some(es) = piece_chunks(color, bytes) {
            let rest = piece_chunks(color, bytes.skip(4))->Some_0;
            assert forall|i: int| 0 <= i < es.len() implies (#[trigger] es[i]).0 == '+' || es[i].0 == '-' by {
                if i > 0 {
                    assert(es[i] == rest[i - 1]);
                }
            }
        }
    }
}

proof fn lemma_lines_entries_colored(lines: Seq<Seq<char>>)
    ensures
        lines_entries(lines) matches Some(es) ==> entries_colored(es),
    decreases lines.len(),
{
    if lines.len() > 0 {
        lemma_lines_entries_colored(lines.drop_last());
        let l = lines.last();
        if l.len() >= 2 && l[0] == 'P' && (l[1] == '+' || l[1] == '-') {
            lemma_piece_chunks_colored(l[1], encode_utf8(without_spaces(l.skip(2))));
        }
        if let Some(es) = lines_entries(lines) {
            let a = lines_entries(lines.drop_last())->Some_0;
            let b = piece_line_spec(l)->Some_0;
            assert forall|i: int| 0 <= i < es.len() implies (#[trigger] es[i]).0 == '+' || es[i].0 == '-' by {
                if i < a.len() {
                    assert(es[i] == a[i]);
                } else {
                    assert(es[i] == b[i - a.len()]);
                }
            }
        }
    }
}

proof fn lemma_code_at_index(k: int)
    requires
        0 <= k < 14,
    ensures
        csa_code_index(code_at(k)) == Some(k),
        code_at(k) != seq!['A', 'L'],
{
    assert(seq!['A', 'L'][0] == 'A');
    assert(seq!['F', 'U'][0] == 'F' && seq!['F', 'U'][1] == 'U');
    assert(seq!['K', 'Y'][0] == 'K' && seq!['K', 'Y'][1] == 'Y');
    assert(seq!['K', 'E'][0] == 'K' && seq!['K', 'E'][1] == 'E');
    assert(seq!['G', 'I'][0] == 'G' && seq!['G', 'I'][1] == 'I');
    assert(seq!['K', 'I'][0] == 'K' && seq!['K', 'I'][1] == 'I');
    assert(seq!['K', 'A'][0] == 'K' && seq!['K', 'A'][1] == 'A');
    assert(seq!['H', 'I'][0] == 'H' && seq!['H', 'I'][1] == 'I');
    assert(seq!['O', 'U'][0] == 'O' && seq!['O', 'U'][1] == 'U');
    assert(seq!['T', 'O'][0] == 'T' && seq!['T', 'O'][1] == 'O');
    assert(seq!['N', 'Y'][0] == 'N' && seq!['N', 'Y'][1] == 'Y');
    assert(seq!['N', 'K'][0] == 'N' && seq!['N', 'K'][1] == 'K');
    assert(seq!['N', 'G'][0] == 'N' && seq!['N', 'G'][1] == 'G');
    assert(seq!['U', 'M'][0] == 'U' && seq!['U', 'M'][1] == 'M');
    assert(seq!['R', 'Y'][0] == 'R' && seq!['R', 'Y'][1] == 'Y');
}

fn copy_string(s: &String) -> (r: String)
    ensures
        r@ == s@,
{
    string_from_str(s.as_str())
}

/// The row lines, piece lines and first `PI` line of the position lines.
fn split_position_lines(lines: &[String]) -> (r: (Vec<String>, Vec<String>, Option<String>))
    ensures
        text_lines(r.0@) == row_lines_of(text_lines(lines@)),
        text_lines(r.1@) == piece_lines_of(text_lines(lines@)),
        match first_pi_line(text_lines(lines@), 0) {
            Some(pi) => r.2 matches Some(s) && s@ == pi,
            None => r.2 is None,
        },
{
    let ghost lv = text_lines(lines@);
    let n = lines.len();
    let mut rows: Vec<String> = Vec::new();
    let mut pieces: Vec<String> = Vec::new();
    let mut pi: Option<String> = None;
    let mut k: usize = 0;
    assert(lv.take(0) =~= Seq::<Seq<char>>::empty());
    while k < n
        invariant
            k <= n,
            n == lines@.len(),
            lv == text_lines(lines@),
            text_lines(rows@) == row_lines_of(lv.take(k as int)),
            text_lines(pieces@) == piece_lines_of(lv.take(k as int)),
            match pi {
                Some(s) => first_pi_line(lv, 0) == Some(s@),
                None => first_pi_line(lv, 0) == first_pi_line(lv, k as int),
            },
        decreases n - k,
    {
        let v = str_chars(lines[k].as_str());
        assert(v@ == lv[k as int]);
        assert(lv.take(k + 1).drop_last() =~= lv.take(k as int));
        assert(lv.take(k + 1).last() == lv[k as int]);
        let ghost before_rows = rows@;
        let ghost before_pieces = pieces@;
        if v.len() >= 2 && v[0] == 'P' && '0' <= v[1] && v[1] <= '9' {
            rows.push(copy_string(&lines[k]));
            assert(text_lines(rows@) =~= text_lines(before_rows).push(lv[k as int]));
        }
        if v.len() >= 2 && v[0] == 'P' && (v[1] == '+' || v[1] == '-') {
            pieces.push(copy_string(&lines[k]));
            assert(text_lines(pieces@) =~= text_lines(before_pieces).push(lv[k as int]));
        }
        proof {
            assert(is_piece_line(lv[k as int]) == (v@.len() >= 2 && v@[0] == 'P' && (v@[1] == '+' || v@[1] == '-')))
                by {
                if v@.len() >= 2 {
                    assert(v@.take(2) =~= seq![v@[0], v@[1]]);
                }
            }
            assert(starts_with(lv[k as int], seq!['P', 'I']) == (v@.len() >= 2 && v@[0] == 'P' && v@[1] == 'I')) by {
                if v@.len() >= 2 {
                    assert(v@.take(2) =~= seq![v@[0], v@[1]]);
                }
            }
        }
        if pi.is_none() && v.len() >= 2 && v[0] == 'P' && v[1] == 'I' {
            pi = Some(copy_string(&lines[k]));
        }
        k += 1;
    }
    assert(lv.take(n as int) =~= lv);
    (rows, pieces, pi)
}

/// The SFEN of the initial position of CSA position lines (see
/// [`csa_initial_sfen_spec`]).
pub fn csa_initial_sfen(position_lines: &[String], side_to_move_token: Option<char>) -> (r: Result<String, CsaError>)
    requires
        csa_initial_in_range(text_lines(position_lines@)),
    ensures
        match csa_initial_sfen_spec(text_lines(position_lines@), side_to_move_token) {
            Ok(t) => r matches Ok(s) && s@ == t,
            Err((true, t)) => r matches Err(CsaError::InvalidBoard(s)) && s@ == t,
            Err((false, t)) => r matches Err(CsaError::InvalidLine(s)) && s@ == t,
        },
{
    let ghost lv = text_lines(position_lines@);
    let (rows, pieces, pi) = split_position_lines(position_lines);
    let ghost rv = text_lines(rows@);
    let mut board = if position_lines.len() == 0 {
        decode_start_board()
    } else if rows.len() > 0 {
        proof {
            assert forall|k: int| 0 <= k < rv.len() && row_digit(rv[k]) is Some implies (rv[k][0] as u32) < 128 by {
                lemma_row_lines_are_rows(lv, k);
            }
        }
        match parse_row_lines(rows.as_slice()) {
            Ok(b) => b,
            Err(e) => return Err(e),
        }
    } else {
        match pi {
            Some(line) => {
                proof {
                    lemma_first_pi_starts(lv, 0);
                }
                match pi_line_board(line.as_str()) {
                    Ok(b) => b,
                    Err(e) => return Err(e),
                }
            },
            None => BoardMap::new(),
        }
    };
    let ghost b0 = board@;
    assert(start_board_spec(lv) == Ok::<Seq<Option<(char, Seq<char>)>>, Seq<char>>(b0));
    let entries = match collect_piece_entries(pieces.as_slice()) {
        Ok(e) => e,
        Err(e) => return Err(e),
    };
    let ghost pl = text_lines(pieces@);
    let ghost es = entries_view(entries@);
    proof {
        lemma_lines_entries_colored(pl);
        assert(pl.take(pl.len() as int) =~= pl);
        assert(first_bad_piece_line(pl, 0) is None);
        assert(piece_lines_of(lv) == pl);
        assert(entry_counts_ok(es));
    }
    let mut hands = HandCounts::new();
    let mut fill = (false, false);
    proof {
        assert forall|white: bool, k: int|
            0 <= k < 14 implies hands@[hand_index(white, k)] + hand_entry_count(
                es,
                if white { '-' } else { '+' },
                code_at(k),
            ) <= 255 by {
            lemma_code_at_index(k);
            let color = if white { '-' } else { '+' };
            assert(first_bad_piece_line(pl, 0) is None);
            assert(piece_lines_of(lv) == pl);
            assert(lines_entries(pl) == Some(es));
            assert((color == '+' || color == '-') && code_at(k) != seq!['A', 'L']);
            assert(hand_entry_count(lines_entries(pl)->Some_0, color, code_at(k)) <= 255);
        }
    }
    let ghost h0 = hands@;
    apply_piece_entries(&mut board, &mut hands, &mut fill, entries.as_slice());
    let ghost st = apply_entries(start_state(b0), es);
    assert(hand_ints(h0) =~= Seq::new(28, |i: int| 0int));
    assert(fill_in_range(st));
    fill_remaining_pieces(&board, &mut hands, fill);
    let board_sfen = match board_map_to_sfen(&board) {
        Ok(t) => t,
        Err(msg) => return Err(CsaError::InvalidBoard(msg)),
    };
    let hands_sfen = match hand_counts_to_sfen(&hands) {
        Ok(t) => t,
        Err(msg) => return Err(CsaError::InvalidBoard(msg)),
    };
    assert(hands@ =~= filled_hand(st).map_values(|x: int| x as u8)) by {
        assert forall|i: int| 0 <= i < 28 implies hands@[i] == filled_hand(st).map_values(|x: int| x as u8)[i] by {
            assert(hand_ints(hands@)[i] == hands@[i] as int);
        }
    }
    let mut out = board_sfen;
    push_char(&mut out, ' ');
    push_char(&mut out, if side_to_move_token == Some('-') { 'w' } else { 'b' });
    push_char(&mut out, ' ');
    push_str(&mut out, hands_sfen.as_str());
    push_char(&mut out, ' ');
    push_char(&mut out, '1');
    assert(out@ =~= csa_initial_sfen_spec(lv, side_to_move_token)->Ok_0);
    Ok(out)
}

proof fn lemma_row_lines_are_rows(lines: Seq<Seq<char>>, k: int)
    requires
        0 <= k < row_lines_of(lines).len(),
    ensures
        is_row_line(row_lines_of(lines)[k]),
    decreases lines.len(),
{
    if lines.len() > 0 {
        let prev = row_lines_of(lines.drop_last());
        if is_row_line(lines.last()) {
            if k < prev.len() {
                lemma_row_lines_are_rows(lines.drop_last(), k);
            }
        } else {
            lemma_row_lines_are_rows(lines.drop_last(), k);
        }
    }
}

proof fn lemma_first_pi_starts(lines: Seq<Seq<char>>, k: int)
    ensures
        first_pi_line(lines, k) matches Some(pi) ==> starts_with(pi, seq!['P', 'I']),
    decreases lines.len() - k,
{
    if 0 <= k < lines.len() && !starts_with(lines[k], seq!['P', 'I']) {
        lemma_first_pi_starts(lines, k + 1);
    }
}

/// Whether a `$` metadata line can be read without overflow (see
/// [`csa_header_in_range`]).
pub fn csa_header_fits(key: &str, value: &str) -> (r: bool)
    ensures
        r == csa_header_in_range(key@, value@),
{
    let kc = str_chars(key);
    let k = kc.as_slice();
    if chars_eq_str(k, "TIME_LIMIT") || chars_eq_str(k, "TIME") || chars_eq_str(k, "TIME+") || chars_eq_str(
        k,
        "TIME-",
    ) {
        crate::records::time_control::csa_time_fits(value)
    } else {
        true
    }
}

/// Whether a CSA time token can be read without overflow (see
/// [`csa_time_token_in_range`]).
pub fn csa_time_token_fits(token: &str) -> (r: bool)
    ensures
        r == csa_time_token_in_range(token@),
{
    proof {
        reveal_strlit("T=");
        reveal_strlit("T");
    }
    let v = str_chars(token);
    let t = trim_chars(v.as_slice());
    let rest = if crate::text::chars_start_with(t.as_slice(), "T=") {
        strip_all_prefix_chars(t.as_slice(), "T=")
    } else if crate::text::chars_start_with(t.as_slice(), "T") {
        strip_all_prefix_chars(t.as_slice(), "T")
    } else {
        return true;
    };
    crate::records::time_control::colon_time_fits(rest.as_slice())
}

/// Whether row lines can be cut after their second character (see
/// [`row_lines_sliceable`]).
pub fn row_lines_fit(lines: &[String]) -> (r: bool)
    ensures
        r == row_lines_sliceable(text_lines(lines@)),
{
    let ghost lv = text_lines(lines@);
    let n = lines.len();
    let mut k: usize = 0;
    while k < n
        invariant
            k <= n,
            n == lv.len(),
            lv == text_lines(lines@),
            forall|j: int| 0 <= j < k && row_digit(lv[j]) is Some ==> (lv[j][0] as u32) < 128,
        decreases n - k,
    {
        let v = str_chars(lines[k].as_str());
        assert(v@ == lv[k as int]);
        if v.len() >= 2 && '0' <= v[1] && v[1] <= '9' && !((v[0] as u32) < 128) {
            return false;
        }
        k += 1;
    }
    true
}

proof fn lemma_hand_entry_witness(es: Seq<(char, Seq<char>, Seq<char>)>, color: char, code: Seq<char>)
    requires
        hand_entry_count(es, color, code) > 0,
    ensures
        exists|i: int|
            0 <= i < es.len() && (#[trigger] es[i]).0 == color && es[i].1 == seq!['0', '0'] && es[i].2 == code,
    decreases es.len(),
{
    let d = es.drop_last();
    if hand_entry_count(d, color, code) > 0 {
        lemma_hand_entry_witness(d, color, code);
        let i = choose|i: int| 0 <= i < d.len() && (#[trigger] d[i]).0 == color && d[i].1 == seq!['0', '0'] && d[i].2 == code;
        assert(es[i] == d[i]);
    } else {
        assert(es[es.len() - 1] == es.last());
    }
}

fn is_hand_square(sq: &str) -> (r: bool)
    ensures
        r == (sq@ == seq!['0', '0']),
{
    let v = str_chars(sq);
    let r = v.len() == 2 && v[0] == '0' && v[1] == '0';
    proof {
        if r {
            assert(v@ =~= seq!['0', '0']);
        } else if v@.len() == 2 {
            assert(seq!['0', '0'][0] == '0' && seq!['0', '0'][1] == '0');
        }
    }
    r
}

fn str_eq(a: &str, b: &str) -> (r: bool)
    ensures
        r == (a@ == b@),
{
    let av = str_chars(a);
    chars_eq_str(av.as_slice(), b)
}

/// Whether no side and code (other than `AL`) has more than 255 hand
/// entries (see [`entry_counts_ok`]).
fn entry_counts_fit(es: &[(char, String, String)]) -> (r: bool)
    ensures
        r == entry_counts_ok(entries_view(es@)),
{
    let ghost ev = entries_view(es@);
    let n = es.len();
    let mut i: usize = 0;
    while i < n
        invariant
            i <= n,
            n == ev.len(),
            ev == entries_view(es@),
            forall|t: int|
                0 <= t < i && (ev[t].0 == '+' || ev[t].0 == '-') && ev[t].1 == seq!['0', '0'] && ev[t].2 != seq![
                    'A',
                    'L',
                ] ==> #[trigger] hand_entry_count(ev, ev[t].0, ev[t].2) <= 255,
        decreases n - i,
    {
        assert(ev[i as int] == (es@[i as int].0, es@[i as int].1@, es@[i as int].2@));
        let color = es[i].0;
        let keyed = (color == '+' || color == '-') && is_hand_square(es[i].1.as_str()) && !str_eq(
            es[i].2.as_str(),
            "AL",
        );
        proof {
            reveal_strlit("AL");
            assert("AL"@ =~= seq!['A', 'L']);
        }
        if keyed {
            let mut count: usize = 0;
            let mut j: usize = 0;
            assert(ev.take(0) =~= Seq::<(char, Seq<char>, Seq<char>)>::empty());
            while j < n
                invariant
                    j <= n,
                    i < n,
                    n == ev.len(),
                    ev == entries_view(es@),
                    count <= j,
                    color == es@[i as int].0,
                    ev[i as int] == (es@[i as int].0, es@[i as int].1@, es@[i as int].2@),
                    count == hand_entry_count(ev.take(j as int), ev[i as int].0, ev[i as int].2),
                decreases n - j,
            {
                assert(ev[j as int] == (es@[j as int].0, es@[j as int].1@, es@[j as int].2@));
                assert(ev.take(j + 1).drop_last() =~= ev.take(j as int));
                assert(ev.take(j + 1).last() == ev[j as int]);
                if es[j].0 == color && is_hand_square(es[j].1.as_str()) && str_eq(es[j].2.as_str(), es[i].2.as_str()) {
                    count += 1;
                }
                j += 1;
            }
            assert(ev.take(n as int) =~= ev);
            if count > 255 {
                return false;
            }
        }
        i += 1;
    }
    proof {
        assert forall|color: char, code: Seq<char>|
            (color == '+' || color == '-') && code != seq!['A', 'L'] implies #[trigger] hand_entry_count(ev, color, code)
            <= 255 by {
            if hand_entry_count(ev, color, code) > 0 {
                lemma_hand_entry_witness(ev, color, code);
                let t = choose|t: int|
                    0 <= t < ev.len() && (#[trigger] ev[t]).0 == color && ev[t].1 == seq!['0', '0'] && ev[t].2 == code;
                assert(hand_entry_count(ev, ev[t].0, ev[t].2) <= 255);
            }
        }
    }
    true
}

/// The placed count of the side and kind of hand index `t`.
pub open spec fn placed_at(st: PieceState, t: int) -> int {
    placed(st, t >= 14, t % 14)
}

fn initial_of(k: usize) -> (r: u32)
    ensures
        r == initial_count(k as int),
{
    if k == 0 {
        9
    } else if k <= 4 {
        2
    } else {
        1
    }
}

/// Whether the hand counts of CSA position lines stay within `u8` (see
/// [`csa_initial_in_range`]), so that [`csa_initial_sfen`] may be called.
pub fn csa_initial_fits(position_lines: &[String]) -> (r: bool)
    ensures
        r == csa_initial_in_range(text_lines(position_lines@)),
{
    let ghost lv = text_lines(position_lines@);
    let (rows, pieces, pi) = split_position_lines(position_lines);
    let ghost rv = text_lines(rows@);
    let mut board = if position_lines.len() == 0 {
        decode_start_board()
    } else if rows.len() > 0 {
        proof {
            assert forall|k: int| 0 <= k < rv.len() && row_digit(rv[k]) is Some implies (rv[k][0] as u32) < 128 by {
                lemma_row_lines_are_rows(lv, k);
            }
        }
        match parse_row_lines(rows.as_slice()) {
            Ok(b) => b,
            Err(_) => return true,
        }
    } else {
        match pi {
            Some(line) => {
                proof {
                    lemma_first_pi_starts(lv, 0);
                }
                match pi_line_board(line.as_str()) {
                    Ok(b) => b,
                    Err(_) => return true,
                }
            },
            None => BoardMap::new(),
        }
    };
    let ghost b0 = board@;
    assert(start_board_spec(lv) == Ok::<Seq<Option<(char, Seq<char>)>>, Seq<char>>(b0));
    let (entries, all_good) = good_piece_entries(pieces.as_slice());
    let ghost pl = text_lines(pieces@);
    let ghost es = entries_view(entries@);
    assert(piece_lines_of(lv) == pl);
    if !entry_counts_fit(entries.as_slice()) {
        return false;
    }
    if !all_good {
        return true;
    }
    proof {
        lemma_lines_entries_colored(pl);
        assert(good_piece_lines(pl) == pl);
        assert(lines_entries(pl) == Some(es));
    }
    let mut hands = HandCounts::new();
    let mut fill = (false, false);
    proof {
        assert forall|white: bool, k: int|
            0 <= k < 14 implies hands@[hand_index(white, k)] + hand_entry_count(
                es,
                if white { '-' } else { '+' },
                code_at(k),
            ) <= 255 by {
            lemma_code_at_index(k);
            let color = if white { '-' } else { '+' };
            assert((color == '+' || color == '-') && code_at(k) != seq!['A', 'L']);
            assert(hand_entry_count(es, color, code_at(k)) <= 255);
        }
    }
    let ghost h0 = hands@;
    apply_piece_entries(&mut board, &mut hands, &mut fill, entries.as_slice());
    let ghost st = apply_entries(start_state(b0), es);
    assert(hand_ints(h0) =~= Seq::new(28, |i: int| 0int));
    assert(st.board == board@ && st.hand == hand_ints(hands@));
    assert(csa_initial_in_range(lv) == fill_in_range(st));
    let mut i: usize = 0;
    while i < 28
        invariant
            i <= 28,
            csa_initial_in_range(lv) == fill_in_range(st),
            lv == text_lines(position_lines@),
            hands@.len() == 28,
            st.board == board@,
            st.hand == hand_ints(hands@),
            st.fill_black == fill.0,
            st.fill_white == fill.1,
            forall|t: int| 0 <= t < i ==> 0 <= #[trigger] filled_hand(st)[t] <= 255,
            forall|t: int| 0 <= t < i && t % 14 < 8 ==> 0 <= #[trigger] placed_at(st, t) <= 255,
        decreases 28 - i,
    {
        let white = i >= 14;
        let k = if white { i - 14 } else { i };
        assert(k as int == i as int % 14);
        assert(hand_index(white, k as int) == i as int);
        let h = hands.count(white, k) as u32;
        assert(hand_ints(hands@)[i as int] == hands@[i as int] as int);
        if k < 8 {
            let p = count_placed(&board, &hands, Ghost(st), white, k);
            proof {
                let color = if white { '-' } else { '+' };
                lemma_board_placed_bounds(st.board, color, k as int, 0, 81);
                assert forall|t: int| 0 <= t < 28 implies 0 <= #[trigger] st.hand[t] by {
                    assert(hand_ints(hands@)[t] == hands@[t] as int);
                }
                lemma_hand_placed_bounds(st.hand, white, k as int, 0, 14);
            }
            if p > 255 {
                assert(placed(st, white, k as int) > 255);
                assert(!fill_in_range(st));
                return false;
            }
            assert(placed_at(st, i as int) == placed(st, white, k as int));
            let flag = if white { fill.1 } else { fill.0 };
            let init = initial_of(k);
            if flag && p < init {
                if h + init - p > 255 {
                    assert(filled_hand(st)[i as int] > 255);
                    assert(!fill_in_range(st));
                    return false;
                }
            }
        }
        i += 1;
    }
    proof {
        assert forall|white: bool, k: int| 0 <= k < 8 implies 0 <= #[trigger] placed(st, white, k) <= 255 by {
            let t = hand_index(white, k);
            assert(t % 14 == k && (t >= 14) == white);
            assert(placed_at(st, t) == placed(st, white, k));
        }
        assert forall|t: int| 0 <= t < 28 implies 0 <= #[trigger] st.hand[t] <= 255 by {
            assert(hand_ints(hands@)[t] == hands@[t] as int);
        }
        assert(fill_in_range(st));
    }
    true
}

} // verus!
