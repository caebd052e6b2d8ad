//! Options and errors of the USI `position` command form of records.
use vstd::prelude::*;
use crate::records::error::RecordError;
use crate::records::record::{SpecialMove, SpecialMoveEntry};
use crate::text::{
    ascii_lower_seq, ascii_lowercase_chars, chars_eq_str, decimal, push_decimal, push_str, str_chars,
    string_from_chars, string_from_str,
};
use crate::types::color::Color;
use crate::types::game_result::GameResult;

verus! {

/// Errors of reading and writing USI `position` commands.
#[derive(Debug, Clone, PartialEq, Eq)]
pub enum UsiPositionError {
    /// The command is empty.
    Empty,
    /// The tokens do not form a `position` command.
    InvalidTokenSequence(String),
    /// A move token that is not a USI move, by index.
    InvalidMove { index: usize, token: String },
    /// A special token in strict mode, by index.
    SpecialTokenNotAllowed { index: usize, token: String },
    /// A move after a terminal special token, by index.
    MoveAfterSpecial { index: usize, token: String },
    /// Building the record failed.
    Record(RecordError),
}

impl UsiPositionError {
    /// The message of the error.
    pub open spec fn message(&self) -> Seq<char> {
        match self {
            UsiPositionError::Empty => "USI position command must not be empty"@,
            UsiPositionError::InvalidTokenSequence(s) => "invalid USI position token sequence: "@ + s@,
            UsiPositionError::InvalidMove { index, token } => "invalid move token at index "@ + decimal(
                *index as nat,
            ) + ": "@ + token@,
            UsiPositionError::SpecialTokenNotAllowed { index, token } =>
                "special token is not allowed in strict USI position mode at index "@ + decimal(*index as nat) + ": "@
                + token@,
            UsiPositionError::MoveAfterSpecial { index, token } => "move appears after terminal special token at index "@
                + decimal(*index as nat) + ": "@ + token@,
            UsiPositionError::Record(e) => "record construction failed: "@ + e.message(),
        }
    }

    /// The message of the error (see [`UsiPositionError::message`]).
    pub fn to_string(&self) -> (r: String)
        ensures
            r@ == self.message(),
    {
        match self {
            UsiPositionError::Empty => string_from_str("USI position command must not be empty"),
            UsiPositionError::InvalidTokenSequence(t) => {
                let mut s = string_from_str("invalid USI position token sequence: ");
                push_str(&mut s, t.as_str());
                s
            },
            UsiPositionError::InvalidMove { index, token } => {
                let mut s = string_from_str("invalid move token at index ");
                push_decimal(&mut s, *index as u64);
                push_str(&mut s, ": ");
                push_str(&mut s, token.as_str());
                s
            },
            UsiPositionError::SpecialTokenNotAllowed { index, token } => {
                let mut s = string_from_str("special token is not allowed in strict USI position mode at index ");
                push_decimal(&mut s, *index as u64);
                push_str(&mut s, ": ");
                push_str(&mut s, token.as_str());
                s
            },
            UsiPositionError::MoveAfterSpecial { index, token } => {
                let mut s = string_from_str("move appears after terminal special token at index ");
                push_decimal(&mut s, *index as u64);
                push_str(&mut s, ": ");
                push_str(&mut s, token.as_str());
                s
            },
            UsiPositionError::Record(e) => {
                let mut s = string_from_str("record construction failed: ");
                let m = e.to_string();
                push_str(&mut s, m.as_str());
                s
            },
        }
    }
}

impl vstd::std_specs::convert::FromSpecImpl<RecordError> for UsiPositionError {
    open spec fn obeys_from_spec() -> bool {
        true
    }

    open spec fn from_spec(value: RecordError) -> UsiPositionError {
        UsiPositionError::Record(value)
    }
}

impl core::convert::From<RecordError> for UsiPositionError {
    fn from(value: RecordError) -> UsiPositionError {
        UsiPositionError::Record(value)
    }
}

/// Options of reading USI `position` commands.
#[derive(Clone, Copy, Debug, PartialEq, Eq, Default, Structural)]
pub struct UsiPositionParseOptions {
    /// Whether special tokens such as `resign` are accepted.
    pub allow_special_tokens: bool,
}

impl UsiPositionParseOptions {
    /// Special tokens rejected.
    pub fn strict() -> (r: Self)
        ensures
            !r.allow_special_tokens,
    {
        UsiPositionParseOptions { allow_special_tokens: false }
    }

    /// Special tokens accepted.
    pub fn extended() -> (r: Self)
        ensures
            r.allow_special_tokens,
    {
        UsiPositionParseOptions { allow_special_tokens: true }
    }
}

/// Options of writing USI `position` commands.
#[derive(Clone, Copy, Debug, PartialEq, Eq, Default, Structural)]
pub struct UsiPositionExportOptions {
    /// Whether terminal special tokens are written.
    pub include_special_tokens: bool,
}

impl UsiPositionExportOptions {
    /// Special tokens left out.
    pub fn strict() -> (r: Self)
        ensures
            !r.include_special_tokens,
    {
        UsiPositionExportOptions { include_special_tokens: false }
    }

    /// Special tokens written.
    pub fn extended() -> (r: Self)
        ensures
            r.include_special_tokens,
    {
        UsiPositionExportOptions { include_special_tokens: true }
    }
}

/// The kind (see [`SpecialMove::kind_view`]) and result of a USI special
/// token, read without regard to ASCII case; `side` is the side to move.
pub open spec fn usi_special_spec(token: Seq<char>, side: Color) -> Option<((int, Seq<char>), GameResult)> {
    let l = ascii_lower_seq(token);
    let winner_black = side == Color::White;
    if l == "resign"@ {
        Some(((1, Seq::empty()), if winner_black { GameResult::BlackWin } else { GameResult::WhiteWin }))
    } else if l == "win"@ {
        Some(
            (
                (11, Seq::empty()),
                if side == Color::Black { GameResult::BlackWinByDeclaration } else { GameResult::WhiteWinByDeclaration },
            ),
        )
    } else if l == "draw"@ || l == "sennichite"@ || l == "repetition"@ {
        Some(((5, Seq::empty()), GameResult::DrawByRepetition))
    } else if l == "max_moves"@ || l == "maxmoves"@ {
        Some(((2, Seq::empty()), GameResult::DrawByMaxPlies))
    } else if l == "jishogi"@ || l == "impasse"@ {
        Some(((3, Seq::empty()), GameResult::DrawByImpasse))
    } else if l == "time_up"@ || l == "timeout"@ {
        Some(((8, Seq::empty()), if winner_black { GameResult::BlackWinByTimeout } else { GameResult::WhiteWinByTimeout }))
    } else if l == "interrupt"@ || l == "chudan"@ {
        Some(((0, Seq::empty()), GameResult::Paused))
    } else if l == "mate"@ {
        Some(((6, Seq::empty()), if winner_black { GameResult::BlackWin } else { GameResult::WhiteWin }))
    } else if l == "nomate"@ || l == "no_mate"@ {
        Some(((7, Seq::empty()), GameResult::DrawByMaxPlies))
    } else {
        None
    }
}

fn special(kind: SpecialMove, result: GameResult, token: &str) -> (r: SpecialMoveEntry)
    ensures
        r.kind_spec().kind_view() == kind.kind_view(),
        r.result_spec() == result,
        r.raw_spec() == Some(token@),
{
    SpecialMoveEntry::new(kind, result).with_raw(Some(string_from_str(token)))
}

/// The terminal entry of a USI special token, keeping the token as its
/// marker (see [`usi_special_spec`]).
pub fn special_from_usi_token(token: &str, side_to_move: Color) -> (r: Option<SpecialMoveEntry>)
    ensures
        match usi_special_spec(token@, side_to_move) {
            Some((k, res)) => r matches Some(e) && e.kind_spec().kind_view() == k && e.result_spec() == res
                && e.raw_spec() == Some(token@),
            None => r is None,
        },
{
    let v = str_chars(token);
    let lower = ascii_lowercase_chars(v.as_slice());
    let l = lower.as_slice();
    let winner = side_to_move.flip();
    if chars_eq_str(l, "resign") {
        Some(special(SpecialMove::Resign, GameResult::win_from_color(winner), token))
    } else if chars_eq_str(l, "win") {
        Some(special(SpecialMove::WinByDeclaration, GameResult::win_by_declaration_from_color(side_to_move), token))
    } else if chars_eq_str(l, "draw") || chars_eq_str(l, "sennichite") || chars_eq_str(l, "repetition") {
        Some(special(SpecialMove::RepetitionDraw, GameResult::DrawByRepetition, token))
    } else if chars_eq_str(l, "max_moves") || chars_eq_str(l, "maxmoves") {
        Some(special(SpecialMove::MaxMoves, GameResult::DrawByMaxPlies, token))
    } else if chars_eq_str(l, "jishogi") || chars_eq_str(l, "impasse") {
        Some(special(SpecialMove::Impasse, GameResult::DrawByImpasse, token))
    } else if chars_eq_str(l, "time_up") || chars_eq_str(l, "timeout") {
        Some(special(SpecialMove::Timeout, GameResult::win_by_timeout_from_color(winner), token))
    } else if chars_eq_str(l, "interrupt") || chars_eq_str(l, "chudan") {
        Some(special(SpecialMove::Interrupt, GameResult::Paused, token))
    } else if chars_eq_str(l, "mate") {
        Some(special(SpecialMove::Mate, GameResult::win_from_color(winner), token))
    } else if chars_eq_str(l, "nomate") || chars_eq_str(l, "no_mate") {
        Some(special(SpecialMove::NoMate, GameResult::DrawByMaxPlies, token))
    } else {
        None
    }
}

/// The USI token of a terminal kind (see [`SpecialMove::kind_view`]): none
/// for the illegal-move and default kinds, an unknown terminal's name in
/// lower case.
pub open spec fn usi_token_of_kind(kind: (int, Seq<char>)) -> Option<Seq<char>> {
    if kind.0 == 1 {
        Some("resign"@)
    } else if kind.0 == 11 || kind.0 == 14 {
        Some("win"@)
    } else if kind.0 == 4 {
        Some("draw"@)
    } else if kind.0 == 5 {
        Some("sennichite"@)
    } else if kind.0 == 2 {
        Some("max_moves"@)
    } else if kind.0 == 3 {
        Some("jishogi"@)
    } else if kind.0 == 8 {
        Some("time_up"@)
    } else if kind.0 == 0 {
        Some("interrupt"@)
    } else if kind.0 == 6 {
        Some("mate"@)
    } else if kind.0 == 7 {
        Some("nomate"@)
    } else if kind.0 == 15 {
        Some(ascii_lower_seq(kind.1))
    } else {
        None
    }
}

/// The USI token of a terminal entry: its kept marker when that is a USI
/// special token, else the token of its kind.
pub open spec fn usi_token_spec(raw: Option<Seq<char>>, kind: (int, Seq<char>), side: Color) -> Option<Seq<char>> {
    match raw {
        Some(r) => if usi_special_spec(r, side) is Some {
            Some(r)
        } else {
            usi_token_of_kind(kind)
        },
        None => usi_token_of_kind(kind),
    }
}

/// The USI token of a terminal entry (see [`usi_token_spec`]).
pub fn special_to_usi_token(special: &SpecialMoveEntry, side_to_move: Color) -> (r: Option<String>)
    ensures
        match usi_token_spec(special.raw_spec(), special.kind_spec().kind_view(), side_to_move) {
            Some(t) => r matches Some(s) && s@ == t,
            None => r is None,
        },
{
    match special.raw() {
        Some(raw) => {
            if special_from_usi_token(raw, side_to_move).is_some() {
                return Some(string_from_str(raw));
            }
        },
        None => {},
    }
    match special.kind() {
        SpecialMove::Resign => Some(string_from_str("resign")),
        SpecialMove::WinByDeclaration | SpecialMove::Try => Some(string_from_str("win")),
        SpecialMove::Draw => Some(string_from_str("draw")),
        SpecialMove::RepetitionDraw => Some(string_from_str("sennichite")),
        SpecialMove::MaxMoves => Some(string_from_str("max_moves")),
        SpecialMove::Impasse => Some(string_from_str("jishogi")),
        SpecialMove::Timeout => Some(string_from_str("time_up")),
        SpecialMove::Interrupt => Some(string_from_str("interrupt")),
        SpecialMove::Mate => Some(string_from_str("mate")),
        SpecialMove::NoMate => Some(string_from_str("nomate")),
        SpecialMove::Unknown(name) => {
            let v = str_chars(name.as_str());
            let lower = ascii_lowercase_chars(v.as_slice());
            Some(string_from_chars(lower.as_slice()))
        },
        SpecialMove::WinByIllegalMove | SpecialMove::LoseByIllegalMove | SpecialMove::WinByDefault
        | SpecialMove::LoseByDefault => None,
    }
}

/// A USI special token read as a terminal entry is written back as the same
/// token.
pub proof fn lemma_usi_token_roundtrip(token: Seq<char>, kind: (int, Seq<char>), side: Color)
    requires
        usi_special_spec(token, side) is Some,
    ensures
        usi_token_spec(Some(token), kind, side) == Some(token),
{
}

proof fn lemma_texts_differ(a: Seq<char>, b: Seq<char>)
    ensures
        (a.len() != b.len() || exists|i: int| 0 <= i < a.len() && i < b.len() && a[i] != b[i]) ==> a != b,
{
}

/// The token written for a terminal kind reads back as that kind, for every
/// kind with a token of its own (all but a draw, written as a repetition
/// draw, a try, written as a declaration win, and the unknown kinds).
pub proof fn lemma_usi_kind_roundtrip(k: int, side: Color)
    requires
        k == 0 || k == 1 || k == 2 || k == 3 || k == 5 || k == 6 || k == 7 || k == 8 || k == 11,
    ensures
        usi_token_of_kind((k, Seq::empty())) matches Some(t) && usi_special_spec(t, side) matches Some((kv, _))
            && kv == (k, Seq::<char>::empty()),
{
    reveal_strlit("resign");
    reveal_strlit("win");
    reveal_strlit("draw");
    reveal_strlit("sennichite");
    reveal_strlit("repetition");
    reveal_strlit("max_moves");
    reveal_strlit("maxmoves");
    reveal_strlit("jishogi");
    reveal_strlit("impasse");
    reveal_strlit("time_up");
    reveal_strlit("timeout");
    reveal_strlit("interrupt");
    reveal_strlit("chudan");
    reveal_strlit("mate");
    reveal_strlit("nomate");
    reveal_strlit("no_mate");
    assert("resign"@[0] == 'r');
    assert("resign"@[1] == 'e');
    assert("resign"@[2] == 's');
    assert("resign"@[3] == 'i');
    assert("resign"@[4] == 'g');
    assert("resign"@[5] == 'n');
    assert("win"@[0] == 'w');
    assert("win"@[1] == 'i');
    assert("win"@[2] == 'n');
    assert("draw"@[0] == 'd');
    assert("draw"@[1] == 'r');
    assert("draw"@[2] == 'a');
    assert("draw"@[3] == 'w');
    assert("sennichite"@[0] == 's');
    assert("sennichite"@[1] == 'e');
    assert("sennichite"@[2] == 'n');
    assert("sennichite"@[3] == 'n');
    assert("sennichite"@[4] == 'i');
    assert("sennichite"@[5] == 'c');
    assert("sennichite"@[6] == 'h');
    assert("sennichite"@[7] == 'i');
    assert("sennichite"@[8] == 't');
    assert("sennichite"@[9] == 'e');
    assert("repetition"@[0] == 'r');
    assert("repetition"@[1] == 'e');
    assert("repetition"@[2] == 'p');
    assert("repetition"@[3] == 'e');
    assert("repetition"@[4] == 't');
    assert("repetition"@[5] == 'i');
    assert("repetition"@[6] == 't');
    assert("repetition"@[7] == 'i');
    assert("repetition"@[8] == 'o');
    assert("repetition"@[9] == 'n');
    assert("max_moves"@[0] == 'm');
    assert("max_moves"@[1] == 'a');
    assert("max_moves"@[2] == 'x');
    assert("max_moves"@[3] == '_');
    assert("max_moves"@[4] == 'm');
    assert("max_moves"@[5] == 'o');
    assert("max_moves"@[6] == 'v');
    assert("max_moves"@[7] == 'e');
    assert("max_moves"@[8] == 's');
    assert("maxmoves"@[0] == 'm');
    assert("maxmoves"@[1] == 'a');
    assert("maxmoves"@[2] == 'x');
    assert("maxmoves"@[3] == 'm');
    assert("maxmoves"@[4] == 'o');
    assert("maxmoves"@[5] == 'v');
    assert("maxmoves"@[6] == 'e');
    assert("maxmoves"@[7] == 's');
    assert("jishogi"@[0] == 'j');
    assert("jishogi"@[1] == 'i');
    assert("jishogi"@[2] == 's');
    assert("jishogi"@[3] == 'h');
    assert("jishogi"@[4] == 'o');
    assert("jishogi"@[5] == 'g');
    assert("jishogi"@[6] == 'i');
    assert("impasse"@[0] == 'i');
    assert("impasse"@[1] == 'm');
    assert("impasse"@[2] == 'p');
    assert("impasse"@[3] == 'a');
    assert("impasse"@[4] == 's');
    assert("impasse"@[5] == 's');
    assert("impasse"@[6] == 'e');
    assert("time_up"@[0] == 't');
    assert("time_up"@[1] == 'i');
    assert("time_up"@[2] == 'm');
    assert("time_up"@[3] == 'e');
    assert("time_up"@[4] == '_');
    assert("time_up"@[5] == 'u');
    assert("time_up"@[6] == 'p');
    assert("timeout"@[0] == 't');
    assert("timeout"@[1] == 'i');
    assert("timeout"@[2] == 'm');
    assert("timeout"@[3] == 'e');
    assert("timeout"@[4] == 'o');
    assert("timeout"@[5] == 'u');
    assert("timeout"@[6] == 't');
    assert("interrupt"@[0] == 'i');
    assert("interrupt"@[1] == 'n');
    assert("interrupt"@[2] == 't');
    assert("interrupt"@[3] == 'e');
    assert("interrupt"@[4] == 'r');
    assert("interrupt"@[5] == 'r');
    assert("interrupt"@[6] == 'u');
    assert("interrupt"@[7] == 'p');
    assert("interrupt"@[8] == 't');
    assert("chudan"@[0] == 'c');
    assert("chudan"@[1] == 'h');
    assert("chudan"@[2] == 'u');
    assert("chudan"@[3] == 'd');
    assert("chudan"@[4] == 'a');
    assert("chudan"@[5] == 'n');
    assert("mate"@[0] == 'm');
    assert("mate"@[1] == 'a');
    assert("mate"@[2] == 't');
    assert("mate"@[3] == 'e');
    assert("nomate"@[0] == 'n');
    assert("nomate"@[1] == 'o');
    assert("nomate"@[2] == 'm');
    assert("nomate"@[3] == 'a');
    assert("nomate"@[4] == 't');
    assert("nomate"@[5] == 'e');
    assert("no_mate"@[0] == 'n');
    assert("no_mate"@[1] == 'o');
    assert("no_mate"@[2] == '_');
    assert("no_mate"@[3] == 'm');
    assert("no_mate"@[4] == 'a');
    assert("no_mate"@[5] == 't');
    assert("no_mate"@[6] == 'e');
    let t = usi_token_of_kind((k, Seq::empty()))->Some_0;
    assert(ascii_lower_seq(t) =~= t);
    lemma_texts_differ(t, "resign"@);
    lemma_texts_differ(t, "win"@);
    lemma_texts_differ(t, "draw"@);
    lemma_texts_differ(t, "sennichite"@);
    lemma_texts_differ(t, "repetition"@);
    lemma_texts_differ(t, "max_moves"@);
    lemma_texts_differ(t, "maxmoves"@);
    lemma_texts_differ(t, "jishogi"@);
    lemma_texts_differ(t, "impasse"@);
    lemma_texts_differ(t, "time_up"@);
    lemma_texts_differ(t, "timeout"@);
    lemma_texts_differ(t, "interrupt"@);
    lemma_texts_differ(t, "chudan"@);
    lemma_texts_differ(t, "mate"@);
    lemma_texts_differ(t, "nomate"@);
    lemma_texts_differ(t, "no_mate"@);
}

} // verus!
