//! Game outcomes.
use vstd::prelude::*;
use crate::types::color::Color;

verus! {

/// How a game ended. Each outcome has a fixed numeric code, given by
/// [`GameResult::to_u8`].
#[derive(Clone, Copy, Debug, PartialEq, Eq, Hash, Structural)]
pub enum GameResult {
    BlackWin,
    WhiteWin,
    DrawByRepetition,
    Error,
    BlackWinByDeclaration,
    WhiteWinByDeclaration,
    DrawByMaxPlies,
    Invalid,
    BlackWinByForfeit,
    WhiteWinByForfeit,
    DrawByImpasse,
    Paused,
    BlackWinByIllegalMove,
    WhiteWinByIllegalMove,
    BlackWinByTimeout,
    WhiteWinByTimeout,
    BlackWinByTryRule,
    WhiteWinByTryRule,
}

impl GameResult {
    /// The numeric code of an outcome.
    pub open spec fn code_spec(self) -> u8 {
        match self {
            GameResult::BlackWin => 0,
            GameResult::WhiteWin => 1,
            GameResult::DrawByRepetition => 2,
            GameResult::Error => 3,
            GameResult::BlackWinByDeclaration => 4,
            GameResult::WhiteWinByDeclaration => 5,
            GameResult::DrawByMaxPlies => 6,
            GameResult::Invalid => 7,
            GameResult::BlackWinByForfeit => 8,
            GameResult::WhiteWinByForfeit => 9,
            GameResult::DrawByImpasse => 10,
            GameResult::Paused => 11,
            GameResult::BlackWinByIllegalMove => 12,
            GameResult::WhiteWinByIllegalMove => 13,
            GameResult::BlackWinByTimeout => 16,
            GameResult::WhiteWinByTimeout => 17,
            GameResult::BlackWinByTryRule => 20,
            GameResult::WhiteWinByTryRule => 21,
        }
    }

    pub open spec fn is_black_win_spec(self) -> bool {
        matches!(self, GameResult::BlackWin | GameResult::BlackWinByDeclaration | GameResult::BlackWinByForfeit | GameResult::BlackWinByIllegalMove | GameResult::BlackWinByTimeout | GameResult::BlackWinByTryRule)
    }

    pub open spec fn is_white_win_spec(self) -> bool {
        matches!(self, GameResult::WhiteWin | GameResult::WhiteWinByDeclaration | GameResult::WhiteWinByForfeit | GameResult::WhiteWinByIllegalMove | GameResult::WhiteWinByTimeout | GameResult::WhiteWinByTryRule)
    }

    pub open spec fn is_draw_spec(self) -> bool {
        matches!(self, GameResult::DrawByRepetition | GameResult::DrawByMaxPlies | GameResult::DrawByImpasse)
    }

    /// The variant's name, as `Debug` prints it.
    pub open spec fn name_spec(self) -> Seq<char> {
        match self {
            GameResult::BlackWin => "BlackWin"@,
            GameResult::WhiteWin => "WhiteWin"@,
            GameResult::DrawByRepetition => "DrawByRepetition"@,
            GameResult::Error => "Error"@,
            GameResult::BlackWinByDeclaration => "BlackWinByDeclaration"@,
            GameResult::WhiteWinByDeclaration => "WhiteWinByDeclaration"@,
            GameResult::DrawByMaxPlies => "DrawByMaxPlies"@,
            GameResult::Invalid => "Invalid"@,
            GameResult::BlackWinByForfeit => "BlackWinByForfeit"@,
            GameResult::WhiteWinByForfeit => "WhiteWinByForfeit"@,
            GameResult::DrawByImpasse => "DrawByImpasse"@,
            GameResult::Paused => "Paused"@,
            GameResult::BlackWinByIllegalMove => "BlackWinByIllegalMove"@,
            GameResult::WhiteWinByIllegalMove => "WhiteWinByIllegalMove"@,
            GameResult::BlackWinByTimeout => "BlackWinByTimeout"@,
            GameResult::WhiteWinByTimeout => "WhiteWinByTimeout"@,
            GameResult::BlackWinByTryRule => "BlackWinByTryRule"@,
            GameResult::WhiteWinByTryRule => "WhiteWinByTryRule"@,
        }
    }

    /// The variant's name, as `Debug` prints it.
    pub fn name(self) -> (r: &'static str)
        ensures
            r@ == self.name_spec(),
    {
        match self {
            GameResult::BlackWin => "BlackWin",
            GameResult::WhiteWin => "WhiteWin",
            GameResult::DrawByRepetition => "DrawByRepetition",
            GameResult::Error => "Error",
            GameResult::BlackWinByDeclaration => "BlackWinByDeclaration",
            GameResult::WhiteWinByDeclaration => "WhiteWinByDeclaration",
            GameResult::DrawByMaxPlies => "DrawByMaxPlies",
            GameResult::Invalid => "Invalid",
            GameResult::BlackWinByForfeit => "BlackWinByForfeit",
            GameResult::WhiteWinByForfeit => "WhiteWinByForfeit",
            GameResult::DrawByImpasse => "DrawByImpasse",
            GameResult::Paused => "Paused",
            GameResult::BlackWinByIllegalMove => "BlackWinByIllegalMove",
            GameResult::WhiteWinByIllegalMove => "WhiteWinByIllegalMove",
            GameResult::BlackWinByTimeout => "BlackWinByTimeout",
            GameResult::WhiteWinByTimeout => "WhiteWinByTimeout",
            GameResult::BlackWinByTryRule => "BlackWinByTryRule",
            GameResult::WhiteWinByTryRule => "WhiteWinByTryRule",
        }
    }

    /// The numeric code of the outcome (`0..=13`, `16`, `17`, `20`, `21`).
    pub fn to_u8(self) -> (r: u8)
        ensures
            r == self.code_spec(),
    {
        match self {
            GameResult::BlackWin => 0,
            GameResult::WhiteWin => 1,
            GameResult::DrawByRepetition => 2,
            GameResult::Error => 3,
            GameResult::BlackWinByDeclaration => 4,
            GameResult::WhiteWinByDeclaration => 5,
            GameResult::DrawByMaxPlies => 6,
            GameResult::Invalid => 7,
            GameResult::BlackWinByForfeit => 8,
            GameResult::WhiteWinByForfeit => 9,
            GameResult::DrawByImpasse => 10,
            GameResult::Paused => 11,
            GameResult::BlackWinByIllegalMove => 12,
            GameResult::WhiteWinByIllegalMove => 13,
            GameResult::BlackWinByTimeout => 16,
            GameResult::WhiteWinByTimeout => 17,
            GameResult::BlackWinByTryRule => 20,
            GameResult::WhiteWinByTryRule => 21,
        }
    }

    pub fn is_black_win(self) -> (r: bool)
        ensures
            r == self.is_black_win_spec(),
    {
        matches!(self, GameResult::BlackWin | GameResult::BlackWinByDeclaration | GameResult::BlackWinByForfeit | GameResult::BlackWinByIllegalMove | GameResult::BlackWinByTimeout | GameResult::BlackWinByTryRule)
    }

    pub fn is_white_win(self) -> (r: bool)
        ensures
            r == self.is_white_win_spec(),
    {
        matches!(self, GameResult::WhiteWin | GameResult::WhiteWinByDeclaration | GameResult::WhiteWinByForfeit | GameResult::WhiteWinByIllegalMove | GameResult::WhiteWinByTimeout | GameResult::WhiteWinByTryRule)
    }

    pub fn is_draw(self) -> (r: bool)
        ensures
            r == self.is_draw_spec(),
    {
        matches!(self, GameResult::DrawByRepetition | GameResult::DrawByMaxPlies | GameResult::DrawByImpasse)
    }

    pub fn is_win(self) -> (r: bool)
        ensures
            r == (self.is_black_win_spec() || self.is_white_win_spec()),
    {
        self.is_black_win() || self.is_white_win()
    }

    pub fn is_win_by_declaration(self) -> (r: bool)
        ensures
            r == matches!(self, GameResult::BlackWinByDeclaration | GameResult::WhiteWinByDeclaration),
    {
        matches!(self, GameResult::BlackWinByDeclaration | GameResult::WhiteWinByDeclaration)
    }

    pub fn is_win_by_try_rule(self) -> (r: bool)
        ensures
            r == matches!(self, GameResult::BlackWinByTryRule | GameResult::WhiteWinByTryRule),
    {
        matches!(self, GameResult::BlackWinByTryRule | GameResult::WhiteWinByTryRule)
    }

    /// The winning side, `None` for draws and other outcomes.
    pub fn winner_color(self) -> (r: Option<Color>)
        ensures
            r == (if self.is_black_win_spec() {
                Some(Color::Black)
            } else if self.is_white_win_spec() {
                Some(Color::White)
            } else {
                None
            }),
    {
        if self.is_black_win() {
            Some(Color::Black)
        } else if self.is_white_win() {
            Some(Color::White)
        } else {
            None
        }
    }

    /// `1` when Black wins, `-1` when White wins, `0` otherwise.
    pub fn to_score(self) -> (r: i8)
        ensures
            r == (if self.is_black_win_spec() { 1 } else if self.is_white_win_spec() { -1 } else { 0 }),
    {
        if self.is_black_win() {
            1
        } else if self.is_white_win() {
            -1
        } else {
            0
        }
    }

    pub fn win_from_color(color: Color) -> (r: GameResult)
        ensures
            r == (if color == Color::Black { GameResult::BlackWin } else { GameResult::WhiteWin }),
    {
        match color {
            Color::Black => GameResult::BlackWin,
            Color::White => GameResult::WhiteWin,
        }
    }

    pub fn win_by_declaration_from_color(color: Color) -> (r: GameResult)
        ensures
            r == (if color == Color::Black { GameResult::BlackWinByDeclaration } else { GameResult::WhiteWinByDeclaration }),
    {
        match color {
            Color::Black => GameResult::BlackWinByDeclaration,
            Color::White => GameResult::WhiteWinByDeclaration,
        }
    }

    pub fn win_by_forfeit_from_color(color: Color) -> (r: GameResult)
        ensures
            r == (if color == Color::Black { GameResult::BlackWinByForfeit } else { GameResult::WhiteWinByForfeit }),
    {
        match color {
            Color::Black => GameResult::BlackWinByForfeit,
            Color::White => GameResult::WhiteWinByForfeit,
        }
    }

    pub fn win_by_illegal_move_from_color(color: Color) -> (r: GameResult)
        ensures
            r == (if color == Color::Black { GameResult::BlackWinByIllegalMove } else { GameResult::WhiteWinByIllegalMove }),
    {
        match color {
            Color::Black => GameResult::BlackWinByIllegalMove,
            Color::White => GameResult::WhiteWinByIllegalMove,
        }
    }

    pub fn win_by_timeout_from_color(color: Color) -> (r: GameResult)
        ensures
            r == (if color == Color::Black { GameResult::BlackWinByTimeout } else { GameResult::WhiteWinByTimeout }),
    {
        match color {
            Color::Black => GameResult::BlackWinByTimeout,
            Color::White => GameResult::WhiteWinByTimeout,
        }
    }
}

/// No outcome is both a Black win and a White win, and a draw is neither; the
/// winner of every `*_from_color` outcome is that color.
pub proof fn lemma_outcome_classes_disjoint(r: GameResult, c: Color)
    ensures
        !(r.is_black_win_spec() && r.is_white_win_spec()),
        r.is_draw_spec() ==> !r.is_black_win_spec() && !r.is_white_win_spec(),
        (if c == Color::Black { GameResult::BlackWin } else { GameResult::WhiteWin }).is_black_win_spec() == (c == Color::Black),
        (if c == Color::Black { GameResult::BlackWinByTimeout } else { GameResult::WhiteWinByTimeout }).is_white_win_spec() == (c == Color::White),
{
}

/// Distinct outcomes have distinct codes.
pub proof fn lemma_codes_distinct(a: GameResult, b: GameResult)
    ensures
        a.code_spec() == b.code_spec() ==> a == b,
{
}

impl core::default::Default for GameResult {
    fn default() -> (r: GameResult)
        ensures
            r == GameResult::Invalid,
    {
        GameResult::Invalid
    }
}

} // verus!
