//! Repetition (sennichite) states.
use vstd::prelude::*;
use crate::text::string_from_str;

verus! {

/// The repetition state of a position.
#[derive(Debug, Clone, Copy, PartialEq, Eq, Hash, Structural)]
pub enum RepetitionState {
    /// No repetition.
    NoRepetition,
    /// Perpetual check by the opponent: the side to move wins.
    Win,
    /// Perpetual check by the side to move: it loses.
    Lose,
    /// Ordinary repetition: a draw.
    Draw,
    /// The hand is superior to an earlier occurrence of the position.
    Superior,
    /// The hand is inferior to an earlier occurrence of the position.
    Inferior,
}

/// The USI extension token of a repetition state.
pub open spec fn repetition_usi_spec(s: RepetitionState) -> Seq<char> {
    match s {
        RepetitionState::NoRepetition => "rep_none"@,
        RepetitionState::Win => "rep_win"@,
        RepetitionState::Lose => "rep_lose"@,
        RepetitionState::Draw => "rep_draw"@,
        RepetitionState::Superior => "rep_sup"@,
        RepetitionState::Inferior => "rep_inf"@,
    }
}

impl RepetitionState {
    /// Number of repetition states.
    pub const COUNT: usize = 6;

    /// The USI extension token of the state.
    pub fn to_usi(self) -> (r: &'static str)
        ensures
            r@ == repetition_usi_spec(self),
    {
        match self {
            RepetitionState::NoRepetition => "rep_none",
            RepetitionState::Win => "rep_win",
            RepetitionState::Lose => "rep_lose",
            RepetitionState::Draw => "rep_draw",
            RepetitionState::Superior => "rep_sup",
            RepetitionState::Inferior => "rep_inf",
        }
    }

    /// The USI extension token, as `Display` prints it.
    pub fn to_string(&self) -> (r: String)
        ensures
            r@ == repetition_usi_spec(*self),
    {
        string_from_str(self.to_usi())
    }
}

impl core::default::Default for RepetitionState {
    fn default() -> (r: RepetitionState)
        ensures
            r == RepetitionState::NoRepetition,
    {
        RepetitionState::NoRepetition
    }
}

} // verus!
