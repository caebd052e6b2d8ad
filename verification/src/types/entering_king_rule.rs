//! Entering-king (nyugyoku) rules.
use vstd::prelude::*;

verus! {

/// The rule that decides a game where a king has entered the opponent's camp.
#[derive(Debug, Clone, Copy, PartialEq, Eq, Hash, Structural)]
pub enum EnteringKingRule {
    /// No declaration rule.
    NoDeclaration,
    /// The 24-point declaration rule.
    Point24,
    /// The 24-point declaration rule for handicap games.
    Point24Handicap,
    /// The 27-point declaration rule.
    Point27,
    /// The 27-point declaration rule for handicap games.
    Point27Handicap,
    /// The try rule.
    TryRule,
    /// No rule was chosen.
    Unset,
}

} // verus!
