//! Self-play training data in the `SAZ2` chunk format.
//!
//! A chunk is the magic `SAZ2`, the version byte `1`, a zero flags byte, the
//! little-endian `u32` length of the payload, then the payload: the games one
//! after another. A game is its 32-byte packed SFEN stem, the result,
//! termination-reason and entering-king-rule bytes, the ULEB128 count of its
//! positions and the positions. A position is the played move, the root and
//! outcome win/draw/loss distributions, plies left, requested visits, target
//! weight, exploration flags, an optional mate distance (tag `0`, or tag `1`
//! and an `i16`), the ULEB128 count of policy entries and the entries. A
//! policy entry is the move, its prior, the ULEB128 visit counts before and
//! after the search and the lower and upper outcome bounds.
use vstd::prelude::*;
use crate::board::PackedSfen;
use crate::records::formats::sbinpack::{
    decode_uleb128_u32_bounded, encode_uleb128_u32, game_result_from_u8, game_result_from_u8_spec,
    lemma_game_result_code_roundtrip, lemma_uleb_roundtrip, uleb_bytes, uleb_decode_spec,
};
use crate::records::formats::wire::{
    array32_of, concat_bytes, i16_bits, i16_of_bits, le16, le32, lemma_array32_of, lemma_concat_bytes_push, lemma_i16_bits_roundtrip, lemma_le16_roundtrip,
    lemma_le32_roundtrip, push_all, push_i16, push_u16, push_u32, read_array32, read_u16, read_u32, u16_of, u32_of,
};
use crate::types::entering_king_rule::EnteringKingRule;
use crate::types::game_result::GameResult;
use crate::types::moves::Move;

verus! {

/// The chunk magic `SAZ2`.
pub const SAZPACK_SELFPLAY_MAGIC: [u8; 4] = [83, 65, 90, 50];

/// The format version.
pub const SAZPACK_SELFPLAY_VERSION: u8 = 1;

const HEADER_LEN: usize = 10;

const POSITION_FIXED_LEN: usize = 24;

const POLICY_ENTRY_MIN_LEN: usize = 8;

/// Errors of the self-play chunk codec.
#[derive(Debug, Clone, Copy, PartialEq, Eq, Structural)]
pub enum SazSelfplayError {
    /// The chunk does not start with `SAZ2`.
    InvalidMagic,
    /// The version byte is not 1.
    UnsupportedVersion(u8),
    /// The flags byte is not 0.
    UnsupportedFlags(u8),
    /// The data ends early.
    Truncated,
    /// Bytes follow the declared payload.
    TrailingBytes,
    /// A game result byte names no result.
    InvalidGameResult(u8),
    /// A termination reason byte names no reason.
    InvalidTerminationReason(u8),
    /// An entering-king rule byte names no rule.
    InvalidEnteringKingRule(u8),
    /// An outcome bound byte names no bound.
    InvalidOutcomeBound(u8),
    /// The optional mate tag is neither 0 nor 1.
    InvalidMateTag(u8),
    /// A count does not fit in a `u32`.
    CountOverflow,
    /// A policy entry has fewer visits after the search than before.
    DecreasingVisits,
    /// A quantized distribution does not sum to 65535.
    InvalidDistributionSum,
}

impl SazSelfplayError {
    /// The message of the error (numbers in decimal).
    pub open spec fn message(self) -> Seq<char> {
        match self {
            SazSelfplayError::InvalidMagic => "invalid sazpack selfplay magic"@,
            SazSelfplayError::UnsupportedVersion(v) => "unsupported sazpack selfplay version: "@ + crate::text::decimal(v as nat),
            SazSelfplayError::UnsupportedFlags(v) => "unsupported sazpack selfplay flags: "@ + crate::text::decimal(v as nat),
            SazSelfplayError::Truncated => "truncated sazpack selfplay data"@,
            SazSelfplayError::TrailingBytes => "trailing bytes after sazpack selfplay chunk"@,
            SazSelfplayError::InvalidGameResult(v) => "invalid game result: "@ + crate::text::decimal(v as nat),
            SazSelfplayError::InvalidTerminationReason(v) => "invalid termination reason: "@ + crate::text::decimal(v as nat),
            SazSelfplayError::InvalidEnteringKingRule(v) => "invalid entering king rule: "@ + crate::text::decimal(v as nat),
            SazSelfplayError::InvalidOutcomeBound(v) => "invalid outcome bound: "@ + crate::text::decimal(v as nat),
            SazSelfplayError::InvalidMateTag(v) => "invalid optional mate tag: "@ + crate::text::decimal(v as nat),
            SazSelfplayError::CountOverflow => "count exceeds u32"@,
            SazSelfplayError::DecreasingVisits => "policy visits decreased"@,
            SazSelfplayError::InvalidDistributionSum => "quantized distribution must sum to 65535"@,
        }
    }

    /// The message of the error (see [`SazSelfplayError::message`]).
    pub fn to_string(&self) -> (r: String)
        ensures
            r@ == self.message(),
    {
        match *self {
            SazSelfplayError::InvalidMagic => crate::text::string_from_str("invalid sazpack selfplay magic"),
            SazSelfplayError::UnsupportedVersion(v) => {
                let mut s = crate::text::string_from_str("unsupported sazpack selfplay version: ");
                crate::text::push_decimal(&mut s, v as u64);
                s
            },
            SazSelfplayError::UnsupportedFlags(v) => {
                let mut s = crate::text::string_from_str("unsupported sazpack selfplay flags: ");
                crate::text::push_decimal(&mut s, v as u64);
                s
            },
            SazSelfplayError::Truncated => crate::text::string_from_str("truncated sazpack selfplay data"),
            SazSelfplayError::TrailingBytes => crate::text::string_from_str("trailing bytes after sazpack selfplay chunk"),
            SazSelfplayError::InvalidGameResult(v) => {
                let mut s = crate::text::string_from_str("invalid game result: ");
                crate::text::push_decimal(&mut s, v as u64);
                s
            },
            SazSelfplayError::InvalidTerminationReason(v) => {
                let mut s = crate::text::string_from_str("invalid termination reason: ");
                crate::text::push_decimal(&mut s, v as u64);
                s
            },
            SazSelfplayError::InvalidEnteringKingRule(v) => {
                let mut s = crate::text::string_from_str("invalid entering king rule: ");
                crate::text::push_decimal(&mut s, v as u64);
                s
            },
            SazSelfplayError::InvalidOutcomeBound(v) => {
                let mut s = crate::text::string_from_str("invalid outcome bound: ");
                crate::text::push_decimal(&mut s, v as u64);
                s
            },
            SazSelfplayError::InvalidMateTag(v) => {
                let mut s = crate::text::string_from_str("invalid optional mate tag: ");
                crate::text::push_decimal(&mut s, v as u64);
                s
            },
            SazSelfplayError::CountOverflow => crate::text::string_from_str("count exceeds u32"),
            SazSelfplayError::DecreasingVisits => crate::text::string_from_str("policy visits decreased"),
            SazSelfplayError::InvalidDistributionSum => crate::text::string_from_str("quantized distribution must sum to 65535"),
        }
    }
}

/// Why a self-play game ended.
#[derive(Clone, Copy, Debug, Eq, PartialEq, Structural)]
pub enum SazTerminationReason {
    NoLegalMoves,
    RepetitionDraw,
    PerpetualCheckWin,
    PerpetualCheckLoss,
    RepetitionSuperior,
    RepetitionInferior,
    EnteringKingDeclaration,
    MaxGamePlies,
}

impl SazTerminationReason {
    /// The stored byte: the variant's position, from 0.
    pub open spec fn code_spec(self) -> u8 {
        match self {
            SazTerminationReason::NoLegalMoves => 0,
            SazTerminationReason::RepetitionDraw => 1,
            SazTerminationReason::PerpetualCheckWin => 2,
            SazTerminationReason::PerpetualCheckLoss => 3,
            SazTerminationReason::RepetitionSuperior => 4,
            SazTerminationReason::RepetitionInferior => 5,
            SazTerminationReason::EnteringKingDeclaration => 6,
            SazTerminationReason::MaxGamePlies => 7,
        }
    }

    /// The stored byte.
    pub fn to_u8(self) -> (r: u8)
        ensures
            r == self.code_spec(),
    {
        match self {
            SazTerminationReason::NoLegalMoves => 0,
            SazTerminationReason::RepetitionDraw => 1,
            SazTerminationReason::PerpetualCheckWin => 2,
            SazTerminationReason::PerpetualCheckLoss => 3,
            SazTerminationReason::RepetitionSuperior => 4,
            SazTerminationReason::RepetitionInferior => 5,
            SazTerminationReason::EnteringKingDeclaration => 6,
            SazTerminationReason::MaxGamePlies => 7,
        }
    }
}

/// The reason a stored byte names.
pub open spec fn termination_from_u8_spec(value: u8) -> Option<SazTerminationReason> {
    if value == 0 { Some(SazTerminationReason::NoLegalMoves) }
    else if value == 1 { Some(SazTerminationReason::RepetitionDraw) }
    else if value == 2 { Some(SazTerminationReason::PerpetualCheckWin) }
    else if value == 3 { Some(SazTerminationReason::PerpetualCheckLoss) }
    else if value == 4 { Some(SazTerminationReason::RepetitionSuperior) }
    else if value == 5 { Some(SazTerminationReason::RepetitionInferior) }
    else if value == 6 { Some(SazTerminationReason::EnteringKingDeclaration) }
    else if value == 7 { Some(SazTerminationReason::MaxGamePlies) }
    else { None }
}

impl vstd::std_specs::convert::TryFromSpecImpl<u8> for SazTerminationReason {
    open spec fn obeys_try_from_spec() -> bool {
        true
    }

    open spec fn try_from_spec(value: u8) -> Result<SazTerminationReason, SazSelfplayError> {
        match termination_from_u8_spec(value) {
            Some(t) => Ok(t),
            None => Err(SazSelfplayError::InvalidTerminationReason(value)),
        }
    }
}

impl core::convert::TryFrom<u8> for SazTerminationReason {
    type Error = SazSelfplayError;

    fn try_from(value: u8) -> (r: Result<SazTerminationReason, SazSelfplayError>) {
        if value == 0 { Ok(SazTerminationReason::NoLegalMoves) }
        else if value == 1 { Ok(SazTerminationReason::RepetitionDraw) }
        else if value == 2 { Ok(SazTerminationReason::PerpetualCheckWin) }
        else if value == 3 { Ok(SazTerminationReason::PerpetualCheckLoss) }
        else if value == 4 { Ok(SazTerminationReason::RepetitionSuperior) }
        else if value == 5 { Ok(SazTerminationReason::RepetitionInferior) }
        else if value == 6 { Ok(SazTerminationReason::EnteringKingDeclaration) }
        else if value == 7 { Ok(SazTerminationReason::MaxGamePlies) }
        else { Err(SazSelfplayError::InvalidTerminationReason(value)) }
    }
}

/// A bound on the outcome of a move.
#[derive(Clone, Copy, Debug, Eq, PartialEq, Structural)]
pub enum SazOutcomeBound {
    Loss,
    Draw,
    Win,
}

impl SazOutcomeBound {
    /// The stored byte: 0, 1, 2 for loss, draw, win.
    pub open spec fn code_spec(self) -> u8 {
        match self {
            SazOutcomeBound::Loss => 0,
            SazOutcomeBound::Draw => 1,
            SazOutcomeBound::Win => 2,
        }
    }

    /// The stored byte.
    pub fn to_u8(self) -> (r: u8)
        ensures
            r == self.code_spec(),
    {
        match self {
            SazOutcomeBound::Loss => 0,
            SazOutcomeBound::Draw => 1,
            SazOutcomeBound::Win => 2,
        }
    }
}

/// The bound a stored byte names.
pub open spec fn bound_from_u8_spec(value: u8) -> Option<SazOutcomeBound> {
    if value == 0 {
        Some(SazOutcomeBound::Loss)
    } else if value == 1 {
        Some(SazOutcomeBound::Draw)
    } else if value == 2 {
        Some(SazOutcomeBound::Win)
    } else {
        None
    }
}

impl vstd::std_specs::convert::TryFromSpecImpl<u8> for SazOutcomeBound {
    open spec fn obeys_try_from_spec() -> bool {
        true
    }

    open spec fn try_from_spec(value: u8) -> Result<SazOutcomeBound, SazSelfplayError> {
        match bound_from_u8_spec(value) {
            Some(b) => Ok(b),
            None => Err(SazSelfplayError::InvalidOutcomeBound(value)),
        }
    }
}

impl core::convert::TryFrom<u8> for SazOutcomeBound {
    type Error = SazSelfplayError;

    fn try_from(value: u8) -> (r: Result<SazOutcomeBound, SazSelfplayError>) {
        if value == 0 {
            Ok(SazOutcomeBound::Loss)
        } else if value == 1 {
            Ok(SazOutcomeBound::Draw)
        } else if value == 2 {
            Ok(SazOutcomeBound::Win)
        } else {
            Err(SazSelfplayError::InvalidOutcomeBound(value))
        }
    }
}

/// The stored byte of an entering-king rule: the variant's position, from 0.
pub open spec fn rule_code_spec(rule: EnteringKingRule) -> u8 {
    match rule {
        EnteringKingRule::NoDeclaration => 0,
        EnteringKingRule::Point24 => 1,
        EnteringKingRule::Point24Handicap => 2,
        EnteringKingRule::Point27 => 3,
        EnteringKingRule::Point27Handicap => 4,
        EnteringKingRule::TryRule => 5,
        EnteringKingRule::Unset => 6,
    }
}

/// The rule a stored byte names.
pub open spec fn rule_from_u8_spec(value: u8) -> Option<EnteringKingRule> {
    if value == 0 { Some(EnteringKingRule::NoDeclaration) }
    else if value == 1 { Some(EnteringKingRule::Point24) }
    else if value == 2 { Some(EnteringKingRule::Point24Handicap) }
    else if value == 3 { Some(EnteringKingRule::Point27) }
    else if value == 4 { Some(EnteringKingRule::Point27Handicap) }
    else if value == 5 { Some(EnteringKingRule::TryRule) }
    else if value == 6 { Some(EnteringKingRule::Unset) }
    else { None }
}

fn entering_king_rule_to_u8(rule: EnteringKingRule) -> (r: u8)
    ensures
        r == rule_code_spec(rule),
{
    match rule {
        EnteringKingRule::NoDeclaration => 0,
        EnteringKingRule::Point24 => 1,
        EnteringKingRule::Point24Handicap => 2,
        EnteringKingRule::Point27 => 3,
        EnteringKingRule::Point27Handicap => 4,
        EnteringKingRule::TryRule => 5,
        EnteringKingRule::Unset => 6,
    }
}

fn entering_king_rule_from_u8(value: u8) -> (r: Result<EnteringKingRule, SazSelfplayError>)
    ensures
        r == (match rule_from_u8_spec(value) {
            Some(rule) => Ok(rule),
            None => Err(SazSelfplayError::InvalidEnteringKingRule(value)),
        }),
{
    if value == 0 { Ok(EnteringKingRule::NoDeclaration) }
    else if value == 1 { Ok(EnteringKingRule::Point24) }
    else if value == 2 { Ok(EnteringKingRule::Point24Handicap) }
    else if value == 3 { Ok(EnteringKingRule::Point27) }
    else if value == 4 { Ok(EnteringKingRule::Point27Handicap) }
    else if value == 5 { Ok(EnteringKingRule::TryRule) }
    else if value == 6 { Ok(EnteringKingRule::Unset) }
    else { Err(SazSelfplayError::InvalidEnteringKingRule(value)) }
}

/// A win/draw/loss distribution quantized to parts of 65535.
#[derive(Clone, Copy, Debug, Eq, PartialEq, Structural)]
pub struct SazWdl {
    pub win: u16,
    pub draw: u16,
    pub loss: u16,
}

impl SazWdl {
    /// The sum every quantized distribution has.
    #[allow(non_snake_case)]
    pub fn TOTAL() -> (r: u32)
        ensures
            r == 65535,
    {
        65535
    }

    /// Whether the three parts sum to 65535.
    pub open spec fn is_valid(self) -> bool {
        self.win + self.draw + self.loss == 65535
    }

    fn validate(self) -> (r: Result<(), SazSelfplayError>)
        ensures
            self.is_valid() ==> r is Ok,
            !self.is_valid() ==> r == Err::<(), SazSelfplayError>(SazSelfplayError::InvalidDistributionSum),
    {
        if (self.win as u32) + (self.draw as u32) + (self.loss as u32) == SazWdl::TOTAL() {
            Ok(())
        } else {
            Err(SazSelfplayError::InvalidDistributionSum)
        }
    }
}

/// One move of a position's policy.
#[derive(Clone, Copy, Debug, Eq, PartialEq)]
pub struct SazSelfplayPolicyEntry {
    pub mv: Move,
    pub prior: u16,
    pub visits_before: u32,
    pub visits_after: u32,
    pub lower: SazOutcomeBound,
    pub upper: SazOutcomeBound,
}

/// One position of a self-play game.
#[derive(Clone, Debug, Eq, PartialEq)]
pub struct SazSelfplayPosition {
    pub played: Move,
    pub root_wdl: SazWdl,
    pub outcome_wdl: SazWdl,
    pub plies_left: u16,
    pub requested_visits: u32,
    pub target_weight_milli: u16,
    pub exploration_flags: u8,
    pub mate: Option<i16>,
    pub policy: Vec<SazSelfplayPolicyEntry>,
}

/// One self-play game.
#[derive(Clone, Debug, Eq, PartialEq)]
pub struct SazSelfplayGame {
    pub stem_packed_sfen: PackedSfen,
    pub game_result: GameResult,
    pub termination_reason: SazTerminationReason,
    pub entering_king_rule: EnteringKingRule,
    pub positions: Vec<SazSelfplayPosition>,
}

/// A decoded game together with its exact payload byte range in the source chunk.
#[derive(Debug, Eq, PartialEq)]
pub struct IndexedSazSelfplayGame {
    pub game: SazSelfplayGame,
    pub payload_range: core::ops::Range<usize>,
}

impl Clone for IndexedSazSelfplayGame {
    fn clone(&self) -> (r: IndexedSazSelfplayGame)
        ensures
            r.payload_range == self.payload_range,
    {
        IndexedSazSelfplayGame {
            game: self.game.clone(),
            payload_range: core::ops::Range { start: self.payload_range.start, end: self.payload_range.end },
        }
    }
}

/// The value of a position: its fields, with the policy as a sequence.
pub struct SazPositionModel {
    pub played: Move,
    pub root_wdl: SazWdl,
    pub outcome_wdl: SazWdl,
    pub plies_left: u16,
    pub requested_visits: u32,
    pub target_weight_milli: u16,
    pub exploration_flags: u8,
    pub mate: Option<i16>,
    pub policy: Seq<SazSelfplayPolicyEntry>,
}

/// The value of a game: its fields, with the positions as a sequence of their
/// values.
pub struct SazGameModel {
    pub stem: PackedSfen,
    pub game_result: GameResult,
    pub termination_reason: SazTerminationReason,
    pub entering_king_rule: EnteringKingRule,
    pub positions: Seq<SazPositionModel>,
}

impl SazSelfplayPosition {
    pub open spec fn model(&self) -> SazPositionModel {
        SazPositionModel {
            played: self.played,
            root_wdl: self.root_wdl,
            outcome_wdl: self.outcome_wdl,
            plies_left: self.plies_left,
            requested_visits: self.requested_visits,
            target_weight_milli: self.target_weight_milli,
            exploration_flags: self.exploration_flags,
            mate: self.mate,
            policy: self.policy@,
        }
    }
}

/// The values of a run of positions.
pub open spec fn position_models(ps: Seq<SazSelfplayPosition>) -> Seq<SazPositionModel> {
    ps.map_values(|p: SazSelfplayPosition| p.model())
}

impl SazSelfplayGame {
    pub open spec fn model(&self) -> SazGameModel {
        SazGameModel {
            stem: self.stem_packed_sfen,
            game_result: self.game_result,
            termination_reason: self.termination_reason,
            entering_king_rule: self.entering_king_rule,
            positions: position_models(self.positions@),
        }
    }
}

/// The values of a run of games.
pub open spec fn game_models(gs: Seq<SazSelfplayGame>) -> Seq<SazGameModel> {
    gs.map_values(|g: SazSelfplayGame| g.model())
}

proof fn lemma_policy_bytes_step(h: Seq<u8>, s: Seq<SazSelfplayPolicyEntry>, i: int)
    requires
        0 <= i < s.len(),
    ensures
        h + policy_bytes(s.take(i)) + policy_entry_bytes(s[i]) == h + policy_bytes(s.take(i + 1)),
{
    lemma_concat_bytes_push(s.take(i), |e: SazSelfplayPolicyEntry| policy_entry_bytes(e), s[i]);
    assert(s.take(i + 1) =~= s.take(i).push(s[i]));
    assert(h + policy_bytes(s.take(i)) + policy_entry_bytes(s[i]) =~= h + policy_bytes(s.take(i + 1)));
}

proof fn lemma_positions_bytes_step(h: Seq<u8>, s: Seq<SazPositionModel>, i: int)
    requires
        0 <= i < s.len(),
    ensures
        h + positions_bytes(s.take(i)) + position_bytes(s[i]) == h + positions_bytes(s.take(i + 1)),
{
    lemma_concat_bytes_push(s.take(i), |p: SazPositionModel| position_bytes(p), s[i]);
    assert(s.take(i + 1) =~= s.take(i).push(s[i]));
    assert(h + positions_bytes(s.take(i)) + position_bytes(s[i]) =~= h + positions_bytes(s.take(i + 1)));
}

proof fn lemma_games_bytes_step(s: Seq<SazGameModel>, i: int)
    requires
        0 <= i < s.len(),
    ensures
        games_bytes(s.take(i)) + game_bytes(s[i]) == games_bytes(s.take(i + 1)),
{
    lemma_concat_bytes_push(s.take(i), |g: SazGameModel| game_bytes(g), s[i]);
    assert(s.take(i + 1) =~= s.take(i).push(s[i]));
}

/// The bytes of a distribution: win, draw, loss.
pub open spec fn wdl_bytes(w: SazWdl) -> Seq<u8> {
    le16(w.win) + le16(w.draw) + le16(w.loss)
}

/// The bytes of the optional mate distance.
pub open spec fn mate_bytes(m: Option<i16>) -> Seq<u8> {
    match m {
        Some(v) => seq![1u8] + le16(i16_bits(v)),
        None => seq![0u8],
    }
}

/// The bytes of a policy entry.
pub open spec fn policy_entry_bytes(e: SazSelfplayPolicyEntry) -> Seq<u8> {
    le16(e.mv.0) + le16(e.prior) + uleb_bytes(e.visits_before as nat) + uleb_bytes(e.visits_after as nat) + seq![
        e.lower.code_spec(),
        e.upper.code_spec(),
    ]
}

/// The bytes of a run of policy entries.
pub open spec fn policy_bytes(s: Seq<SazSelfplayPolicyEntry>) -> Seq<u8> {
    concat_bytes(s, |e: SazSelfplayPolicyEntry| policy_entry_bytes(e))
}

/// The bytes of a position.
pub open spec fn position_bytes(p: SazPositionModel) -> Seq<u8> {
    le16(p.played.0) + wdl_bytes(p.root_wdl) + wdl_bytes(p.outcome_wdl) + le16(p.plies_left) + le32(
        p.requested_visits,
    ) + le16(p.target_weight_milli) + seq![p.exploration_flags] + mate_bytes(p.mate) + uleb_bytes(p.policy.len())
        + policy_bytes(p.policy)
}

/// The bytes of a run of positions.
pub open spec fn positions_bytes(s: Seq<SazPositionModel>) -> Seq<u8> {
    concat_bytes(s, |p: SazPositionModel| position_bytes(p))
}

/// The bytes of a game.
pub open spec fn game_bytes(g: SazGameModel) -> Seq<u8> {
    g.stem.data@ + seq![
        g.game_result.code_spec(),
        g.termination_reason.code_spec(),
        rule_code_spec(g.entering_king_rule),
    ] + uleb_bytes(g.positions.len()) + positions_bytes(g.positions)
}

/// The payload of a chunk: the bytes of its games.
pub open spec fn games_bytes(s: Seq<SazGameModel>) -> Seq<u8> {
    concat_bytes(s, |g: SazGameModel| game_bytes(g))
}

/// A chunk: magic, version, flags, payload length and payload.
pub open spec fn chunk_bytes(payload: Seq<u8>) -> Seq<u8> {
    seq![83u8, 65u8, 90u8, 50u8, 1u8, 0u8] + le32(payload.len() as u32) + payload
}

/// The sum of the priors of a run of policy entries.
pub open spec fn prior_sum(s: Seq<SazSelfplayPolicyEntry>) -> int
    decreases s.len(),
{
    if s.len() == 0 {
        0
    } else {
        prior_sum(s.drop_last()) + s.last().prior
    }
}

/// Whether no entry has fewer visits after the search than before.
pub open spec fn visits_nondecreasing(s: Seq<SazSelfplayPolicyEntry>) -> bool {
    forall|i: int| 0 <= i < s.len() ==> (#[trigger] s[i]).visits_before <= s[i].visits_after
}

/// Why a position cannot be written: a distribution that does not sum to
/// 65535, a policy entry whose visits decrease, priors that do not sum to
/// 65535, or more entries than a `u32` counts; checked in that order.
pub open spec fn position_error(p: SazPositionModel) -> Option<SazSelfplayError> {
    if !p.root_wdl.is_valid() || !p.outcome_wdl.is_valid() {
        Some(SazSelfplayError::InvalidDistributionSum)
    } else if !visits_nondecreasing(p.policy) {
        Some(SazSelfplayError::DecreasingVisits)
    } else if prior_sum(p.policy) != 65535 {
        Some(SazSelfplayError::InvalidDistributionSum)
    } else if p.policy.len() > 0xffff_ffff {
        Some(SazSelfplayError::CountOverflow)
    } else {
        None
    }
}

/// The error of the first position that cannot be written.
pub open spec fn positions_error(s: Seq<SazPositionModel>) -> Option<SazSelfplayError>
    decreases s.len(),
{
    if s.len() == 0 {
        None
    } else {
        match position_error(s[0]) {
            Some(e) => Some(e),
            None => positions_error(s.drop_first()),
        }
    }
}

/// Why a game cannot be written: more positions than a `u32` counts, or the
/// first position that cannot be written.
pub open spec fn game_error(g: SazGameModel) -> Option<SazSelfplayError> {
    if g.positions.len() > 0xffff_ffff {
        Some(SazSelfplayError::CountOverflow)
    } else {
        positions_error(g.positions)
    }
}

/// The error of the first game that cannot be written.
pub open spec fn games_error(s: Seq<SazGameModel>) -> Option<SazSelfplayError>
    decreases s.len(),
{
    if s.len() == 0 {
        None
    } else {
        match game_error(s[0]) {
            Some(e) => Some(e),
            None => games_error(s.drop_first()),
        }
    }
}

/// What writing a chunk of games gives: the first error of a game, an overflow
/// when the payload is longer than a `u32` counts, or the chunk's bytes.
pub open spec fn serialize_spec(gs: Seq<SazGameModel>) -> Result<Seq<u8>, SazSelfplayError> {
    match games_error(gs) {
        Some(e) => Err(e),
        None => if games_bytes(gs).len() > 0xffff_ffff {
            Err(SazSelfplayError::CountOverflow)
        } else {
            Ok(chunk_bytes(games_bytes(gs)))
        },
    }
}

proof fn lemma_error_skip_position(s: Seq<SazPositionModel>, i: int)
    requires
        0 <= i < s.len(),
        position_error(s[i]) is None,
    ensures
        positions_error(s.skip(i)) == positions_error(s.skip(i + 1)),
{
    assert(s.skip(i).drop_first() =~= s.skip(i + 1));
    assert(s.skip(i)[0] == s[i]);
}

proof fn lemma_error_skip_game(s: Seq<SazGameModel>, i: int)
    requires
        0 <= i < s.len(),
        game_error(s[i]) is None,
    ensures
        games_error(s.skip(i)) == games_error(s.skip(i + 1)),
{
    assert(s.skip(i).drop_first() =~= s.skip(i + 1));
    assert(s.skip(i)[0] == s[i]);
}

/// Appends the bytes of a policy entry.
fn serialize_policy_entry(entry: &SazSelfplayPolicyEntry, out: &mut Vec<u8>)
    ensures
        final(out)@ == old(out)@ + policy_entry_bytes(*entry),
{
    push_u16(out, entry.mv.raw());
    push_u16(out, entry.prior);
    encode_uleb128_u32(entry.visits_before, out);
    encode_uleb128_u32(entry.visits_after, out);
    out.push(entry.lower.to_u8());
    out.push(entry.upper.to_u8());
    assert(out@ =~= old(out)@ + policy_entry_bytes(*entry));
}

/// The sum of the priors, or 65536 when it passes 65535.
fn capped_prior_sum(policy: &Vec<SazSelfplayPolicyEntry>) -> (r: u32)
    ensures
        r == (if prior_sum(policy@) > 65535 { 65536 } else { prior_sum(policy@) }),
{
    let n = policy.len();
    let mut sum: u32 = 0;
    let mut i: usize = 0;
    while i < n
        invariant
            n == policy@.len(),
            i <= n,
            sum == (if prior_sum(policy@.take(i as int)) > 65535 {
                65536
            } else {
                prior_sum(policy@.take(i as int))
            }),
        decreases n - i,
    {
        assert(policy@.take(i + 1).drop_last() =~= policy@.take(i as int));
        let next = sum + policy[i].prior as u32;
        sum = if next > 65535 { 65536 } else { next };
        i += 1;
    }
    assert(policy@.take(n as int) =~= policy@);
    sum
}

/// Checks the visits and priors of a policy.
fn check_policy(policy: &Vec<SazSelfplayPolicyEntry>) -> (r: Result<(), SazSelfplayError>)
    ensures
        !visits_nondecreasing(policy@) ==> r == Err::<(), SazSelfplayError>(SazSelfplayError::DecreasingVisits),
        visits_nondecreasing(policy@) && prior_sum(policy@) != 65535 ==> r == Err::<(), SazSelfplayError>(
            SazSelfplayError::InvalidDistributionSum,
        ),
        visits_nondecreasing(policy@) && prior_sum(policy@) == 65535 ==> r is Ok,
{
    let n = policy.len();
    let mut i: usize = 0;
    while i < n
        invariant
            n == policy@.len(),
            i <= n,
            forall|j: int| 0 <= j < i ==> (#[trigger] policy@[j]).visits_before <= policy@[j].visits_after,
        decreases n - i,
    {
        if policy[i].visits_after < policy[i].visits_before {
            assert(!visits_nondecreasing(policy@)) by {
                assert(policy@[i as int].visits_after < policy@[i as int].visits_before);
            }
            return Err(SazSelfplayError::DecreasingVisits);
        }
        i += 1;
    }
    if capped_prior_sum(policy) != SazWdl::TOTAL() {
        return Err(SazSelfplayError::InvalidDistributionSum);
    }
    Ok(())
}

/// Appends the fixed fields and the optional mate distance of a position.
fn write_position_head(position: &SazSelfplayPosition, out: &mut Vec<u8>)
    ensures
        final(out)@ == old(out)@ + le16(position.played.0) + wdl_bytes(position.root_wdl) + wdl_bytes(
            position.outcome_wdl,
        ) + le16(position.plies_left) + le32(position.requested_visits) + le16(position.target_weight_milli)
            + seq![position.exploration_flags] + mate_bytes(position.mate),
{
    push_u16(out, position.played.raw());
    push_u16(out, position.root_wdl.win);
    push_u16(out, position.root_wdl.draw);
    push_u16(out, position.root_wdl.loss);
    push_u16(out, position.outcome_wdl.win);
    push_u16(out, position.outcome_wdl.draw);
    push_u16(out, position.outcome_wdl.loss);
    push_u16(out, position.plies_left);
    push_u32(out, position.requested_visits);
    push_u16(out, position.target_weight_milli);
    out.push(position.exploration_flags);
    match position.mate {
        Some(value) => {
            out.push(1);
            push_i16(out, value);
        },
        None => out.push(0),
    }
    assert(out@ =~= old(out)@ + le16(position.played.0) + wdl_bytes(position.root_wdl) + wdl_bytes(
        position.outcome_wdl,
    ) + le16(position.plies_left) + le32(position.requested_visits) + le16(position.target_weight_milli)
        + seq![position.exploration_flags] + mate_bytes(position.mate));
}

/// Appends the bytes of a run of policy entries.
fn write_policy(policy: &Vec<SazSelfplayPolicyEntry>, out: &mut Vec<u8>)
    ensures
        final(out)@ == old(out)@ + policy_bytes(policy@),
{
    let n = policy.len();
    let mut i: usize = 0;
    assert(policy@.take(0) =~= Seq::<SazSelfplayPolicyEntry>::empty());
    assert(old(out)@ + policy_bytes(Seq::<SazSelfplayPolicyEntry>::empty()) =~= old(out)@);
    while i < n
        invariant
            n == policy@.len(),
            i <= n,
            out@ == old(out)@ + policy_bytes(policy@.take(i as int)),
        decreases n - i,
    {
        serialize_policy_entry(&policy[i], out);
        proof {
            lemma_policy_bytes_step(old(out)@, policy@, i as int);
        }
        i += 1;
    }
    assert(policy@.take(n as int) =~= policy@);
}

/// Appends the bytes of a position, after checking it (see [`position_error`]).
fn serialize_position(position: &SazSelfplayPosition, out: &mut Vec<u8>) -> (r: Result<(), SazSelfplayError>)
    ensures
        match position_error(position.model()) {
            Some(e) => r == Err::<(), SazSelfplayError>(e),
            None => r is Ok && final(out)@ == old(out)@ + position_bytes(position.model()),
        },
{
    position.root_wdl.validate()?;
    position.outcome_wdl.validate()?;
    check_policy(&position.policy)?;
    let n = position.policy.len();
    if n > 0xffff_ffff {
        return Err(SazSelfplayError::CountOverflow);
    }
    let ghost start = out@;
    write_position_head(position, out);
    encode_uleb128_u32(n as u32, out);
    write_policy(&position.policy, out);
    assert(out@ =~= start + position_bytes(position.model()));
    Ok(())
}

/// Appends the bytes of a game, after checking it (see [`game_error`]).
fn serialize_game(game: &SazSelfplayGame, out: &mut Vec<u8>) -> (r: Result<(), SazSelfplayError>)
    ensures
        match game_error(game.model()) {
            Some(e) => r == Err::<(), SazSelfplayError>(e),
            None => r is Ok && final(out)@ == old(out)@ + game_bytes(game.model()),
        },
{
    let ghost start = out@;
    let ghost ps = position_models(game.positions@);
    push_all(out, game.stem_packed_sfen.data.as_slice());
    out.push(game.game_result.to_u8());
    out.push(game.termination_reason.to_u8());
    out.push(entering_king_rule_to_u8(game.entering_king_rule));
    let n = game.positions.len();
    if n > 0xffff_ffff {
        return Err(SazSelfplayError::CountOverflow);
    }
    encode_uleb128_u32(n as u32, out);
    let ghost head = out@;
    let mut i: usize = 0;
    assert(ps.take(0) =~= Seq::<SazPositionModel>::empty());
    assert(ps.skip(0) =~= ps);
    while i < n
        invariant
            n == game.positions@.len(),
            n <= 0xffff_ffff,
            ps == position_models(game.positions@),
            i <= n,
            out@ == head + positions_bytes(ps.take(i as int)),
            positions_error(ps) == positions_error(ps.skip(i as int)),
        decreases n - i,
    {
        let ghost before = out@;
        let res = serialize_position(&game.positions[i], out);
        assert(ps[i as int] == game.positions@[i as int].model());
        match res {
            Err(e) => {
                assert(ps.skip(i as int)[0] == ps[i as int]);
                assert(position_error(ps[i as int]) == Some(e));
                assert(positions_error(ps.skip(i as int)) == Some(e));
                assert(game.model().positions == ps);
                return Err(e);
            },
            Ok(()) => {},
        }
        proof {
            lemma_error_skip_position(ps, i as int);
            lemma_positions_bytes_step(head, ps, i as int);
        }
        i += 1;
    }
    assert(ps.take(n as int) =~= ps);
    assert(ps.skip(n as int) =~= Seq::<SazPositionModel>::empty());
    assert(out@ =~= start + game_bytes(game.model()));
    Ok(())
}

/// Writes a chunk of games (see [`serialize_spec`]).
pub fn serialize_selfplay_chunk(games: &[SazSelfplayGame]) -> (r: Result<Vec<u8>, SazSelfplayError>)
    ensures
        match serialize_spec(game_models(games@)) {
            Ok(bytes) => r matches Ok(v) && v@ == bytes,
            Err(e) => r == Err::<Vec<u8>, SazSelfplayError>(e),
        },
{
    let ghost gs = game_models(games@);
    let n = games.len();
    let mut payload: Vec<u8> = Vec::new();
    let mut i: usize = 0;
    assert(gs.take(0) =~= Seq::<SazGameModel>::empty());
    assert(gs.skip(0) =~= gs);
    while i < n
        invariant
            n == games@.len(),
            gs == game_models(games@),
            i <= n,
            payload@ == games_bytes(gs.take(i as int)),
            games_error(gs) == games_error(gs.skip(i as int)),
        decreases n - i,
    {
        let res = serialize_game(&games[i], &mut payload);
        assert(gs[i as int] == games@[i as int].model());
        match res {
            Err(e) => {
                assert(gs.skip(i as int)[0] == gs[i as int]);
                return Err(e);
            },
            Ok(()) => {},
        }
        proof {
            lemma_error_skip_game(gs, i as int);
            lemma_games_bytes_step(gs, i as int);
        }
        i += 1;
    }
    assert(gs.take(n as int) =~= gs);
    assert(gs.skip(n as int) =~= Seq::<SazGameModel>::empty());
    if payload.len() > 0xffff_ffff {
        return Err(SazSelfplayError::CountOverflow);
    }
    let mut out: Vec<u8> = Vec::new();
    out.push(83);
    out.push(65);
    out.push(90);
    out.push(50);
    out.push(SAZPACK_SELFPLAY_VERSION);
    out.push(0);
    push_u32(&mut out, payload.len() as u32);
    push_all(&mut out, payload.as_slice());
    assert(out@ =~= chunk_bytes(games_bytes(gs)));
    Ok(out)
}

/// The ULEB128 value at `c`, reading bytes before `end`, and where it ends.
pub open spec fn uleb_at(input: Seq<u8>, c: int, end: int) -> (Option<u32>, int) {
    uleb_decode_spec(input, c, end, 0, 0)
}

/// The distribution stored at `c`.
pub open spec fn wdl_at(input: Seq<u8>, c: int) -> SazWdl {
    SazWdl {
        win: u16_of(input[c], input[c + 1]),
        draw: u16_of(input[c + 2], input[c + 3]),
        loss: u16_of(input[c + 4], input[c + 5]),
    }
}

/// Reading a policy entry at `c` of a payload ending at `end`: the entry and
/// where it ends.
#[verifier::opaque]
pub open spec fn policy_entry_decode(input: Seq<u8>, c: int, end: int) -> Result<
    (SazSelfplayPolicyEntry, int),
    SazSelfplayError,
> {
    if c + 8 > end {
        Err(SazSelfplayError::Truncated)
    } else {
        match uleb_at(input, c + 4, end) {
            (None, _) => Err(SazSelfplayError::Truncated),
            (Some(vb), c1) => match uleb_at(input, c1, end) {
                (None, _) => Err(SazSelfplayError::Truncated),
                (Some(va), c2) => if va < vb {
                    Err(SazSelfplayError::DecreasingVisits)
                } else if c2 + 2 > end {
                    Err(SazSelfplayError::Truncated)
                } else {
                    match bound_from_u8_spec(input[c2]) {
                        None => Err(SazSelfplayError::InvalidOutcomeBound(input[c2])),
                        Some(lower) => match bound_from_u8_spec(input[c2 + 1]) {
                            None => Err(SazSelfplayError::InvalidOutcomeBound(input[c2 + 1])),
                            Some(upper) => Ok(
                                (
                                    SazSelfplayPolicyEntry {
                                        mv: Move(u16_of(input[c], input[c + 1])),
                                        prior: u16_of(input[c + 2], input[c + 3]),
                                        visits_before: vb,
                                        visits_after: va,
                                        lower,
                                        upper,
                                    },
                                    c2 + 2,
                                ),
                            ),
                        },
                    }
                },
            },
        }
    }
}

/// Reading `count` more policy entries at `c`, after `acc` were read.
pub open spec fn policy_decode(input: Seq<u8>, c: int, end: int, count: nat, acc: Seq<SazSelfplayPolicyEntry>) -> Result<
    (Seq<SazSelfplayPolicyEntry>, int),
    SazSelfplayError,
>
    decreases count,
{
    if count == 0 {
        Ok((acc, c))
    } else {
        match policy_entry_decode(input, c, end) {
            Err(e) => Err(e),
            Ok((entry, c1)) => policy_decode(input, c1, end, (count - 1) as nat, acc.push(entry)),
        }
    }
}

/// Reading the optional mate distance whose tag is at `c`.
pub open spec fn mate_decode(input: Seq<u8>, c: int, end: int) -> Result<(Option<i16>, int), SazSelfplayError> {
    if input[c] == 0 {
        Ok((None, c + 1))
    } else if input[c] == 1 {
        if c + 3 > end {
            Err(SazSelfplayError::Truncated)
        } else {
            Ok((Some(i16_of_bits(u16_of(input[c + 1], input[c + 2]))), c + 3))
        }
    } else {
        Err(SazSelfplayError::InvalidMateTag(input[c]))
    }
}

/// Reading a position at `c` of a payload ending at `end`: the position and
/// where it ends.
#[verifier::opaque]
pub open spec fn position_decode(input: Seq<u8>, c: int, end: int) -> Result<(SazPositionModel, int), SazSelfplayError> {
    if c + 24 > end {
        Err(SazSelfplayError::Truncated)
    } else if !wdl_at(input, c + 2).is_valid() || !wdl_at(input, c + 8).is_valid() {
        Err(SazSelfplayError::InvalidDistributionSum)
    } else {
        match mate_decode(input, c + 23, end) {
            Err(e) => Err(e),
            Ok((mate, c1)) => match uleb_at(input, c1, end) {
                (None, _) => Err(SazSelfplayError::Truncated),
                (Some(count), c2) => match policy_decode(input, c2, end, count as nat, Seq::empty()) {
                    Err(e) => Err(e),
                    Ok((policy, c3)) => if prior_sum(policy) != 65535 {
                        Err(SazSelfplayError::InvalidDistributionSum)
                    } else {
                        Ok(
                            (
                                SazPositionModel {
                                    played: Move(u16_of(input[c], input[c + 1])),
                                    root_wdl: wdl_at(input, c + 2),
                                    outcome_wdl: wdl_at(input, c + 8),
                                    plies_left: u16_of(input[c + 14], input[c + 15]),
                                    requested_visits: u32_of(input[c + 16], input[c + 17], input[c + 18], input[c + 19]),
                                    target_weight_milli: u16_of(input[c + 20], input[c + 21]),
                                    exploration_flags: input[c + 22],
                                    mate,
                                    policy,
                                },
                                c3,
                            ),
                        )
                    },
                },
            },
        }
    }
}

/// Reading `count` more positions at `c`, after `acc` were read.
pub open spec fn positions_decode(input: Seq<u8>, c: int, end: int, count: nat, acc: Seq<SazPositionModel>) -> Result<
    (Seq<SazPositionModel>, int),
    SazSelfplayError,
>
    decreases count,
{
    if count == 0 {
        Ok((acc, c))
    } else {
        match position_decode(input, c, end) {
            Err(e) => Err(e),
            Ok((p, c1)) => positions_decode(input, c1, end, (count - 1) as nat, acc.push(p)),
        }
    }
}

/// Reading a game at `c` of a payload ending at `end`: the game and where it
/// ends.
#[verifier::opaque]
pub open spec fn game_decode(input: Seq<u8>, c: int, end: int) -> Result<(SazGameModel, int), SazSelfplayError> {
    if c + 35 > end {
        Err(SazSelfplayError::Truncated)
    } else {
        match game_result_from_u8_spec(input[c + 32]) {
            None => Err(SazSelfplayError::InvalidGameResult(input[c + 32])),
            Some(game_result) => match termination_from_u8_spec(input[c + 33]) {
                None => Err(SazSelfplayError::InvalidTerminationReason(input[c + 33])),
                Some(termination_reason) => match rule_from_u8_spec(input[c + 34]) {
                    None => Err(SazSelfplayError::InvalidEnteringKingRule(input[c + 34])),
                    Some(entering_king_rule) => match uleb_at(input, c + 35, end) {
                        (None, _) => Err(SazSelfplayError::Truncated),
                        (Some(count), c1) => match positions_decode(input, c1, end, count as nat, Seq::empty()) {
                            Err(e) => Err(e),
                            Ok((positions, c2)) => Ok(
                                (
                                    SazGameModel {
                                        stem: PackedSfen { data: array32_of(input.subrange(c, c + 32)) },
                                        game_result,
                                        termination_reason,
                                        entering_king_rule,
                                        positions,
                                    },
                                    c2,
                                ),
                            ),
                        },
                    },
                },
            },
        }
    }
}

/// Reading the games from `c` up to `end`: each game with the start and end
/// of its bytes.
pub open spec fn games_decode(input: Seq<u8>, c: int, end: int) -> Result<
    Seq<(SazGameModel, int, int)>,
    SazSelfplayError,
>
    decreases end - c,
{
    if c >= end {
        Ok(Seq::empty())
    } else {
        match game_decode(input, c, end) {
            Err(e) => Err(e),
            Ok((g, c1)) => if c1 <= c || c1 > end {
                Err(SazSelfplayError::Truncated)
            } else {
                match games_decode(input, c1, end) {
                    Err(e) => Err(e),
                    Ok(rest) => Ok(seq![(g, c, c1)] + rest),
                }
            },
        }
    }
}

/// Checking the header of a chunk: where its payload ends.
pub open spec fn chunk_header_spec(input: Seq<u8>) -> Result<int, SazSelfplayError> {
    if input.len() < 10 {
        Err(SazSelfplayError::Truncated)
    } else if !(input[0] == 83 && input[1] == 65 && input[2] == 90 && input[3] == 50) {
        Err(SazSelfplayError::InvalidMagic)
    } else if input[4] != 1 {
        Err(SazSelfplayError::UnsupportedVersion(input[4]))
    } else if input[5] != 0 {
        Err(SazSelfplayError::UnsupportedFlags(input[5]))
    } else {
        let end = 10 + u32_of(input[6], input[7], input[8], input[9]);
        if end > input.len() {
            Err(SazSelfplayError::Truncated)
        } else if end != input.len() {
            Err(SazSelfplayError::TrailingBytes)
        } else {
            Ok(end)
        }
    }
}

/// What reading a chunk gives: its games, each with the range of its bytes.
pub open spec fn chunk_decode_spec(input: Seq<u8>) -> Result<Seq<(SazGameModel, int, int)>, SazSelfplayError> {
    match chunk_header_spec(input) {
        Err(e) => Err(e),
        Ok(end) => games_decode(input, 10, end),
    }
}

/// Games read so far followed by what reading the rest gives.
pub open spec fn prepend_games(
    done: Seq<(SazGameModel, int, int)>,
    rest: Result<Seq<(SazGameModel, int, int)>, SazSelfplayError>,
) -> Result<Seq<(SazGameModel, int, int)>, SazSelfplayError> {
    match rest {
        Ok(t) => Ok(done + t),
        Err(e) => Err(e),
    }
}

proof fn lemma_prepend_step(
    input: Seq<u8>,
    c: int,
    end: int,
    done: Seq<(SazGameModel, int, int)>,
    g: SazGameModel,
    c1: int,
)
    requires
        c < c1 <= end,
        game_decode(input, c, end) == Ok::<(SazGameModel, int), SazSelfplayError>((g, c1)),
    ensures
        prepend_games(done, games_decode(input, c, end)) == prepend_games(
            done.push((g, c, c1)),
            games_decode(input, c1, end),
        ),
{
    match games_decode(input, c1, end) {
        Ok(t) => {
            assert(done + (seq![(g, c, c1)] + t) =~= done.push((g, c, c1)) + t);
        },
        Err(_) => {},
    }
}

proof fn lemma_prepend_error(input: Seq<u8>, c: int, end: int, done: Seq<(SazGameModel, int, int)>, e: SazSelfplayError)
    requires
        c < end,
        game_decode(input, c, end) == Err::<(SazGameModel, int), SazSelfplayError>(e),
    ensures
        prepend_games(done, games_decode(input, c, end)) == Err::<Seq<(SazGameModel, int, int)>, SazSelfplayError>(e),
{
}

proof fn lemma_prepend_empty(r: Result<Seq<(SazGameModel, int, int)>, SazSelfplayError>)
    ensures
        prepend_games(Seq::empty(), r) == r,
{
    match r {
        Ok(t) => {
            assert(Seq::<(SazGameModel, int, int)>::empty() + t =~= t);
        },
        Err(_) => {},
    }
}

proof fn lemma_uleb_bounds(input: Seq<u8>, offset: int, end: int, k: nat, acc: nat)
    ensures
        uleb_decode_spec(input, offset, end, k, acc).0 is Some ==> offset < uleb_decode_spec(
            input,
            offset,
            end,
            k,
            acc,
        ).1 <= end,
    decreases end - offset,
{
    if offset < 0 || offset >= end || k >= 5 {
    } else {
        let b = input[offset];
        let acc2 = acc + (b % 128) as nat * crate::records::formats::sbinpack::base128(k);
        if b >= 128 {
            lemma_uleb_bounds(input, offset + 1, end, k + 1, acc2);
        }
    }
}

fn read_uleb(input: &[u8], cursor: &mut usize, end: usize) -> (r: Result<u32, SazSelfplayError>)
    requires
        end <= input@.len(),
        *old(cursor) <= end,
    ensures
        match uleb_at(input@, *old(cursor) as int, end as int) {
            (Some(v), c) => r == Ok::<u32, SazSelfplayError>(v) && *final(cursor) == c,
            (None, _) => r == Err::<u32, SazSelfplayError>(SazSelfplayError::Truncated),
        },
        r is Ok ==> *old(cursor) < *final(cursor) <= end,
{
    proof {
        lemma_uleb_bounds(input@, *cursor as int, end as int, 0, 0);
    }
    match decode_uleb128_u32_bounded(input, cursor, end) {
        Some(v) => Ok(v),
        None => Err(SazSelfplayError::Truncated),
    }
}

fn read_wdl(input: &[u8], at: usize) -> (r: Result<SazWdl, SazSelfplayError>)
    requires
        at + 6 <= input@.len(),
    ensures
        wdl_at(input@, at as int).is_valid() ==> r == Ok::<SazWdl, SazSelfplayError>(wdl_at(input@, at as int)),
        !wdl_at(input@, at as int).is_valid() ==> r == Err::<SazWdl, SazSelfplayError>(
            SazSelfplayError::InvalidDistributionSum,
        ),
{
    let n = input.len();
    let wdl = SazWdl { win: read_u16(input, at), draw: read_u16(input, at + 2), loss: read_u16(input, at + 4) };
    wdl.validate()?;
    Ok(wdl)
}

fn bound_from_u8(value: u8) -> (r: Result<SazOutcomeBound, SazSelfplayError>)
    ensures
        r == (match bound_from_u8_spec(value) {
            Some(b) => Ok(b),
            None => Err(SazSelfplayError::InvalidOutcomeBound(value)),
        }),
{
    if value == 0 {
        Ok(SazOutcomeBound::Loss)
    } else if value == 1 {
        Ok(SazOutcomeBound::Draw)
    } else if value == 2 {
        Ok(SazOutcomeBound::Win)
    } else {
        Err(SazSelfplayError::InvalidOutcomeBound(value))
    }
}

fn termination_from_u8(value: u8) -> (r: Result<SazTerminationReason, SazSelfplayError>)
    ensures
        r == (match termination_from_u8_spec(value) {
            Some(t) => Ok(t),
            None => Err(SazSelfplayError::InvalidTerminationReason(value)),
        }),
{
    if value == 0 { Ok(SazTerminationReason::NoLegalMoves) }
    else if value == 1 { Ok(SazTerminationReason::RepetitionDraw) }
    else if value == 2 { Ok(SazTerminationReason::PerpetualCheckWin) }
    else if value == 3 { Ok(SazTerminationReason::PerpetualCheckLoss) }
    else if value == 4 { Ok(SazTerminationReason::RepetitionSuperior) }
    else if value == 5 { Ok(SazTerminationReason::RepetitionInferior) }
    else if value == 6 { Ok(SazTerminationReason::EnteringKingDeclaration) }
    else if value == 7 { Ok(SazTerminationReason::MaxGamePlies) }
    else { Err(SazSelfplayError::InvalidTerminationReason(value)) }
}

/// Reads a policy entry (see [`policy_entry_decode`]).
fn deserialize_policy_entry(input: &[u8], cursor: &mut usize, end: usize) -> (r: Result<
    SazSelfplayPolicyEntry,
    SazSelfplayError,
>)
    requires
        end <= input@.len(),
        *old(cursor) <= end,
    ensures
        match policy_entry_decode(input@, *old(cursor) as int, end as int) {
            Ok((e, c)) => r == Ok::<SazSelfplayPolicyEntry, SazSelfplayError>(e) && *final(cursor) == c,
            Err(e) => r == Err::<SazSelfplayPolicyEntry, SazSelfplayError>(e),
        },
        r is Ok ==> *old(cursor) < *final(cursor) <= end,
{
    reveal(policy_entry_decode);
    let c = *cursor;
    if end - c < POLICY_ENTRY_MIN_LEN {
        return Err(SazSelfplayError::Truncated);
    }
    let mv = Move::from_raw(read_u16(input, c));
    let prior = read_u16(input, c + 2);
    *cursor = c + 4;
    let visits_before = read_uleb(input, cursor, end)?;
    let visits_after = read_uleb(input, cursor, end)?;
    if visits_after < visits_before {
        return Err(SazSelfplayError::DecreasingVisits);
    }
    if end - *cursor < 2 {
        return Err(SazSelfplayError::Truncated);
    }
    let lower = bound_from_u8(input[*cursor])?;
    let upper = bound_from_u8(input[*cursor + 1])?;
    *cursor = *cursor + 2;
    Ok(SazSelfplayPolicyEntry { mv, prior, visits_before, visits_after, lower, upper })
}

/// Reads `count` policy entries (see [`policy_decode`]).
fn deserialize_policy(input: &[u8], cursor: &mut usize, end: usize, count: u32) -> (r: Result<
    Vec<SazSelfplayPolicyEntry>,
    SazSelfplayError,
>)
    requires
        end <= input@.len(),
        *old(cursor) <= end,
    ensures
        match policy_decode(input@, *old(cursor) as int, end as int, count as nat, Seq::empty()) {
            Ok((s, c)) => r matches Ok(v) && v@ == s && *final(cursor) == c,
            Err(e) => r == Err::<Vec<SazSelfplayPolicyEntry>, SazSelfplayError>(e),
        },
        r is Ok ==> *old(cursor) <= *final(cursor) <= end,
{
    let ghost c0 = *cursor as int;
    let mut policy: Vec<SazSelfplayPolicyEntry> = Vec::new();
    let mut i: u32 = 0;
    while i < count
        invariant
            end <= input@.len(),
            c0 == *old(cursor),
            c0 <= *cursor <= end,
            i <= count,
            policy_decode(input@, c0, end as int, count as nat, Seq::empty()) == policy_decode(
                input@,
                *cursor as int,
                end as int,
                (count - i) as nat,
                policy@,
            ),
        decreases count - i,
    {
        let ghost cur = *cursor as int;
        let entry = match deserialize_policy_entry(input, cursor, end) {
            Ok(entry) => entry,
            Err(e) => {
                assert(policy_decode(input@, cur, end as int, (count - i) as nat, policy@) == Err::<
                    (Seq<SazSelfplayPolicyEntry>, int),
                    SazSelfplayError,
                >(e));
                return Err(e);
            },
        };
        policy.push(entry);
        i += 1;
    }
    Ok(policy)
}

/// Reads a position (see [`position_decode`]).
fn deserialize_position(input: &[u8], cursor: &mut usize, end: usize) -> (r: Result<
    SazSelfplayPosition,
    SazSelfplayError,
>)
    requires
        end <= input@.len(),
        *old(cursor) <= end,
    ensures
        match position_decode(input@, *old(cursor) as int, end as int) {
            Ok((m, c)) => r matches Ok(p) && p.model() == m && *final(cursor) == c,
            Err(e) => r == Err::<SazSelfplayPosition, SazSelfplayError>(e),
        },
        r is Ok ==> *old(cursor) < *final(cursor) <= end,
{
    reveal(position_decode);
    let c = *cursor;
    if end - c < POSITION_FIXED_LEN {
        return Err(SazSelfplayError::Truncated);
    }
    let played = Move::from_raw(read_u16(input, c));
    let root_wdl = read_wdl(input, c + 2)?;
    let outcome_wdl = read_wdl(input, c + 8)?;
    let plies_left = read_u16(input, c + 14);
    let requested_visits = read_u32(input, c + 16);
    let target_weight_milli = read_u16(input, c + 20);
    let exploration_flags = input[c + 22];
    let tag = input[c + 23];
    let mate = if tag == 0 {
        *cursor = c + 24;
        None
    } else if tag == 1 {
        if end - c < 26 {
            return Err(SazSelfplayError::Truncated);
        }
        *cursor = c + 26;
        Some(crate::records::formats::wire::i16_from_bits(read_u16(input, c + 24)))
    } else {
        return Err(SazSelfplayError::InvalidMateTag(tag));
    };
    let count = read_uleb(input, cursor, end)?;
    let policy = deserialize_policy(input, cursor, end, count)?;
    if capped_prior_sum(&policy) != SazWdl::TOTAL() {
        return Err(SazSelfplayError::InvalidDistributionSum);
    }
    Ok(
        SazSelfplayPosition {
            played,
            root_wdl,
            outcome_wdl,
            plies_left,
            requested_visits,
            target_weight_milli,
            exploration_flags,
            mate,
            policy,
        },
    )
}

/// Reads `count` positions (see [`positions_decode`]).
fn deserialize_positions(input: &[u8], cursor: &mut usize, end: usize, count: u32) -> (r: Result<
    Vec<SazSelfplayPosition>,
    SazSelfplayError,
>)
    requires
        end <= input@.len(),
        *old(cursor) <= end,
    ensures
        match positions_decode(input@, *old(cursor) as int, end as int, count as nat, Seq::empty()) {
            Ok((s, c)) => r matches Ok(v) && position_models(v@) == s && *final(cursor) == c,
            Err(e) => r == Err::<Vec<SazSelfplayPosition>, SazSelfplayError>(e),
        },
        r is Ok ==> *old(cursor) <= *final(cursor) <= end,
{
    let ghost c1 = *cursor as int;
    let mut positions: Vec<SazSelfplayPosition> = Vec::new();
    let mut i: u32 = 0;
    assert(position_models(positions@) =~= Seq::<SazPositionModel>::empty());
    while i < count
        invariant
            end <= input@.len(),
            c1 == *old(cursor),
            c1 <= *cursor <= end,
            i <= count,
            positions_decode(input@, c1, end as int, count as nat, Seq::empty()) == positions_decode(
                input@,
                *cursor as int,
                end as int,
                (count - i) as nat,
                position_models(positions@),
            ),
        decreases count - i,
    {
        let ghost cur = *cursor as int;
        let position = match deserialize_position(input, cursor, end) {
            Ok(position) => position,
            Err(e) => {
                assert(positions_decode(input@, cur, end as int, (count - i) as nat, position_models(positions@))
                    == Err::<(Seq<SazPositionModel>, int), SazSelfplayError>(e));
                return Err(e);
            },
        };
        let ghost before = positions@;
        positions.push(position);
        assert(position_models(positions@) =~= position_models(before).push(position.model()));
        i += 1;
    }
    Ok(positions)
}

/// Reads a game (see [`game_decode`]).
fn deserialize_game(input: &[u8], cursor: &mut usize, end: usize) -> (r: Result<SazSelfplayGame, SazSelfplayError>)
    requires
        end <= input@.len(),
        *old(cursor) <= end,
    ensures
        match game_decode(input@, *old(cursor) as int, end as int) {
            Ok((m, c)) => r matches Ok(g) && g.model() == m && *final(cursor) == c,
            Err(e) => r == Err::<SazSelfplayGame, SazSelfplayError>(e),
        },
        r is Ok ==> *old(cursor) < *final(cursor) <= end,
{
    reveal(game_decode);
    let c = *cursor;
    if end - c < 35 {
        return Err(SazSelfplayError::Truncated);
    }
    let data = read_array32(input, c);
    proof {
        crate::records::formats::wire::lemma_array32_of(data);
    }
    let game_result = match game_result_from_u8(input[c + 32]) {
        Some(result) => result,
        None => return Err(SazSelfplayError::InvalidGameResult(input[c + 32])),
    };
    let termination_reason = termination_from_u8(input[c + 33])?;
    let entering_king_rule = entering_king_rule_from_u8(input[c + 34])?;
    *cursor = c + 35;
    let count = read_uleb(input, cursor, end)?;
    let positions = deserialize_positions(input, cursor, end, count)?;
    Ok(
        SazSelfplayGame {
            stem_packed_sfen: PackedSfen { data },
            game_result,
            termination_reason,
            entering_king_rule,
            positions,
        },
    )
}

/// Checks the header of a chunk (see [`chunk_header_spec`]).
fn chunk_payload_end(input: &[u8]) -> (r: Result<usize, SazSelfplayError>)
    ensures
        match chunk_header_spec(input@) {
            Ok(end) => r == Ok::<usize, SazSelfplayError>(end as usize),
            Err(e) => r == Err::<usize, SazSelfplayError>(e),
        },
        r matches Ok(end) ==> end == input@.len(),
{
    if input.len() < HEADER_LEN {
        return Err(SazSelfplayError::Truncated);
    }
    if input[0] != 83 || input[1] != 65 || input[2] != 90 || input[3] != 50 {
        return Err(SazSelfplayError::InvalidMagic);
    }
    if input[4] != SAZPACK_SELFPLAY_VERSION {
        return Err(SazSelfplayError::UnsupportedVersion(input[4]));
    }
    if input[5] != 0 {
        return Err(SazSelfplayError::UnsupportedFlags(input[5]));
    }
    let payload_len = read_u32(input, 6);
    if payload_len as usize > input.len() - HEADER_LEN {
        return Err(SazSelfplayError::Truncated);
    }
    let end = HEADER_LEN + payload_len as usize;
    if end != input.len() {
        return Err(SazSelfplayError::TrailingBytes);
    }
    Ok(end)
}

/// Reads a chunk, keeping the byte range of each game (see
/// [`chunk_decode_spec`]).
pub fn deserialize_selfplay_chunk_indexed(input: &[u8]) -> (r: Result<Vec<IndexedSazSelfplayGame>, SazSelfplayError>)
    ensures
        match chunk_decode_spec(input@) {
            Ok(v) => r matches Ok(w) && w@.len() == v.len() && forall|i: int|
                0 <= i < v.len() ==> {
                    &&& (#[trigger] w@[i]).game.model() == v[i].0
                    &&& w@[i].payload_range.start == v[i].1
                    &&& w@[i].payload_range.end == v[i].2
                },
            Err(e) => r == Err::<Vec<IndexedSazSelfplayGame>, SazSelfplayError>(e),
        },
        r matches Ok(w) ==> ranges_partition(indexed_view(w@), 10, input@.len() as int),
{
    let end = chunk_payload_end(input)?;
    let mut cursor: usize = HEADER_LEN;
    let mut games: Vec<IndexedSazSelfplayGame> = Vec::new();
    let ghost mut done: Seq<(SazGameModel, int, int)> = Seq::empty();
    proof {
        lemma_prepend_empty(games_decode(input@, 10, end as int));
    }
    while cursor < end
        invariant
            end == input@.len(),
            HEADER_LEN <= cursor <= end,
            chunk_decode_spec(input@) == prepend_games(done, games_decode(input@, cursor as int, end as int)),
            games@.len() == done.len(),
            forall|i: int|
                0 <= i < done.len() ==> {
                    &&& (#[trigger] games@[i]).game.model() == done[i].0
                    &&& games@[i].payload_range.start == done[i].1
                    &&& games@[i].payload_range.end == done[i].2
                },
        decreases end - cursor,
    {
        let start = cursor;
        let game = match deserialize_game(input, &mut cursor, end) {
            Ok(game) => game,
            Err(e) => {
                proof {
                    lemma_prepend_error(input@, start as int, end as int, done, e);
                }
                return Err(e);
            },
        };
        let ghost item = (game.model(), start as int, cursor as int);
        proof {
            lemma_prepend_step(input@, start as int, end as int, done, game.model(), cursor as int);
            done = done.push(item);
        }
        games.push(IndexedSazSelfplayGame { game, payload_range: core::ops::Range { start, end: cursor } });
    }
    assert(done + Seq::<(SazGameModel, int, int)>::empty() =~= done);
    proof {
        lemma_chunk_ranges_partition(input@);
        assert(indexed_view(games@) =~= done);
    }
    Ok(games)
}

/// Reads a chunk (see [`chunk_decode_spec`]).
pub fn deserialize_selfplay_chunk(input: &[u8]) -> (r: Result<Vec<SazSelfplayGame>, SazSelfplayError>)
    ensures
        match chunk_decode_spec(input@) {
            Ok(v) => r matches Ok(w) && w@.len() == v.len() && forall|i: int|
                0 <= i < v.len() ==> (#[trigger] w@[i]).model() == v[i].0,
            Err(e) => r == Err::<Vec<SazSelfplayGame>, SazSelfplayError>(e),
        },
{
    let end = chunk_payload_end(input)?;
    let mut cursor: usize = HEADER_LEN;
    let mut games: Vec<SazSelfplayGame> = Vec::new();
    let ghost mut done: Seq<(SazGameModel, int, int)> = Seq::empty();
    proof {
        lemma_prepend_empty(games_decode(input@, 10, end as int));
    }
    while cursor < end
        invariant
            end == input@.len(),
            HEADER_LEN <= cursor <= end,
            chunk_decode_spec(input@) == prepend_games(done, games_decode(input@, cursor as int, end as int)),
            games@.len() == done.len(),
            forall|i: int| 0 <= i < done.len() ==> (#[trigger] games@[i]).model() == done[i].0,
        decreases end - cursor,
    {
        let start = cursor;
        let game = match deserialize_game(input, &mut cursor, end) {
            Ok(game) => game,
            Err(e) => {
                proof {
                    lemma_prepend_error(input@, start as int, end as int, done, e);
                }
                return Err(e);
            },
        };
        let ghost item = (game.model(), start as int, cursor as int);
        proof {
            lemma_prepend_step(input@, start as int, end as int, done, game.model(), cursor as int);
            done = done.push(item);
        }
        games.push(game);
    }
    assert(done + Seq::<(SazGameModel, int, int)>::empty() =~= done);
    Ok(games)
}

proof fn lemma_sub_split(input: Seq<u8>, c: int, a: Seq<u8>, b: Seq<u8>)
    requires
        0 <= c,
        c + a.len() + b.len() <= input.len(),
        input.subrange(c, c + a.len() + b.len()) == a + b,
    ensures
        input.subrange(c, c + a.len()) == a,
        input.subrange(c + a.len(), c + a.len() + b.len()) == b,
{
    let whole = input.subrange(c, c + a.len() + b.len());
    assert forall|j: int| 0 <= j < a.len() implies input.subrange(c, c + a.len())[j] == a[j] by {
        assert(whole[j] == (a + b)[j]);
    }
    assert forall|j: int| 0 <= j < b.len() implies input.subrange(c + a.len(), c + a.len() + b.len())[j] == b[j] by {
        assert(whole[a.len() + j] == (a + b)[a.len() + j]);
    }
    assert(input.subrange(c, c + a.len()) =~= a);
    assert(input.subrange(c + a.len(), c + a.len() + b.len()) =~= b);
}

proof fn lemma_sub_index(input: Seq<u8>, c: int, a: Seq<u8>, j: int)
    requires
        0 <= c,
        c + a.len() <= input.len(),
        input.subrange(c, c + a.len()) == a,
        0 <= j < a.len(),
    ensures
        input[c + j] == a[j],
{
    assert(input.subrange(c, c + a.len())[j] == input[c + j]);
}

proof fn lemma_bound_code(b: SazOutcomeBound)
    ensures
        bound_from_u8_spec(b.code_spec()) == Some(b),
{
}

proof fn lemma_policy_entry_roundtrip(input: Seq<u8>, c: int, end: int, e: SazSelfplayPolicyEntry)
    requires
        0 <= c,
        c + policy_entry_bytes(e).len() <= end <= input.len(),
        input.subrange(c, c + policy_entry_bytes(e).len()) == policy_entry_bytes(e),
        e.visits_before <= e.visits_after,
    ensures
        policy_entry_decode(input, c, end) == Ok::<(SazSelfplayPolicyEntry, int), SazSelfplayError>(
            (e, c + policy_entry_bytes(e).len()),
        ),
{
    reveal(policy_entry_decode);
    let head = le16(e.mv.0) + le16(e.prior);
    let ub = uleb_bytes(e.visits_before as nat);
    let ua = uleb_bytes(e.visits_after as nat);
    let tail = seq![e.lower.code_spec(), e.upper.code_spec()];
    assert(policy_entry_bytes(e) == head + ub + ua + tail);
    lemma_sub_split(input, c, head + ub + ua, tail);
    lemma_sub_split(input, c, head + ub, ua);
    lemma_sub_split(input, c, head, ub);
    lemma_uleb_roundtrip(input, c + 4, end, e.visits_before);
    lemma_uleb_roundtrip(input, c + 4 + ub.len(), end, e.visits_after);
    lemma_sub_index(input, c, head, 0);
    lemma_sub_index(input, c, head, 1);
    lemma_sub_index(input, c, head, 2);
    lemma_sub_index(input, c, head, 3);
    let c2 = c + 4 + ub.len() + ua.len();
    lemma_sub_index(input, c2, tail, 0);
    lemma_sub_index(input, c2, tail, 1);
    lemma_le16_roundtrip(e.mv.0);
    lemma_le16_roundtrip(e.prior);
    lemma_bound_code(e.lower);
    lemma_bound_code(e.upper);
    assert(Move(u16_of(input[c], input[c + 1])) == e.mv);
}

proof fn lemma_policy_roundtrip(
    input: Seq<u8>,
    c: int,
    end: int,
    s: Seq<SazSelfplayPolicyEntry>,
    acc: Seq<SazSelfplayPolicyEntry>,
)
    requires
        0 <= c,
        c + policy_bytes(s).len() <= end <= input.len(),
        input.subrange(c, c + policy_bytes(s).len()) == policy_bytes(s),
        visits_nondecreasing(s),
    ensures
        policy_decode(input, c, end, s.len(), acc) == Ok::<(Seq<SazSelfplayPolicyEntry>, int), SazSelfplayError>(
            (acc + s, c + policy_bytes(s).len()),
        ),
    decreases s.len(),
{
    if s.len() == 0 {
        assert(acc + s =~= acc);
    } else {
        let first = policy_entry_bytes(s[0]);
        let rest = s.drop_first();
        assert(policy_bytes(s) == first + policy_bytes(rest));
        lemma_sub_split(input, c, first, policy_bytes(rest));
        assert(s[0].visits_before <= s[0].visits_after);
        lemma_policy_entry_roundtrip(input, c, end, s[0]);
        assert forall|i: int| 0 <= i < rest.len() implies (#[trigger] rest[i]).visits_before <= rest[i].visits_after by {
            assert(rest[i] == s[i + 1]);
        }
        lemma_policy_roundtrip(input, c + first.len(), end, rest, acc.push(s[0]));
        assert(acc.push(s[0]) + rest =~= acc + s);
    }
}

proof fn lemma_position_roundtrip(input: Seq<u8>, c: int, end: int, p: SazPositionModel)
    requires
        0 <= c,
        c + position_bytes(p).len() <= end <= input.len(),
        input.subrange(c, c + position_bytes(p).len()) == position_bytes(p),
        position_error(p) is None,
    ensures
        position_decode(input, c, end) == Ok::<(SazPositionModel, int), SazSelfplayError>(
            (p, c + position_bytes(p).len()),
        ),
{
    reveal(position_decode);
    let fixed = le16(p.played.0) + wdl_bytes(p.root_wdl) + wdl_bytes(p.outcome_wdl) + le16(p.plies_left) + le32(
        p.requested_visits,
    ) + le16(p.target_weight_milli) + seq![p.exploration_flags];
    let m = mate_bytes(p.mate);
    let u = uleb_bytes(p.policy.len());
    let pb = policy_bytes(p.policy);
    assert(position_bytes(p) == fixed + m + u + pb);
    assert(fixed.len() == 23);
    lemma_sub_split(input, c, fixed + m + u, pb);
    lemma_sub_split(input, c, fixed + m, u);
    lemma_sub_split(input, c, fixed, m);
    assert forall|j: int| 0 <= j < 23 implies input[c + j] == #[trigger] fixed[j] by {
        lemma_sub_index(input, c, fixed, j);
    }
    assert(input[c] == fixed[0] && input[c + 1] == fixed[1]);
    lemma_le16_roundtrip(p.played.0);
    assert(Move(u16_of(input[c], input[c + 1])) == p.played);
    assert(input[c + 2] == fixed[2] && input[c + 3] == fixed[3] && input[c + 4] == fixed[4]);
    assert(input[c + 5] == fixed[5] && input[c + 6] == fixed[6] && input[c + 7] == fixed[7]);
    lemma_le16_roundtrip(p.root_wdl.win);
    lemma_le16_roundtrip(p.root_wdl.draw);
    lemma_le16_roundtrip(p.root_wdl.loss);
    assert(wdl_at(input, c + 2) == p.root_wdl);
    assert(input[c + 8] == fixed[8] && input[c + 9] == fixed[9] && input[c + 10] == fixed[10]);
    assert(input[c + 11] == fixed[11] && input[c + 12] == fixed[12] && input[c + 13] == fixed[13]);
    lemma_le16_roundtrip(p.outcome_wdl.win);
    lemma_le16_roundtrip(p.outcome_wdl.draw);
    lemma_le16_roundtrip(p.outcome_wdl.loss);
    assert(wdl_at(input, c + 8) == p.outcome_wdl);
    assert(input[c + 14] == fixed[14] && input[c + 15] == fixed[15]);
    lemma_le16_roundtrip(p.plies_left);
    assert(input[c + 16] == fixed[16] && input[c + 17] == fixed[17]);
    assert(input[c + 18] == fixed[18] && input[c + 19] == fixed[19]);
    lemma_le32_roundtrip(p.requested_visits);
    assert(input[c + 20] == fixed[20] && input[c + 21] == fixed[21]);
    lemma_le16_roundtrip(p.target_weight_milli);
    assert(input[c + 22] == fixed[22]);
    lemma_sub_index(input, c + 23, m, 0);
    match p.mate {
        Some(v) => {
            lemma_sub_index(input, c + 23, m, 1);
            lemma_sub_index(input, c + 23, m, 2);
            lemma_le16_roundtrip(i16_bits(v));
            lemma_i16_bits_roundtrip(v);
            assert(mate_decode(input, c + 23, end) == Ok::<(Option<i16>, int), SazSelfplayError>((Some(v), c + 26)));
        },
        None => {
            assert(mate_decode(input, c + 23, end) == Ok::<(Option<i16>, int), SazSelfplayError>((None, c + 24)));
        },
    }
    let c1 = c + 23 + m.len();
    lemma_uleb_roundtrip(input, c1, end, p.policy.len() as u32);
    let c2 = c1 + u.len();
    lemma_policy_roundtrip(input, c2, end, p.policy, Seq::empty());
    assert(Seq::<SazSelfplayPolicyEntry>::empty() + p.policy =~= p.policy);
}

proof fn lemma_positions_roundtrip(
    input: Seq<u8>,
    c: int,
    end: int,
    s: Seq<SazPositionModel>,
    acc: Seq<SazPositionModel>,
)
    requires
        0 <= c,
        c + positions_bytes(s).len() <= end <= input.len(),
        input.subrange(c, c + positions_bytes(s).len()) == positions_bytes(s),
        positions_error(s) is None,
    ensures
        positions_decode(input, c, end, s.len(), acc) == Ok::<(Seq<SazPositionModel>, int), SazSelfplayError>(
            (acc + s, c + positions_bytes(s).len()),
        ),
    decreases s.len(),
{
    if s.len() == 0 {
        assert(acc + s =~= acc);
    } else {
        let first = position_bytes(s[0]);
        let rest = s.drop_first();
        assert(positions_bytes(s) == first + positions_bytes(rest));
        lemma_sub_split(input, c, first, positions_bytes(rest));
        lemma_position_roundtrip(input, c, end, s[0]);
        lemma_positions_roundtrip(input, c + first.len(), end, rest, acc.push(s[0]));
        assert(acc.push(s[0]) + rest =~= acc + s);
    }
}

proof fn lemma_game_roundtrip(input: Seq<u8>, c: int, end: int, g: SazGameModel)
    requires
        0 <= c,
        c + game_bytes(g).len() <= end <= input.len(),
        input.subrange(c, c + game_bytes(g).len()) == game_bytes(g),
        game_error(g) is None,
        g.game_result != GameResult::BlackWinByTryRule,
        g.game_result != GameResult::WhiteWinByTryRule,
    ensures
        game_decode(input, c, end) == Ok::<(SazGameModel, int), SazSelfplayError>((g, c + game_bytes(g).len())),
        game_bytes(g).len() >= 36,
{
    reveal(game_decode);
    let codes = seq![
        g.game_result.code_spec(),
        g.termination_reason.code_spec(),
        rule_code_spec(g.entering_king_rule),
    ];
    let u = uleb_bytes(g.positions.len());
    let pb = positions_bytes(g.positions);
    assert(game_bytes(g) == g.stem.data@ + codes + u + pb);
    lemma_sub_split(input, c, g.stem.data@ + codes + u, pb);
    lemma_sub_split(input, c, g.stem.data@ + codes, u);
    lemma_sub_split(input, c, g.stem.data@, codes);
    lemma_sub_index(input, c + 32, codes, 0);
    lemma_sub_index(input, c + 32, codes, 1);
    lemma_sub_index(input, c + 32, codes, 2);
    lemma_game_result_code_roundtrip(g.game_result);
    lemma_array32_of(g.stem.data);
    assert(PackedSfen { data: array32_of(input.subrange(c, c + 32)) } == g.stem);
    lemma_uleb_roundtrip(input, c + 35, end, g.positions.len() as u32);
    lemma_positions_roundtrip(input, c + 35 + u.len(), end, g.positions, Seq::empty());
    assert(Seq::<SazPositionModel>::empty() + g.positions =~= g.positions);
}

/// The games of a payload starting at `c`, each with the start and end of its
/// bytes.
pub open spec fn indexed_games(gs: Seq<SazGameModel>, c: int) -> Seq<(SazGameModel, int, int)>
    decreases gs.len(),
{
    if gs.len() == 0 {
        Seq::empty()
    } else {
        seq![(gs[0], c, c + game_bytes(gs[0]).len())] + indexed_games(gs.drop_first(), c + game_bytes(gs[0]).len())
    }
}

proof fn lemma_indexed_games(gs: Seq<SazGameModel>, c: int)
    ensures
        indexed_games(gs, c).len() == gs.len(),
        forall|i: int|
            0 <= i < gs.len() ==> {
                &&& (#[trigger] indexed_games(gs, c)[i]).0 == gs[i]
                &&& indexed_games(gs, c)[i].1 == c + games_bytes(gs.take(i)).len()
                &&& indexed_games(gs, c)[i].2 == c + games_bytes(gs.take(i + 1)).len()
            },
    decreases gs.len(),
{
    if gs.len() > 0 {
        let rest = gs.drop_first();
        let l0 = game_bytes(gs[0]).len();
        lemma_indexed_games(rest, c + l0);
        assert forall|i: int| 0 <= i < gs.len() implies {
            &&& (#[trigger] indexed_games(gs, c)[i]).0 == gs[i]
            &&& indexed_games(gs, c)[i].1 == c + games_bytes(gs.take(i)).len()
            &&& indexed_games(gs, c)[i].2 == c + games_bytes(gs.take(i + 1)).len()
        } by {
            assert(games_bytes(gs.take(1)) == game_bytes(gs[0]) + games_bytes(gs.take(1).drop_first())) by {
                assert(gs.take(1)[0] == gs[0]);
            }
            assert(gs.take(1).drop_first() =~= Seq::<SazGameModel>::empty());
            assert(gs.take(0) =~= Seq::<SazGameModel>::empty());
            if i > 0 {
                assert(indexed_games(gs, c)[i] == indexed_games(rest, c + l0)[i - 1]);
                assert(rest[i - 1] == gs[i]);
                assert(gs.take(i).drop_first() =~= rest.take(i - 1));
                assert(gs.take(i + 1).drop_first() =~= rest.take(i));
                assert(gs.take(i)[0] == gs[0]);
                assert(gs.take(i + 1)[0] == gs[0]);
                assert(games_bytes(gs.take(i)) == game_bytes(gs[0]) + games_bytes(gs.take(i).drop_first()));
                assert(games_bytes(gs.take(i + 1)) == game_bytes(gs[0]) + games_bytes(gs.take(i + 1).drop_first()));
            }
        }
    }
}

proof fn lemma_games_roundtrip(input: Seq<u8>, c: int, end: int, gs: Seq<SazGameModel>)
    requires
        0 <= c,
        c + games_bytes(gs).len() == end,
        end <= input.len(),
        input.subrange(c, end) == games_bytes(gs),
        games_error(gs) is None,
        forall|i: int|
            0 <= i < gs.len() ==> (#[trigger] gs[i]).game_result != GameResult::BlackWinByTryRule
                && gs[i].game_result != GameResult::WhiteWinByTryRule,
    ensures
        games_decode(input, c, end) == Ok::<Seq<(SazGameModel, int, int)>, SazSelfplayError>(indexed_games(gs, c)),
    decreases gs.len(),
{
    if gs.len() == 0 {
    } else {
        let first = game_bytes(gs[0]);
        let rest = gs.drop_first();
        assert(games_bytes(gs) == first + games_bytes(rest));
        lemma_sub_split(input, c, first, games_bytes(rest));
        assert(gs[0].game_result != GameResult::BlackWinByTryRule);
        lemma_game_roundtrip(input, c, end, gs[0]);
        assert forall|i: int| 0 <= i < rest.len() implies (#[trigger] rest[i]).game_result
            != GameResult::BlackWinByTryRule && rest[i].game_result != GameResult::WhiteWinByTryRule by {
            assert(rest[i] == gs[i + 1]);
        }
        lemma_games_roundtrip(input, c + first.len(), end, rest);
    }
}

/// Writing games and reading the chunk back gives the games, in order, each
/// with the range of its own bytes in the chunk, consecutive from the end of
/// the header to the end of the chunk, for every run of games that can be
/// written whose results a chunk can name (all but the try-rule wins).
pub proof fn lemma_selfplay_roundtrip(gs: Seq<SazGameModel>)
    requires
        serialize_spec(gs) is Ok,
        forall|i: int|
            0 <= i < gs.len() ==> (#[trigger] gs[i]).game_result != GameResult::BlackWinByTryRule
                && gs[i].game_result != GameResult::WhiteWinByTryRule,
    ensures
        chunk_decode_spec(serialize_spec(gs)->Ok_0) == Ok::<Seq<(SazGameModel, int, int)>, SazSelfplayError>(
            indexed_games(gs, 10),
        ),
        indexed_games(gs, 10).len() == gs.len(),
        forall|i: int|
            0 <= i < gs.len() ==> {
                &&& (#[trigger] indexed_games(gs, 10)[i]).0 == gs[i]
                &&& indexed_games(gs, 10)[i].1 == 10 + games_bytes(gs.take(i)).len()
                &&& indexed_games(gs, 10)[i].2 == 10 + games_bytes(gs.take(i + 1)).len()
            },
        gs.take(gs.len() as int) == gs,
        serialize_spec(gs)->Ok_0.len() == 10 + games_bytes(gs).len(),
{
    let payload = games_bytes(gs);
    let input = chunk_bytes(payload);
    assert(serialize_spec(gs)->Ok_0 == input);
    let header = seq![83u8, 65u8, 90u8, 50u8, 1u8, 0u8] + le32(payload.len() as u32);
    assert(input == header + payload);
    assert(input[6] == le32(payload.len() as u32)[0] && input[7] == le32(payload.len() as u32)[1]);
    assert(input[8] == le32(payload.len() as u32)[2] && input[9] == le32(payload.len() as u32)[3]);
    lemma_le32_roundtrip(payload.len() as u32);
    assert(chunk_header_spec(input) == Ok::<int, SazSelfplayError>(input.len() as int));
    assert(input.subrange(10, input.len() as int) =~= payload);
    lemma_games_roundtrip(input, 10, input.len() as int, gs);
    lemma_indexed_games(gs, 10);
    assert(gs.take(gs.len() as int) =~= gs);
}

/// No proper prefix of a chunk that reads back reads back: every shorter
/// prefix is rejected.
pub proof fn lemma_truncated_chunk_rejected(input: Seq<u8>, n: int)
    requires
        chunk_decode_spec(input) is Ok,
        0 <= n < input.len(),
    ensures
        chunk_decode_spec(input.take(n)) is Err,
{
    let p = input.take(n);
    if n >= 10 {
        assert(p[6] == input[6] && p[7] == input[7] && p[8] == input[8] && p[9] == input[9]);
        assert(p[0] == input[0] && p[1] == input[1] && p[2] == input[2] && p[3] == input[3]);
        assert(p[4] == input[4] && p[5] == input[5]);
    }
}

/// The games of an indexed read with their byte ranges.
pub open spec fn indexed_view(v: Seq<IndexedSazSelfplayGame>) -> Seq<(SazGameModel, int, int)> {
    v.map_values(
        |e: IndexedSazSelfplayGame| (e.game.model(), e.payload_range.start as int, e.payload_range.end as int),
    )
}

/// Whether byte ranges cover `lo..hi` one after another: none when the
/// span is empty, else the first starts at `lo`, each ends where the next
/// starts, the last ends at `hi`, and none is empty.
pub open spec fn ranges_partition(v: Seq<(SazGameModel, int, int)>, lo: int, hi: int) -> bool {
    &&& (v.len() == 0 <==> lo == hi)
    &&& v.len() > 0 ==> v[0].1 == lo && v.last().2 == hi
    &&& forall|i: int| 0 <= i < v.len() ==> #[trigger] v[i].1 < v[i].2
    &&& forall|i: int| 0 <= i < v.len() - 1 ==> #[trigger] v[i].2 == v[i + 1].1
}

proof fn lemma_games_partition(input: Seq<u8>, c: int, end: int)
    requires
        c <= end,
        games_decode(input, c, end) is Ok,
    ensures
        ranges_partition(games_decode(input, c, end)->Ok_0, c, end),
    decreases end - c,
{
    if c < end {
        let (g, c1) = game_decode(input, c, end)->Ok_0;
        lemma_games_partition(input, c1, end);
        let rest = games_decode(input, c1, end)->Ok_0;
        let v = seq![(g, c, c1)] + rest;
        assert(games_decode(input, c, end)->Ok_0 == v);
        assert forall|i: int| 0 <= i < v.len() implies #[trigger] v[i].1 < v[i].2 by {
            if i > 0 {
                assert(v[i] == rest[i - 1]);
            }
        }
        assert forall|i: int| 0 <= i < v.len() - 1 implies #[trigger] v[i].2 == v[i + 1].1 by {
            if i > 0 {
                assert(v[i] == rest[i - 1]);
                assert(v[i + 1] == rest[i]);
            } else if rest.len() > 0 {
                assert(v[1] == rest[0]);
            }
        }
        if rest.len() > 0 {
            assert(v.last() == rest.last());
        }
    }
}

/// The byte ranges of the games of a chunk partition its payload in order:
/// the first starts after the ten-byte header, each ends where the next
/// starts, the last ends at the end of the chunk, none is empty, and there
/// is no game exactly when the payload is empty.
pub proof fn lemma_chunk_ranges_partition(input: Seq<u8>)
    requires
        chunk_decode_spec(input) is Ok,
    ensures
        ranges_partition(chunk_decode_spec(input)->Ok_0, 10, input.len() as int),
{
    let end = chunk_header_spec(input)->Ok_0;
    lemma_games_partition(input, 10, end);
}

} // verus!
