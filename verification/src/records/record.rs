//! The parts of a game record: initial position, move and terminal entries,
//! node identifiers and metadata.
use vstd::prelude::*;
pub use crate::records::metadata::{AttributeMap, RecordMetadata, RecordMetadataBuilder, RecordMetadataKey};
use crate::types::game_result::GameResult;
use crate::types::moves::Move;

verus! {

/// The SFEN of the standard initial position.
pub const STARTPOS_SFEN: &'static str = "lnsgkgsnl/1r5b1/ppppppppp/9/9/9/PPPPPPPPP/1B5R1/LNSGKGSNL b - 1";

/// The initial position of a record.
#[derive(Clone, Debug, PartialEq, Eq)]
pub enum RecordInitialPosition {
    /// USI `startpos`; written as `startpos`, not as its SFEN.
    Startpos,
    /// An explicit SFEN.
    Sfen(String),
}

impl RecordInitialPosition {
    /// The SFEN to set a position from: the standard one for `Startpos`.
    pub fn to_sfen(&self) -> (r: &str)
        ensures
            r@ == (match self {
                RecordInitialPosition::Startpos => STARTPOS_SFEN@,
                RecordInitialPosition::Sfen(s) => s@,
            }),
    {
        match self {
            RecordInitialPosition::Startpos => STARTPOS_SFEN,
            RecordInitialPosition::Sfen(s) => s.as_str(),
        }
    }

    /// Whether this is USI `startpos`.
    pub fn is_startpos(&self) -> (r: bool)
        ensures
            r == (*self is Startpos),
    {
        match self {
            RecordInitialPosition::Startpos => true,
            RecordInitialPosition::Sfen(_) => false,
        }
    }
}

impl vstd::std_specs::convert::FromSpecImpl<String> for RecordInitialPosition {
    open spec fn obeys_from_spec() -> bool {
        true
    }

    open spec fn from_spec(value: String) -> RecordInitialPosition {
        RecordInitialPosition::Sfen(value)
    }
}

impl core::convert::From<String> for RecordInitialPosition {
    fn from(value: String) -> RecordInitialPosition {
        RecordInitialPosition::Sfen(value)
    }
}

/// A copy of the text as an explicit SFEN. Spec equality of two `String`s is
/// not known from their text, so no `from_spec` is promised for this one.
impl vstd::std_specs::convert::FromSpecImpl<&str> for RecordInitialPosition {
    open spec fn obeys_from_spec() -> bool {
        false
    }

    open spec fn from_spec(value: &str) -> RecordInitialPosition {
        RecordInitialPosition::Startpos
    }
}

impl core::convert::From<&str> for RecordInitialPosition {
    fn from(value: &str) -> (r: RecordInitialPosition)
        ensures
            r matches RecordInitialPosition::Sfen(s) && s@ == value@,
    {
        RecordInitialPosition::Sfen(crate::text::string_from_str(value))
    }
}

/// One ordinary move of a record.
#[derive(Clone, Debug, PartialEq, Eq, Structural)]
pub struct MoveEntry {
    mv: Move,
}

impl MoveEntry {
    pub closed spec fn mv_spec(self) -> Move {
        self.mv
    }

    pub fn new(mv: Move) -> (r: MoveEntry)
        ensures
            r.mv_spec() == mv,
    {
        MoveEntry { mv }
    }

    pub fn mv(&self) -> (r: Move)
        ensures
            r == self.mv_spec(),
    {
        self.mv
    }
}

/// How a game ended.
#[derive(Clone, Debug, PartialEq, Eq)]
pub enum SpecialMove {
    Interrupt,
    Resign,
    MaxMoves,
    Impasse,
    Draw,
    RepetitionDraw,
    Mate,
    NoMate,
    Timeout,
    WinByIllegalMove,
    LoseByIllegalMove,
    WinByDeclaration,
    WinByDefault,
    LoseByDefault,
    Try,
    Unknown(String),
}

impl SpecialMove {
    /// The kind as a value: the variant's position and, for `Unknown`, its
    /// name.
    pub open spec fn kind_view(&self) -> (int, Seq<char>) {
        match self {
            SpecialMove::Interrupt => (0, Seq::empty()),
            SpecialMove::Resign => (1, Seq::empty()),
            SpecialMove::MaxMoves => (2, Seq::empty()),
            SpecialMove::Impasse => (3, Seq::empty()),
            SpecialMove::Draw => (4, Seq::empty()),
            SpecialMove::RepetitionDraw => (5, Seq::empty()),
            SpecialMove::Mate => (6, Seq::empty()),
            SpecialMove::NoMate => (7, Seq::empty()),
            SpecialMove::Timeout => (8, Seq::empty()),
            SpecialMove::WinByIllegalMove => (9, Seq::empty()),
            SpecialMove::LoseByIllegalMove => (10, Seq::empty()),
            SpecialMove::WinByDeclaration => (11, Seq::empty()),
            SpecialMove::WinByDefault => (12, Seq::empty()),
            SpecialMove::LoseByDefault => (13, Seq::empty()),
            SpecialMove::Try => (14, Seq::empty()),
            SpecialMove::Unknown(name) => (15, name@),
        }
    }
}

/// The terminal entry of a record: how and with what result the game ended,
/// and the marker as written in the source, if kept.
#[derive(Clone, Debug, PartialEq, Eq)]
pub struct SpecialMoveEntry {
    kind: SpecialMove,
    result: GameResult,
    raw: Option<String>,
}

impl SpecialMoveEntry {
    pub closed spec fn kind_spec(self) -> SpecialMove {
        self.kind
    }

    pub closed spec fn result_spec(self) -> GameResult {
        self.result
    }

    /// The kept marker's text.
    pub closed spec fn raw_spec(self) -> Option<Seq<char>> {
        match self.raw {
            Some(s) => Some(s@),
            None => None,
        }
    }

    /// An entry without a kept marker.
    pub fn new(kind: SpecialMove, result: GameResult) -> (r: SpecialMoveEntry)
        ensures
            r.kind_spec() == kind,
            r.result_spec() == result,
            r.raw_spec() is None,
    {
        SpecialMoveEntry { kind, result, raw: None }
    }

    /// The entry with the given marker text kept.
    pub fn with_raw(self, raw: Option<String>) -> (r: SpecialMoveEntry)
        ensures
            r.kind_spec() == self.kind_spec(),
            r.result_spec() == self.result_spec(),
            r.raw_spec() == (match raw {
                Some(s) => Some(s@),
                None => None::<Seq<char>>,
            }),
    {
        SpecialMoveEntry { kind: self.kind, result: self.result, raw }
    }

    pub fn kind(&self) -> (r: &SpecialMove)
        ensures
            *r == self.kind_spec(),
    {
        &self.kind
    }

    pub fn result(&self) -> (r: GameResult)
        ensures
            r == self.result_spec(),
    {
        self.result
    }

    pub fn raw(&self) -> (r: Option<&str>)
        ensures
            match r {
                Some(s) => self.raw_spec() == Some(s@),
                None => self.raw_spec() is None,
            },
    {
        match &self.raw {
            Some(s) => Some(s.as_str()),
            None => None,
        }
    }

    pub fn set_raw(&mut self, raw: Option<String>)
        ensures
            final(self).kind_spec() == old(self).kind_spec(),
            final(self).result_spec() == old(self).result_spec(),
            final(self).raw_spec() == (match raw {
                Some(s) => Some(s@),
                None => None::<Seq<char>>,
            }),
    {
        self.raw = raw;
    }
}

/// The payload of a record node: a move or the terminal entry.
#[derive(Clone, Debug, PartialEq, Eq)]
pub enum RecordEntry {
    Move(MoveEntry),
    Special(SpecialMoveEntry),
}

impl RecordEntry {
    pub fn as_move(&self) -> (r: Option<&MoveEntry>)
        ensures
            match self {
                RecordEntry::Move(m) => r == Some(m),
                RecordEntry::Special(_) => r is None,
            },
    {
        match self {
            RecordEntry::Move(m) => Some(m),
            RecordEntry::Special(_) => None,
        }
    }

    pub fn as_special(&self) -> (r: Option<&SpecialMoveEntry>)
        ensures
            match self {
                RecordEntry::Move(_) => r is None,
                RecordEntry::Special(s) => r == Some(s),
            },
    {
        match self {
            RecordEntry::Move(_) => None,
            RecordEntry::Special(s) => Some(s),
        }
    }
}

/// An opaque node identifier: the slot index plus one, never zero.
#[derive(Clone, Copy, Debug, PartialEq, Eq, PartialOrd, Ord, Hash)]
pub struct RecordNodeId(u32);

impl RecordNodeId {
    #[verifier::type_invariant]
    spec fn non_zero(self) -> bool {
        self.0 != 0
    }

    /// The slot index.
    pub closed spec fn index_spec(self) -> int {
        self.0 - 1
    }

    /// The raw slot index.
    pub fn raw(self) -> (r: usize)
        ensures
            r == self.index_spec(),
    {
        proof {
            use_type_invariant(&self);
        }
        (self.0 - 1) as usize
    }

    /// The identifier of slot `raw`; the slot index must fit the representation.
    pub fn from_raw(raw: usize) -> (r: RecordNodeId)
        requires
            raw < u32::MAX,
        ensures
            r.index_spec() == raw,
    {
        RecordNodeId((raw + 1) as u32)
    }

    /// The identifier of slot `raw`, when `raw + 1` fits in `u32`.
    pub fn try_from_raw(raw: usize) -> (r: Option<RecordNodeId>)
        ensures
            r is Some <==> raw < u32::MAX,
            r matches Some(id) ==> id.index_spec() == raw,
    {
        if raw >= 4294967295usize {
            return None;
        }
        Some(RecordNodeId((raw + 1) as u32))
    }
}

/// Options of taking a subtree of a record.
#[derive(Clone, Copy, Debug, PartialEq, Eq, Structural)]
pub struct SubtreeOptions {
    pub preserve_root_annotation: bool,
}

impl core::default::Default for SubtreeOptions {
    fn default() -> (r: SubtreeOptions)
        ensures
            r.preserve_root_annotation,
    {
        SubtreeOptions { preserve_root_annotation: true }
    }
}

/// How merging records treats a move that is already there.
#[derive(Clone, Copy, Debug, PartialEq, Eq, Structural)]
pub enum DuplicateHandling {
    ReuseExisting,
    AlwaysCreate,
}

/// Options of merging records.
#[derive(Clone, Copy, Debug, PartialEq, Eq, Structural)]
pub struct MergeOptions {
    pub duplicate_handling: DuplicateHandling,
}

impl core::default::Default for MergeOptions {
    fn default() -> (r: MergeOptions)
        ensures
            r.duplicate_handling == DuplicateHandling::ReuseExisting,
    {
        MergeOptions { duplicate_handling: DuplicateHandling::ReuseExisting }
    }
}

} // verus!
