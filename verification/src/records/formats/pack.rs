//! PACK training data (YaneuraOu ScriptCollection): self-delimiting games of a
//! start position, Apery moves with evaluations, and a terminal marker.
//!
//! Wire form of one game: a start tag (`1` for the standard position, `0`
//! followed by 32 bytes of Huffman-coded position and the little-endian game
//! ply); per ply the little-endian Apery move and evaluation; the little-endian
//! terminal marker of the result; one end-reason byte.
use vstd::prelude::*;
use crate::board::HuffmanCodedPos;
use crate::records::formats::wire::{
    array32_of, concat_bytes, i16_bits, i16_of_bits, le16, lemma_concat_bytes_push, push_all, push_i16, push_u16,
    read_array32, read_u16, u16_of,
};
use crate::records::record::{SpecialMove, SpecialMoveEntry};
use crate::text::chars_eq_str;
use crate::types::eval::Eval;
use crate::types::game_result::GameResult;
use crate::types::moves::{mid7, low7, AperyMove, Move};

verus! {

/// Where a game starts.
#[derive(Debug, Clone, Copy, PartialEq, Eq)]
pub enum PackStartPosition {
    Startpos,
    Hcp { hcp: HuffmanCodedPos, game_ply: u16 },
}

/// One ply: the move and the evaluation.
#[derive(Debug, Clone, Copy, PartialEq, Eq, Structural)]
pub struct PackPly {
    pub mv: AperyMove,
    pub eval: i16,
}

/// The game result.
#[derive(Debug, Clone, Copy, PartialEq, Eq, Structural)]
pub enum PackGameResult {
    Draw,
    BlackWin,
    WhiteWin,
}

/// Why the game ended; unknown bytes are kept as `Reserved`.
#[derive(Debug, Clone, Copy, PartialEq, Eq, Structural)]
pub enum PackEndReason {
    Resign,
    RepetitionDraw,
    MaxMoves,
    Interrupt,
    TimeUp,
    IllegalMove,
    RepetitionCheck,
    WinCsa24,
    DrawCsa24,
    WinCsa27,
    WinTryRule,
    Reserved(u8),
}

/// One game.
#[derive(Debug, Clone, PartialEq, Eq)]
pub struct PackGame {
    pub start_position: PackStartPosition,
    pub plies: Vec<PackPly>,
    pub result: PackGameResult,
    pub end_reason: PackEndReason,
}

/// Errors of the PACK format.
#[derive(Debug, Clone, PartialEq, Eq)]
pub enum PackError {
    Truncated,
    InvalidStartState(u8),
    InvalidTerminalMarker(u16),
    InvalidGameResult(u8),
    InvalidMove { index: usize, raw: u16 },
    IllegalMove { index: usize, raw: u16, sfen: String },
    MissingEval(usize),
    MissingTerminal,
    InconsistentOutcome { result: PackGameResult, reason: PackEndReason },
}

impl PackGameResult {
    /// The stored value: draw 0, black win 1, white win 2.
    pub open spec fn code_spec(self) -> u16 {
        match self {
            PackGameResult::Draw => 0,
            PackGameResult::BlackWin => 1,
            PackGameResult::WhiteWin => 2,
        }
    }

    /// The terminal marker: the value in both 7-bit move fields.
    pub open spec fn marker_spec(self) -> u16 {
        (self.code_spec() * 129) as u16
    }

    /// The terminal marker: the result value in both 7-bit fields of a move.
    pub fn terminal_marker(self) -> (r: u16)
        ensures
            r == self.marker_spec(),
    {
        let value: u16 = match self {
            PackGameResult::Draw => 0,
            PackGameResult::BlackWin => 1,
            PackGameResult::WhiteWin => 2,
        };
        value + value * 128
    }
}

/// The result whose terminal marker this is.
pub open spec fn marker_result_spec(marker: u16) -> Option<PackGameResult> {
    if marker == 0 {
        Some(PackGameResult::Draw)
    } else if marker == 129 {
        Some(PackGameResult::BlackWin)
    } else if marker == 258 {
        Some(PackGameResult::WhiteWin)
    } else {
        None
    }
}

fn marker_result(marker: u16) -> (r: Option<PackGameResult>)
    ensures
        r == marker_result_spec(marker),
{
    if marker == 0 {
        Some(PackGameResult::Draw)
    } else if marker == 129 {
        Some(PackGameResult::BlackWin)
    } else if marker == 258 {
        Some(PackGameResult::WhiteWin)
    } else {
        None
    }
}

/// What reading a result byte gives.
pub open spec fn pack_result_from_u8(value: u8) -> Result<PackGameResult, PackError> {
    if value == 0 {
        Ok(PackGameResult::Draw)
    } else if value == 1 {
        Ok(PackGameResult::BlackWin)
    } else if value == 2 {
        Ok(PackGameResult::WhiteWin)
    } else {
        Err(PackError::InvalidGameResult(value))
    }
}

impl vstd::std_specs::convert::TryFromSpecImpl<u8> for PackGameResult {
    open spec fn obeys_try_from_spec() -> bool {
        true
    }

    open spec fn try_from_spec(value: u8) -> Result<PackGameResult, PackError> {
        pack_result_from_u8(value)
    }
}

impl core::convert::TryFrom<u8> for PackGameResult {
    type Error = PackError;

    fn try_from(value: u8) -> (r: Result<PackGameResult, PackError>) {
        if value == 0 {
            Ok(PackGameResult::Draw)
        } else if value == 1 {
            Ok(PackGameResult::BlackWin)
        } else if value == 2 {
            Ok(PackGameResult::WhiteWin)
        } else {
            Err(PackError::InvalidGameResult(value))
        }
    }
}

impl PackEndReason {
    /// The stored byte.
    pub open spec fn byte_spec(self) -> u8 {
        match self {
            PackEndReason::Resign => 0,
            PackEndReason::RepetitionDraw => 1,
            PackEndReason::MaxMoves => 2,
            PackEndReason::Interrupt => 3,
            PackEndReason::TimeUp => 4,
            PackEndReason::IllegalMove => 5,
            PackEndReason::RepetitionCheck => 6,
            PackEndReason::WinCsa24 => 10,
            PackEndReason::DrawCsa24 => 11,
            PackEndReason::WinCsa27 => 12,
            PackEndReason::WinTryRule => 13,
            PackEndReason::Reserved(v) => v,
        }
    }

    /// The reason a stored byte names.
    pub open spec fn from_byte_spec(value: u8) -> PackEndReason {
        if value == 0 { PackEndReason::Resign }
        else if value == 1 { PackEndReason::RepetitionDraw }
        else if value == 2 { PackEndReason::MaxMoves }
        else if value == 3 { PackEndReason::Interrupt }
        else if value == 4 { PackEndReason::TimeUp }
        else if value == 5 { PackEndReason::IllegalMove }
        else if value == 6 { PackEndReason::RepetitionCheck }
        else if value == 10 { PackEndReason::WinCsa24 }
        else if value == 11 { PackEndReason::DrawCsa24 }
        else if value == 12 { PackEndReason::WinCsa27 }
        else if value == 13 { PackEndReason::WinTryRule }
        else { PackEndReason::Reserved(value) }
    }

    /// The label of a reason.
    pub open spec fn label_spec(self) -> Seq<char> {
        match self {
            PackEndReason::Resign => "resign"@,
            PackEndReason::RepetitionDraw => "draw"@,
            PackEndReason::MaxMoves => "max_moves"@,
            PackEndReason::Interrupt => "interrupt"@,
            PackEndReason::TimeUp => "time_up"@,
            PackEndReason::IllegalMove => "illegal_move"@,
            PackEndReason::RepetitionCheck => "repetition_check"@,
            PackEndReason::WinCsa24 => "win_csa24"@,
            PackEndReason::DrawCsa24 => "draw_csa24"@,
            PackEndReason::WinCsa27 => "win_csa27"@,
            PackEndReason::WinTryRule => "win_try_rule"@,
            PackEndReason::Reserved(_) => "reserved"@,
        }
    }

    pub fn to_byte(self) -> (r: u8)
        ensures
            r == self.byte_spec(),
    {
        match self {
            PackEndReason::Resign => 0,
            PackEndReason::RepetitionDraw => 1,
            PackEndReason::MaxMoves => 2,
            PackEndReason::Interrupt => 3,
            PackEndReason::TimeUp => 4,
            PackEndReason::IllegalMove => 5,
            PackEndReason::RepetitionCheck => 6,
            PackEndReason::WinCsa24 => 10,
            PackEndReason::DrawCsa24 => 11,
            PackEndReason::WinCsa27 => 12,
            PackEndReason::WinTryRule => 13,
            PackEndReason::Reserved(v) => v,
        }
    }

    pub fn from_byte(value: u8) -> (r: PackEndReason)
        ensures
            r == PackEndReason::from_byte_spec(value),
    {
        if value == 0 { PackEndReason::Resign }
        else if value == 1 { PackEndReason::RepetitionDraw }
        else if value == 2 { PackEndReason::MaxMoves }
        else if value == 3 { PackEndReason::Interrupt }
        else if value == 4 { PackEndReason::TimeUp }
        else if value == 5 { PackEndReason::IllegalMove }
        else if value == 6 { PackEndReason::RepetitionCheck }
        else if value == 10 { PackEndReason::WinCsa24 }
        else if value == 11 { PackEndReason::DrawCsa24 }
        else if value == 12 { PackEndReason::WinCsa27 }
        else if value == 13 { PackEndReason::WinTryRule }
        else { PackEndReason::Reserved(value) }
    }

    pub fn raw_label(self) -> (r: &'static str)
        ensures
            r@ == self.label_spec(),
    {
        match self {
            PackEndReason::Resign => "resign",
            PackEndReason::RepetitionDraw => "draw",
            PackEndReason::MaxMoves => "max_moves",
            PackEndReason::Interrupt => "interrupt",
            PackEndReason::TimeUp => "time_up",
            PackEndReason::IllegalMove => "illegal_move",
            PackEndReason::RepetitionCheck => "repetition_check",
            PackEndReason::WinCsa24 => "win_csa24",
            PackEndReason::DrawCsa24 => "draw_csa24",
            PackEndReason::WinCsa27 => "win_csa27",
            PackEndReason::WinTryRule => "win_try_rule",
            PackEndReason::Reserved(_) => "reserved",
        }
    }
}

/// Reading the byte of a reason gives the reason back.
pub proof fn lemma_end_reason_byte_roundtrip(reason: PackEndReason)
    requires
        reason matches PackEndReason::Reserved(v) ==> !(v <= 6 || (10 <= v <= 13)),
    ensures
        PackEndReason::from_byte_spec(reason.byte_spec()) == reason,
{
}

/// A 16-bit move that PACK writes: a real `Move` without the promotion flag on
/// a drop, with a square destination and, for a drop, a hand piece.
pub open spec fn valid_move_spec(raw: u16) -> bool {
    let mv = Move(raw);
    &&& mv.is_normal_spec()
    &&& low7(raw as int) <= 80
    &&& if mv.is_drop_spec() {
        !mv.is_promotion_spec() && 1 <= mid7(raw as int) <= 7
    } else {
        mid7(raw as int) <= 80 && mv.from_sq_spec() != mv.to_sq_spec()
    }
}

/// An Apery move that PACK accepts: bit 15 clear, a square destination, and
/// either a drop source 81-87 without the promotion flag or an origin square
/// different from the destination.
pub open spec fn valid_apery_move_spec(raw: u16) -> bool {
    let to = low7(raw as int);
    let from = mid7(raw as int);
    &&& !crate::types::moves::bit15(raw as int)
    &&& to <= 80
    &&& if from >= 81 {
        from <= 87 && !crate::types::moves::bit14(raw as int)
    } else {
        from != to
    }
}

pub fn valid_move(raw: u16) -> (r: bool)
    ensures
        r == valid_move_spec(raw),
{
    let mv = Move(raw);
    if !mv.is_normal() || mv.to_sq().0 > 80 {
        return false;
    }
    if mv.is_drop() {
        let from = mv.from_sq().0;
        !mv.is_promotion() && 1 <= from && from <= 7
    } else {
        mv.from_sq().0 <= 80 && mv.from_sq().0 != mv.to_sq().0
    }
}

pub fn valid_apery_move(raw: u16) -> (r: bool)
    ensures
        r == valid_apery_move_spec(raw),
{
    let a = AperyMove(raw);
    let mv = Move(raw);
    if mv.is_promotion() {
        return false;
    }
    let to = mv.to_sq().0;
    let from = mv.from_sq().0;
    if to > 80 {
        return false;
    }
    if from >= 81 {
        from <= 87 && !a.is_promotion()
    } else {
        from != to
    }
}

/// The bytes of the start position.
pub open spec fn pack_start_bytes(sp: PackStartPosition) -> Seq<u8> {
    match sp {
        PackStartPosition::Startpos => seq![1u8],
        PackStartPosition::Hcp { hcp, game_ply } => seq![0u8] + hcp.data@ + le16(game_ply),
    }
}

/// The four bytes of a ply.
pub open spec fn pack_ply_bytes(p: PackPly) -> Seq<u8> {
    le16(p.mv.0) + le16(i16_bits(p.eval))
}

/// The bytes of a run of plies.
pub open spec fn pack_plies_bytes(ps: Seq<PackPly>) -> Seq<u8>
    decreases ps.len(),
{
    if ps.len() == 0 {
        Seq::empty()
    } else {
        pack_ply_bytes(ps[0]) + pack_plies_bytes(ps.drop_first())
    }
}

/// The bytes of a game.
pub open spec fn pack_game_bytes(sp: PackStartPosition, plies: Seq<PackPly>, result: PackGameResult, reason: PackEndReason) -> Seq<u8> {
    pack_start_bytes(sp) + pack_plies_bytes(plies) + le16(result.marker_spec()) + seq![reason.byte_spec()]
}

proof fn lemma_plies_bytes_push(ps: Seq<PackPly>, p: PackPly)
    ensures
        pack_plies_bytes(ps.push(p)) == pack_plies_bytes(ps) + pack_ply_bytes(p),
        pack_plies_bytes(ps).len() == 4 * ps.len(),
    decreases ps.len(),
{
    if ps.len() == 0 {
        let q = ps.push(p);
        assert(q.drop_first() =~= Seq::<PackPly>::empty());
        assert(pack_plies_bytes(q.drop_first()) == Seq::<u8>::empty());
        assert(pack_plies_bytes(q) == pack_ply_bytes(q[0]) + pack_plies_bytes(q.drop_first()));
        assert(pack_plies_bytes(q) =~= pack_ply_bytes(p));
        assert(pack_plies_bytes(ps) == Seq::<u8>::empty());
        assert(pack_plies_bytes(ps) + pack_ply_bytes(p) =~= pack_ply_bytes(p));
    } else {
        lemma_plies_bytes_push(ps.drop_first(), p);
        assert(ps.push(p).drop_first() =~= ps.drop_first().push(p));
        assert(pack_plies_bytes(ps.push(p)) =~= pack_plies_bytes(ps) + pack_ply_bytes(p));
    }
}

/// Whether a result and an end reason agree: draws end by repetition, maximum
/// moves, interruption or a 24-point draw; wins by the other known reasons.
pub open spec fn reason_consistent_spec(result: PackGameResult, reason: PackEndReason) -> bool {
    match reason {
        PackEndReason::RepetitionDraw | PackEndReason::MaxMoves | PackEndReason::Interrupt
        | PackEndReason::DrawCsa24 => result == PackGameResult::Draw,
        PackEndReason::Reserved(_) => true,
        _ => result != PackGameResult::Draw,
    }
}

pub fn reason_consistent(result: PackGameResult, reason: PackEndReason) -> (r: bool)
    ensures
        r == reason_consistent_spec(result, reason),
{
    match reason {
        PackEndReason::RepetitionDraw | PackEndReason::MaxMoves | PackEndReason::Interrupt
        | PackEndReason::DrawCsa24 => result == PackGameResult::Draw,
        PackEndReason::Reserved(_) => true,
        _ => result != PackGameResult::Draw,
    }
}

/// The model of a decoded game: start, plies, result, end reason.
pub type PackGameModel = (PackStartPosition, Seq<PackPly>, PackGameResult, PackEndReason);

/// Decoding the plies from `offset`, after `plies` were read.
pub open spec fn pack_decode_plies(input: Seq<u8>, offset: int, sp: PackStartPosition, plies: Seq<PackPly>) -> Result<
    (PackGameModel, int),
    PackError,
>
    decreases input.len() - offset,
{
    if offset < 0 || input.len() < offset + 2 {
        Err(PackError::MissingTerminal)
    } else {
        let raw = u16_of(input[offset], input[offset + 1]);
        match marker_result_spec(raw) {
            Some(result) => {
                if input.len() < offset + 3 {
                    Err(PackError::Truncated)
                } else {
                    let reason = PackEndReason::from_byte_spec(input[offset + 2]);
                    if !reason_consistent_spec(result, reason) {
                        Err(PackError::InconsistentOutcome { result, reason })
                    } else {
                        Ok(((sp, plies, result, reason), offset + 3))
                    }
                }
            },
            None => {
                if !valid_apery_move_spec(raw) {
                    Err(PackError::InvalidMove { index: plies.len() as usize, raw })
                } else if input.len() < offset + 4 {
                    Err(PackError::MissingEval(plies.len() as usize))
                } else {
                    let ply = PackPly { mv: AperyMove(raw), eval: i16_of_bits(u16_of(input[offset + 2], input[offset + 3])) };
                    pack_decode_plies(input, offset + 4, sp, plies.push(ply))
                }
            },
        }
    }
}

/// What decoding a game from the front of `input` gives: the game and the
/// number of bytes it takes.
pub open spec fn pack_decode_spec(input: Seq<u8>) -> Result<(PackGameModel, int), PackError> {
    if input.len() == 0 {
        Err(PackError::Truncated)
    } else if input[0] == 1 {
        pack_decode_plies(input, 1, PackStartPosition::Startpos, Seq::empty())
    } else if input[0] == 0 {
        if input.len() < 35 {
            Err(PackError::Truncated)
        } else {
            let hcp = HuffmanCodedPos { data: array32_of(input.subrange(1, 33)) };
            pack_decode_plies(input, 35, PackStartPosition::Hcp { hcp, game_ply: u16_of(input[33], input[34]) }, Seq::empty())
        }
    } else {
        Err(PackError::InvalidStartState(input[0]))
    }
}

impl PackGame {
    pub open spec fn model(&self) -> PackGameModel {
        (self.start_position, self.plies@, self.result, self.end_reason)
    }
}

/// The bytes of a game (see [`pack_game_bytes`]).
pub fn encode_game(game: &PackGame) -> (r: Vec<u8>)
    ensures
        r@ == pack_game_bytes(game.start_position, game.plies@, game.result, game.end_reason),
{
    let mut out: Vec<u8> = Vec::new();
    match game.start_position {
        PackStartPosition::Startpos => out.push(1),
        PackStartPosition::Hcp { hcp, game_ply } => {
            out.push(0);
            push_all(&mut out, hcp.data.as_slice());
            push_u16(&mut out, game_ply);
        },
    }
    let ghost start = out@;
    assert(start == pack_start_bytes(game.start_position));
    let mut i: usize = 0;
    assert(game.plies@.take(0) =~= Seq::<PackPly>::empty());
    while i < game.plies.len()
        invariant
            i <= game.plies@.len(),
            out@ == start + pack_plies_bytes(game.plies@.take(i as int)),
        decreases game.plies.len() - i,
    {
        let ply = game.plies[i];
        push_u16(&mut out, ply.mv.0);
        push_i16(&mut out, ply.eval);
        proof {
            lemma_plies_bytes_push(game.plies@.take(i as int), ply);
            assert(game.plies@.take(i + 1) =~= game.plies@.take(i as int).push(ply));
        }
        i += 1;
        assert(out@ =~= start + pack_plies_bytes(game.plies@.take(i as int)));
    }
    assert(game.plies@.take(i as int) =~= game.plies@);
    push_u16(&mut out, game.result.terminal_marker());
    out.push(game.end_reason.to_byte());
    assert(out@ =~= pack_game_bytes(game.start_position, game.plies@, game.result, game.end_reason));
    out
}

/// Decodes one game from the front of `input` (see [`pack_decode_spec`]).
pub fn decode_game(input: &[u8]) -> (r: Result<(PackGame, usize), PackError>)
    ensures
        match pack_decode_spec(input@) {
            Ok((m, used)) => r matches Ok((g, u)) && g.model() == m && u == used,
            Err(e) => r == Err::<(PackGame, usize), PackError>(e),
        },
{
    let n = input.len();
    if n == 0 {
        return Err(PackError::Truncated);
    }
    let tag = input[0];
    let (start_position, first): (PackStartPosition, usize) = if tag == 1 {
        (PackStartPosition::Startpos, 1)
    } else if tag == 0 {
        if n < 35 {
            return Err(PackError::Truncated);
        }
        let data = read_array32(input, 1);
        let game_ply = read_u16(input, 33);
        proof {
            crate::records::formats::wire::lemma_array32_of(data);
            assert(data@ == input@.subrange(1, 33));
        }
        (PackStartPosition::Hcp { hcp: HuffmanCodedPos { data }, game_ply }, 35)
    } else {
        return Err(PackError::InvalidStartState(tag));
    };
    let mut offset: usize = first;
    let mut plies: Vec<PackPly> = Vec::new();
    assert(pack_decode_spec(input@) == pack_decode_plies(input@, offset as int, start_position, plies@));
    loop
        invariant
            n == input@.len(),
            offset <= n,
            pack_decode_spec(input@) == pack_decode_plies(input@, offset as int, start_position, plies@),
        decreases n - offset,
    {
        if n - offset < 2 {
            return Err(PackError::MissingTerminal);
        }
        let raw = read_u16(input, offset);
        match marker_result(raw) {
            Some(result) => {
                if n - offset < 3 {
                    return Err(PackError::Truncated);
                }
                let end_reason = PackEndReason::from_byte(input[offset + 2]);
                if !reason_consistent(result, end_reason) {
                    return Err(PackError::InconsistentOutcome { result, reason: end_reason });
                }
                let game = PackGame { start_position, plies, result, end_reason };
                return Ok((game, offset + 3));
            },
            None => {},
        }
        if !valid_apery_move(raw) {
            return Err(PackError::InvalidMove { index: plies.len(), raw });
        }
        if n - offset < 4 {
            return Err(PackError::MissingEval(plies.len()));
        }
        let eval = crate::records::formats::wire::i16_from_bits(read_u16(input, offset + 2));
        plies.push(PackPly { mv: AperyMove(raw), eval });
        offset = offset + 4;
    }
}

/// Decoding from offset `offset` of `pre + bytes of ps + tail` reads `ps`.
proof fn lemma_decode_plies(pre: Seq<u8>, ps: Seq<PackPly>, tail: Seq<u8>, sp: PackStartPosition, acc: Seq<PackPly>)
    requires
        forall|i: int| 0 <= i < ps.len() ==> valid_apery_move_spec(#[trigger] ps[i].mv.0),
    ensures
        pack_decode_plies(pre + pack_plies_bytes(ps) + tail, pre.len() as int, sp, acc) == pack_decode_plies(
            pre + pack_plies_bytes(ps) + tail,
            (pre.len() + 4 * ps.len()) as int,
            sp,
            acc + ps,
        ),
    decreases ps.len(),
{
    let input = pre + pack_plies_bytes(ps) + tail;
    if ps.len() == 0 {
        assert(acc + ps =~= acc);
    } else {
        let p = ps[0];
        let rest = ps.drop_first();
        let pre2 = pre + pack_ply_bytes(p);
        assert(input =~= pre2 + pack_plies_bytes(rest) + tail);
        assert forall|i: int| 0 <= i < rest.len() implies valid_apery_move_spec(#[trigger] rest[i].mv.0) by {
            assert(rest[i] == ps[i + 1]);
        }
        lemma_decode_plies(pre2, rest, tail, sp, acc.push(p));
        lemma_plies_bytes_push(Seq::empty(), p);
        lemma_plies_bytes_push(rest, p);
        let o = pre.len() as int;
        assert(input[o] == le16(p.mv.0)[0] && input[o + 1] == le16(p.mv.0)[1]);
        assert(input[o + 2] == le16(i16_bits(p.eval))[0] && input[o + 3] == le16(i16_bits(p.eval))[1]);
        crate::records::formats::wire::lemma_le16_roundtrip(p.mv.0);
        crate::records::formats::wire::lemma_le16_roundtrip(i16_bits(p.eval));
        crate::records::formats::wire::lemma_i16_bits_roundtrip(p.eval);
        assert(valid_apery_move_spec(p.mv.0));
        assert(marker_result_spec(p.mv.0) is None) by {
            assert(valid_apery_move_spec(0) == false);
            assert(valid_apery_move_spec(129) == false);
            assert(valid_apery_move_spec(258) == false);
        }
        assert(PackPly { mv: AperyMove(p.mv.0), eval: p.eval } == p);
        assert(acc.push(p) + rest =~= acc + ps);
        assert(pre2.len() == o + 4);
    }
}

/// A game whose moves PACK accepts and whose result agrees with its end reason
/// decodes from the front of its bytes followed by anything, taking exactly its
/// own bytes: games are self-delimiting and can be concatenated.
pub proof fn lemma_pack_roundtrip(
    sp: PackStartPosition,
    plies: Seq<PackPly>,
    result: PackGameResult,
    reason: PackEndReason,
    rest: Seq<u8>,
)
    requires
        forall|i: int| 0 <= i < plies.len() ==> valid_apery_move_spec(#[trigger] plies[i].mv.0),
        reason_consistent_spec(result, reason),
        reason matches PackEndReason::Reserved(v) ==> !(v <= 6 || (10 <= v <= 13)),
    ensures
        pack_decode_spec(pack_game_bytes(sp, plies, result, reason) + rest) == Ok::<(PackGameModel, int), PackError>(
            ((sp, plies, result, reason), pack_game_bytes(sp, plies, result, reason).len() as int),
        ),
{
    let bytes = pack_game_bytes(sp, plies, result, reason);
    let input = bytes + rest;
    let pre = pack_start_bytes(sp);
    let tail = le16(result.marker_spec()) + seq![reason.byte_spec()] + rest;
    assert(input =~= pre + pack_plies_bytes(plies) + tail);
    lemma_decode_plies(pre, plies, tail, sp, Seq::empty());
    lemma_plies_bytes_push(plies, PackPly { mv: AperyMove(0), eval: 0 });
    assert(Seq::<PackPly>::empty() + plies =~= plies);
    let o: int = (pre.len() + 4 * plies.len()) as int;
    crate::records::formats::wire::lemma_le16_roundtrip(result.marker_spec());
    assert(input[o] == le16(result.marker_spec())[0]);
    assert(input[o + 1] == le16(result.marker_spec())[1]);
    assert(input[o + 2] == reason.byte_spec());
    lemma_end_reason_byte_roundtrip(reason);
    assert(o + 3 == bytes.len());
    match sp {
        PackStartPosition::Startpos => {
            assert(input[0] == 1);
        },
        PackStartPosition::Hcp { hcp, game_ply } => {
            assert(input[0] == 0);
            assert(input.subrange(1, 33) =~= hcp.data@);
            crate::records::formats::wire::lemma_array32_of(hcp.data);
            crate::records::formats::wire::lemma_le16_roundtrip(game_ply);
            assert(input[33] == le16(game_ply)[0] && input[34] == le16(game_ply)[1]);
        },
    }
}

/// What decoding a run of games gives.
pub open spec fn pack_decode_all_spec(input: Seq<u8>) -> Result<Seq<PackGameModel>, PackError>
    decreases input.len(),
{
    if input.len() == 0 {
        Ok(Seq::empty())
    } else {
        match pack_decode_spec(input) {
            Err(e) => Err(e),
            Ok((g, used)) => if 0 < used <= input.len() {
                match pack_decode_all_spec(input.skip(used)) {
                    Err(e) => Err(e),
                    Ok(rest) => Ok(seq![g] + rest),
                }
            } else {
                Err(PackError::Truncated)
            },
        }
    }
}

proof fn lemma_decode_plies_used(input: Seq<u8>, offset: int, sp: PackStartPosition, plies: Seq<PackPly>)
    ensures
        pack_decode_plies(input, offset, sp, plies) matches Ok((_, used)) ==> offset < used <= input.len(),
    decreases input.len() - offset,
{
    if offset >= 0 && input.len() >= offset + 4 {
        let raw = u16_of(input[offset], input[offset + 1]);
        let ply = PackPly { mv: AperyMove(raw), eval: i16_of_bits(u16_of(input[offset + 2], input[offset + 3])) };
        lemma_decode_plies_used(input, offset + 4, sp, plies.push(ply));
    }
}

/// Decodes every game of `input` in turn.
pub fn decode_games(input: &[u8]) -> (r: Result<Vec<PackGame>, PackError>)
    ensures
        match pack_decode_all_spec(input@) {
            Ok(v) => r matches Ok(games) && games@.len() == v.len() && forall|i: int| 0 <= i < v.len() ==> #[trigger] games@[i].model() == v[i],
            Err(e) => r == Err::<Vec<PackGame>, PackError>(e),
        },
{
    let n = input.len();
    let mut games: Vec<PackGame> = Vec::new();
    let mut offset: usize = 0;
    assert(input@.skip(0) =~= input@);
    while offset < n
        invariant
            n == input@.len(),
            offset <= n,
            match pack_decode_all_spec(input@) {
                Ok(v) => pack_decode_all_spec(input@.skip(offset as int)) matches Ok(tail) && games@.len() + tail.len() == v.len()
                    && (forall|i: int| 0 <= i < games@.len() ==> #[trigger] games@[i].model() == v[i])
                    && (forall|i: int| 0 <= i < tail.len() ==> #[trigger] tail[i] == v[games@.len() + i]),
                Err(e) => pack_decode_all_spec(input@.skip(offset as int)) == Err::<Seq<PackGameModel>, PackError>(e),
            },
        decreases n - offset,
    {
        let ghost here = input@.skip(offset as int);
        let slice = vstd::slice::slice_subrange(input, offset, n);
        assert(slice@ =~= here);
        match decode_game(slice) {
            Ok((game, used)) => {
                proof {
                    lemma_decode_plies_used(here, 1, PackStartPosition::Startpos, Seq::empty());
                    if here[0] == 0 && here.len() >= 35 {
                        let hcp = HuffmanCodedPos { data: array32_of(here.subrange(1, 33)) };
                        lemma_decode_plies_used(here, 35, PackStartPosition::Hcp { hcp, game_ply: u16_of(here[33], here[34]) }, Seq::empty());
                    }
                    assert(input@.skip(offset + used) =~= here.skip(used as int));
                }
                let ghost before = games@;
                games.push(game);
                offset = offset + used;
                proof {
                    if let Ok(v) = pack_decode_all_spec(input@) {
                        let tail_old = pack_decode_all_spec(here)->Ok_0;
                        let tail_new = pack_decode_all_spec(input@.skip(offset as int))->Ok_0;
                        assert(tail_old == seq![game.model()] + tail_new);
                        assert forall|i: int| 0 <= i < games@.len() implies #[trigger] games@[i].model() == v[i] by {
                            if i == before.len() {
                                assert(tail_old[0] == game.model());
                            }
                        }
                        assert forall|i: int| 0 <= i < tail_new.len() implies #[trigger] tail_new[i] == v[games@.len() + i] by {
                            assert(tail_new[i] == tail_old[i + 1]);
                        }
                    }
                }
            },
            Err(e) => {
                return Err(e);
            },
        }
    }
    proof {
        if let Ok(v) = pack_decode_all_spec(input@) {
            assert(input@.skip(offset as int) =~= Seq::<u8>::empty());
        }
    }
    Ok(games)
}

/// The bytes of a run of games, one after another.
pub open spec fn pack_games_bytes(gs: Seq<PackGame>) -> Seq<u8> {
    concat_bytes(gs, |g: PackGame| pack_game_bytes(g.start_position, g.plies@, g.result, g.end_reason))
}

/// Appends the bytes of every game to `writer`.
pub fn write_games(writer: &mut Vec<u8>, games: &[PackGame]) -> (r: Result<(), PackError>)
    ensures
        r is Ok,
        final(writer)@ == old(writer)@ + pack_games_bytes(games@),
{
    let mut i: usize = 0;
    assert(games@.take(0) =~= Seq::<PackGame>::empty());
    assert(old(writer)@ + pack_games_bytes(Seq::<PackGame>::empty()) =~= old(writer)@);
    while i < games.len()
        invariant
            i <= games@.len(),
            writer@ == old(writer)@ + pack_games_bytes(games@.take(i as int)),
        decreases games.len() - i,
    {
        let bytes = encode_game(&games[i]);
        push_all(writer, bytes.as_slice());
        proof {
            let g = games@[i as int];
            lemma_concat_bytes_push(
                games@.take(i as int),
                |g: PackGame| pack_game_bytes(g.start_position, g.plies@, g.result, g.end_reason),
                g,
            );
            assert(games@.take(i + 1) =~= games@.take(i as int).push(g));
        }
        i += 1;
        assert(writer@ =~= old(writer)@ + pack_games_bytes(games@.take(i as int)));
    }
    assert(games@.take(i as int) =~= games@);
    Ok(())
}

/// The PACK result of a game result: wins of either side, draws and a paused
/// game (as a draw); none for an error or an invalid result.
pub open spec fn result_to_game_spec(result: GameResult) -> Option<PackGameResult> {
    if result.is_black_win_spec() {
        Some(PackGameResult::BlackWin)
    } else if result.is_white_win_spec() {
        Some(PackGameResult::WhiteWin)
    } else if result.is_draw_spec() || result == GameResult::Paused {
        Some(PackGameResult::Draw)
    } else {
        None
    }
}

pub fn result_to_game(result: GameResult) -> (r: Option<PackGameResult>)
    ensures
        r == result_to_game_spec(result),
{
    if result.is_black_win() {
        Some(PackGameResult::BlackWin)
    } else if result.is_white_win() {
        Some(PackGameResult::WhiteWin)
    } else if result.is_draw() || result == GameResult::Paused {
        Some(PackGameResult::Draw)
    } else {
        None
    }
}

/// An evaluation clamped to the centipawn range.
pub fn clamp_pack_eval(eval: i16) -> (r: i16)
    ensures
        r == (if eval < Eval::CP_MIN { Eval::CP_MIN } else if eval > Eval::CP_MAX { Eval::CP_MAX } else { eval }),
{
    if eval < Eval::CP_MIN {
        Eval::CP_MIN
    } else if eval > Eval::CP_MAX {
        Eval::CP_MAX
    } else {
        eval
    }
}


/// The game result a PACK outcome stands for.
pub open spec fn special_result_spec(result: PackGameResult, reason: PackEndReason) -> GameResult {
    match result {
        PackGameResult::Draw => match reason {
            PackEndReason::MaxMoves => GameResult::DrawByMaxPlies,
            PackEndReason::Interrupt => GameResult::Paused,
            PackEndReason::DrawCsa24 => GameResult::DrawByImpasse,
            _ => GameResult::DrawByRepetition,
        },
        PackGameResult::BlackWin => match reason {
            PackEndReason::TimeUp => GameResult::BlackWinByTimeout,
            PackEndReason::IllegalMove => GameResult::BlackWinByIllegalMove,
            PackEndReason::WinTryRule => GameResult::BlackWinByTryRule,
            PackEndReason::WinCsa24 | PackEndReason::WinCsa27 => GameResult::BlackWinByDeclaration,
            _ => GameResult::BlackWin,
        },
        PackGameResult::WhiteWin => match reason {
            PackEndReason::TimeUp => GameResult::WhiteWinByTimeout,
            PackEndReason::IllegalMove => GameResult::WhiteWinByIllegalMove,
            PackEndReason::WinTryRule => GameResult::WhiteWinByTryRule,
            PackEndReason::WinCsa24 | PackEndReason::WinCsa27 => GameResult::WhiteWinByDeclaration,
            _ => GameResult::WhiteWin,
        },
    }
}

/// Whether `kind` is the terminal kind an end reason stands for; a reserved
/// reason stands for an unknown terminal named `reserved`.
pub open spec fn special_kind_for(kind: SpecialMove, reason: PackEndReason) -> bool {
    match reason {
        PackEndReason::Resign => kind == SpecialMove::Resign,
        PackEndReason::RepetitionDraw => kind == SpecialMove::RepetitionDraw,
        PackEndReason::DrawCsa24 => kind == SpecialMove::Impasse,
        PackEndReason::MaxMoves => kind == SpecialMove::MaxMoves,
        PackEndReason::Interrupt => kind == SpecialMove::Interrupt,
        PackEndReason::TimeUp => kind == SpecialMove::Timeout,
        PackEndReason::IllegalMove | PackEndReason::RepetitionCheck => kind == SpecialMove::WinByIllegalMove,
        PackEndReason::WinTryRule => kind == SpecialMove::Try,
        PackEndReason::WinCsa24 | PackEndReason::WinCsa27 => kind == SpecialMove::WinByDeclaration,
        PackEndReason::Reserved(_) => kind matches SpecialMove::Unknown(name) && name@ == "reserved"@,
    }
}

/// The text after `pack:end_reason=` that records an end reason: its label, or
/// the byte in decimal for a reserved reason.
pub open spec fn end_reason_text(reason: PackEndReason) -> Seq<char> {
    match reason {
        PackEndReason::Reserved(v) => crate::text::decimal(v as nat),
        _ => reason.label_spec(),
    }
}

/// The terminal entry of a PACK outcome, keeping `pack:end_reason=...` as its
/// marker.
pub fn special_for(result: PackGameResult, reason: PackEndReason) -> (r: SpecialMoveEntry)
    ensures
        r.result_spec() == special_result_spec(result, reason),
        special_kind_for(r.kind_spec(), reason),
        r.raw_spec() == Some("pack:end_reason="@ + end_reason_text(reason)),
{
    let game_result = match result {
        PackGameResult::Draw => match reason {
            PackEndReason::MaxMoves => GameResult::DrawByMaxPlies,
            PackEndReason::Interrupt => GameResult::Paused,
            PackEndReason::DrawCsa24 => GameResult::DrawByImpasse,
            _ => GameResult::DrawByRepetition,
        },
        PackGameResult::BlackWin => match reason {
            PackEndReason::TimeUp => GameResult::BlackWinByTimeout,
            PackEndReason::IllegalMove => GameResult::BlackWinByIllegalMove,
            PackEndReason::WinTryRule => GameResult::BlackWinByTryRule,
            PackEndReason::WinCsa24 | PackEndReason::WinCsa27 => GameResult::BlackWinByDeclaration,
            _ => GameResult::BlackWin,
        },
        PackGameResult::WhiteWin => match reason {
            PackEndReason::TimeUp => GameResult::WhiteWinByTimeout,
            PackEndReason::IllegalMove => GameResult::WhiteWinByIllegalMove,
            PackEndReason::WinTryRule => GameResult::WhiteWinByTryRule,
            PackEndReason::WinCsa24 | PackEndReason::WinCsa27 => GameResult::WhiteWinByDeclaration,
            _ => GameResult::WhiteWin,
        },
    };
    let kind = match reason {
        PackEndReason::Resign => SpecialMove::Resign,
        PackEndReason::RepetitionDraw => SpecialMove::RepetitionDraw,
        PackEndReason::DrawCsa24 => SpecialMove::Impasse,
        PackEndReason::MaxMoves => SpecialMove::MaxMoves,
        PackEndReason::Interrupt => SpecialMove::Interrupt,
        PackEndReason::TimeUp => SpecialMove::Timeout,
        PackEndReason::IllegalMove | PackEndReason::RepetitionCheck => SpecialMove::WinByIllegalMove,
        PackEndReason::WinTryRule => SpecialMove::Try,
        PackEndReason::WinCsa24 | PackEndReason::WinCsa27 => SpecialMove::WinByDeclaration,
        PackEndReason::Reserved(_) => SpecialMove::Unknown(crate::text::string_from_str(reason.raw_label())),
    };
    let mut raw = crate::text::string_from_str("pack:end_reason=");
    match reason {
        PackEndReason::Reserved(v) => crate::text::push_decimal(&mut raw, v as u64),
        _ => crate::text::push_str(&mut raw, reason.raw_label()),
    }
    SpecialMoveEntry::new(kind, game_result).with_raw(Some(raw))
}

/// The end reason a label (or a decimal byte) names.
pub open spec fn reason_from_text(t: Seq<char>) -> Option<PackEndReason> {
    if t == "resign"@ { Some(PackEndReason::Resign) }
    else if t == "draw"@ { Some(PackEndReason::RepetitionDraw) }
    else if t == "max_moves"@ { Some(PackEndReason::MaxMoves) }
    else if t == "interrupt"@ { Some(PackEndReason::Interrupt) }
    else if t == "time_up"@ { Some(PackEndReason::TimeUp) }
    else if t == "illegal_move"@ { Some(PackEndReason::IllegalMove) }
    else if t == "repetition_check"@ { Some(PackEndReason::RepetitionCheck) }
    else if t == "win_csa24"@ { Some(PackEndReason::WinCsa24) }
    else if t == "draw_csa24"@ { Some(PackEndReason::DrawCsa24) }
    else if t == "win_csa27"@ { Some(PackEndReason::WinCsa27) }
    else if t == "win_try_rule"@ { Some(PackEndReason::WinTryRule) }
    else {
        match crate::text::parse_u8_spec(t) {
            Some(v) => Some(PackEndReason::from_byte_spec(v)),
            None => None,
        }
    }
}

/// The end reason of a terminal entry: the one its `pack:end_reason=` marker
/// names; else by the result (declaration wins by the impasse rule, 24-point
/// draws, try-rule wins); else by the terminal kind; else reserved 255.
pub open spec fn reason_from_special_spec(
    kind: SpecialMove,
    result: GameResult,
    raw: Option<Seq<char>>,
    impasse_rule: Option<Seq<char>>,
) -> PackEndReason {
    let prefix = "pack:end_reason="@;
    let parsed = match raw {
        Some(r) => if crate::text::starts_with(r, prefix) { reason_from_text(r.skip(prefix.len() as int)) } else { None },
        None => None,
    };
    match parsed {
        Some(reason) => reason,
        None => {
            if result == GameResult::BlackWinByDeclaration || result == GameResult::WhiteWinByDeclaration {
                if impasse_rule matches Some(rule) && crate::text::starts_with(rule, "CSARule24"@) {
                    PackEndReason::WinCsa24
                } else {
                    PackEndReason::WinCsa27
                }
            } else if result == GameResult::DrawByImpasse {
                PackEndReason::DrawCsa24
            } else if result == GameResult::BlackWinByTryRule || result == GameResult::WhiteWinByTryRule {
                PackEndReason::WinTryRule
            } else {
                match kind {
                    SpecialMove::Resign => PackEndReason::Resign,
                    SpecialMove::RepetitionDraw => PackEndReason::RepetitionDraw,
                    SpecialMove::MaxMoves => PackEndReason::MaxMoves,
                    SpecialMove::Interrupt => PackEndReason::Interrupt,
                    SpecialMove::Timeout => PackEndReason::TimeUp,
                    SpecialMove::WinByIllegalMove | SpecialMove::LoseByIllegalMove => PackEndReason::IllegalMove,
                    SpecialMove::Try => PackEndReason::WinTryRule,
                    _ => PackEndReason::Reserved(255),
                }
            }
        },
    }
}

fn reason_from_chars(t: &[char]) -> (r: Option<PackEndReason>)
    ensures
        r == reason_from_text(t@),
{
    if chars_eq_str(t, "resign") { Some(PackEndReason::Resign) }
    else if chars_eq_str(t, "draw") { Some(PackEndReason::RepetitionDraw) }
    else if chars_eq_str(t, "max_moves") { Some(PackEndReason::MaxMoves) }
    else if chars_eq_str(t, "interrupt") { Some(PackEndReason::Interrupt) }
    else if chars_eq_str(t, "time_up") { Some(PackEndReason::TimeUp) }
    else if chars_eq_str(t, "illegal_move") { Some(PackEndReason::IllegalMove) }
    else if chars_eq_str(t, "repetition_check") { Some(PackEndReason::RepetitionCheck) }
    else if chars_eq_str(t, "win_csa24") { Some(PackEndReason::WinCsa24) }
    else if chars_eq_str(t, "draw_csa24") { Some(PackEndReason::DrawCsa24) }
    else if chars_eq_str(t, "win_csa27") { Some(PackEndReason::WinCsa27) }
    else if chars_eq_str(t, "win_try_rule") { Some(PackEndReason::WinTryRule) }
    else {
        match crate::text::parse_u8(t) {
            Some(v) => Some(PackEndReason::from_byte(v)),
            None => None,
        }
    }
}

/// The end reason of a terminal entry (see [`reason_from_special_spec`]);
/// `impasse_rule` is the record's impasse rule.
pub fn reason_from_special(special: &SpecialMoveEntry, impasse_rule: Option<&str>) -> (r: PackEndReason)
    ensures
        r == reason_from_special_spec(
            special.kind_spec(),
            special.result_spec(),
            special.raw_spec(),
            match impasse_rule {
                Some(t) => Some(t@),
                None => None::<Seq<char>>,
            },
        ),
{
    let ghost prefix = "pack:end_reason="@;
    let parsed: Option<PackEndReason> = match special.raw() {
        Some(raw) => {
            let v = crate::text::str_chars(raw);
            if crate::text::chars_start_with(v.as_slice(), "pack:end_reason=") {
                let n = crate::text::str_chars("pack:end_reason=").len();
                let rest = vstd::slice::slice_subrange(v.as_slice(), n, v.len());
                assert(rest@ =~= v@.skip(prefix.len() as int));
                reason_from_chars(rest)
            } else {
                None
            }
        },
        None => None,
    };
    if let Some(reason) = parsed {
        return reason;
    }
    let result = special.result();
    if result == GameResult::BlackWinByDeclaration || result == GameResult::WhiteWinByDeclaration {
        let csa24 = match impasse_rule {
            Some(rule) => {
                let v = crate::text::str_chars(rule);
                crate::text::chars_start_with(v.as_slice(), "CSARule24")
            },
            None => false,
        };
        return if csa24 { PackEndReason::WinCsa24 } else { PackEndReason::WinCsa27 };
    }
    if result == GameResult::DrawByImpasse {
        return PackEndReason::DrawCsa24;
    }
    if result == GameResult::BlackWinByTryRule || result == GameResult::WhiteWinByTryRule {
        return PackEndReason::WinTryRule;
    }
    match special.kind() {
        SpecialMove::Resign => PackEndReason::Resign,
        SpecialMove::RepetitionDraw => PackEndReason::RepetitionDraw,
        SpecialMove::MaxMoves => PackEndReason::MaxMoves,
        SpecialMove::Interrupt => PackEndReason::Interrupt,
        SpecialMove::Timeout => PackEndReason::TimeUp,
        SpecialMove::WinByIllegalMove | SpecialMove::LoseByIllegalMove => PackEndReason::IllegalMove,
        SpecialMove::Try => PackEndReason::WinTryRule,
        _ => PackEndReason::Reserved(255),
    }
}


/// The terminal entry made from a PACK outcome reads back as the same end
/// reason, whatever the impasse rule (a reserved byte that names a known reason
/// reads back as that reason).
pub proof fn lemma_special_reason_roundtrip(
    result: PackGameResult,
    reason: PackEndReason,
    kind: SpecialMove,
    impasse_rule: Option<Seq<char>>,
)
    requires
        reason matches PackEndReason::Reserved(v) ==> !(v <= 6 || (10 <= v <= 13)),
    ensures
        reason_from_special_spec(
            kind,
            special_result_spec(result, reason),
            Some("pack:end_reason="@ + end_reason_text(reason)),
            impasse_rule,
        ) == reason,
{
    reveal_strlit("pack:end_reason=");
    reveal_strlit("resign");
    reveal_strlit("draw");
    reveal_strlit("max_moves");
    reveal_strlit("interrupt");
    reveal_strlit("time_up");
    reveal_strlit("illegal_move");
    reveal_strlit("repetition_check");
    reveal_strlit("win_csa24");
    reveal_strlit("draw_csa24");
    reveal_strlit("win_csa27");
    reveal_strlit("win_try_rule");
    reveal_strlit("reserved");
    let prefix = "pack:end_reason="@;
    let text = end_reason_text(reason);
    let raw = prefix + text;
    assert(raw.take(prefix.len() as int) =~= prefix);
    assert(raw.skip(prefix.len() as int) =~= text);
    match reason {
        PackEndReason::Reserved(v) => {
            crate::text::lemma_decimal_value(v as nat);
            assert(crate::text::is_digit(text[0]));
            assert(text != "resign"@ && text != "draw"@ && text != "max_moves"@ && text != "interrupt"@);
            assert(text != "time_up"@ && text != "illegal_move"@ && text != "repetition_check"@);
            assert(text != "win_csa24"@ && text != "draw_csa24"@ && text != "win_csa27"@ && text != "win_try_rule"@);
            assert(text[0] != '+');
            assert(crate::text::unsigned_body(text) == text);
            assert(crate::text::parse_u8_spec(text) == Some(v));
        },
        _ => {},
    }
}

/// Whether PACK can write a game so that it reads back: every move is one
/// PACK accepts, the result agrees with the end reason, and a reserved end
/// reason is not the byte of a named one.
pub open spec fn pack_game_writable(g: PackGame) -> bool {
    &&& forall|i: int| 0 <= i < g.plies@.len() ==> valid_apery_move_spec(#[trigger] g.plies@[i].mv.0)
    &&& reason_consistent_spec(g.result, g.end_reason)
    &&& (g.end_reason matches PackEndReason::Reserved(v) ==> !(v <= 6 || (10 <= v <= 13)))
}

/// Reading back everything written for a run of writable games gives the
/// games, in order.
pub proof fn lemma_pack_stream_roundtrip(gs: Seq<PackGame>)
    requires
        forall|i: int| 0 <= i < gs.len() ==> pack_game_writable(#[trigger] gs[i]),
    ensures
        pack_decode_all_spec(pack_games_bytes(gs)) == Ok::<Seq<PackGameModel>, PackError>(
            gs.map_values(|g: PackGame| g.model()),
        ),
    decreases gs.len(),
{
    if gs.len() == 0 {
        assert(gs.map_values(|g: PackGame| g.model()) =~= Seq::<PackGameModel>::empty());
    } else {
        let g = gs[0];
        let rest = gs.drop_first();
        assert(pack_game_writable(g));
        let first = pack_game_bytes(g.start_position, g.plies@, g.result, g.end_reason);
        let tail = pack_games_bytes(rest);
        assert(pack_games_bytes(gs) == first + tail);
        lemma_pack_roundtrip(g.start_position, g.plies@, g.result, g.end_reason, tail);
        assert forall|i: int| 0 <= i < rest.len() implies pack_game_writable(#[trigger] rest[i]) by {
            assert(rest[i] == gs[i + 1]);
        }
        lemma_pack_stream_roundtrip(rest);
        assert((first + tail).skip(first.len() as int) =~= tail);
        assert(first.len() > 0);
        assert(gs.map_values(|g: PackGame| g.model()) =~= seq![g.model()] + rest.map_values(|g: PackGame| g.model()));
    }
}

impl PackGameResult {
    /// The variant's name, as `Debug` prints it.
    pub open spec fn name_spec(self) -> Seq<char> {
        match self {
            PackGameResult::Draw => "Draw"@,
            PackGameResult::BlackWin => "BlackWin"@,
            PackGameResult::WhiteWin => "WhiteWin"@,
        }
    }

    /// The variant's name, as `Debug` prints it.
    pub fn name(self) -> (r: &'static str)
        ensures
            r@ == self.name_spec(),
    {
        match self {
            PackGameResult::Draw => "Draw",
            PackGameResult::BlackWin => "BlackWin",
            PackGameResult::WhiteWin => "WhiteWin",
        }
    }
}

impl PackError {
    /// The message of the error (numbers in decimal).
    pub open spec fn message(&self) -> Seq<char> {
        match self {
            PackError::Truncated => "truncated PACK game"@,
            PackError::InvalidStartState(v) => "invalid PACK start tag "@ + crate::text::decimal(*v as nat),
            PackError::InvalidTerminalMarker(v) => "invalid PACK terminal marker "@ + crate::text::decimal(*v as nat),
            PackError::InvalidGameResult(v) => "invalid PACK game result "@ + crate::text::decimal(*v as nat),
            PackError::InvalidMove { index, raw } => "invalid PACK move "@ + crate::text::decimal(*index as nat) + ": "@
                + crate::text::decimal(*raw as nat),
            PackError::IllegalMove { index, raw, sfen } => "illegal PACK move "@ + crate::text::decimal(*index as nat)
                + ": "@ + crate::text::decimal(*raw as nat) + " at "@ + sfen@,
            PackError::MissingEval(index) => "missing evaluation for move "@ + crate::text::decimal(*index as nat),
            PackError::MissingTerminal => "missing PACK terminal"@,
            PackError::InconsistentOutcome { result, reason } => "PACK result "@ + result.name_spec()
                + " is inconsistent with "@ + reason.label_spec(),
        }
    }

    /// The message of the error (see [`PackError::message`]).
    pub fn to_string(&self) -> (r: String)
        ensures
            r@ == self.message(),
    {
        match self {
            PackError::Truncated => crate::text::string_from_str("truncated PACK game"),
            PackError::InvalidStartState(v) => {
                let mut s = crate::text::string_from_str("invalid PACK start tag ");
                crate::text::push_decimal(&mut s, *v as u64);
                s
            },
            PackError::InvalidTerminalMarker(v) => {
                let mut s = crate::text::string_from_str("invalid PACK terminal marker ");
                crate::text::push_decimal(&mut s, *v as u64);
                s
            },
            PackError::InvalidGameResult(v) => {
                let mut s = crate::text::string_from_str("invalid PACK game result ");
                crate::text::push_decimal(&mut s, *v as u64);
                s
            },
            PackError::InvalidMove { index, raw } => {
                let mut s = crate::text::string_from_str("invalid PACK move ");
                crate::text::push_decimal(&mut s, *index as u64);
                crate::text::push_str(&mut s, ": ");
                crate::text::push_decimal(&mut s, *raw as u64);
                s
            },
            PackError::IllegalMove { index, raw, sfen } => {
                let mut s = crate::text::string_from_str("illegal PACK move ");
                crate::text::push_decimal(&mut s, *index as u64);
                crate::text::push_str(&mut s, ": ");
                crate::text::push_decimal(&mut s, *raw as u64);
                crate::text::push_str(&mut s, " at ");
                crate::text::push_str(&mut s, sfen.as_str());
                s
            },
            PackError::MissingEval(index) => {
                let mut s = crate::text::string_from_str("missing evaluation for move ");
                crate::text::push_decimal(&mut s, *index as u64);
                s
            },
            PackError::MissingTerminal => crate::text::string_from_str("missing PACK terminal"),
            PackError::InconsistentOutcome { result, reason } => {
                let mut s = crate::text::string_from_str("PACK result ");
                crate::text::push_str(&mut s, result.name());
                crate::text::push_str(&mut s, " is inconsistent with ");
                crate::text::push_str(&mut s, reason.raw_label());
                s
            },
        }
    }
}

} // verus!
