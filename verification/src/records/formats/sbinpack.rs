//! sbinpack v2 training data: the integer codings, the stem and metadata of a
//! chain, and the packed result-and-ply field.
use vstd::prelude::*;
use crate::board::PackedSfen;
use crate::types::color::Color;
use crate::types::game_result::GameResult;
use crate::types::moves::{Move, Move32};
use crate::types::piece::PieceType;
use crate::types::square::Square;

verus! {

/// The format version.
pub const SBINPACK_VERSION: u8 = 2;

/// The chunk magic `SBN2`.
pub const SBINPACK_MAGIC: [u8; 4] = [83, 66, 78, 50];

/// The most metadata bytes a chain may carry.
pub const SBINPACK_MAX_METADATA_BYTES: usize = 127;

/// The zigzag code of a signed value: `2v` for `v >= 0`, `-2v - 1` otherwise.
pub open spec fn zigzag_spec(value: i32) -> u32 {
    if value >= 0 {
        (2 * value) as u32
    } else {
        (-2 * value - 1) as u32
    }
}

/// The signed value of a zigzag code.
pub open spec fn unzigzag_spec(value: u32) -> i32 {
    if value % 2 == 0 {
        (value / 2) as i32
    } else {
        (-(value / 2) - 1) as i32
    }
}

/// Zigzag-encodes a signed value.
pub fn zigzag_i32(value: i32) -> (r: u32)
    ensures
        r == zigzag_spec(value),
{
    if value >= 0 {
        (2 * (value as i64)) as u32
    } else {
        (-2 * (value as i64) - 1) as u32
    }
}

/// Decodes a zigzag code.
pub fn unzigzag_u32(value: u32) -> (r: i32)
    ensures
        r == unzigzag_spec(value),
{
    if value % 2 == 0 {
        (value / 2) as i32
    } else {
        (-((value / 2) as i64) - 1) as i32
    }
}

/// Every signed value survives zigzag coding.
pub proof fn lemma_zigzag_roundtrip(value: i32)
    ensures
        unzigzag_spec(zigzag_spec(value)) == value,
{
}

/// The ULEB128 bytes of a value: seven bits at a time, lowest first, every byte
/// but the last with its high bit set.
pub open spec fn uleb_bytes(value: nat) -> Seq<u8>
    decreases value,
{
    if value < 128 {
        seq![value as u8]
    } else {
        seq![(value % 128 + 128) as u8] + uleb_bytes(value / 128)
    }
}

/// `128^k`.
pub open spec fn base128(k: nat) -> nat
    decreases k,
{
    if k == 0 {
        1
    } else {
        128 * base128((k - 1) as nat)
    }
}

/// Decoding ULEB128 from `offset`, reading bytes before `end`, after `k` groups
/// with value `acc`: the value (kept to 32 bits) and the offset reached; no
/// value when the bytes end or five groups pass without a final one.
pub open spec fn uleb_decode_spec(input: Seq<u8>, offset: int, end: int, k: nat, acc: nat) -> (Option<u32>, int)
    decreases end - offset,
{
    if offset < 0 || offset >= end || k >= 5 {
        (None, offset)
    } else {
        let b = input[offset];
        let acc2 = acc + (b % 128) as nat * base128(k);
        if b < 128 {
            (Some((acc2 % 0x1_0000_0000) as u32), offset + 1)
        } else {
            uleb_decode_spec(input, offset + 1, end, k + 1, acc2)
        }
    }
}

proof fn lemma_uleb_step(v: nat, b: nat)
    ensures
        (v % 128) * b + (v / 128) * (128 * b) == v * b,
{
    assert(v == 128 * (v / 128) + v % 128);
    assert((v % 128) * b + (v / 128) * (128 * b) == (128 * (v / 128) + v % 128) * b) by (nonlinear_arith);
}

/// Decoding the bytes of `v`, placed at `offset` after `k` groups with value
/// `acc`, adds `v * 128^k` and ends right after them.
proof fn lemma_uleb_decode_bytes(input: Seq<u8>, offset: int, end: int, v: nat, k: nat, acc: nat)
    requires
        0 <= offset,
        offset + uleb_bytes(v).len() <= end,
        end <= input.len(),
        input.subrange(offset, offset + uleb_bytes(v).len()) == uleb_bytes(v),
        k + uleb_bytes(v).len() <= 5,
    ensures
        uleb_decode_spec(input, offset, end, k, acc) == (
            Some(((acc + v * base128(k)) % 0x1_0000_0000) as u32),
            offset + uleb_bytes(v).len(),
        ),
    decreases v,
{
    assert(input.subrange(offset, offset + uleb_bytes(v).len())[0] == input[offset]);
    if v < 128 {
        assert(input[offset] == v);
    } else {
        let rest = uleb_bytes(v / 128);
        assert(uleb_bytes(v) == seq![(v % 128 + 128) as u8] + rest);
        assert(input[offset] == (v % 128 + 128) as u8);
        assert(input.subrange(offset + 1, offset + 1 + rest.len()) =~= rest) by {
            assert forall|j: int| 0 <= j < rest.len() implies input.subrange(offset + 1, offset + 1 + rest.len())[j]
                == rest[j] by {
                assert(input.subrange(offset, offset + uleb_bytes(v).len())[j + 1] == uleb_bytes(v)[j + 1]);
                assert(uleb_bytes(v)[j + 1] == rest[j]);
            }
        }
        let acc2 = acc + (v % 128) * base128(k);
        lemma_uleb_decode_bytes(input, offset + 1, end, v / 128, k + 1, acc2);
        assert(base128(k + 1) == 128 * base128(k));
        lemma_uleb_step(v, base128(k));
        assert(acc2 + (v / 128) * base128(k + 1) == acc + v * base128(k));
    }
}

/// A value below `128^n` takes at most `n` bytes.
proof fn lemma_uleb_len(v: nat, n: nat)
    requires
        1 <= n,
        v < base128(n),
    ensures
        uleb_bytes(v).len() <= n,
    decreases v,
{
    if v >= 128 {
        assert(base128(n) == 128 * base128((n - 1) as nat));
        if n == 1 {
            assert(base128(0) == 1);
        } else {
            lemma_uleb_len(v / 128, (n - 1) as nat);
        }
    }
}

/// The ULEB128 bytes of a `u32` are at most five, and reading them back,
/// followed by anything, gives the value and ends right after them.
pub proof fn lemma_uleb_roundtrip(input: Seq<u8>, offset: int, end: int, v: u32)
    requires
        0 <= offset,
        offset + uleb_bytes(v as nat).len() <= end,
        end <= input.len(),
        input.subrange(offset, offset + uleb_bytes(v as nat).len()) == uleb_bytes(v as nat),
    ensures
        1 <= uleb_bytes(v as nat).len() <= 5,
        uleb_decode_spec(input, offset, end, 0, 0) == (Some(v), offset + uleb_bytes(v as nat).len()),
{
    assert(base128(0) == 1);
    assert(base128(1) == 128);
    assert(base128(2) == 16384);
    assert(base128(3) == 2097152);
    assert(base128(4) == 268435456);
    assert(base128(5) == 34359738368);
    lemma_uleb_len(v as nat, 5);
    lemma_uleb_decode_bytes(input, offset, end, v as nat, 0, 0);
}

/// Appends the ULEB128 bytes of `value`.
pub fn encode_uleb128_u32(value: u32, out: &mut Vec<u8>)
    ensures
        final(out)@ == old(out)@ + uleb_bytes(value as nat),
{
    let mut v = value;
    let ghost start = out@;
    while v >= 128
        invariant
            start + uleb_bytes(value as nat) == out@ + uleb_bytes(v as nat),
        decreases v,
    {
        let ghost before = out@;
        out.push((v % 128 + 128) as u8);
        assert(uleb_bytes(v as nat) =~= seq![(v % 128 + 128) as u8] + uleb_bytes((v / 128) as nat));
        v = v / 128;
        assert(out@ + uleb_bytes(v as nat) =~= before + seq![out@.last()] + uleb_bytes(v as nat));
    }
    out.push(v as u8);
    assert(uleb_bytes(v as nat) =~= seq![v as u8]);
    assert(out@ =~= start + uleb_bytes(value as nat));
}

/// Decodes a ULEB128 `u32` from `*offset`, reading no byte at or past `end`
/// (or the input's end), and moves `*offset` past the bytes read.
pub fn decode_uleb128_u32_bounded(input: &[u8], offset: &mut usize, end: usize) -> (r: Option<u32>)
    ensures
        ({
            let lim = if end < input@.len() { end as int } else { input@.len() as int };
            let (value, reached) = uleb_decode_spec(input@, *old(offset) as int, lim, 0, 0);
            r == value && *final(offset) == (if *old(offset) as int >= lim { *old(offset) as int } else { reached })
        }),
{
    let lim = if end < input.len() { end } else { input.len() };
    let ghost start = *offset;
    let mut acc: u64 = 0;
    let mut mult: u64 = 1;
    let mut k: usize = 0;
    if *offset >= lim {
        return None;
    }
    while *offset < lim && k < 5
        invariant
            lim <= input@.len(),
            k <= 5,
            mult == base128(k as nat),
            k == 0 ==> mult == 1,
            k == 1 ==> mult == 128,
            k == 2 ==> mult == 16384,
            k == 3 ==> mult == 2097152,
            k == 4 ==> mult == 268435456,
            k == 5 ==> mult == 34359738368,
            acc < mult,
            start as int <= *offset as int,
            start == *old(offset),
            *old(offset) < lim,
            lim as int == (if end < input@.len() { end as int } else { input@.len() as int }),
            uleb_decode_spec(input@, start as int, lim as int, 0, 0) == uleb_decode_spec(
                input@,
                *offset as int,
                lim as int,
                k as nat,
                acc as nat,
            ),
        decreases lim - *offset,
    {
        let b = input[*offset];
        let ghost o = *offset as int;
        let ghost acc0 = acc as nat;
        assert(uleb_decode_spec(input@, o, lim as int, k as nat, acc0) == (if b < 128 {
            (Some(((acc0 + (b % 128) as nat * base128(k as nat)) % 0x1_0000_0000) as u32), o + 1)
        } else {
            uleb_decode_spec(input@, o + 1, lim as int, (k + 1) as nat, acc0 + (b % 128) as nat * base128(k as nat))
        }));
        *offset = *offset + 1;
        assert(base128((k + 1) as nat) == 128 * base128(k as nat));
        assert(((b % 128) as u64) * mult <= 127 * 268435456) by (nonlinear_arith)
            requires
                (b % 128) as u64 <= 127,
                mult <= 268435456,
        ;
        assert(((b % 128) as u64) * mult + acc < 128 * mult) by (nonlinear_arith)
            requires
                (b % 128) as u64 <= 127,
                acc < mult,
        ;
        acc = acc + ((b % 128) as u64) * mult;
        mult = mult * 128;
        k = k + 1;
        if b < 128 {
            let value = (acc % 0x1_0000_0000u64) as u32;
            assert(value == ((acc0 + (b % 128) as nat * base128((k - 1) as nat)) % 0x1_0000_0000) as u32);
            assert(uleb_decode_spec(input@, start as int, lim as int, 0, 0) == (Some(value), *offset as int));
            return Some(value);
        }
    }
    None
}

/// Appends the zigzag-coded difference `current_eval - prev_eval`.
pub fn encode_score_delta(prev_eval: i32, current_eval: i32, out: &mut Vec<u8>)
    requires
        i32::MIN <= current_eval - prev_eval <= i32::MAX,
    ensures
        final(out)@ == old(out)@ + uleb_bytes(zigzag_spec((current_eval - prev_eval) as i32) as nat),
{
    let delta = current_eval - prev_eval;
    encode_uleb128_u32(zigzag_i32(delta), out);
}

/// Decodes a zigzag-coded difference like [`decode_uleb128_u32_bounded`].
pub fn decode_score_delta_bounded(input: &[u8], offset: &mut usize, end: usize) -> (r: Option<i32>)
    ensures
        ({
            let lim = if end < input@.len() { end as int } else { input@.len() as int };
            let (value, reached) = uleb_decode_spec(input@, *old(offset) as int, lim, 0, 0);
            r == (match value {
                Some(v) => Some(unzigzag_spec(v)),
                None => None::<i32>,
            }) && *final(offset) == (if *old(offset) as int >= lim { *old(offset) as int } else { reached })
        }),
{
    match decode_uleb128_u32_bounded(input, offset, end) {
        Some(v) => Some(unzigzag_u32(v)),
        None => None,
    }
}

/// Errors of sbinpack.
#[derive(Debug, Clone, Copy, PartialEq, Eq)]
pub enum SbinpackError {
    /// The chunk magic is wrong.
    InvalidMagic,
    /// The data ends early.
    Truncated,
    /// A move index is out of the list of legal moves.
    InvalidMoveIndex(u32),
    /// A move cannot be written as an index into the ordered legal moves.
    UnencodableMove(Move32),
    /// A ply has no evaluation.
    MissingEval(usize),
    /// The metadata is longer than the format allows.
    MetadataTooLarge { len: usize, max: usize },
}

/// The first position of a chain.
#[derive(Debug, Clone, Copy)]
pub struct SbinpackStem {
    pub packed_sfen: PackedSfen,
    pub score: i16,
    pub best_move: Move,
    pub ply_result: u16,
}

/// One move of a chain with its evaluation.
#[derive(Debug, Clone, Copy)]
pub struct SbinpackMove {
    pub mv: Move32,
    pub eval: i32,
}

/// Opaque per-chain metadata of at most [`SBINPACK_MAX_METADATA_BYTES`] bytes.
#[derive(Debug, Clone, Default, PartialEq, Eq)]
pub struct SbinpackMetadata {
    pub bytes: Vec<u8>,
}

impl SbinpackMetadata {
    /// The metadata, or an error when it is too long.
    pub fn new(bytes: Vec<u8>) -> (r: Result<SbinpackMetadata, SbinpackError>)
        ensures
            bytes@.len() <= 127 ==> (r matches Ok(m) && m.bytes@ == bytes@),
            bytes@.len() > 127 ==> r == Err::<SbinpackMetadata, SbinpackError>(
                SbinpackError::MetadataTooLarge { len: bytes@.len() as usize, max: 127 },
            ),
    {
        if bytes.len() > SBINPACK_MAX_METADATA_BYTES {
            return Err(SbinpackError::MetadataTooLarge { len: bytes.len(), max: SBINPACK_MAX_METADATA_BYTES });
        }
        Ok(SbinpackMetadata { bytes })
    }

    pub fn as_bytes(&self) -> (r: &[u8])
        ensures
            r@ == self.bytes@,
    {
        self.bytes.as_slice()
    }
}

/// Appends the metadata: its length byte, then its bytes.
pub fn encode_metadata(metadata: &SbinpackMetadata, out: &mut Vec<u8>) -> (r: Result<(), SbinpackError>)
    ensures
        metadata.bytes@.len() <= 127 ==> (r is Ok && final(out)@ == old(out)@ + seq![metadata.bytes@.len() as u8]
            + metadata.bytes@),
        metadata.bytes@.len() > 127 ==> r == Err::<(), SbinpackError>(
            SbinpackError::MetadataTooLarge { len: metadata.bytes@.len() as usize, max: 127 },
        ) && final(out)@ == old(out)@,
{
    if metadata.bytes.len() > SBINPACK_MAX_METADATA_BYTES {
        return Err(SbinpackError::MetadataTooLarge { len: metadata.bytes.len(), max: SBINPACK_MAX_METADATA_BYTES });
    }
    out.push(metadata.bytes.len() as u8);
    crate::records::formats::wire::push_all(out, metadata.bytes.as_slice());
    Ok(())
}

/// Reads metadata at `*offset` of a chunk ending at `chunk_end`: its length
/// byte and bytes, which must leave room for the two-byte move count after
/// them.
pub fn decode_metadata(input: &[u8], offset: &mut usize, chunk_end: usize) -> (r: Result<SbinpackMetadata, SbinpackError>)
    requires
        chunk_end <= input@.len(),
    ensures
        ({
            let o = *old(offset) as int;
            if o >= chunk_end {
                r == Err::<SbinpackMetadata, SbinpackError>(SbinpackError::Truncated)
            } else if input@[o] > 127 {
                r == Err::<SbinpackMetadata, SbinpackError>(
                    SbinpackError::MetadataTooLarge { len: input@[o] as usize, max: 127 },
                )
            } else if o + 1 + input@[o] + 2 > chunk_end {
                r == Err::<SbinpackMetadata, SbinpackError>(SbinpackError::Truncated)
            } else {
                (r matches Ok(m) && m.bytes@ == input@.subrange(o + 1, o + 1 + input@[o]) && *final(offset) == o + 1
                    + input@[o])
            }
        }),
{
    if *offset >= chunk_end {
        return Err(SbinpackError::Truncated);
    }
    let len = input[*offset] as usize;
    *offset = *offset + 1;
    if len > SBINPACK_MAX_METADATA_BYTES {
        return Err(SbinpackError::MetadataTooLarge { len, max: SBINPACK_MAX_METADATA_BYTES });
    }
    if chunk_end - *offset < len + 2 {
        return Err(SbinpackError::Truncated);
    }
    let end = *offset + len;
    let mut bytes: Vec<u8> = Vec::new();
    crate::records::formats::wire::push_all(&mut bytes, vstd::slice::slice_subrange(input, *offset, end));
    assert(bytes@ =~= input@.subrange(*offset as int, end as int));
    *offset = end;
    Ok(SbinpackMetadata { bytes })
}

/// One chain: the stem, the metadata and the moves after the stem.
#[derive(Debug, Clone)]
pub struct SbinpackChain {
    pub stem: SbinpackStem,
    pub metadata: SbinpackMetadata,
    pub moves: Vec<SbinpackMove>,
}

/// A whole file: version, flags and chains.
#[derive(Debug, Clone)]
pub struct SbinpackFile {
    pub version: u8,
    pub flags: u8,
    pub chains: Vec<SbinpackChain>,
}

/// What a consumer of the streaming decoder asks for after a chain header.
#[derive(Debug, Clone, Copy, PartialEq, Eq, Structural)]
pub enum SbinpackDecodeControl {
    /// Decode the chain as usual.
    Continue,
    /// Skip the chain's moves.
    SkipChain,
}

/// The result named by a stored value (the codes of [`GameResult`] up to 17).
pub open spec fn game_result_from_u8_spec(value: u8) -> Option<GameResult> {
    if value == 0 { Some(GameResult::BlackWin) }
    else if value == 1 { Some(GameResult::WhiteWin) }
    else if value == 2 { Some(GameResult::DrawByRepetition) }
    else if value == 3 { Some(GameResult::Error) }
    else if value == 4 { Some(GameResult::BlackWinByDeclaration) }
    else if value == 5 { Some(GameResult::WhiteWinByDeclaration) }
    else if value == 6 { Some(GameResult::DrawByMaxPlies) }
    else if value == 7 { Some(GameResult::Invalid) }
    else if value == 8 { Some(GameResult::BlackWinByForfeit) }
    else if value == 9 { Some(GameResult::WhiteWinByForfeit) }
    else if value == 10 { Some(GameResult::DrawByImpasse) }
    else if value == 11 { Some(GameResult::Paused) }
    else if value == 12 { Some(GameResult::BlackWinByIllegalMove) }
    else if value == 13 { Some(GameResult::WhiteWinByIllegalMove) }
    else if value == 16 { Some(GameResult::BlackWinByTimeout) }
    else if value == 17 { Some(GameResult::WhiteWinByTimeout) }
    else { None }
}

/// The result named by a stored value.
pub fn game_result_from_u8(value: u8) -> (r: Option<GameResult>)
    ensures
        r == game_result_from_u8_spec(value),
{
    if value == 0 { Some(GameResult::BlackWin) }
    else if value == 1 { Some(GameResult::WhiteWin) }
    else if value == 2 { Some(GameResult::DrawByRepetition) }
    else if value == 3 { Some(GameResult::Error) }
    else if value == 4 { Some(GameResult::BlackWinByDeclaration) }
    else if value == 5 { Some(GameResult::WhiteWinByDeclaration) }
    else if value == 6 { Some(GameResult::DrawByMaxPlies) }
    else if value == 7 { Some(GameResult::Invalid) }
    else if value == 8 { Some(GameResult::BlackWinByForfeit) }
    else if value == 9 { Some(GameResult::WhiteWinByForfeit) }
    else if value == 10 { Some(GameResult::DrawByImpasse) }
    else if value == 11 { Some(GameResult::Paused) }
    else if value == 12 { Some(GameResult::BlackWinByIllegalMove) }
    else if value == 13 { Some(GameResult::WhiteWinByIllegalMove) }
    else if value == 16 { Some(GameResult::BlackWinByTimeout) }
    else if value == 17 { Some(GameResult::WhiteWinByTimeout) }
    else { None }
}

/// Every result but the try-rule wins reads back from its code.
pub proof fn lemma_game_result_code_roundtrip(result: GameResult)
    requires
        result != GameResult::BlackWinByTryRule,
        result != GameResult::WhiteWinByTryRule,
    ensures
        game_result_from_u8_spec(result.code_spec()) == Some(result),
{
}

/// The packed field: the result code in bits 10-15 and the ply, at most 1023,
/// in bits 0-9.
pub open spec fn pack_ply_result_spec(result: GameResult, ply: u16) -> u16 {
    ((result.code_spec() % 64) * 1024 + (if ply > 1023 { 1023 } else { ply })) as u16
}

/// Packs a result and a ply (clamped to 1023).
pub fn pack_ply_result(result: GameResult, ply: u16) -> (r: u16)
    ensures
        r == pack_ply_result_spec(result, ply),
{
    let code = (result.to_u8() % 64) as u16;
    let ply_bits: u16 = if ply > 1023 { 1023 } else { ply };
    code * 1024 + ply_bits
}

/// Unpacks the result (when its code is known) and the ply.
pub fn unpack_ply_result(value: u16) -> (r: (Option<GameResult>, u16))
    ensures
        r.0 == game_result_from_u8_spec(((value / 1024) % 64) as u8),
        r.1 == value % 1024,
{
    (game_result_from_u8(((value / 1024) % 64) as u8), value % 1024)
}

/// Unpacking a packed field gives the result's code back and the clamped ply.
pub proof fn lemma_ply_result_roundtrip(result: GameResult, ply: u16)
    ensures
        (pack_ply_result_spec(result, ply) / 1024) % 64 == result.code_spec(),
        pack_ply_result_spec(result, ply) % 1024 == (if ply > 1023 { 1023 } else { ply }),
{
    assert(result.code_spec() < 64);
}

/// The evaluation from the side to move's view: negated on odd plies.
pub open spec fn normalize_eval_spec(eval: i32, ply_index: nat) -> int {
    if ply_index % 2 == 0 {
        eval as int
    } else {
        -eval
    }
}

/// The evaluation from the side to move's view (`eval` may not be `i32::MIN`
/// on an odd ply).
pub fn normalize_eval_for_delta(eval: i32, ply_index: usize) -> (r: i32)
    requires
        ply_index % 2 == 1 ==> eval != i32::MIN,
    ensures
        r == normalize_eval_spec(eval, ply_index as nat),
{
    if ply_index % 2 == 0 {
        eval
    } else {
        -eval
    }
}

/// The evaluation back from the side to move's view; the normalization is its
/// own inverse.
pub fn denormalize_eval_from_delta(eval: i32, ply_index: usize) -> (r: i32)
    requires
        ply_index % 2 == 1 ==> eval != i32::MIN,
    ensures
        r == normalize_eval_spec(eval, ply_index as nat),
        normalize_eval_spec(r, ply_index as nat) == eval,
{
    normalize_eval_for_delta(eval, ply_index)
}

/// A square from `side`'s point of view: rotated for White.
pub fn perspective_square(sq: Square, side: Color) -> (r: Square)
    requires
        side == Color::White ==> sq.0 >= -47,
    ensures
        r.0 == (if side == Color::Black { sq.0 as int } else { 80 - sq.0 }),
{
    if side == Color::Black {
        sq
    } else {
        crate::types::square::flip(sq)
    }
}

/// The file order of the move ordering, center file first.
pub open spec fn file_priority(file: int) -> int {
    if file == 0 { 7 }
    else if file == 1 { 5 }
    else if file == 2 { 3 }
    else if file == 3 { 1 }
    else if file == 4 { 0 }
    else if file == 5 { 2 }
    else if file == 6 { 4 }
    else if file == 7 { 6 }
    else if file == 8 { 8 }
    else { 9 }
}

/// The (file, rank) priority of a square; 9 for a coordinate off the board.
pub fn square_to_priority(sq: Square) -> (r: (u8, u8))
    ensures
        r.0 == file_priority(sq.file_spec()),
        r.1 == (if 0 <= sq.rank_spec() <= 8 { sq.rank_spec() } else { 9 }),
{
    let file = sq.file().0;
    let rank = sq.rank().0;
    let fp: u8 = if file == 0 { 7 }
        else if file == 1 { 5 }
        else if file == 2 { 3 }
        else if file == 3 { 1 }
        else if file == 4 { 0 }
        else if file == 5 { 2 }
        else if file == 6 { 4 }
        else if file == 7 { 6 }
        else if file == 8 { 8 }
        else { 9 };
    let rp: u8 = if 0 <= rank && rank <= 8 { rank as u8 } else { 9 };
    (fp, rp)
}

/// The piece order of the move ordering: pawn, lance, knight, silver, gold,
/// bishop, rook, king, then the promoted pieces; 14 for anything else.
pub fn piece_priority(piece_type: PieceType) -> (r: u8)
    ensures
        r == (if piece_type.0 == 1 { 0 }
            else if piece_type.0 == 2 { 1 }
            else if piece_type.0 == 3 { 2 }
            else if piece_type.0 == 4 { 3 }
            else if piece_type.0 == 7 { 4 }
            else if piece_type.0 == 5 { 5 }
            else if piece_type.0 == 6 { 6 }
            else if 8 <= piece_type.0 <= 14 { piece_type.0 - 1 }
            else { 14 }),
{
    let t = piece_type.0;
    if t == 1 { 0 }
    else if t == 2 { 1 }
    else if t == 3 { 2 }
    else if t == 4 { 3 }
    else if t == 7 { 4 }
    else if t == 5 { 5 }
    else if t == 6 { 6 }
    else if 8 <= t && t <= 14 { (t - 1) as u8 }
    else { 14 }
}

} // verus!
