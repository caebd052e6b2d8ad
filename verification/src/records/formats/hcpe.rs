//! HCPE training data (cshogi / Apery): fixed 38-byte entries of a Huffman-coded
//! position, an evaluation, a best move and the game result.
use vstd::prelude::*;
use crate::board::HuffmanCodedPos;
use crate::records::formats::wire::{
    i16_bits, i16_of_bits, le16, push_all, push_i16, push_u16, read_array32, read_u16, u16_of,
};
use crate::types::game_result::GameResult;
use crate::types::moves::AperyMove;

verus! {

/// Bytes of one entry.
pub const HCPE_ENTRY_BYTES: usize = 38;

/// The game result as HCPE stores it.
#[derive(Debug, Clone, Copy, PartialEq, Eq, Hash, Structural)]
pub enum HcpeGameResult {
    Draw,
    BlackWin,
    WhiteWin,
}

/// Errors of the HCPE format.
#[derive(Debug, Clone, Copy, PartialEq, Eq, Structural)]
pub enum HcpeError {
    /// The entry (or trailing data) does not have 38 bytes.
    InvalidLength(usize),
    /// The stored game result is not 0, 1 or 2.
    InvalidGameResult(i8),
    /// The game result has no HCPE counterpart.
    UnsupportedGameResult(GameResult),
}

impl HcpeGameResult {
    /// The stored value: draw 0, black win 1, white win 2.
    pub open spec fn code_spec(self) -> i8 {
        match self {
            HcpeGameResult::Draw => 0,
            HcpeGameResult::BlackWin => 1,
            HcpeGameResult::WhiteWin => 2,
        }
    }

    /// The stored value.
    pub fn to_i8(self) -> (r: i8)
        ensures
            r == self.code_spec(),
    {
        match self {
            HcpeGameResult::Draw => 0,
            HcpeGameResult::BlackWin => 1,
            HcpeGameResult::WhiteWin => 2,
        }
    }

    /// The name, as `Display` prints it.
    pub fn to_string(&self) -> (r: String)
        ensures
            r@ == (match self {
                HcpeGameResult::Draw => "Draw"@,
                HcpeGameResult::BlackWin => "BlackWin"@,
                HcpeGameResult::WhiteWin => "WhiteWin"@,
            }),
    {
        match self {
            HcpeGameResult::Draw => crate::text::string_from_str("Draw"),
            HcpeGameResult::BlackWin => crate::text::string_from_str("BlackWin"),
            HcpeGameResult::WhiteWin => crate::text::string_from_str("WhiteWin"),
        }
    }
}

/// What reading a stored game result gives.
pub open spec fn hcpe_result_from_i8(value: i8) -> Result<HcpeGameResult, HcpeError> {
    if value == 0 {
        Ok(HcpeGameResult::Draw)
    } else if value == 1 {
        Ok(HcpeGameResult::BlackWin)
    } else if value == 2 {
        Ok(HcpeGameResult::WhiteWin)
    } else {
        Err(HcpeError::InvalidGameResult(value))
    }
}

/// The HCPE result of a game result: plain wins and the three kinds of draw.
pub open spec fn hcpe_result_from_game(value: GameResult) -> Result<HcpeGameResult, HcpeError> {
    match value {
        GameResult::BlackWin => Ok(HcpeGameResult::BlackWin),
        GameResult::WhiteWin => Ok(HcpeGameResult::WhiteWin),
        GameResult::DrawByRepetition | GameResult::DrawByMaxPlies | GameResult::DrawByImpasse => Ok(
            HcpeGameResult::Draw,
        ),
        _ => Err(HcpeError::UnsupportedGameResult(value)),
    }
}

impl vstd::std_specs::convert::TryFromSpecImpl<i8> for HcpeGameResult {
    open spec fn obeys_try_from_spec() -> bool {
        true
    }

    open spec fn try_from_spec(value: i8) -> Result<HcpeGameResult, HcpeError> {
        hcpe_result_from_i8(value)
    }
}

impl core::convert::TryFrom<i8> for HcpeGameResult {
    type Error = HcpeError;

    fn try_from(value: i8) -> (r: Result<HcpeGameResult, HcpeError>) {
        if value == 0 {
            Ok(HcpeGameResult::Draw)
        } else if value == 1 {
            Ok(HcpeGameResult::BlackWin)
        } else if value == 2 {
            Ok(HcpeGameResult::WhiteWin)
        } else {
            Err(HcpeError::InvalidGameResult(value))
        }
    }
}

impl vstd::std_specs::convert::TryFromSpecImpl<GameResult> for HcpeGameResult {
    open spec fn obeys_try_from_spec() -> bool {
        true
    }

    open spec fn try_from_spec(value: GameResult) -> Result<HcpeGameResult, HcpeError> {
        hcpe_result_from_game(value)
    }
}

impl core::convert::TryFrom<GameResult> for HcpeGameResult {
    type Error = HcpeError;

    fn try_from(value: GameResult) -> (r: Result<HcpeGameResult, HcpeError>) {
        match value {
            GameResult::BlackWin => Ok(HcpeGameResult::BlackWin),
            GameResult::WhiteWin => Ok(HcpeGameResult::WhiteWin),
            GameResult::DrawByRepetition | GameResult::DrawByMaxPlies | GameResult::DrawByImpasse => Ok(
                HcpeGameResult::Draw,
            ),
            _ => Err(HcpeError::UnsupportedGameResult(value)),
        }
    }
}

impl HcpeError {
    /// The message, as `Display` prints it (numbers in decimal).
    pub fn to_string(&self) -> (r: String)
        ensures
            r@ == (match self {
                HcpeError::InvalidLength(len) => "invalid hcpe length: "@ + crate::text::decimal(*len as nat),
                HcpeError::InvalidGameResult(v) => "invalid hcpe game result: "@ + crate::text::signed_decimal(*v as int),
                HcpeError::UnsupportedGameResult(g) => "unsupported GameResult for hcpe export: "@ + g.name_spec(),
            }),
    {
        match self {
            HcpeError::InvalidLength(len) => {
                let mut s = crate::text::string_from_str("invalid hcpe length: ");
                crate::text::push_decimal(&mut s, *len as u64);
                s
            },
            HcpeError::InvalidGameResult(v) => {
                let mut s = crate::text::string_from_str("invalid hcpe game result: ");
                crate::text::push_signed_decimal(&mut s, *v as i64);
                s
            },
            HcpeError::UnsupportedGameResult(g) => {
                let mut s = crate::text::string_from_str("unsupported GameResult for hcpe export: ");
                crate::text::push_str(&mut s, g.name());
                s
            },
        }
    }
}

/// One HCPE entry.
#[derive(Debug, Clone, Copy, PartialEq, Eq)]
pub struct HuffmanCodedPosAndEval {
    pub hcp: HuffmanCodedPos,
    pub eval: i16,
    pub best_move16: AperyMove,
    pub game_result: HcpeGameResult,
    pub dummy: u8,
}

impl HuffmanCodedPosAndEval {
    /// An entry with a zero padding byte.
    pub fn new(hcp: HuffmanCodedPos, eval: i16, best_move16: AperyMove, game_result: HcpeGameResult) -> (r: Self)
        ensures
            r == (HuffmanCodedPosAndEval { hcp, eval, best_move16, game_result, dummy: 0 }),
    {
        HuffmanCodedPosAndEval { hcp, eval, best_move16, game_result, dummy: 0 }
    }
}

/// The 38 bytes of an entry: the position, the evaluation and the best move
/// little-endian, the result code and the padding byte.
pub open spec fn hcpe_entry_bytes(e: HuffmanCodedPosAndEval) -> Seq<u8> {
    e.hcp.data@ + le16(i16_bits(e.eval)) + le16(e.best_move16.0) + seq![
        e.game_result.code_spec() as u8,
        e.dummy,
    ]
}

/// What decoding 38 or other many bytes as one entry gives.
pub open spec fn hcpe_decode_spec(b: Seq<u8>) -> Result<HuffmanCodedPosAndEval, HcpeError> {
    if b.len() != 38 {
        Err(HcpeError::InvalidLength(b.len() as usize))
    } else {
        match hcpe_result_from_i8(b[36] as i8) {
            Err(e) => Err(e),
            Ok(game_result) => Ok(
                HuffmanCodedPosAndEval {
                    hcp: HuffmanCodedPos { data: crate::records::formats::wire::array32_of(b.take(32)) },
                    eval: i16_of_bits(u16_of(b[32], b[33])),
                    best_move16: AperyMove(u16_of(b[34], b[35])),
                    game_result,
                    dummy: b[37],
                },
            ),
        }
    }
}

/// The entry's bytes (see [`hcpe_entry_bytes`]).
pub fn encode_entry(entry: &HuffmanCodedPosAndEval) -> (r: [u8; 38])
    ensures
        r@ == hcpe_entry_bytes(*entry),
{
    let mut v: Vec<u8> = Vec::new();
    push_all(&mut v, entry.hcp.data.as_slice());
    push_i16(&mut v, entry.eval);
    push_u16(&mut v, entry.best_move16.0);
    v.push(entry.game_result.to_i8() as u8);
    v.push(entry.dummy);
    let mut out = [0u8; 38];
    let mut i: usize = 0;
    while i < 38
        invariant
            i <= 38,
            v@ == hcpe_entry_bytes(*entry),
            v@.len() == 38,
            out@.len() == 38,
            forall|j: int| 0 <= j < i ==> out@[j] == v@[j],
        decreases 38 - i,
    {
        out.set(i, v[i]);
        i += 1;
    }
    assert(out@ =~= hcpe_entry_bytes(*entry));
    out
}

/// Decodes one entry of exactly 38 bytes (see [`hcpe_decode_spec`]).
pub fn decode_entry(bytes: &[u8]) -> (r: Result<HuffmanCodedPosAndEval, HcpeError>)
    ensures
        r == hcpe_decode_spec(bytes@),
{
    if bytes.len() != HCPE_ENTRY_BYTES {
        return Err(HcpeError::InvalidLength(bytes.len()));
    }
    let game_result = match HcpeGameResult::try_from(bytes[36] as i8) {
        Ok(g) => g,
        Err(e) => return Err(e),
    };
    let data = read_array32(bytes, 0);
    proof {
        assert(data@ == bytes@.take(32));
        crate::records::formats::wire::lemma_array32_of(data);
    }
    let eval = crate::records::formats::wire::i16_from_bits(read_u16(bytes, 32));
    let best_move16 = AperyMove(read_u16(bytes, 34));
    Ok(HuffmanCodedPosAndEval { hcp: HuffmanCodedPos { data }, eval, best_move16, game_result, dummy: bytes[37] })
}

/// Reading an encoded entry gives the entry back.
pub proof fn lemma_hcpe_roundtrip(e: HuffmanCodedPosAndEval)
    ensures
        hcpe_decode_spec(hcpe_entry_bytes(e)) == Ok::<HuffmanCodedPosAndEval, HcpeError>(e),
{
    let b = hcpe_entry_bytes(e);
    crate::records::formats::wire::lemma_le16_roundtrip(i16_bits(e.eval));
    crate::records::formats::wire::lemma_le16_roundtrip(e.best_move16.0);
    crate::records::formats::wire::lemma_i16_bits_roundtrip(e.eval);
    assert(b.take(32) =~= e.hcp.data@);
    crate::records::formats::wire::lemma_array32_of(e.hcp.data);
    assert(b[36] == e.game_result.code_spec() as u8);
    assert((e.game_result.code_spec() as u8) as i8 == e.game_result.code_spec());
}

/// What decoding a run of entries gives: each full 38-byte entry in turn; a
/// shorter remainder is an error naming its length.
pub open spec fn hcpe_decode_all_spec(b: Seq<u8>) -> Result<Seq<HuffmanCodedPosAndEval>, HcpeError>
    decreases b.len(),
{
    if b.len() == 0 {
        Ok(Seq::empty())
    } else if b.len() < 38 {
        Err(HcpeError::InvalidLength(b.len() as usize))
    } else {
        match hcpe_decode_spec(b.take(38)) {
            Err(e) => Err(e),
            Ok(entry) => match hcpe_decode_all_spec(b.skip(38)) {
                Err(e) => Err(e),
                Ok(rest) => Ok(seq![entry] + rest),
            },
        }
    }
}

/// Decodes every entry of `reader`, consuming it.
pub fn decode_entries(reader: &mut &[u8]) -> (r: Result<Vec<HuffmanCodedPosAndEval>, HcpeError>)
    ensures
        match hcpe_decode_all_spec(old(reader)@) {
            Ok(v) => r matches Ok(w) && w@ == v,
            Err(e) => r == Err::<Vec<HuffmanCodedPosAndEval>, HcpeError>(e),
        },
        r is Ok ==> final(reader)@.len() == 0,
{
    let input: &[u8] = *reader;
    let n = input.len();
    let mut entries: Vec<HuffmanCodedPosAndEval> = Vec::new();
    let mut at: usize = 0;
    assert(input@.skip(0) =~= input@);
    proof {
        if let Ok(v) = hcpe_decode_all_spec(old(reader)@) {
            assert(entries@ + v =~= v);
        }
    }
    while at < n
        invariant
            n == input@.len(),
            input@ == old(reader)@,
            at <= n,
            match hcpe_decode_all_spec(old(reader)@) {
                Ok(v) => hcpe_decode_all_spec(input@.skip(at as int)) matches Ok(rest) && v == entries@ + rest,
                Err(e) => hcpe_decode_all_spec(input@.skip(at as int)) == Err::<Seq<HuffmanCodedPosAndEval>, HcpeError>(e),
            },
        decreases n - at,
    {
        let ghost rest = input@.skip(at as int);
        if n - at < HCPE_ENTRY_BYTES {
            *reader = vstd::slice::slice_subrange(input, n, n);
            return Err(HcpeError::InvalidLength(n - at));
        }
        let chunk = vstd::slice::slice_subrange(input, at, at + HCPE_ENTRY_BYTES);
        assert(chunk@ =~= rest.take(38));
        assert(input@.skip(at + 38) =~= rest.skip(38));
        match decode_entry(chunk) {
            Ok(e) => {
                entries.push(e);
                proof {
                    if let Ok(v) = hcpe_decode_all_spec(old(reader)@) {
                        assert(v =~= entries@ + hcpe_decode_all_spec(input@.skip(at + 38))->Ok_0);
                    }
                }
            },
            Err(e) => {
                *reader = vstd::slice::slice_subrange(input, at + HCPE_ENTRY_BYTES, n);
                return Err(e);
            },
        }
        at = at + HCPE_ENTRY_BYTES;
    }
    assert(input@.skip(n as int) =~= Seq::<u8>::empty());
    *reader = vstd::slice::slice_subrange(input, n, n);
    Ok(entries)
}

/// Appends every entry's bytes to `writer`.
pub fn write_entries(writer: &mut Vec<u8>, entries: &[HuffmanCodedPosAndEval]) -> (r: Result<(), HcpeError>)
    ensures
        r is Ok,
        final(writer)@.len() == old(writer)@.len() + 38 * entries@.len(),
        forall|i: int| 0 <= i < entries@.len() ==> #[trigger] final(writer)@.subrange(
            old(writer)@.len() + 38 * i,
            old(writer)@.len() + 38 * i + 38,
        ) == hcpe_entry_bytes(entries@[i]),
        final(writer)@.take(old(writer)@.len() as int) == old(writer)@,
        final(writer)@ == old(writer)@ + hcpe_entries_bytes(entries@),
{
    let ghost start = writer@.len();
    let mut i: usize = 0;
    assert(entries@.take(0) =~= Seq::<HuffmanCodedPosAndEval>::empty());
    assert(writer@ =~= old(writer)@ + hcpe_entries_bytes(entries@.take(0)));
    while i < entries.len()
        invariant
            i <= entries@.len(),
            writer@.len() == start + 38 * i,
            start == old(writer)@.len(),
            writer@.take(start as int) == old(writer)@,
            writer@ == old(writer)@ + hcpe_entries_bytes(entries@.take(i as int)),
            forall|k: int| 0 <= k < i ==> #[trigger] writer@.subrange(start + 38 * k, start + 38 * k + 38)
                == hcpe_entry_bytes(entries@[k]),
        decreases entries.len() - i,
    {
        let bytes = encode_entry(&entries[i]);
        let ghost before = writer@;
        push_all(writer, bytes.as_slice());
        proof {
            assert forall|k: int| 0 <= k < i + 1 implies #[trigger] writer@.subrange(start + 38 * k, start + 38 * k
                + 38) == hcpe_entry_bytes(entries@[k]) by {
                if k < i {
                    assert(writer@.subrange(start + 38 * k, start + 38 * k + 38) =~= before.subrange(start + 38 * k,
                        start + 38 * k + 38));
                } else {
                    assert(writer@.subrange(start + 38 * k, start + 38 * k + 38) =~= bytes@);
                }
            }
            assert(writer@.take(start as int) =~= before.take(start as int));
            assert(entries@.take(i + 1).drop_last() =~= entries@.take(i as int));
            assert(writer@ =~= old(writer)@ + hcpe_entries_bytes(entries@.take(i + 1)));
        }
        i += 1;
    }
    assert(entries@.take(entries@.len() as int) =~= entries@);
    Ok(())
}

/// The bytes of entries written one after another.
pub open spec fn hcpe_entries_bytes(es: Seq<HuffmanCodedPosAndEval>) -> Seq<u8>
    decreases es.len(),
{
    if es.len() == 0 {
        Seq::empty()
    } else {
        hcpe_entries_bytes(es.drop_last()) + hcpe_entry_bytes(es.last())
    }
}

proof fn lemma_entries_bytes_front(es: Seq<HuffmanCodedPosAndEval>)
    requires
        es.len() > 0,
    ensures
        hcpe_entries_bytes(es) == hcpe_entry_bytes(es[0]) + hcpe_entries_bytes(es.drop_first()),
        hcpe_entries_bytes(es).len() == 38 * es.len(),
    decreases es.len(),
{
    if es.len() == 1 {
        assert(es.drop_last() =~= Seq::<HuffmanCodedPosAndEval>::empty());
        assert(es.drop_first() =~= Seq::<HuffmanCodedPosAndEval>::empty());
        assert(hcpe_entries_bytes(es) =~= hcpe_entry_bytes(es[0]) + hcpe_entries_bytes(es.drop_first()));
    } else {
        let d = es.drop_last();
        lemma_entries_bytes_front(d);
        lemma_entries_bytes_front(es.drop_first());
        assert(d.drop_first() =~= es.drop_first().drop_last());
        assert(es.drop_first().last() == es.last());
        assert(d[0] == es[0]);
        assert(hcpe_entries_bytes(es) =~= hcpe_entry_bytes(es[0]) + hcpe_entries_bytes(es.drop_first()));
    }
}

/// Decoding the bytes that [`write_entries`] writes for some entries gives
/// those entries back, and an empty text gives none; bytes of a partial
/// entry after them (fewer than 38) are refused with an error naming their
/// length, not dropped.
pub proof fn lemma_hcpe_entries_roundtrip(es: Seq<HuffmanCodedPosAndEval>, tail: Seq<u8>)
    requires
        tail.len() < 38,
    ensures
        hcpe_decode_all_spec(hcpe_entries_bytes(es)) == Ok::<Seq<HuffmanCodedPosAndEval>, HcpeError>(es),
        tail.len() > 0 ==> hcpe_decode_all_spec(hcpe_entries_bytes(es) + tail) == Err::<
            Seq<HuffmanCodedPosAndEval>,
            HcpeError,
        >(HcpeError::InvalidLength(tail.len() as usize)),
    decreases es.len(),
{
    if es.len() == 0 {
        assert(es =~= Seq::<HuffmanCodedPosAndEval>::empty());
        assert(hcpe_entries_bytes(es) + tail =~= tail);
    } else {
        lemma_entries_bytes_front(es);
        lemma_hcpe_roundtrip(es[0]);
        let rest = es.drop_first();
        lemma_hcpe_entries_roundtrip(rest, tail);
        if rest.len() > 0 {
            lemma_entries_bytes_front(rest);
        }
        let b = hcpe_entries_bytes(es);
        assert(hcpe_entry_bytes(es[0]).len() == 38);
        assert(b.take(38) =~= hcpe_entry_bytes(es[0]));
        assert(b.skip(38) =~= hcpe_entries_bytes(rest));
        assert(seq![es[0]] + rest =~= es);
        assert(hcpe_decode_spec(b.take(38)) == Ok::<HuffmanCodedPosAndEval, HcpeError>(es[0]));
        assert(hcpe_decode_all_spec(b.skip(38)) == Ok::<Seq<HuffmanCodedPosAndEval>, HcpeError>(rest));
        assert(hcpe_decode_all_spec(b) == Ok::<Seq<HuffmanCodedPosAndEval>, HcpeError>(seq![es[0]] + rest));
        let bt = b + tail;
        assert(bt.take(38) =~= hcpe_entry_bytes(es[0]));
        assert(bt.skip(38) =~= hcpe_entries_bytes(rest) + tail);
    }
}

} // verus!
