//! Text encodings of record formats: the bytes written and read.
use vstd::prelude::*;
use vstd::utf8::{decode_utf8, encode_utf8, is_ascii_chars, valid_utf8};
use crate::records::formats::wire::push_all;
use crate::text::{decimal, push_char, str_chars, string_from_str};

verus! {

/// The encoding of record text written as bytes.
#[derive(Clone, Copy, Debug, PartialEq, Eq, Structural)]
pub enum TextEncoding {
    /// UTF-8.
    Utf8,
    /// Shift_JIS (Windows-31J).
    ShiftJis,
}

/// Options of byte export: for now, the encoding alone.
#[derive(Clone, Copy, Debug, PartialEq, Eq, Structural)]
pub struct ExportOptions {
    encoding: TextEncoding,
}

impl ExportOptions {
    pub closed spec fn encoding_spec(self) -> TextEncoding {
        self.encoding
    }

    /// Options writing in `encoding`.
    pub fn new(encoding: TextEncoding) -> (r: ExportOptions)
        ensures
            r.encoding_spec() == encoding,
    {
        ExportOptions { encoding }
    }

    /// The output encoding.
    pub fn encoding(self) -> (r: TextEncoding)
        ensures
            r == self.encoding_spec(),
    {
        self.encoding
    }
}

impl core::default::Default for ExportOptions {
    /// UTF-8 output.
    fn default() -> (r: ExportOptions)
        ensures
            r.encoding_spec() == TextEncoding::Utf8,
    {
        ExportOptions::new(TextEncoding::Utf8)
    }
}

/// Encoded text: the bytes, and whether some character had no mapping in the
/// encoding (and was written as a numeric character reference).
#[derive(Clone, Debug)]
pub struct EncodedText {
    bytes: Vec<u8>,
    has_unmappable_chars: bool,
}

impl EncodedText {
    pub closed spec fn bytes_spec(&self) -> Seq<u8> {
        self.bytes@
    }

    pub closed spec fn unmappable_spec(&self) -> bool {
        self.has_unmappable_chars
    }

    /// The encoded bytes.
    pub fn bytes(&self) -> (r: &[u8])
        ensures
            r@ == self.bytes_spec(),
    {
        self.bytes.as_slice()
    }

    /// The encoded bytes, taking them out.
    pub fn into_bytes(self) -> (r: Vec<u8>)
        ensures
            r@ == self.bytes_spec(),
    {
        self.bytes
    }

    /// Whether some character could not be mapped (never for UTF-8).
    pub fn has_unmappable_chars(&self) -> (r: bool)
        ensures
            r == self.unmappable_spec(),
    {
        self.has_unmappable_chars
    }
}

/// Whether a text or byte length is small enough for the output buffers
/// that encoding_rs sizes for it: at most a sixteenth of `isize::MAX`.
pub open spec fn shift_jis_size_ok(n: nat) -> bool {
    n <= (isize::MAX as int) / 16
}

/// What encoding_rs's `SHIFT_JIS.encode` gives for a text: the bytes, and
/// whether some character was unmappable.
pub uninterp spec fn shift_jis_encoding(text: Seq<char>) -> (Seq<u8>, bool);

/// The bytes of an ASCII text: one per character, its code.
pub open spec fn ascii_bytes(text: Seq<char>) -> Seq<u8> {
    Seq::new(text.len(), |i: int| text[i] as u8)
}

/// Encodes `text` with encoding_rs's `SHIFT_JIS.encode` (Windows-31J, with
/// unmappable characters written as decimal numeric character references).
/// Claimed: the result is [`shift_jis_encoding`] of the text; an ASCII text
/// comes back as its own bytes with no unmappable character (the source
/// returns the input bytes when every byte is ASCII). Left unsaid: the bytes
/// of non-ASCII characters. The source panics only when the size of an
/// output buffer overflows or cannot be allocated; its buffers are a few
/// times the input's UTF-8 length rounded up to a power of two, which the
/// bound of a sixteenth of `isize::MAX` bytes keeps within what `usize` and
/// the allocator take.
#[verifier::external_body]
fn shift_jis_encode(text: &str) -> (r: (Vec<u8>, bool))
    requires
        shift_jis_size_ok(encode_utf8(text@).len()),
    ensures
        (r.0@, r.1) == shift_jis_encoding(text@),
        is_ascii_chars(text@) ==> r.0@ == ascii_bytes(text@) && !r.1,
{
    let (encoded, _, had_unmappable) = encoding_rs::SHIFT_JIS.encode(text);
    (encoded.into_owned(), had_unmappable)
}

/// What encoding a text gives: its UTF-8 bytes with nothing unmappable, or
/// the Shift_JIS bytes and flag.
pub open spec fn encode_text_spec(text: Seq<char>, encoding: TextEncoding) -> (Seq<u8>, bool) {
    match encoding {
        TextEncoding::Utf8 => (encode_utf8(text), false),
        TextEncoding::ShiftJis => shift_jis_encoding(text),
    }
}

/// Encodes a text (see [`encode_text_spec`]); an ASCII text gives its own
/// bytes in either encoding.
pub fn encode_text(text: &str, encoding: TextEncoding) -> (r: EncodedText)
    requires
        encoding == TextEncoding::ShiftJis ==> shift_jis_size_ok(encode_utf8(text@).len()),
    ensures
        (r.bytes_spec(), r.unmappable_spec()) == encode_text_spec(text@, encoding),
        is_ascii_chars(text@) ==> r.bytes_spec() == ascii_bytes(text@) && !r.unmappable_spec(),
{
    match encoding {
        TextEncoding::Utf8 => {
            let mut bytes: Vec<u8> = Vec::new();
            push_all(&mut bytes, text.as_bytes());
            proof {
                if is_ascii_chars(text@) {
                    vstd::utf8::is_ascii_chars_encode_utf8(text@);
                    assert(bytes@ =~= ascii_bytes(text@));
                }
            }
            EncodedText { bytes, has_unmappable_chars: false }
        },
        TextEncoding::ShiftJis => {
            let (bytes, had_unmappable) = shift_jis_encode(text);
            EncodedText { bytes, has_unmappable_chars: had_unmappable }
        },
    }
}

/// Encodes a text in the encoding of `options`.
pub fn encode_text_with_options(text: &str, options: ExportOptions) -> (r: EncodedText)
    requires
        options.encoding_spec() == TextEncoding::ShiftJis ==> shift_jis_size_ok(encode_utf8(text@).len()),
    ensures
        (r.bytes_spec(), r.unmappable_spec()) == encode_text_spec(text@, options.encoding_spec()),
        is_ascii_chars(text@) ==> r.bytes_spec() == ascii_bytes(text@) && !r.unmappable_spec(),
{
    encode_text(text, options.encoding())
}


/// What encoding_rs's `SHIFT_JIS.decode` gives for bytes: the text, after
/// the encoding's BOM sniffing, with malformed sequences replaced.
pub uninterp spec fn shift_jis_decoding(bytes: Seq<u8>) -> Seq<char>;

/// Decodes bytes with encoding_rs's `SHIFT_JIS.decode`. Claimed: the result
/// is [`shift_jis_decoding`] of the bytes. Left unsaid: which text that is.
/// The source panics only when the size of its output buffer (at most about
/// four bytes an input byte) overflows or cannot be allocated, which the
/// bound of [`shift_jis_size_ok`] rules out.
#[verifier::external_body]
pub(crate) fn shift_jis_decode(data: &[u8]) -> (r: String)
    requires
        shift_jis_size_ok(data@.len()),
    ensures
        r@ == shift_jis_decoding(data@),
{
    let (decoded, _, _) = encoding_rs::SHIFT_JIS.decode(data);
    decoded.into_owned()
}

/// Reads bytes as UTF-8 with `std::str::from_utf8`. Claimed, as its
/// documentation gives it: a text exactly when the bytes are valid UTF-8,
/// and then the text they encode.
#[verifier::external_body]
pub(crate) fn utf8_text(data: &[u8]) -> (r: Option<String>)
    ensures
        match r {
            Some(s) => valid_utf8(data@) && s@ == decode_utf8(data@),
            None => !valid_utf8(data@),
        },
{
    match std::str::from_utf8(data) {
        Ok(s) => Some(s.to_string()),
        Err(_) => None,
    }
}

/// The text of record bytes: the bytes read as UTF-8 when they are valid
/// UTF-8, else decoded as Shift_JIS.
pub open spec fn record_text_spec(data: Seq<u8>) -> Seq<char> {
    if valid_utf8(data) {
        decode_utf8(data)
    } else {
        shift_jis_decoding(data)
    }
}


/// The SFEN token of a piece given by its CSA code and side (`+` for
/// Black, `-` for White): a letter, after `+` for a promoted piece,
/// lower-case for White; none for an unknown code.
pub open spec fn csa_piece_token(code: Seq<char>, color: char) -> Option<Seq<char>> {
    let t: Option<(bool, char)> = if code == seq!['F', 'U'] { Some((false, 'P')) }
        else if code == seq!['K', 'Y'] { Some((false, 'L')) }
        else if code == seq!['K', 'E'] { Some((false, 'N')) }
        else if code == seq!['G', 'I'] { Some((false, 'S')) }
        else if code == seq!['K', 'I'] { Some((false, 'G')) }
        else if code == seq!['K', 'A'] { Some((false, 'B')) }
        else if code == seq!['H', 'I'] { Some((false, 'R')) }
        else if code == seq!['O', 'U'] { Some((false, 'K')) }
        else if code == seq!['T', 'O'] { Some((true, 'P')) }
        else if code == seq!['N', 'Y'] { Some((true, 'L')) }
        else if code == seq!['N', 'K'] { Some((true, 'N')) }
        else if code == seq!['N', 'G'] { Some((true, 'S')) }
        else if code == seq!['U', 'M'] { Some((true, 'B')) }
        else if code == seq!['R', 'Y'] { Some((true, 'R')) }
        else { None };
    match t {
        None => None,
        Some((promoted, l)) => {
            let c = if color == '-' { crate::text::ascii_lower(l) } else { l };
            if promoted { Some(seq!['+', c]) } else { Some(seq![c]) }
        },
    }
}

fn code_is(v: &[char], a: char, b: char) -> (r: bool)
    ensures
        r == (v@ == seq![a, b]),
{
    let r = v.len() == 2 && v[0] == a && v[1] == b;
    proof {
        if r {
            assert(v@ =~= seq![a, b]);
        } else if v@.len() == 2 {
            assert(seq![a, b][0] == a && seq![a, b][1] == b);
        }
    }
    r
}

/// The SFEN token of a piece (see [`csa_piece_token`]).
pub fn csa_piece_to_sfen(piece_code: &str, color: char) -> (r: Option<String>)
    ensures
        match csa_piece_token(piece_code@, color) {
            Some(t) => r matches Some(s) && s@ == t,
            None => r is None,
        },
{
    let v = str_chars(piece_code);
    let k = v.as_slice();
    let (promoted, letter): (bool, char) = if code_is(k, 'F', 'U') { (false, 'P') }
        else if code_is(k, 'K', 'Y') { (false, 'L') }
        else if code_is(k, 'K', 'E') { (false, 'N') }
        else if code_is(k, 'G', 'I') { (false, 'S') }
        else if code_is(k, 'K', 'I') { (false, 'G') }
        else if code_is(k, 'K', 'A') { (false, 'B') }
        else if code_is(k, 'H', 'I') { (false, 'R') }
        else if code_is(k, 'O', 'U') { (false, 'K') }
        else if code_is(k, 'T', 'O') { (true, 'P') }
        else if code_is(k, 'N', 'Y') { (true, 'L') }
        else if code_is(k, 'N', 'K') { (true, 'N') }
        else if code_is(k, 'N', 'G') { (true, 'S') }
        else if code_is(k, 'U', 'M') { (true, 'B') }
        else if code_is(k, 'R', 'Y') { (true, 'R') }
        else { return None; };
    let c = if color == '-' { ((letter as u8) + 32) as char } else { letter };
    assert(color == '-' ==> c == crate::text::ascii_lower(letter));
    let mut s = String::new();
    if promoted {
        push_char(&mut s, '+');
    }
    push_char(&mut s, c);
    assert(promoted ==> s@ =~= seq!['+', c]);
    assert(!promoted ==> s@ =~= seq![c]);
    Some(s)
}

/// The index of the square of file `file` and rank `rank` (both 1 to 9) in
/// a [`BoardMap`].
pub open spec fn board_index(file: int, rank: int) -> int {
    (file - 1) * 9 + (rank - 1)
}

/// A board of CSA pieces: for each square, by file and rank from 1 to 9,
/// the side (`+` or `-`) and CSA code of the piece on it.
#[derive(Debug)]
pub struct BoardMap {
    squares: Vec<Option<(char, String)>>,
}

impl BoardMap {
    #[verifier::type_invariant]
    spec fn has_every_square(self) -> bool {
        self.squares@.len() == 81
    }
}

/// The view of a square's piece.
pub open spec fn square_view(o: Option<(char, String)>) -> Option<(char, Seq<char>)> {
    match o {
        Some((c, s)) => Some((c, s@)),
        None => None,
    }
}

impl View for BoardMap {
    /// The pieces of the 81 squares, by [`board_index`].
    type V = Seq<Option<(char, Seq<char>)>>;

    closed spec fn view(&self) -> Seq<Option<(char, Seq<char>)>> {
        self.squares@.map_values(|o: Option<(char, String)>| square_view(o))
    }
}

impl BoardMap {
    /// A board with no piece.
    pub fn new() -> (r: BoardMap)
        ensures
            r@ == Seq::new(81, |i: int| None::<(char, Seq<char>)>),
    {
        let mut squares: Vec<Option<(char, String)>> = Vec::new();
        let mut i: usize = 0;
        while i < 81
            invariant
                i <= 81,
                squares@.len() == i,
                forall|j: int| 0 <= j < i ==> (#[trigger] squares@[j]) is None,
            decreases 81 - i,
        {
            squares.push(None);
            i += 1;
        }
        let r = BoardMap { squares };
        assert(r@ =~= Seq::new(81, |i: int| None::<(char, Seq<char>)>));
        r
    }

    /// The piece on a square.
    pub fn get(&self, file: u8, rank: u8) -> (r: Option<(char, &str)>)
        requires
            1 <= file <= 9,
            1 <= rank <= 9,
        ensures
            self@.len() == 81,
            match self@[board_index(file as int, rank as int)] {
                Some((c, code)) => r matches Some((rc, rs)) && rc == c && rs@ == code,
                None => r is None,
            },
    {
        proof {
            use_type_invariant(self);
        }
        let i = ((file - 1) as usize) * 9 + ((rank - 1) as usize);
        match &self.squares[i] {
            Some((c, code)) => Some((*c, code.as_str())),
            None => None,
        }
    }

    /// Puts a piece on a square, replacing what was there.
    pub fn insert(&mut self, file: u8, rank: u8, color: char, code: String)
        requires
            1 <= file <= 9,
            1 <= rank <= 9,
        ensures
            final(self)@ == old(self)@.update(board_index(file as int, rank as int), Some((color, code@))),
    {
        proof {
            use_type_invariant(&*self);
        }
        let i = ((file - 1) as usize) * 9 + ((rank - 1) as usize);
        let ghost before = self@;
        let mut taken = BoardMap::new();
        std::mem::swap(self, &mut taken);
        proof {
            use_type_invariant(&taken);
        }
        let BoardMap { mut squares } = taken;
        squares.set(i, Some((color, code)));
        *self = BoardMap { squares };
        assert(self@ =~= before.update(board_index(file as int, rank as int), Some((color, code@))));
    }

    /// Whether no square holds a piece.
    pub fn is_empty(&self) -> (r: bool)
        ensures
            self@.len() == 81,
            r == (forall|i: int| 0 <= i < 81 ==> #[trigger] self@[i] is None),
    {
        proof {
            use_type_invariant(self);
        }
        let mut i: usize = 0;
        while i < 81
            invariant
                i <= 81,
                self.squares@.len() == 81,
                forall|j: int| 0 <= j < i ==> #[trigger] self@[j] is None,
            decreases 81 - i,
        {
            if self.squares[i].is_some() {
                assert(self@[i as int] is Some);
                return false;
            }
            i += 1;
        }
        true
    }

    /// Takes the piece off a square.
    pub fn remove(&mut self, file: u8, rank: u8)
        requires
            1 <= file <= 9,
            1 <= rank <= 9,
        ensures
            final(self)@ == old(self)@.update(board_index(file as int, rank as int), None),
    {
        proof {
            use_type_invariant(&*self);
        }
        let i = ((file - 1) as usize) * 9 + ((rank - 1) as usize);
        let ghost before = self@;
        let mut taken = BoardMap::new();
        std::mem::swap(self, &mut taken);
        proof {
            use_type_invariant(&taken);
        }
        let BoardMap { mut squares } = taken;
        squares.set(i, None);
        *self = BoardMap { squares };
        assert(self@ =~= before.update(board_index(file as int, rank as int), None));
    }
}

/// The file and rank of the `k`-th square in SFEN order: rank by rank from
/// the first, each rank from file 9 to file 1.
pub open spec fn sfen_square(k: int) -> (int, int) {
    (9 - k % 9, k / 9 + 1)
}

/// The code of the first piece in SFEN order, from the `k`-th square on,
/// that has no SFEN token.
pub open spec fn first_unknown_code(b: Seq<Option<(char, Seq<char>)>>, k: int) -> Option<Seq<char>>
    decreases 81 - k,
{
    if k < 0 || k >= 81 {
        None
    } else {
        let (f, r) = sfen_square(k);
        match b[board_index(f, r)] {
            Some((c, code)) => if csa_piece_token(code, c) is None {
                Some(code)
            } else {
                first_unknown_code(b, k + 1)
            },
            None => first_unknown_code(b, k + 1),
        }
    }
}

/// The count of a run of empty squares, when there is one.
pub open spec fn empties_text(e: nat) -> Seq<char> {
    if e > 0 {
        decimal(e)
    } else {
        Seq::empty()
    }
}

/// The SFEN text of a rank from file `file` down to file 1, after `empties`
/// empty squares: each run of empty squares as its count, each piece as its
/// token.
pub open spec fn row_text(b: Seq<Option<(char, Seq<char>)>>, rank: int, file: int, empties: nat) -> Seq<char>
    decreases file,
{
    if file <= 0 {
        empties_text(empties)
    } else {
        match b[board_index(file, rank)] {
            Some((c, code)) => empties_text(empties) + csa_piece_token(code, c)->Some_0 + row_text(
                b,
                rank,
                file - 1,
                0,
            ),
            None => row_text(b, rank, file - 1, empties + 1),
        }
    }
}

/// The SFEN text of the ranks from `rank` to 9, joined by `/`.
pub open spec fn rows_text(b: Seq<Option<(char, Seq<char>)>>, rank: int) -> Seq<char>
    decreases 9 - rank,
{
    if rank >= 9 {
        row_text(b, 9, 9, 0)
    } else {
        row_text(b, rank, 9, 0) + seq!['/'] + rows_text(b, rank + 1)
    }
}

/// The error text of an unknown piece code.
pub open spec fn unknown_code_text(code: Seq<char>) -> Seq<char> {
    "unknown piece code: "@ + code
}

fn push_empties(s: &mut String, e: u8)
    ensures
        final(s)@ == old(s)@ + empties_text(e as nat),
{
    if e > 0 {
        crate::text::push_decimal(s, e as u64);
    } else {
        assert(old(s)@ + empties_text(e as nat) =~= old(s)@);
    }
}

/// The board part of an SFEN: ranks 1 to 9 joined by `/` (see
/// [`row_text`]); for a piece without a token, the error naming its code.
pub fn board_map_to_sfen(board_map: &BoardMap) -> (r: Result<String, String>)
    ensures
        match first_unknown_code(board_map@, 0) {
            Some(code) => r matches Err(e) && e@ == unknown_code_text(code),
            None => r matches Ok(t) && t@ == rows_text(board_map@, 1),
        },
{
    proof {
        use_type_invariant(board_map);
    }
    let ghost b = board_map@;
    let mut out = String::new();
    let mut rank: u8 = 1;
    while rank <= 9
        invariant
            1 <= rank <= 10,
            b == board_map@,
            b.len() == 81,
            first_unknown_code(b, 0) == first_unknown_code(b, (rank - 1) * 9),
            rank <= 9 ==> out@ + rows_text(b, rank as int) == rows_text(b, 1),
            rank == 10 ==> out@ == rows_text(b, 1),
        decreases 10 - rank,
    {
        let mut row = String::new();
        let mut empties: u8 = 0;
        let mut file: u8 = 9;
        while file >= 1
            invariant
                1 <= rank <= 9,
                file <= 9,
                empties + file <= 9,
                b == board_map@,
                b.len() == 81,
                first_unknown_code(b, 0) == first_unknown_code(b, (rank - 1) * 9 + (9 - file)),
                row@ + row_text(b, rank as int, file as int, empties as nat) == row_text(b, rank as int, 9, 0),
            decreases file,
        {
            let ghost k = (rank - 1) * 9 + (9 - file);
            assert(sfen_square(k) == (file as int, rank as int));
            match board_map.get(file, rank) {
                Some((color, code)) => {
                    let ghost before = row@;
                    push_empties(&mut row, empties);
                    match csa_piece_to_sfen(code, color) {
                        Some(token) => {
                            crate::text::push_str(&mut row, token.as_str());
                            assert(row@ + row_text(b, rank as int, file - 1, 0) =~= before + row_text(
                                b,
                                rank as int,
                                file as int,
                                empties as nat,
                            ));
                        },
                        None => {
                            let mut e = string_from_str("unknown piece code: ");
                            crate::text::push_str(&mut e, code);
                            return Err(e);
                        },
                    }
                    empties = 0;
                },
                None => {
                    empties = empties + 1;
                },
            }
            file = file - 1;
        }
        push_empties(&mut row, empties);
        assert(row_text(b, rank as int, 0, empties as nat) == empties_text(empties as nat));
        let ghost before = out@;
        crate::text::push_str(&mut out, row.as_str());
        if rank < 9 {
            push_char(&mut out, '/');
            assert(out@ + rows_text(b, rank + 1) =~= before + rows_text(b, rank as int));
        } else {
            assert(out@ =~= before + rows_text(b, 9));
        }
        rank = rank + 1;
    }
    Ok(out)
}


/// The index of a CSA piece code among the fourteen known codes (`FU`,
/// `KY`, `KE`, `GI`, `KI`, `KA`, `HI`, `OU`, `TO`, `NY`, `NK`, `NG`, `UM`,
/// `RY`).
pub open spec fn csa_code_index(code: Seq<char>) -> Option<int> {
    if code == seq!['F', 'U'] { Some(0) }
    else if code == seq!['K', 'Y'] { Some(1) }
    else if code == seq!['K', 'E'] { Some(2) }
    else if code == seq!['G', 'I'] { Some(3) }
    else if code == seq!['K', 'I'] { Some(4) }
    else if code == seq!['K', 'A'] { Some(5) }
    else if code == seq!['H', 'I'] { Some(6) }
    else if code == seq!['O', 'U'] { Some(7) }
    else if code == seq!['T', 'O'] { Some(8) }
    else if code == seq!['N', 'Y'] { Some(9) }
    else if code == seq!['N', 'K'] { Some(10) }
    else if code == seq!['N', 'G'] { Some(11) }
    else if code == seq!['U', 'M'] { Some(12) }
    else if code == seq!['R', 'Y'] { Some(13) }
    else { None }
}

/// The index of a CSA piece code (see [`csa_code_index`]).
pub fn csa_code_position(code: &[char]) -> (r: Option<usize>)
    ensures
        match csa_code_index(code@) {
            Some(i) => r == Some(i as usize),
            None => r is None,
        },
{
    if code_is(code, 'F', 'U') { Some(0) }
    else if code_is(code, 'K', 'Y') { Some(1) }
    else if code_is(code, 'K', 'E') { Some(2) }
    else if code_is(code, 'G', 'I') { Some(3) }
    else if code_is(code, 'K', 'I') { Some(4) }
    else if code_is(code, 'K', 'A') { Some(5) }
    else if code_is(code, 'H', 'I') { Some(6) }
    else if code_is(code, 'O', 'U') { Some(7) }
    else if code_is(code, 'T', 'O') { Some(8) }
    else if code_is(code, 'N', 'Y') { Some(9) }
    else if code_is(code, 'N', 'K') { Some(10) }
    else if code_is(code, 'N', 'G') { Some(11) }
    else if code_is(code, 'U', 'M') { Some(12) }
    else if code_is(code, 'R', 'Y') { Some(13) }
    else { None }
}

/// Pieces in hand by side and CSA code: for Black (`+`) then White (`-`),
/// the count of each of the fourteen known codes (see [`csa_code_index`]).
#[derive(Debug)]
pub struct HandCounts {
    counts: Vec<u8>,
}

impl HandCounts {
    #[verifier::type_invariant]
    spec fn has_every_count(self) -> bool {
        self.counts@.len() == 28
    }
}

impl View for HandCounts {
    /// The counts, Black's fourteen then White's (index `side * 14 + code`).
    type V = Seq<u8>;

    closed spec fn view(&self) -> Seq<u8> {
        self.counts@
    }
}

/// The index of a count in a [`HandCounts`] view; `white` picks the side.
pub open spec fn hand_index(white: bool, code: int) -> int {
    (if white { 14int } else { 0int }) + code
}

impl HandCounts {
    /// No piece in hand.
    pub fn new() -> (r: HandCounts)
        ensures
            r@ == Seq::new(28, |i: int| 0u8),
    {
        let mut counts: Vec<u8> = Vec::new();
        let mut i: usize = 0;
        while i < 28
            invariant
                i <= 28,
                counts@.len() == i,
                forall|j: int| 0 <= j < i ==> counts@[j] == 0,
            decreases 28 - i,
        {
            counts.push(0);
            i += 1;
        }
        let r = HandCounts { counts };
        assert(r@ =~= Seq::new(28, |i: int| 0u8));
        r
    }

    /// The count of a code on a side.
    pub fn count(&self, white: bool, code: usize) -> (r: u8)
        requires
            code < 14,
        ensures
            self@.len() == 28,
            r == self@[hand_index(white, code as int)],
    {
        proof {
            use_type_invariant(self);
        }
        self.counts[(if white { 14 } else { 0 }) + code]
    }

    /// Adds `n` pieces of a code to a side.
    pub fn add(&mut self, white: bool, code: usize, n: u8)
        requires
            code < 14,
            old(self)@[hand_index(white, code as int)] + n <= 255,
        ensures
            final(self)@ == old(self)@.update(
                hand_index(white, code as int),
                (old(self)@[hand_index(white, code as int)] + n) as u8,
            ),
    {
        proof {
            use_type_invariant(&*self);
        }
        let i = (if white { 14 } else { 0 }) + code;
        let ghost before = self@;
        let mut taken = HandCounts::new();
        std::mem::swap(self, &mut taken);
        proof {
            use_type_invariant(&taken);
        }
        let HandCounts { mut counts } = taken;
        let c = counts[i];
        counts.set(i, c + n);
        *self = HandCounts { counts };
        assert(self@ =~= before.update(hand_index(white, code as int), (before[hand_index(white, code as int)] + n) as u8));
    }

    /// Replaces the fourteen counts of a side.
    pub fn set_side(&mut self, white: bool, side: &[u8])
        requires
            side@.len() == 14,
        ensures
            final(self)@ == Seq::new(
                28,
                |i: int|
                    if (i >= 14) == white {
                        side@[i % 14]
                    } else {
                        old(self)@[i]
                    },
            ),
    {
        proof {
            use_type_invariant(&*self);
        }
        let ghost before = self@;
        let mut taken = HandCounts::new();
        std::mem::swap(self, &mut taken);
        proof {
            use_type_invariant(&taken);
        }
        let HandCounts { mut counts } = taken;
        assert(counts@ == before);
        let base: usize = if white { 14 } else { 0 };
        let mut k: usize = 0;
        while k < 14
            invariant
                k <= 14,
                counts@.len() == 28,
                side@.len() == 14,
                base == (if white { 14usize } else { 0usize }),
                counts@ == Seq::new(
                    28,
                    |i: int|
                        if (i >= 14) == white && i % 14 < k {
                            side@[i % 14]
                        } else {
                            before[i]
                        },
                ),
            decreases 14 - k,
        {
            counts.set(base + k, side[k]);
            k += 1;
            assert(counts@ =~= Seq::new(
                28,
                |i: int|
                    if (i >= 14) == white && i % 14 < k {
                        side@[i % 14]
                    } else {
                        before[i]
                    },
            ));
        }
        *self = HandCounts { counts };
        assert(self@ =~= Seq::new(
            28,
            |i: int|
                if (i >= 14) == white {
                    side@[i % 14]
                } else {
                    before[i]
                },
        ));
    }
}

/// The SFEN letter of the hand code at index `code` of the CSA hand order
/// `FU`, `KY`, `KE`, `GI`, `KI`, `KA`, `HI`.
pub open spec fn hand_letter(code: int) -> char {
    if code == 0 { 'P' }
    else if code == 1 { 'L' }
    else if code == 2 { 'N' }
    else if code == 3 { 'S' }
    else if code == 4 { 'G' }
    else if code == 5 { 'B' }
    else { 'R' }
}

/// The SFEN token of `count` pieces of a kind: nothing for none, the letter
/// alone for one, else the count and the letter.
pub open spec fn hand_token(count: u8, letter: char) -> Seq<char> {
    if count == 0 {
        Seq::empty()
    } else if count == 1 {
        seq![letter]
    } else {
        decimal(count as nat) + seq![letter]
    }
}

/// The SFEN tokens of the hand codes `FU` to `HI` before index `k` of a
/// side, lower-case for White.
pub open spec fn hand_side_tokens(h: Seq<u8>, white: bool, k: int) -> Seq<char>
    decreases k,
{
    if k <= 0 {
        Seq::empty()
    } else {
        let l = hand_letter(k - 1);
        hand_side_tokens(h, white, k - 1) + hand_token(
            h[hand_index(white, k - 1)],
            if white { crate::text::ascii_lower(l) } else { l },
        )
    }
}

/// The hand part of an SFEN: Black's tokens then White's, in the CSA hand
/// order; `-` when no piece is held.
pub open spec fn hand_sfen(h: Seq<u8>) -> Seq<char> {
    let t = hand_side_tokens(h, false, 7) + hand_side_tokens(h, true, 7);
    if t.len() == 0 {
        seq!['-']
    } else {
        t
    }
}

/// The hand part of an SFEN (see [`hand_sfen`]); both sides are always
/// present, so the result is never an error.
pub fn hand_counts_to_sfen(hand_counts: &HandCounts) -> (r: Result<String, String>)
    ensures
        r matches Ok(t) && t@ == hand_sfen(hand_counts@),
{
    let ghost h = hand_counts@;
    let mut out = String::new();
    let mut side: usize = 0;
    while side < 2
        invariant
            side <= 2,
            h == hand_counts@,
            side == 0 ==> out@.len() == 0,
            side == 1 ==> out@ == hand_side_tokens(h, false, 7),
            side == 2 ==> out@ == hand_side_tokens(h, false, 7) + hand_side_tokens(h, true, 7),
        decreases 2 - side,
    {
        let white = side == 1;
        let ghost start = out@;
        let mut k: usize = 0;
        while k < 7
            invariant
                k <= 7,
                h == hand_counts@,
                out@ == start + hand_side_tokens(h, white, k as int),
            decreases 7 - k,
        {
            let count = hand_counts.count(white, k);
            let l: char = if k == 0 { 'P' }
                else if k == 1 { 'L' }
                else if k == 2 { 'N' }
                else if k == 3 { 'S' }
                else if k == 4 { 'G' }
                else if k == 5 { 'B' }
                else { 'R' };
            let letter = if white { ((l as u8) + 32) as char } else { l };
            assert(letter == (if white { crate::text::ascii_lower(l) } else { l }));
            let ghost before = out@;
            if count > 1 {
                crate::text::push_decimal(&mut out, count as u64);
            }
            if count > 0 {
                push_char(&mut out, letter);
            }
            assert(out@ =~= before + hand_token(count, letter));
            k += 1;
        }
        side += 1;
    }
    if out.as_str().unicode_len() == 0 {
        proof {
            reveal_strlit("-");
        }
        let dash = string_from_str("-");
        assert(dash@ =~= seq!['-']);
        return Ok(dash);
    }
    Ok(out)
}

} // verus!
