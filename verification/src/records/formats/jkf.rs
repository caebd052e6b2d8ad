//! The notation of the JSON Kifu Format: its errors, piece codes, board
//! presets and terminal names.
use vstd::prelude::*;
use crate::records::error::RecordError;
use crate::records::record::{SpecialMove, SpecialMoveEntry};
use crate::text::{ascii_upper_seq, chars_eq_str, decimal, push_decimal, push_str, str_chars, string_from_str};
use crate::types::color::Color;
use crate::types::game_result::GameResult;
use crate::types::piece::PieceType;

verus! {

/// Errors of the JSON Kifu Format.
#[derive(Debug, Clone, PartialEq, Eq)]
pub enum JkfError {
    /// The JSON does not have the shape of a kifu.
    InvalidStructure(String),
    /// A board preset that is not known.
    UnsupportedPreset(String),
    /// A move that cannot be read.
    InvalidMove(String),
    /// An illegal move, by index.
    IllegalMove { index: usize },
    /// The record could not be built.
    Record(RecordError),
}

impl JkfError {
    /// The message of the error.
    pub open spec fn message(&self) -> Seq<char> {
        match self {
            JkfError::InvalidStructure(s) => "invalid JKF structure: "@ + s@,
            JkfError::UnsupportedPreset(s) => "unsupported JKF preset: "@ + s@,
            JkfError::InvalidMove(s) => "invalid move: "@ + s@,
            JkfError::IllegalMove { index } => "illegal move at index "@ + decimal(*index as nat),
            JkfError::Record(e) => "record construction failed: "@ + e.message(),
        }
    }

    /// The message of the error (see [`JkfError::message`]).
    pub fn to_string(&self) -> (r: String)
        ensures
            r@ == self.message(),
    {
        match self {
            JkfError::InvalidStructure(t) => {
                let mut s = string_from_str("invalid JKF structure: ");
                push_str(&mut s, t.as_str());
                s
            },
            JkfError::UnsupportedPreset(t) => {
                let mut s = string_from_str("unsupported JKF preset: ");
                push_str(&mut s, t.as_str());
                s
            },
            JkfError::InvalidMove(t) => {
                let mut s = string_from_str("invalid move: ");
                push_str(&mut s, t.as_str());
                s
            },
            JkfError::IllegalMove { index } => {
                let mut s = string_from_str("illegal move at index ");
                push_decimal(&mut s, *index as u64);
                s
            },
            JkfError::Record(e) => {
                let mut s = string_from_str("record construction failed: ");
                let m = e.to_string();
                push_str(&mut s, m.as_str());
                s
            },
        }
    }
}

impl From<RecordError> for JkfError {
    fn from(e: RecordError) -> (r: JkfError) {
        JkfError::Record(e)
    }
}

impl vstd::std_specs::convert::FromSpecImpl<RecordError> for JkfError {
    open spec fn obeys_from_spec() -> bool {
        true
    }

    open spec fn from_spec(e: RecordError) -> JkfError {
        JkfError::Record(e)
    }
}

/// The CSA code of a piece type (`FU` for a pawn, `RY` for a dragon); none
/// for anything else.
pub open spec fn csa_code_spec(pt: int) -> Option<Seq<char>> {
    if pt == 1 { Some(seq!['F', 'U']) }
    else if pt == 2 { Some(seq!['K', 'Y']) }
    else if pt == 3 { Some(seq!['K', 'E']) }
    else if pt == 4 { Some(seq!['G', 'I']) }
    else if pt == 7 { Some(seq!['K', 'I']) }
    else if pt == 5 { Some(seq!['K', 'A']) }
    else if pt == 6 { Some(seq!['H', 'I']) }
    else if pt == 8 { Some(seq!['O', 'U']) }
    else if pt == 9 { Some(seq!['T', 'O']) }
    else if pt == 10 { Some(seq!['N', 'Y']) }
    else if pt == 11 { Some(seq!['N', 'K']) }
    else if pt == 12 { Some(seq!['N', 'G']) }
    else if pt == 13 { Some(seq!['U', 'M']) }
    else if pt == 14 { Some(seq!['R', 'Y']) }
    else { None }
}

/// The piece type of a CSA code (`GY` is a king too); none for anything
/// else.
pub open spec fn csa_piece_type_spec(code: Seq<char>) -> Option<i8> {
    if code == seq!['F', 'U'] { Some(1) }
    else if code == seq!['K', 'Y'] { Some(2) }
    else if code == seq!['K', 'E'] { Some(3) }
    else if code == seq!['G', 'I'] { Some(4) }
    else if code == seq!['K', 'I'] { Some(7) }
    else if code == seq!['K', 'A'] { Some(5) }
    else if code == seq!['H', 'I'] { Some(6) }
    else if code == seq!['O', 'U'] || code == seq!['G', 'Y'] { Some(8) }
    else if code == seq!['T', 'O'] { Some(9) }
    else if code == seq!['N', 'Y'] { Some(10) }
    else if code == seq!['N', 'K'] { Some(11) }
    else if code == seq!['N', 'G'] { Some(12) }
    else if code == seq!['U', 'M'] { Some(13) }
    else if code == seq!['R', 'Y'] { Some(14) }
    else { None }
}

/// The CSA code of a piece type (see [`csa_code_spec`]).
pub fn piece_type_to_csa(piece_type: PieceType) -> (r: Option<&'static str>)
    ensures
        match csa_code_spec(piece_type.0 as int) {
            Some(c) => r matches Some(s) && s@ == c,
            None => r is None,
        },
{
    proof {
        reveal_strlit("FU");
        reveal_strlit("KY");
        reveal_strlit("KE");
        reveal_strlit("GI");
        reveal_strlit("KI");
        reveal_strlit("KA");
        reveal_strlit("HI");
        reveal_strlit("OU");
        reveal_strlit("TO");
        reveal_strlit("NY");
        reveal_strlit("NK");
        reveal_strlit("NG");
        reveal_strlit("UM");
        reveal_strlit("RY");
    }
    let p = piece_type.0;
    if p == 1 { Some("FU") }
    else if p == 2 { Some("KY") }
    else if p == 3 { Some("KE") }
    else if p == 4 { Some("GI") }
    else if p == 7 { Some("KI") }
    else if p == 5 { Some("KA") }
    else if p == 6 { Some("HI") }
    else if p == 8 { Some("OU") }
    else if p == 9 { Some("TO") }
    else if p == 10 { Some("NY") }
    else if p == 11 { Some("NK") }
    else if p == 12 { Some("NG") }
    else if p == 13 { Some("UM") }
    else if p == 14 { Some("RY") }
    else { None }
}

fn code_is(v: &[char], a: char, b: char) -> (r: bool)
    ensures
        r == (v@ == seq![a, b]),
{
    let r = v.len() == 2 && v[0] == a && v[1] == b;
    proof {
        if r {
            assert(v@ =~= seq![a, b]);
        } else if v@.len() == 2 {
            assert(v@[0] != a || v@[1] != b);
            assert(seq![a, b][0] == a && seq![a, b][1] == b);
        }
    }
    r
}

/// The piece type of a CSA code (see [`csa_piece_type_spec`]).
pub fn csa_to_piece_type(kind: &str) -> (r: Option<PieceType>)
    ensures
        match csa_piece_type_spec(kind@) {
            Some(p) => r matches Some(pt) && pt.0 == p,
            None => r is None,
        },
{
    let v = str_chars(kind);
    let k = v.as_slice();
    let p: i8 = if code_is(k, 'F', 'U') { 1 }
        else if code_is(k, 'K', 'Y') { 2 }
        else if code_is(k, 'K', 'E') { 3 }
        else if code_is(k, 'G', 'I') { 4 }
        else if code_is(k, 'K', 'I') { 7 }
        else if code_is(k, 'K', 'A') { 5 }
        else if code_is(k, 'H', 'I') { 6 }
        else if code_is(k, 'O', 'U') || code_is(k, 'G', 'Y') { 8 }
        else if code_is(k, 'T', 'O') { 9 }
        else if code_is(k, 'N', 'Y') { 10 }
        else if code_is(k, 'N', 'K') { 11 }
        else if code_is(k, 'N', 'G') { 12 }
        else if code_is(k, 'U', 'M') { 13 }
        else if code_is(k, 'R', 'Y') { 14 }
        else { 0 };
    if p == 0 {
        None
    } else {
        Some(PieceType(p))
    }
}

/// The CSA code of every piece type from pawn to dragon reads back as that
/// piece type.
pub proof fn lemma_csa_code_roundtrip(pt: int)
    requires
        1 <= pt <= 14,
    ensures
        csa_code_spec(pt) matches Some(c) && csa_piece_type_spec(c) == Some(pt as i8),
{
    let c = csa_code_spec(pt)->Some_0;
    assert(c.len() == 2);
    assert(c[0] == c[0] && c[1] == c[1]);
    assert(seq!['F', 'U'][0] == 'F');
    assert(seq!['K', 'Y'][0] == 'K' && seq!['K', 'Y'][1] == 'Y');
    assert(seq!['K', 'E'][0] == 'K' && seq!['K', 'E'][1] == 'E');
    assert(seq!['G', 'I'][0] == 'G' && seq!['G', 'I'][1] == 'I');
    assert(seq!['K', 'I'][0] == 'K' && seq!['K', 'I'][1] == 'I');
    assert(seq!['K', 'A'][0] == 'K' && seq!['K', 'A'][1] == 'A');
    assert(seq!['H', 'I'][0] == 'H');
    assert(seq!['O', 'U'][0] == 'O');
    assert(seq!['G', 'Y'][0] == 'G' && seq!['G', 'Y'][1] == 'Y');
    assert(seq!['T', 'O'][0] == 'T');
    assert(seq!['N', 'Y'][0] == 'N' && seq!['N', 'Y'][1] == 'Y');
    assert(seq!['N', 'K'][0] == 'N' && seq!['N', 'K'][1] == 'K');
    assert(seq!['N', 'G'][0] == 'N' && seq!['N', 'G'][1] == 'G');
    assert(seq!['U', 'M'][0] == 'U');
    assert(seq!['R', 'Y'][0] == 'R');
}

/// The SFEN letter of a piece type without its promotion.
pub open spec fn sfen_letter(pt: int) -> Option<char> {
    if pt == 1 { Some('P') }
    else if pt == 2 { Some('L') }
    else if pt == 3 { Some('N') }
    else if pt == 4 { Some('S') }
    else if pt == 7 { Some('G') }
    else if pt == 5 { Some('B') }
    else if pt == 6 { Some('R') }
    else if pt == 8 { Some('K') }
    else { None }
}

/// The SFEN token of a piece of type `pt`: the letter of its unpromoted
/// type, lower-case for White, after `+` when promoted; none for a type
/// without a letter.
pub open spec fn piece_sfen_spec(pt: PieceType, black: bool) -> Option<Seq<char>> {
    match sfen_letter(pt.demote_spec().0 as int) {
        None => None,
        Some(l) => {
            let c = if black { l } else { crate::text::ascii_lower(l) };
            if pt.is_promoted_spec() {
                Some(seq!['+', c])
            } else {
                Some(seq![c])
            }
        },
    }
}

fn sfen_letter_of(pt: i8) -> (r: Option<char>)
    ensures
        r == sfen_letter(pt as int),
{
    if pt == 1 { Some('P') }
    else if pt == 2 { Some('L') }
    else if pt == 3 { Some('N') }
    else if pt == 4 { Some('S') }
    else if pt == 7 { Some('G') }
    else if pt == 5 { Some('B') }
    else if pt == 6 { Some('R') }
    else if pt == 8 { Some('K') }
    else { None }
}

/// The SFEN token of a piece (see [`piece_sfen_spec`]).
pub fn piece_type_to_sfen(piece_type: PieceType, color: Color) -> (r: Option<String>)
    ensures
        match piece_sfen_spec(piece_type, color == Color::Black) {
            Some(t) => r matches Some(s) && s@ == t,
            None => r is None,
        },
{
    let base = match sfen_letter_of(piece_type.demote().0) {
        Some(c) => c,
        None => return None,
    };
    let piece = if color == Color::Black {
        base
    } else {
        ((base as u8) + 32) as char
    };
    assert(color != Color::Black ==> piece == crate::text::ascii_lower(base));
    let mut s = String::new();
    if piece_type.is_promoted() {
        crate::text::push_char(&mut s, '+');
    }
    crate::text::push_char(&mut s, piece);
    assert(piece_type.is_promoted_spec() ==> s@ =~= seq!['+', piece]);
    assert(!piece_type.is_promoted_spec() ==> s@ =~= seq![piece]);
    Some(s)
}

/// The SFEN letter of the piece dropped by a CSA code: the letter of its
/// unpromoted type; none for a king or an unknown code.
pub open spec fn drop_char_spec(code: Seq<char>) -> Option<char> {
    match csa_piece_type_spec(code) {
        None => None,
        Some(p) => {
            let d = PieceType(p).demote_spec().0 as int;
            if d == 8 {
                None
            } else {
                sfen_letter(d)
            }
        },
    }
}

/// The SFEN letter of a dropped piece (see [`drop_char_spec`]).
pub fn csa_to_drop_char(kind: &str) -> (r: Option<char>)
    ensures
        r == drop_char_spec(kind@),
{
    let pt = match csa_to_piece_type(kind) {
        Some(pt) => pt,
        None => return None,
    };
    let d = pt.demote();
    if d.0 == 8 {
        None
    } else {
        sfen_letter_of(d.0)
    }
}

/// Whether a piece type can promote: pawn, lance, knight, silver, bishop
/// or rook.
pub open spec fn promotable_type_spec(pt: int) -> bool {
    pt == 1 || pt == 2 || pt == 3 || pt == 4 || pt == 5 || pt == 6
}

/// Whether a piece type can promote (see [`promotable_type_spec`]).
pub fn is_promotable_piece_type(piece_type: PieceType) -> (r: bool)
    ensures
        r == promotable_type_spec(piece_type.0 as int),
{
    let p = piece_type.0;
    p == 1 || p == 2 || p == 3 || p == 4 || p == 5 || p == 6
}

/// Whether a rank (1 to 9, from Black's far side) lies in the promotion
/// zone of `color`: ranks 1 to 3 for Black, 7 to 9 for White.
pub fn is_promotable_rank(color: Color, rank: u8) -> (r: bool)
    ensures
        r == (if color == Color::Black { rank <= 3 } else { rank >= 7 }),
{
    if color == Color::Black {
        rank <= 3
    } else {
        rank >= 7
    }
}

/// The letter of a KI2 relative-position mark: `左` L, `直` C, `右` R,
/// `上` U, `寄` M, `引` D, `打` H.
pub open spec fn relative_letter(c: char) -> Option<char> {
    if c == '左' { Some('L') }
    else if c == '直' { Some('C') }
    else if c == '右' { Some('R') }
    else if c == '上' { Some('U') }
    else if c == '寄' { Some('M') }
    else if c == '引' { Some('D') }
    else if c == '打' { Some('H') }
    else { None }
}

/// The letters of the relative-position marks of a KI2 move, in order.
pub open spec fn relative_spec(s: Seq<char>) -> Seq<char>
    decreases s.len(),
{
    if s.len() == 0 {
        Seq::empty()
    } else {
        relative_spec(s.drop_last()) + match relative_letter(s.last()) {
            Some(l) => seq![l],
            None => Seq::empty(),
        }
    }
}

/// The JKF relative-position letters of a KI2 move (see [`relative_spec`]).
pub fn relative_from_ki2(ki2: &str) -> (r: String)
    ensures
        r@ == relative_spec(ki2@),
{
    let v = str_chars(ki2);
    let mut out = String::new();
    let mut i: usize = 0;
    while i < v.len()
        invariant
            i <= v@.len(),
            v@ == ki2@,
            out@ == relative_spec(v@.take(i as int)),
        decreases v.len() - i,
    {
        assert(v@.take(i + 1).drop_last() =~= v@.take(i as int));
        let c = v[i];
        let l = if c == '左' { 'L' }
            else if c == '直' { 'C' }
            else if c == '右' { 'R' }
            else if c == '上' { 'U' }
            else if c == '寄' { 'M' }
            else if c == '引' { 'D' }
            else if c == '打' { 'H' }
            else { ' ' };
        if l != ' ' {
            crate::text::push_char(&mut out, l);
        }
        i += 1;
        assert(out@ =~= relative_spec(v@.take(i as int)));
    }
    assert(v@.take(v@.len() as int) =~= v@);
    out
}


/// What `str::to_uppercase` gives for a text: its Unicode upper-case form.
pub uninterp spec fn unicode_uppercase(s: Seq<char>) -> Seq<char>;

/// Calls `str::to_uppercase`. The contract claims only that the result is
/// a function of the text, named [`unicode_uppercase`]; which characters
/// it maps to which is not stated.
#[verifier::external_body]
fn str_to_uppercase(s: &str) -> (r: String)
    ensures
        r@ == unicode_uppercase(s@),
{
    s.to_uppercase()
}

/// The JKF name of a terminal kind (see [`SpecialMove::kind_view`]); an
/// unknown terminal's name in upper case.
pub open spec fn jkf_special_name(kind: (int, Seq<char>)) -> Seq<char> {
    if kind.0 == 0 { "CHUDAN"@ }
    else if kind.0 == 1 { "TORYO"@ }
    else if kind.0 == 2 { "MAX_MOVES"@ }
    else if kind.0 == 3 { "JISHOGI"@ }
    else if kind.0 == 4 { "HIKIWAKE"@ }
    else if kind.0 == 5 { "SENNICHITE"@ }
    else if kind.0 == 6 { "TSUMI"@ }
    else if kind.0 == 7 { "FUZUMI"@ }
    else if kind.0 == 8 { "TIME_UP"@ }
    else if kind.0 == 9 || kind.0 == 10 { "ILLEGAL_MOVE"@ }
    else if 11 <= kind.0 <= 14 { "KACHI"@ }
    else { unicode_uppercase(kind.1) }
}

/// The JKF name of a terminal (see [`jkf_special_name`]); always present.
pub fn special_to_jkf_special(special: &SpecialMoveEntry) -> (r: Option<String>)
    ensures
        r matches Some(s) && s@ == jkf_special_name(special.kind_spec().kind_view()),
{
    let mapped = match special.kind() {
        SpecialMove::Interrupt => "CHUDAN",
        SpecialMove::Resign => "TORYO",
        SpecialMove::MaxMoves => "MAX_MOVES",
        SpecialMove::Impasse => "JISHOGI",
        SpecialMove::Draw => "HIKIWAKE",
        SpecialMove::RepetitionDraw => "SENNICHITE",
        SpecialMove::Mate => "TSUMI",
        SpecialMove::NoMate => "FUZUMI",
        SpecialMove::Timeout => "TIME_UP",
        SpecialMove::WinByIllegalMove | SpecialMove::LoseByIllegalMove => "ILLEGAL_MOVE",
        SpecialMove::WinByDeclaration => "KACHI",
        SpecialMove::WinByDefault | SpecialMove::LoseByDefault => "KACHI",
        SpecialMove::Try => "KACHI",
        SpecialMove::Unknown(name) => return Some(str_to_uppercase(name.as_str())),
    };
    Some(string_from_str(mapped))
}

/// The JKF name of a game result.
pub open spec fn jkf_result_name(result: GameResult) -> Seq<char> {
    match result {
        GameResult::BlackWin | GameResult::WhiteWin => "TORYO"@,
        GameResult::DrawByRepetition => "SENNICHITE"@,
        GameResult::DrawByImpasse => "JISHOGI"@,
        GameResult::DrawByMaxPlies => "MAX_MOVES"@,
        GameResult::BlackWinByDeclaration | GameResult::WhiteWinByDeclaration => "KACHI"@,
        GameResult::BlackWinByTryRule | GameResult::WhiteWinByTryRule => "KACHI"@,
        GameResult::BlackWinByForfeit | GameResult::WhiteWinByForfeit => "KACHI"@,
        GameResult::BlackWinByIllegalMove | GameResult::WhiteWinByIllegalMove => "ILLEGAL_MOVE"@,
        GameResult::BlackWinByTimeout | GameResult::WhiteWinByTimeout => "TIME_UP"@,
        GameResult::Error => "ERROR"@,
        GameResult::Invalid | GameResult::Paused => "CHUDAN"@,
    }
}

/// The JKF name of a game result (see [`jkf_result_name`]); always present.
pub fn result_to_jkf_special(result: GameResult) -> (r: Option<&'static str>)
    ensures
        r matches Some(s) && s@ == jkf_result_name(result),
{
    match result {
        GameResult::BlackWin | GameResult::WhiteWin => Some("TORYO"),
        GameResult::DrawByRepetition => Some("SENNICHITE"),
        GameResult::DrawByImpasse => Some("JISHOGI"),
        GameResult::DrawByMaxPlies => Some("MAX_MOVES"),
        GameResult::BlackWinByDeclaration | GameResult::WhiteWinByDeclaration => Some("KACHI"),
        GameResult::BlackWinByTryRule | GameResult::WhiteWinByTryRule => Some("KACHI"),
        GameResult::BlackWinByForfeit | GameResult::WhiteWinByForfeit => Some("KACHI"),
        GameResult::BlackWinByIllegalMove | GameResult::WhiteWinByIllegalMove => Some("ILLEGAL_MOVE"),
        GameResult::BlackWinByTimeout | GameResult::WhiteWinByTimeout => Some("TIME_UP"),
        GameResult::Error => Some("ERROR"),
        GameResult::Invalid | GameResult::Paused => Some("CHUDAN"),
    }
}

/// The kind and result that a JKF terminal name stands for, read in ASCII
/// upper case; `black` tells whether Black is to move. The side not to move
/// wins a resignation, mate, timeout or illegal move; the side to move wins
/// by declaration (`KACHI`). An unknown name is an unknown terminal of that
/// name with an invalid result.
pub open spec fn jkf_name_spec(name: Seq<char>, black: bool) -> ((int, Seq<char>), GameResult) {
    let u = ascii_upper_seq(name);
    if u == "CHUDAN"@ {
        ((0, Seq::empty()), GameResult::Paused)
    } else if u == "TORYO"@ {
        ((1, Seq::empty()), if black { GameResult::WhiteWin } else { GameResult::BlackWin })
    } else if u == "MAX_MOVES"@ {
        ((2, Seq::empty()), GameResult::DrawByMaxPlies)
    } else if u == "JISHOGI"@ {
        ((3, Seq::empty()), GameResult::DrawByImpasse)
    } else if u == "HIKIWAKE"@ {
        ((4, Seq::empty()), GameResult::DrawByRepetition)
    } else if u == "SENNICHITE"@ {
        ((5, Seq::empty()), GameResult::DrawByRepetition)
    } else if u == "TSUMI"@ {
        ((6, Seq::empty()), if black { GameResult::WhiteWin } else { GameResult::BlackWin })
    } else if u == "FUZUMI"@ {
        ((7, Seq::empty()), GameResult::DrawByMaxPlies)
    } else if u == "TIME_UP"@ {
        ((8, Seq::empty()), if black { GameResult::WhiteWinByTimeout } else { GameResult::BlackWinByTimeout })
    } else if u == "ILLEGAL_MOVE"@ {
        ((9, Seq::empty()), if black { GameResult::WhiteWinByIllegalMove } else { GameResult::BlackWinByIllegalMove })
    } else if u == "KACHI"@ {
        ((11, Seq::empty()), if black { GameResult::BlackWinByDeclaration } else { GameResult::WhiteWinByDeclaration })
    } else if u == "ERROR"@ {
        ((0, Seq::empty()), GameResult::Error)
    } else {
        ((15, name), GameResult::Invalid)
    }
}

/// The terminal entry of a JKF terminal name (see [`jkf_name_spec`]), which
/// keeps the name as its marker.
pub fn special_from_jkf_name(name: &str, side_to_move: Color) -> (r: SpecialMoveEntry)
    ensures
        (r.kind_spec().kind_view(), r.result_spec()) == jkf_name_spec(name@, side_to_move == Color::Black),
        r.raw_spec() == Some(name@),
{
    let v = str_chars(name);
    let uc = crate::text::ascii_uppercase_chars(v.as_slice());
    let u = uc.as_slice();
    let winner = side_to_move.flip();
    let (kind, result) = if chars_eq_str(u, "CHUDAN") {
        (SpecialMove::Interrupt, GameResult::Paused)
    } else if chars_eq_str(u, "TORYO") {
        (SpecialMove::Resign, GameResult::win_from_color(winner))
    } else if chars_eq_str(u, "MAX_MOVES") {
        (SpecialMove::MaxMoves, GameResult::DrawByMaxPlies)
    } else if chars_eq_str(u, "JISHOGI") {
        (SpecialMove::Impasse, GameResult::DrawByImpasse)
    } else if chars_eq_str(u, "HIKIWAKE") {
        (SpecialMove::Draw, GameResult::DrawByRepetition)
    } else if chars_eq_str(u, "SENNICHITE") {
        (SpecialMove::RepetitionDraw, GameResult::DrawByRepetition)
    } else if chars_eq_str(u, "TSUMI") {
        (SpecialMove::Mate, GameResult::win_from_color(winner))
    } else if chars_eq_str(u, "FUZUMI") {
        (SpecialMove::NoMate, GameResult::DrawByMaxPlies)
    } else if chars_eq_str(u, "TIME_UP") {
        (SpecialMove::Timeout, GameResult::win_by_timeout_from_color(winner))
    } else if chars_eq_str(u, "ILLEGAL_MOVE") {
        (SpecialMove::WinByIllegalMove, GameResult::win_by_illegal_move_from_color(winner))
    } else if chars_eq_str(u, "KACHI") {
        (SpecialMove::WinByDeclaration, GameResult::win_by_declaration_from_color(side_to_move))
    } else if chars_eq_str(u, "ERROR") {
        (SpecialMove::Interrupt, GameResult::Error)
    } else {
        (SpecialMove::Unknown(string_from_str(name)), GameResult::Invalid)
    };
    SpecialMoveEntry::new(kind, result).with_raw(Some(string_from_str(name)))
}

/// The JKF preset of a standard or handicap initial position given as
/// SFEN.
pub open spec fn preset_of_sfen(sfen: Seq<char>) -> Option<Seq<char>> {
    if sfen == "lnsgkgsnl/1r5b1/ppppppppp/9/9/9/PPPPPPPPP/1B5R1/LNSGKGSNL b - 1"@ { Some("HIRATE"@) }
    else if sfen == "lnsgkgsn1/1r5b1/ppppppppp/9/9/9/PPPPPPPPP/1B5R1/LNSGKGSNL w - 1"@ { Some("KY"@) }
    else if sfen == "1nsgkgsnl/1r5b1/ppppppppp/9/9/9/PPPPPPPPP/1B5R1/LNSGKGSNL w - 1"@ { Some("KY_R"@) }
    else if sfen == "lnsgkgsnl/1r7/ppppppppp/9/9/9/PPPPPPPPP/1B5R1/LNSGKGSNL w - 1"@ { Some("KA"@) }
    else if sfen == "lnsgkgsnl/7b1/ppppppppp/9/9/9/PPPPPPPPP/1B5R1/LNSGKGSNL w - 1"@ { Some("HI"@) }
    else if sfen == "lnsgkgsn1/7b1/ppppppppp/9/9/9/PPPPPPPPP/1B5R1/LNSGKGSNL w - 1"@ { Some("HIKY"@) }
    else if sfen == "lnsgkgsnl/9/ppppppppp/9/9/9/PPPPPPPPP/1B5R1/LNSGKGSNL w - 1"@ { Some("2"@) }
    else if sfen == "lnsgkgsn1/9/ppppppppp/9/9/9/PPPPPPPPP/1B5R1/LNSGKGSNL w - 1"@ { Some("3"@) }
    else if sfen == "1nsgkgsn1/9/ppppppppp/9/9/9/PPPPPPPPP/1B5R1/LNSGKGSNL w - 1"@ { Some("4"@) }
    else if sfen == "2sgkgsn1/9/ppppppppp/9/9/9/PPPPPPPPP/1B5R1/LNSGKGSNL w - 1"@ { Some("5"@) }
    else if sfen == "1nsgkgs2/9/ppppppppp/9/9/9/PPPPPPPPP/1B5R1/LNSGKGSNL w - 1"@ { Some("5_L"@) }
    else if sfen == "2sgkgs2/9/ppppppppp/9/9/9/PPPPPPPPP/1B5R1/LNSGKGSNL w - 1"@ { Some("6"@) }
    else if sfen == "3gkg3/9/ppppppppp/9/9/9/PPPPPPPPP/1B5R1/LNSGKGSNL w - 1"@ { Some("8"@) }
    else if sfen == "4k4/9/ppppppppp/9/9/9/PPPPPPPPP/1B5R1/LNSGKGSNL w - 1"@ { Some("10"@) }
    else { None }
}

/// The SFEN of the initial position of a JKF preset.
pub open spec fn sfen_of_preset(preset: Seq<char>) -> Option<Seq<char>> {
    if preset == "HIRATE"@ { Some("lnsgkgsnl/1r5b1/ppppppppp/9/9/9/PPPPPPPPP/1B5R1/LNSGKGSNL b - 1"@) }
    else if preset == "KY"@ { Some("lnsgkgsn1/1r5b1/ppppppppp/9/9/9/PPPPPPPPP/1B5R1/LNSGKGSNL w - 1"@) }
    else if preset == "KY_R"@ { Some("1nsgkgsnl/1r5b1/ppppppppp/9/9/9/PPPPPPPPP/1B5R1/LNSGKGSNL w - 1"@) }
    else if preset == "KA"@ { Some("lnsgkgsnl/1r7/ppppppppp/9/9/9/PPPPPPPPP/1B5R1/LNSGKGSNL w - 1"@) }
    else if preset == "HI"@ { Some("lnsgkgsnl/7b1/ppppppppp/9/9/9/PPPPPPPPP/1B5R1/LNSGKGSNL w - 1"@) }
    else if preset == "HIKY"@ { Some("lnsgkgsn1/7b1/ppppppppp/9/9/9/PPPPPPPPP/1B5R1/LNSGKGSNL w - 1"@) }
    else if preset == "2"@ { Some("lnsgkgsnl/9/ppppppppp/9/9/9/PPPPPPPPP/1B5R1/LNSGKGSNL w - 1"@) }
    else if preset == "3"@ { Some("lnsgkgsn1/9/ppppppppp/9/9/9/PPPPPPPPP/1B5R1/LNSGKGSNL w - 1"@) }
    else if preset == "4"@ { Some("1nsgkgsn1/9/ppppppppp/9/9/9/PPPPPPPPP/1B5R1/LNSGKGSNL w - 1"@) }
    else if preset == "5"@ { Some("2sgkgsn1/9/ppppppppp/9/9/9/PPPPPPPPP/1B5R1/LNSGKGSNL w - 1"@) }
    else if preset == "5_L"@ { Some("1nsgkgs2/9/ppppppppp/9/9/9/PPPPPPPPP/1B5R1/LNSGKGSNL w - 1"@) }
    else if preset == "6"@ { Some("2sgkgs2/9/ppppppppp/9/9/9/PPPPPPPPP/1B5R1/LNSGKGSNL w - 1"@) }
    else if preset == "8"@ { Some("3gkg3/9/ppppppppp/9/9/9/PPPPPPPPP/1B5R1/LNSGKGSNL w - 1"@) }
    else if preset == "10"@ { Some("4k4/9/ppppppppp/9/9/9/PPPPPPPPP/1B5R1/LNSGKGSNL w - 1"@) }
    else { None }
}

/// The JKF preset of an initial position (see [`preset_of_sfen`]).
pub fn preset_from_sfen(sfen: &str) -> (r: Option<&'static str>)
    ensures
        match preset_of_sfen(sfen@) {
            Some(p) => r matches Some(s) && s@ == p,
            None => r is None,
        },
{
    let v = str_chars(sfen);
    let s = v.as_slice();
    if chars_eq_str(s, "lnsgkgsnl/1r5b1/ppppppppp/9/9/9/PPPPPPPPP/1B5R1/LNSGKGSNL b - 1") { Some("HIRATE") }
    else if chars_eq_str(s, "lnsgkgsn1/1r5b1/ppppppppp/9/9/9/PPPPPPPPP/1B5R1/LNSGKGSNL w - 1") { Some("KY") }
    else if chars_eq_str(s, "1nsgkgsnl/1r5b1/ppppppppp/9/9/9/PPPPPPPPP/1B5R1/LNSGKGSNL w - 1") { Some("KY_R") }
    else if chars_eq_str(s, "lnsgkgsnl/1r7/ppppppppp/9/9/9/PPPPPPPPP/1B5R1/LNSGKGSNL w - 1") { Some("KA") }
    else if chars_eq_str(s, "lnsgkgsnl/7b1/ppppppppp/9/9/9/PPPPPPPPP/1B5R1/LNSGKGSNL w - 1") { Some("HI") }
    else if chars_eq_str(s, "lnsgkgsn1/7b1/ppppppppp/9/9/9/PPPPPPPPP/1B5R1/LNSGKGSNL w - 1") { Some("HIKY") }
    else if chars_eq_str(s, "lnsgkgsnl/9/ppppppppp/9/9/9/PPPPPPPPP/1B5R1/LNSGKGSNL w - 1") { Some("2") }
    else if chars_eq_str(s, "lnsgkgsn1/9/ppppppppp/9/9/9/PPPPPPPPP/1B5R1/LNSGKGSNL w - 1") { Some("3") }
    else if chars_eq_str(s, "1nsgkgsn1/9/ppppppppp/9/9/9/PPPPPPPPP/1B5R1/LNSGKGSNL w - 1") { Some("4") }
    else if chars_eq_str(s, "2sgkgsn1/9/ppppppppp/9/9/9/PPPPPPPPP/1B5R1/LNSGKGSNL w - 1") { Some("5") }
    else if chars_eq_str(s, "1nsgkgs2/9/ppppppppp/9/9/9/PPPPPPPPP/1B5R1/LNSGKGSNL w - 1") { Some("5_L") }
    else if chars_eq_str(s, "2sgkgs2/9/ppppppppp/9/9/9/PPPPPPPPP/1B5R1/LNSGKGSNL w - 1") { Some("6") }
    else if chars_eq_str(s, "3gkg3/9/ppppppppp/9/9/9/PPPPPPPPP/1B5R1/LNSGKGSNL w - 1") { Some("8") }
    else if chars_eq_str(s, "4k4/9/ppppppppp/9/9/9/PPPPPPPPP/1B5R1/LNSGKGSNL w - 1") { Some("10") }
    else { None }
}

/// The SFEN of a JKF preset (see [`sfen_of_preset`]).
pub fn sfen_from_preset(preset: &str) -> (r: Option<&'static str>)
    ensures
        match sfen_of_preset(preset@) {
            Some(p) => r matches Some(s) && s@ == p,
            None => r is None,
        },
{
    let v = str_chars(preset);
    let p = v.as_slice();
    if chars_eq_str(p, "HIRATE") { Some("lnsgkgsnl/1r5b1/ppppppppp/9/9/9/PPPPPPPPP/1B5R1/LNSGKGSNL b - 1") }
    else if chars_eq_str(p, "KY") { Some("lnsgkgsn1/1r5b1/ppppppppp/9/9/9/PPPPPPPPP/1B5R1/LNSGKGSNL w - 1") }
    else if chars_eq_str(p, "KY_R") { Some("1nsgkgsnl/1r5b1/ppppppppp/9/9/9/PPPPPPPPP/1B5R1/LNSGKGSNL w - 1") }
    else if chars_eq_str(p, "KA") { Some("lnsgkgsnl/1r7/ppppppppp/9/9/9/PPPPPPPPP/1B5R1/LNSGKGSNL w - 1") }
    else if chars_eq_str(p, "HI") { Some("lnsgkgsnl/7b1/ppppppppp/9/9/9/PPPPPPPPP/1B5R1/LNSGKGSNL w - 1") }
    else if chars_eq_str(p, "HIKY") { Some("lnsgkgsn1/7b1/ppppppppp/9/9/9/PPPPPPPPP/1B5R1/LNSGKGSNL w - 1") }
    else if chars_eq_str(p, "2") { Some("lnsgkgsnl/9/ppppppppp/9/9/9/PPPPPPPPP/1B5R1/LNSGKGSNL w - 1") }
    else if chars_eq_str(p, "3") { Some("lnsgkgsn1/9/ppppppppp/9/9/9/PPPPPPPPP/1B5R1/LNSGKGSNL w - 1") }
    else if chars_eq_str(p, "4") { Some("1nsgkgsn1/9/ppppppppp/9/9/9/PPPPPPPPP/1B5R1/LNSGKGSNL w - 1") }
    else if chars_eq_str(p, "5") { Some("2sgkgsn1/9/ppppppppp/9/9/9/PPPPPPPPP/1B5R1/LNSGKGSNL w - 1") }
    else if chars_eq_str(p, "5_L") { Some("1nsgkgs2/9/ppppppppp/9/9/9/PPPPPPPPP/1B5R1/LNSGKGSNL w - 1") }
    else if chars_eq_str(p, "6") { Some("2sgkgs2/9/ppppppppp/9/9/9/PPPPPPPPP/1B5R1/LNSGKGSNL w - 1") }
    else if chars_eq_str(p, "8") { Some("3gkg3/9/ppppppppp/9/9/9/PPPPPPPPP/1B5R1/LNSGKGSNL w - 1") }
    else if chars_eq_str(p, "10") { Some("4k4/9/ppppppppp/9/9/9/PPPPPPPPP/1B5R1/LNSGKGSNL w - 1") }
    else { None }
}

/// A move's CSA text names the piece after the move by the code that the
/// CSA reader maps back to that piece's type: the text has seven
/// characters, `+` first exactly for Black, and its last two read (see
/// [`csa_piece_type_spec`]) as the type of the piece after the move.
pub proof fn lemma_move_csa_piece_reads_back(m: crate::types::moves::Move32)
    requires
        crate::types::moves::move32_csa_text(m) is Some,
    ensures
        ({
            let t = crate::types::moves::move32_csa_text(m)->Some_0;
            &&& t.len() == 7
            &&& (t[0] == '+') == (m.piece_after_spec().color_spec() == Color::Black)
            &&& csa_piece_type_spec(t.subrange(5, 7)) == Some(m.piece_after_spec().piece_type_spec().0)
        }),
{
    reveal_strlit("FU");
    reveal_strlit("KY");
    reveal_strlit("KE");
    reveal_strlit("GI");
    reveal_strlit("KI");
    reveal_strlit("KA");
    reveal_strlit("HI");
    reveal_strlit("OU");
    reveal_strlit("TO");
    reveal_strlit("NY");
    reveal_strlit("NK");
    reveal_strlit("NG");
    reveal_strlit("UM");
    reveal_strlit("RY");
    let pt = m.piece_after_spec().piece_type_spec();
    let name = crate::types::moves::csa_piece_text(pt)->Some_0;
    assert(1 <= pt.0 <= 14);
    lemma_csa_code_roundtrip(pt.0 as int);
    assert(name =~= csa_code_spec(pt.0 as int)->Some_0);
    let t = crate::types::moves::move32_csa_text(m)->Some_0;
    assert(t.subrange(5, 7) =~= name);
}

/// The SFEN token of a piece given by its CSA code is the token of the
/// piece type that code names (see [`piece_sfen_spec`]): a promoted code
/// gives `+` and the letter of its unpromoted type, and White's tokens are
/// lower-case; so the SFEN of a CSA position keeps every piece's type.
pub proof fn lemma_csa_token_matches_piece_type(pt: int, color: char)
    requires
        1 <= pt <= 14,
        color == '+' || color == '-',
    ensures
        crate::records::formats::common::csa_piece_token(csa_code_spec(pt)->Some_0, color) == piece_sfen_spec(
            PieceType(pt as i8),
            color == '+',
        ),
{
    lemma_csa_code_roundtrip(pt);
    let code = csa_code_spec(pt)->Some_0;
    assert(seq!['F', 'U'][0] == 'F');
    assert(seq!['K', 'Y'][0] == 'K' && seq!['K', 'Y'][1] == 'Y');
    assert(seq!['K', 'E'][0] == 'K' && seq!['K', 'E'][1] == 'E');
    assert(seq!['G', 'I'][0] == 'G' && seq!['G', 'I'][1] == 'I');
    assert(seq!['K', 'I'][0] == 'K' && seq!['K', 'I'][1] == 'I');
    assert(seq!['K', 'A'][0] == 'K' && seq!['K', 'A'][1] == 'A');
    assert(seq!['H', 'I'][0] == 'H');
    assert(seq!['O', 'U'][0] == 'O');
    assert(seq!['T', 'O'][0] == 'T');
    assert(seq!['N', 'Y'][0] == 'N' && seq!['N', 'Y'][1] == 'Y');
    assert(seq!['N', 'K'][0] == 'N' && seq!['N', 'K'][1] == 'K');
    assert(seq!['N', 'G'][0] == 'N' && seq!['N', 'G'][1] == 'G');
    assert(seq!['U', 'M'][0] == 'U');
    assert(seq!['R', 'Y'][0] == 'R');
}

} // verus!
