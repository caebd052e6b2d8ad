//! The header of a CSA record: the program comments, the `$` metadata
//! lines, the player names, the position lines and the side to move, up to
//! the first blank line or move line.
use vstd::prelude::*;
use vstd::utf8::encode_utf8;
use crate::records::formats::csa::{
    append_comment_text, apply_csa_metadata, comment_with, csa_header_applied, csa_header_fits, csa_header_in_range,
    parse_csa_program_comment_text, program_comment_spec,
};
use crate::records::formats::kif_header::{
    char_segments, leading_boms, lemma_leading_boms, lemma_split_len, segs_view, split_at_char,
};
use crate::records::metadata::{
    empty_metadata, with_standard, RecordMetadata, RecordMetadataKey, RecordMetadataView,
};
use crate::text::{
    chars_start_with, find_char, find_char_index, opt_text, starts_with, str_chars, string_from_chars, text_lines,
    trim_chars, trim_spec,
};

verus! {

/// What the header of a CSA record gives: the metadata, the initial
/// comment, the position lines (`P…`), the side-to-move mark, and the index
/// of the first line after the header.
pub struct CsaHeaderView {
    pub metadata: RecordMetadataView,
    pub comment: Option<Seq<char>>,
    pub positions: Seq<Seq<char>>,
    pub side: Option<char>,
    pub end: int,
}

/// A header before its first line.
pub open spec fn empty_csa_header() -> CsaHeaderView {
    CsaHeaderView {
        metadata: empty_metadata(),
        comment: None,
        positions: Seq::empty(),
        side: None,
        end: 0,
    }
}

/// The key and value of a `$KEY:value` line (trimmed, the `$` dropped);
/// none without a `:`.
pub open spec fn dollar_field(s: Seq<char>) -> Option<(Seq<char>, Seq<char>)> {
    let body = s.drop_first();
    match find_char(body, ':') {
        Some(k) => Some((trim_spec(body.take(k)), trim_spec(body.skip(k + 1)))),
        None => None,
    }
}

/// Whether a trimmed line starts with a side mark `+`, `-` or `%`.
pub open spec fn side_mark_line(s: Seq<char>) -> bool {
    s.len() > 0 && (s[0] == '+' || s[0] == '-' || s[0] == '%')
}

/// The header read from line `idx` on, from state `st`. A blank line ends
/// it after that line, the end of the lines at it. `'CSA encoding=` lines
/// are skipped; another `'` line adds its program comment (see
/// [`program_comment_spec`]); a `$KEY:value` line is read as metadata (see
/// [`csa_header_applied`]); `N+` and `N-` name the players; a line with a
/// side mark ends the header before it when it is at least seven bytes
/// long, and otherwise gives the side to move; a `P` line is a position
/// line; any other line is skipped.
pub open spec fn csa_header_from(lines: Seq<Seq<char>>, idx: int, st: CsaHeaderView) -> CsaHeaderView
    decreases lines.len() - idx,
{
    if idx < 0 || idx >= lines.len() {
        CsaHeaderView { end: lines.len() as int, ..st }
    } else {
        let s = trim_spec(lines[idx]);
        if s.len() == 0 {
            CsaHeaderView { end: idx + 1, ..st }
        } else if starts_with(s, "'CSA encoding="@) {
            csa_header_from(lines, idx + 1, st)
        } else if s[0] == '\'' {
            let c = match program_comment_spec(s) {
                Some(t) => t,
                None => Seq::empty(),
            };
            csa_header_from(lines, idx + 1, CsaHeaderView { comment: comment_with(st.comment, c), ..st })
        } else if s[0] == '$' {
            match dollar_field(s) {
                Some((k, v)) => csa_header_from(
                    lines,
                    idx + 1,
                    CsaHeaderView { metadata: csa_header_applied(st.metadata, k, v), ..st },
                ),
                None => csa_header_from(lines, idx + 1, st),
            }
        } else if starts_with(s, "N+"@) {
            csa_header_from(
                lines,
                idx + 1,
                CsaHeaderView {
                    metadata: with_standard(
                        st.metadata,
                        RecordMetadataKey::BlackPlayer.key_view(),
                        Some(trim_spec(s.skip(2))),
                    ),
                    ..st
                },
            )
        } else if starts_with(s, "N-"@) {
            csa_header_from(
                lines,
                idx + 1,
                CsaHeaderView {
                    metadata: with_standard(
                        st.metadata,
                        RecordMetadataKey::WhitePlayer.key_view(),
                        Some(trim_spec(s.skip(2))),
                    ),
                    ..st
                },
            )
        } else if side_mark_line(s) {
            if encode_utf8(s).len() >= 7 {
                CsaHeaderView { end: idx, ..st }
            } else {
                csa_header_from(lines, idx + 1, CsaHeaderView { side: Some(s[0]), ..st })
            }
        } else if s[0] == 'P' {
            csa_header_from(lines, idx + 1, CsaHeaderView { positions: st.positions.push(s), ..st })
        } else {
            csa_header_from(lines, idx + 1, st)
        }
    }
}

/// Whether each `$` line that the header reads is in range (see
/// [`csa_header_in_range`]).
pub open spec fn csa_header_lines_in_range(lines: Seq<Seq<char>>, idx: int) -> bool
    decreases lines.len() - idx,
{
    if idx < 0 || idx >= lines.len() {
        true
    } else {
        let s = trim_spec(lines[idx]);
        if s.len() == 0 {
            true
        } else if starts_with(s, "'CSA encoding="@) || s[0] == '\'' {
            csa_header_lines_in_range(lines, idx + 1)
        } else if s[0] == '$' {
            (dollar_field(s) matches Some((k, v)) ==> csa_header_in_range(k, v)) && csa_header_lines_in_range(
                lines,
                idx + 1,
            )
        } else if starts_with(s, "N+"@) || starts_with(s, "N-"@) {
            csa_header_lines_in_range(lines, idx + 1)
        } else if side_mark_line(s) && encode_utf8(s).len() >= 7 {
            true
        } else {
            csa_header_lines_in_range(lines, idx + 1)
        }
    }
}

/// What the header of a CSA record gives (see [`CsaHeaderView`]).
pub struct CsaHeader {
    pub metadata: RecordMetadata,
    pub comment: Option<String>,
    pub position_lines: Vec<String>,
    pub side_to_move_token: Option<char>,
    pub header_end: usize,
}

impl View for CsaHeader {
    type V = CsaHeaderView;

    open spec fn view(&self) -> CsaHeaderView {
        CsaHeaderView {
            metadata: self.metadata@,
            comment: opt_text(self.comment),
            positions: text_lines(self.position_lines@),
            side: self.side_to_move_token,
            end: self.header_end as int,
        }
    }
}

/// Reads the header of CSA lines (see [`csa_header_from`]).
pub fn parse_csa_header(lines: &[String]) -> (r: CsaHeader)
    requires
        csa_header_lines_in_range(text_lines(lines@), 0),
    ensures
        r@ == csa_header_from(text_lines(lines@), 0, empty_csa_header()),
{
    let ghost lv = text_lines(lines@);
    let n = lines.len();
    let mut builder = RecordMetadata::builder();
    let mut comment: Option<String> = None;
    let mut positions: Vec<String> = Vec::new();
    let mut side: Option<char> = None;
    let mut end: usize = n;
    let mut idx: usize = 0;
    let mut stopped = false;
    assert(text_lines(positions@) =~= Seq::<Seq<char>>::empty());
    while idx < n && !stopped
        invariant
            idx <= n,
            n == lv.len(),
            lv == text_lines(lines@),
            stopped ==> csa_header_from(lv, 0, empty_csa_header()) == (CsaHeaderView {
                metadata: builder@,
                comment: opt_text(comment),
                positions: text_lines(positions@),
                side,
                end: end as int,
            }),
            !stopped ==> end == n,
            !stopped ==> csa_header_lines_in_range(lv, idx as int),
            !stopped ==> csa_header_from(lv, 0, empty_csa_header()) == csa_header_from(
                lv,
                idx as int,
                CsaHeaderView {
                    metadata: builder@,
                    comment: opt_text(comment),
                    positions: text_lines(positions@),
                    side,
                    end: 0,
                },
            ),
        decreases n - idx + (if stopped { 0int } else { 1int }),
    {
        let v = str_chars(lines[idx].as_str());
        assert(v@ == lv[idx as int]);
        let s = trim_chars(v.as_slice());
        let ghost sv = s@;
        assert(sv == trim_spec(lv[idx as int]));
        if s.len() == 0 {
            end = idx + 1;
            stopped = true;
        } else if chars_start_with(s.as_slice(), "'CSA encoding=") {
            idx += 1;
        } else if s[0] == '\'' {
            let t = string_from_chars(s.as_slice());
            let c = match parse_csa_program_comment_text(t.as_str()) {
                Some(c) => c,
                None => String::new(),
            };
            append_comment_text(&mut comment, c.as_str());
            idx += 1;
        } else if s[0] == '$' {
            let body = vstd::slice::slice_subrange(s.as_slice(), 1, s.len());
            assert(body@ =~= sv.drop_first());
            match find_char_index(body, ':') {
                Some(k) => {
                    let bl = body.len();
                    let key_part = vstd::slice::slice_subrange(body, 0, k);
                    let value_part = vstd::slice::slice_subrange(body, k + 1, bl);
                    assert(key_part@ =~= body@.take(k as int));
                    assert(value_part@ =~= body@.skip(k + 1));
                    let key = trim_chars(key_part);
                    let value = trim_chars(value_part);
                    let ks = string_from_chars(key.as_slice());
                    let vs = string_from_chars(value.as_slice());
                    apply_csa_metadata(&mut builder, ks.as_str(), vs.as_str());
                },
                None => {},
            }
            idx += 1;
        } else if chars_start_with(s.as_slice(), "N+") || chars_start_with(s.as_slice(), "N-") {
            let black = chars_start_with(s.as_slice(), "N+");
            proof {
                reveal_strlit("N+");
                reveal_strlit("N-");
            }
            let sl = s.len();
            let name_part = vstd::slice::slice_subrange(s.as_slice(), 2, sl);
            assert(name_part@ =~= sv.skip(2));
            let name = trim_chars(name_part);
            let name_text = string_from_chars(name.as_slice());
            if black {
                builder.black_player(Some(name_text));
            } else {
                builder.white_player(Some(name_text));
            }
            idx += 1;
        } else if s[0] == '+' || s[0] == '-' || s[0] == '%' {
            let t = string_from_chars(s.as_slice());
            let bytes = t.as_str().as_bytes();
            if bytes.len() >= 7 {
                end = idx;
                stopped = true;
            } else {
                side = Some(s[0]);
                idx += 1;
            }
        } else if s[0] == 'P' {
            let ghost before = text_lines(positions@);
            positions.push(string_from_chars(s.as_slice()));
            assert(text_lines(positions@) =~= before.push(sv));
            idx += 1;
        } else {
            idx += 1;
        }
    }
    CsaHeader {
        metadata: builder.build(),
        comment,
        position_lines: positions,
        side_to_move_token: side,
        header_end: end,
    }
}

/// The number of `\r` at the end of `s`.
pub open spec fn trailing_crs(s: Seq<char>) -> nat
    decreases s.len(),
{
    if s.len() > 0 && s.last() == '\r' {
        1 + trailing_crs(s.drop_last())
    } else {
        0
    }
}

/// The lines of a text as `str::lines` gives them before the `\r` are
/// dropped: the pieces between the `\n`, without the empty piece after a
/// final `\n` (so an empty text has no line).
pub open spec fn raw_text_lines(text: Seq<char>) -> Seq<Seq<char>> {
    let parts = split_at_char(text, '\n');
    if parts.last().len() == 0 {
        parts.drop_last()
    } else {
        parts
    }
}

/// The non-empty pieces of a list.
pub open spec fn non_empty_pieces(parts: Seq<Seq<char>>) -> Seq<Seq<char>>
    decreases parts.len(),
{
    if parts.len() == 0 {
        Seq::empty()
    } else {
        non_empty_pieces(parts.drop_last()) + if parts.last().len() > 0 {
            seq![parts.last()]
        } else {
            Seq::empty()
        }
    }
}

/// The CSA lines that one text line gives: a comment (`'`), name (`N`) or
/// metadata (`$`) line whole, any other line split at `,` into its
/// non-empty pieces.
pub open spec fn csa_line_tokens(l: Seq<char>) -> Seq<Seq<char>> {
    if l.len() > 0 && (l[0] == '\'' || l[0] == 'N' || l[0] == '$') {
        seq![l]
    } else {
        non_empty_pieces(split_at_char(l, ','))
    }
}

/// The CSA lines of a list of text lines, in order.
pub open spec fn csa_tokens(lines: Seq<Seq<char>>) -> Seq<Seq<char>>
    decreases lines.len(),
{
    if lines.len() == 0 {
        Seq::empty()
    } else {
        csa_tokens(lines.drop_last()) + csa_line_tokens(lines.last())
    }
}

/// A text line without its trailing `\r`, and for the first line without
/// its leading byte-order marks.
pub open spec fn clean_csa_line(l: Seq<char>, first: bool) -> Seq<char> {
    let t = l.take(l.len() - trailing_crs(l));
    if first {
        t.skip(leading_boms(t) as int)
    } else {
        t
    }
}

/// The lines of a CSA text: its text lines (see [`raw_text_lines`]), each
/// cleaned (see [`clean_csa_line`]) and split into CSA lines (see
/// [`csa_line_tokens`]).
pub open spec fn csa_text_lines(text: Seq<char>) -> Seq<Seq<char>> {
    let ls = raw_text_lines(text);
    csa_tokens(Seq::new(ls.len(), |i: int| clean_csa_line(ls[i], i == 0)))
}

proof fn lemma_trailing_crs(s: Seq<char>, k: int)
    requires
        0 <= k <= s.len(),
        forall|j: int| s.len() - k <= j < s.len() ==> #[trigger] s[j] == '\r',
        k == s.len() || s[s.len() - k - 1] != '\r',
    ensures
        trailing_crs(s) == k,
    decreases k,
{
    if k > 0 {
        let d = s.drop_last();
        assert forall|j: int| d.len() - (k - 1) <= j < d.len() implies #[trigger] d[j] == '\r' by {
            assert(d[j] == s[j]);
        }
        if k < s.len() {
            assert(d[d.len() - (k - 1) - 1] == s[s.len() - k - 1]);
        }
        lemma_trailing_crs(d, k - 1);
    }
}

fn clean_line(v: &[char], first: bool) -> (r: Vec<char>)
    ensures
        r@ == clean_csa_line(v@, first),
{
    let n = v.len();
    let mut k: usize = 0;
    while k < n && v[n - 1 - k] == '\r'
        invariant
            k <= n,
            n == v@.len(),
            forall|j: int| n - k <= j < n ==> #[trigger] v@[j] == '\r',
        decreases n - k,
    {
        k += 1;
    }
    proof {
        lemma_trailing_crs(v@, k as int);
    }
    let t = vstd::slice::slice_subrange(v, 0, n - k);
    assert(t@ =~= v@.take(v@.len() - trailing_crs(v@)));
    if !first {
        return vstd::slice::slice_to_vec(t);
    }
    let tl = t.len();
    let mut b: usize = 0;
    while b < tl && t[b] == '\u{feff}'
        invariant
            b <= tl,
            tl == t@.len(),
            forall|j: int| 0 <= j < b ==> #[trigger] t@[j] == '\u{feff}',
        decreases tl - b,
    {
        b += 1;
    }
    proof {
        lemma_leading_boms(t@, b as int);
    }
    let h = vstd::slice::slice_subrange(t, b, tl);
    assert(h@ =~= t@.skip(b as int));
    vstd::slice::slice_to_vec(h)
}

fn push_line_tokens(out: &mut Vec<String>, l: &[char])
    ensures
        text_lines(final(out)@) == text_lines(old(out)@) + csa_line_tokens(l@),
{
    if l.len() > 0 && (l[0] == '\'' || l[0] == 'N' || l[0] == '$') {
        let ghost before = text_lines(out@);
        out.push(string_from_chars(l));
        assert(text_lines(out@) =~= before + csa_line_tokens(l@));
        return;
    }
    let parts = char_segments(l, ',');
    let ghost pv = segs_view(parts@);
    let ghost start = text_lines(out@);
    let mut i: usize = 0;
    assert(pv.take(0) =~= Seq::<Seq<char>>::empty());
    assert(text_lines(out@) =~= start + non_empty_pieces(pv.take(0)));
    while i < parts.len()
        invariant
            i <= parts@.len(),
            pv == segs_view(parts@),
            text_lines(out@) == start + non_empty_pieces(pv.take(i as int)),
        decreases parts.len() - i,
    {
        assert(pv.take(i + 1).drop_last() =~= pv.take(i as int));
        assert(pv[i as int] == parts@[i as int]@);
        if parts[i].len() > 0 {
            let ghost before = text_lines(out@);
            out.push(string_from_chars(parts[i].as_slice()));
            assert(text_lines(out@) =~= before.push(pv[i as int]));
        }
        assert(text_lines(out@) =~= start + non_empty_pieces(pv.take(i + 1)));
        i += 1;
    }
    assert(pv.take(pv.len() as int) =~= pv);
}

/// The lines of a CSA text (see [`csa_text_lines`]).
pub fn csa_lines(text: &str) -> (r: Vec<String>)
    ensures
        text_lines(r@) == csa_text_lines(text@),
{
    let v = str_chars(text);
    let parts = char_segments(v.as_slice(), '\n');
    let ghost pv = segs_view(parts@);
    proof {
        lemma_split_len(v@, '\n');
    }
    let last = parts.len() - 1;
    let n = if parts[last].len() == 0 { last } else { parts.len() };
    assert(pv[last as int] == parts@[last as int]@);
    let ghost ls = raw_text_lines(text@);
    assert(ls.len() == n);
    let ghost cl = Seq::new(ls.len(), |i: int| clean_csa_line(ls[i], i == 0));
    let mut out: Vec<String> = Vec::new();
    let mut i: usize = 0;
    assert(cl.take(0) =~= Seq::<Seq<char>>::empty());
    assert(text_lines(out@) =~= csa_tokens(cl.take(0)));
    while i < n
        invariant
            i <= n,
            n == ls.len(),
            n <= parts@.len(),
            pv == segs_view(parts@),
            forall|j: int| 0 <= j < n ==> #[trigger] ls[j] == pv[j],
            cl == Seq::new(ls.len(), |i: int| clean_csa_line(ls[i], i == 0)),
            text_lines(out@) == csa_tokens(cl.take(i as int)),
        decreases n - i,
    {
        assert(ls[i as int] == pv[i as int]);
        assert(pv[i as int] == parts@[i as int]@);
        let line = clean_line(parts[i].as_slice(), i == 0);
        assert(cl.take(i + 1).drop_last() =~= cl.take(i as int));
        assert(cl.take(i + 1).last() == line@);
        push_line_tokens(&mut out, line.as_slice());
        i += 1;
    }
    assert(cl.take(n as int) =~= cl);
    out
}

/// Whether the `$` lines of a CSA header can be read without overflow (see
/// [`csa_header_lines_in_range`]).
pub fn csa_header_lines_fit(lines: &[String]) -> (r: bool)
    ensures
        r == csa_header_lines_in_range(text_lines(lines@), 0),
{
    let ghost lv = text_lines(lines@);
    let n = lines.len();
    let mut idx: usize = 0;
    while idx < n
        invariant
            idx <= n,
            n == lv.len(),
            lv == text_lines(lines@),
            csa_header_lines_in_range(lv, 0) == csa_header_lines_in_range(lv, idx as int),
        decreases n - idx,
    {
        let v = str_chars(lines[idx].as_str());
        assert(v@ == lv[idx as int]);
        let s = trim_chars(v.as_slice());
        let ghost sv = s@;
        if s.len() == 0 {
            return true;
        } else if chars_start_with(s.as_slice(), "'CSA encoding=") || s[0] == '\'' {
            idx += 1;
        } else if s[0] == '$' {
            let body = vstd::slice::slice_subrange(s.as_slice(), 1, s.len());
            assert(body@ =~= sv.drop_first());
            match find_char_index(body, ':') {
                Some(k) => {
                    let bl = body.len();
                    let key_part = vstd::slice::slice_subrange(body, 0, k);
                    let value_part = vstd::slice::slice_subrange(body, k + 1, bl);
                    assert(key_part@ =~= body@.take(k as int));
                    assert(value_part@ =~= body@.skip(k + 1));
                    let key = trim_chars(key_part);
                    let value = trim_chars(value_part);
                    let ks = string_from_chars(key.as_slice());
                    let vs = string_from_chars(value.as_slice());
                    if !csa_header_fits(ks.as_str(), vs.as_str()) {
                        return false;
                    }
                },
                None => {},
            }
            idx += 1;
        } else if chars_start_with(s.as_slice(), "N+") || chars_start_with(s.as_slice(), "N-") {
            idx += 1;
        } else if s[0] == '+' || s[0] == '-' || s[0] == '%' {
            let t = string_from_chars(s.as_slice());
            let bytes = t.as_str().as_bytes();
            if bytes.len() >= 7 {
                return true;
            }
            idx += 1;
        } else {
            idx += 1;
        }
    }
    true
}

} // verus!
