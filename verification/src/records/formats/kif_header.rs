//! The header of a KIF or KI2 record: its position diagram (the board block
//! drawn between `|` bars and the hands written in kanji) and the SFEN they
//! give, the side to move, the comment lines and the metadata lines.
use vstd::prelude::*;
use crate::records::formats::common::{
    board_map_to_sfen, first_unknown_code, hand_counts_to_sfen, hand_sfen, rows_text, unknown_code_text, BoardMap,
    HandCounts,
};
use crate::records::formats::kif::KifError;
use crate::records::formats::csa::code_string;
use crate::records::formats::kif::{
    apply_metadata_line, kanji_to_int, kanji_to_int_spec, kif_header_applied, kif_header_in_range,
};
use crate::records::formats::kif_notation::{
    board_header_spec, is_board_header_line, ki2_move_line_spec, looks_like_ki2_move_line,
};
use crate::records::metadata::{empty_metadata, RecordMetadata, RecordMetadataView};
use crate::text::{
    chars_eq_str, chars_start_with, find_either_from, replace_all, replace_chars, find_either_index, is_digit, push_char, push_str, starts_with,
    str_chars, string_from_chars, text_lines, trim_chars, trim_spec,
};

verus! {

/// The CSA code of a piece drawn on a KIF board: `歩香桂銀金角飛` and the
/// kings `玉王`, the promoted pieces `と杏圭全馬` and the dragons `龍竜`.
pub open spec fn kif_board_piece(c: char) -> Option<Seq<char>> {
    if c == '歩' { Some(seq!['F', 'U']) }
    else if c == '香' { Some(seq!['K', 'Y']) }
    else if c == '桂' { Some(seq!['K', 'E']) }
    else if c == '銀' { Some(seq!['G', 'I']) }
    else if c == '金' { Some(seq!['K', 'I']) }
    else if c == '角' { Some(seq!['K', 'A']) }
    else if c == '飛' { Some(seq!['H', 'I']) }
    else if c == '玉' || c == '王' { Some(seq!['O', 'U']) }
    else if c == 'と' { Some(seq!['T', 'O']) }
    else if c == '杏' { Some(seq!['N', 'Y']) }
    else if c == '圭' { Some(seq!['N', 'K']) }
    else if c == '全' { Some(seq!['N', 'G']) }
    else if c == '馬' { Some(seq!['U', 'M']) }
    else if c == '龍' || c == '竜' { Some(seq!['R', 'Y']) }
    else { None }
}

/// The CSA code of a piece name of one character (see [`kif_board_piece`]).
pub open spec fn kif_board_code(t: Seq<char>) -> Option<Seq<char>> {
    if t.len() == 1 {
        kif_board_piece(t[0])
    } else {
        None
    }
}

/// The piece in a cell of a board row: the cell's text without surrounding
/// white space, White's when it starts with `v` or `^`, and a piece name;
/// none for an empty cell (`・`) or a text that names no piece.
pub open spec fn kif_cell(seg: Seq<char>) -> Option<(char, Seq<char>)> {
    let t = trim_spec(seg);
    if t.len() == 0 {
        None
    } else if t[0] == 'v' || t[0] == '^' {
        match kif_board_code(t.drop_first()) {
            Some(code) => Some(('-', code)),
            None => None,
        }
    } else {
        match kif_board_code(t) {
            Some(code) => Some(('+', code)),
            None => None,
        }
    }
}

/// The pieces of `s` between the characters `c`, as `str::split` gives
/// them.
pub open spec fn split_at_char(s: Seq<char>, c: char) -> Seq<Seq<char>>
    decreases s.len(),
{
    if s.len() == 0 {
        seq![Seq::empty()]
    } else {
        let rest = split_at_char(s.drop_last(), c);
        if s.last() == c {
            rest.push(Seq::empty())
        } else {
            rest.update(rest.len() - 1, rest.last().push(s.last()))
        }
    }
}

/// The pieces of `s` between the bars `|`.
pub open spec fn bar_split(s: Seq<char>) -> Seq<Seq<char>> {
    split_at_char(s, '|')
}

pub proof fn lemma_split_len(s: Seq<char>, c: char)
    ensures
        split_at_char(s, c).len() >= 1,
    decreases s.len(),
{
    if s.len() > 0 {
        lemma_split_len(s.drop_last(), c);
    }
}

/// The piece that a board row line shows on file `f` (1 to 9): the cell
/// after the `(10 - f)`-th bar, when the line has one.
pub open spec fn row_cell(line: Seq<char>, f: int) -> Option<(char, Seq<char>)> {
    let segs = bar_split(line);
    if 10 - f < segs.len() {
        kif_cell(segs[10 - f])
    } else {
        None
    }
}

/// Whether a line is a border line of a board diagram (it starts with `+`).
pub open spec fn border_line(s: Seq<char>) -> bool {
    s.len() > 0 && s[0] == '+'
}

/// The index of the first row line of the board block whose header line is
/// at `start`: the line after the header, or after the border line that
/// follows it.
pub open spec fn block_first_row(lines: Seq<Seq<char>>, start: int) -> int {
    if start + 1 < lines.len() && border_line(lines[start + 1]) {
        start + 2
    } else {
        start + 1
    }
}

/// The number of row lines of the block: nine, or as many lines as are left.
pub open spec fn block_rows(lines: Seq<Seq<char>>, start: int) -> int {
    let first = block_first_row(lines, start);
    if lines.len() - first >= 9 {
        9
    } else if lines.len() - first > 0 {
        lines.len() - first
    } else {
        0
    }
}

/// The board of the block: rank `r` is the `r`-th row line.
pub open spec fn block_board(lines: Seq<Seq<char>>, start: int) -> Seq<Option<(char, Seq<char>)>> {
    Seq::new(
        81,
        |i: int|
            if i % 9 + 1 <= block_rows(lines, start) {
                row_cell(lines[block_first_row(lines, start) + i % 9], i / 9 + 1)
            } else {
                None
            },
    )
}

/// The index of the line after the block: after its rows, and after the
/// border line that follows them.
pub open spec fn block_end(lines: Seq<Seq<char>>, start: int) -> int {
    let e = block_first_row(lines, start) + block_rows(lines, start);
    if e < lines.len() && border_line(lines[e]) {
        e + 1
    } else {
        e
    }
}

/// The views of a list of character lists.
pub open spec fn segs_view(v: Seq<Vec<char>>) -> Seq<Seq<char>> {
    v.map_values(|x: Vec<char>| x@)
}

/// The pieces of `v` between the characters `c` (see [`split_at_char`]).
pub(crate) fn char_segments(v: &[char], c: char) -> (r: Vec<Vec<char>>)
    ensures
        segs_view(r@) == split_at_char(v@, c),
{
    let n = v.len();
    let mut done: Vec<Vec<char>> = Vec::new();
    let mut cur: Vec<char> = Vec::new();
    let mut i: usize = 0;
    assert(v@.take(0) =~= Seq::<char>::empty());
    assert(segs_view(done@).push(cur@) =~= split_at_char(v@.take(0), c));
    while i < n
        invariant
            i <= n,
            n == v@.len(),
            segs_view(done@).push(cur@) == split_at_char(v@.take(i as int), c),
        decreases n - i,
    {
        assert(v@.take(i + 1).drop_last() =~= v@.take(i as int));
        assert(v@.take(i + 1).last() == v@[i as int]);
        let ghost before = segs_view(done@);
        if v[i] == c {
            let mut seg: Vec<char> = Vec::new();
            std::mem::swap(&mut seg, &mut cur);
            done.push(seg);
            assert(segs_view(done@) =~= before.push(seg@));
            assert(segs_view(done@).push(cur@) =~= split_at_char(v@.take(i + 1), c));
        } else {
            let ghost old_cur = cur@;
            cur.push(v[i]);
            assert(segs_view(done@).push(cur@) =~= before.push(old_cur).update(
                before.push(old_cur).len() - 1,
                before.push(old_cur).last().push(v@[i as int]),
            ));
        }
        i += 1;
    }
    assert(v@.take(n as int) =~= v@);
    let ghost before = segs_view(done@);
    done.push(cur);
    assert(segs_view(done@) =~= before.push(done@.last()@));
    done
}

fn kif_board_piece_of(c: char) -> (r: Option<(char, char)>)
    ensures
        match kif_board_piece(c) {
            Some(code) => r matches Some((a, b)) && code == seq![a, b],
            None => r is None,
        },
{
    if c == '歩' { Some(('F', 'U')) }
    else if c == '香' { Some(('K', 'Y')) }
    else if c == '桂' { Some(('K', 'E')) }
    else if c == '銀' { Some(('G', 'I')) }
    else if c == '金' { Some(('K', 'I')) }
    else if c == '角' { Some(('K', 'A')) }
    else if c == '飛' { Some(('H', 'I')) }
    else if c == '玉' || c == '王' { Some(('O', 'U')) }
    else if c == 'と' { Some(('T', 'O')) }
    else if c == '杏' { Some(('N', 'Y')) }
    else if c == '圭' { Some(('N', 'K')) }
    else if c == '全' { Some(('N', 'G')) }
    else if c == '馬' { Some(('U', 'M')) }
    else if c == '龍' || c == '竜' { Some(('R', 'Y')) }
    else { None }
}

/// The piece in a cell of a board row (see [`kif_cell`]).
pub fn kif_cell_piece(seg: &[char]) -> (r: Option<(char, String)>)
    ensures
        match kif_cell(seg@) {
            Some((c, code)) => r matches Some((rc, s)) && rc == c && s@ == code,
            None => r is None,
        },
{
    let t = trim_chars(seg);
    if t.len() == 0 {
        return None;
    }
    let white = t[0] == 'v' || t[0] == '^';
    let body: usize = if white { 1 } else { 0 };
    proof {
        if white {
            let d = t@.drop_first();
            if d.len() == 1 {
                assert(d[0] == t@[1]);
            }
        }
    }
    if t.len() != body + 1 {
        return None;
    }
    match kif_board_piece_of(t[body]) {
        Some((a, b)) => Some((if white { '-' } else { '+' }, code_string(a, b))),
        None => None,
    }
}

/// Reads the board block of a KIF diagram whose header line (`９ ８ ７ …`)
/// is at `start_index` (see [`block_board`]), and gives the index of the
/// line after it (see [`block_end`]). A block never fails to read: a cell
/// that names no piece is left empty.
pub fn parse_board_block(lines: &[String], start_index: usize) -> (r: Result<(usize, BoardMap), KifError>)
    requires
        start_index < usize::MAX,
    ensures
        r matches Ok((next, b)) && next == block_end(text_lines(lines@), start_index as int) && b@ == block_board(
            text_lines(lines@),
            start_index as int,
        ),
{
    let ghost lv = text_lines(lines@);
    let ghost start = start_index as int;
    let n = lines.len();
    let mut idx = start_index + 1;
    if idx < n {
        let v = str_chars(lines[idx].as_str());
        assert(v@ == lv[idx as int]);
        if v.len() > 0 && v[0] == '+' {
            idx += 1;
        }
    }
    let first = idx;
    assert(first == block_first_row(lv, start));
    let mut board = BoardMap::new();
    let mut row: usize = 0;
    assert(board@ =~= Seq::new(
        81,
        |i: int|
            if i % 9 + 1 <= row {
                row_cell(lv[first + i % 9], i / 9 + 1)
            } else {
                None
            },
    ));
    while row < 9 && idx < n
        invariant
            row <= 9,
            idx == first + row,
            row == 0 || idx <= n,
            first == block_first_row(lv, start),
            n == lv.len(),
            lv == text_lines(lines@),
            board@ == Seq::new(
                81,
                |i: int|
                    if i % 9 + 1 <= row {
                        row_cell(lv[first + i % 9], i / 9 + 1)
                    } else {
                        None
                    },
            ),
        decreases 9 - row,
    {
        let v = str_chars(lines[idx].as_str());
        assert(v@ == lv[idx as int]);
        let segs = char_segments(v.as_slice(), '|');
        let ghost sv = segs_view(segs@);
        let m = if segs.len() < 10 { segs.len() } else { 10 };
        let mut j: usize = 1;
        proof {
            lemma_split_len(v@, '|');
        }
        assert(board@ =~= Seq::new(
            81,
            |i: int|
                if i % 9 + 1 <= row {
                    row_cell(lv[first + i % 9], i / 9 + 1)
                } else if i % 9 == row && 10 - (i / 9 + 1) < j {
                    row_cell(lv[first + row], i / 9 + 1)
                } else {
                    None
                },
        ));
        while j < m
            invariant
                1 <= j <= m,
                m <= 10,
                m <= segs@.len(),
                m == 10 || m == segs@.len(),
                row < 9,
                idx == first + row,
                idx < n,
                n == lv.len(),
                sv == segs_view(segs@),
                sv == bar_split(lv[first + row]),
                board@ == Seq::new(
                    81,
                    |i: int|
                        if i % 9 + 1 <= row {
                            row_cell(lv[first + i % 9], i / 9 + 1)
                        } else if i % 9 == row && 10 - (i / 9 + 1) < j {
                            row_cell(lv[first + row], i / 9 + 1)
                        } else {
                            None
                        },
                ),
            decreases m - j,
        {
            assert(sv[j as int] == segs@[j as int]@);
            let cell = kif_cell_piece(segs[j].as_slice());
            let ghost before = board@;
            match cell {
                Some((c, code)) => {
                    board.insert((10 - j) as u8, (row + 1) as u8, c, code);
                },
                None => {},
            }
            assert(board@ =~= Seq::new(
                81,
                |i: int|
                    if i % 9 + 1 <= row {
                        row_cell(lv[first + i % 9], i / 9 + 1)
                    } else if i % 9 == row && 10 - (i / 9 + 1) < j + 1 {
                        row_cell(lv[first + row], i / 9 + 1)
                    } else {
                        None
                    },
            ));
            j += 1;
        }
        assert(board@ =~= Seq::new(
            81,
            |i: int|
                if i % 9 + 1 <= row + 1 {
                    row_cell(lv[first + i % 9], i / 9 + 1)
                } else {
                    None
                },
        ));
        row += 1;
        idx += 1;
    }
    assert(row == block_rows(lv, start));
    assert(board@ =~= block_board(lv, start));
    if idx < n {
        let v = str_chars(lines[idx].as_str());
        assert(v@ == lv[idx as int]);
        if v.len() > 0 && v[0] == '+' {
            idx += 1;
        }
    }
    Ok((idx, board))
}

/// The index of a piece of a hand written in kanji, in the CSA hand order:
/// `歩香桂銀金角飛`, then the kings `玉王`.
pub open spec fn kif_hand_piece(c: char) -> Option<int> {
    if c == '歩' { Some(0) }
    else if c == '香' { Some(1) }
    else if c == '桂' { Some(2) }
    else if c == '銀' { Some(3) }
    else if c == '金' { Some(4) }
    else if c == '角' { Some(5) }
    else if c == '飛' { Some(6) }
    else if c == '玉' || c == '王' { Some(7) }
    else { None }
}

/// Whether `c` is a kanji numeral: `一` to `九`, `十`, `〇` or `零`.
pub open spec fn is_kanji_numeral(c: char) -> bool {
    c == '一' || c == '二' || c == '三' || c == '四' || c == '五' || c == '六' || c == '七' || c == '八' || c == '九'
        || c == '十' || c == '〇' || c == '零'
}

/// The number of kanji numerals in `c` from index `i` on, up to the first
/// other character.
pub open spec fn numeral_run(c: Seq<char>, i: int) -> nat
    decreases c.len() - i,
{
    if 0 <= i < c.len() && is_kanji_numeral(c[i]) {
        1 + numeral_run(c, i + 1)
    } else {
        0
    }
}

pub proof fn lemma_numeral_run_bound(c: Seq<char>, i: int)
    requires
        0 <= i <= c.len(),
    ensures
        i + numeral_run(c, i) <= c.len(),
    decreases c.len() - i,
{
    if i < c.len() {
        lemma_numeral_run_bound(c, i + 1);
    }
}

proof fn lemma_numeral_run(c: Seq<char>, i: int, j: int)
    requires
        0 <= i <= j <= c.len(),
        forall|t: int| i <= t < j ==> is_kanji_numeral(#[trigger] c[t]),
        j == c.len() || !is_kanji_numeral(c[j]),
    ensures
        numeral_run(c, i) == j - i,
    decreases j - i,
{
    if i < j {
        lemma_numeral_run(c, i + 1, j);
    }
}

/// The counts of a hand text read from index `i` on, by [`kif_hand_piece`]
/// index: each piece name adds the value of the kanji numerals right after
/// it (see [`kanji_to_int_spec`]: one when there are none); any other
/// character is skipped.
pub open spec fn hand_scan(c: Seq<char>, i: int) -> Seq<int>
    decreases c.len() - i,
{
    if i < 0 || i >= c.len() {
        Seq::new(14, |k: int| 0int)
    } else {
        match kif_hand_piece(c[i]) {
            None => hand_scan(c, i + 1),
            Some(k) => {
                let m = numeral_run(c, i + 1);
                proof {
                    lemma_numeral_run_bound(c, i + 1);
                }
                let rest = hand_scan(c, i + 1 + m);
                rest.update(k, rest[k] + kanji_to_int_spec(c.subrange(i + 1, i + 1 + m)) as int)
            },
        }
    }
}

proof fn lemma_hand_scan_shape(c: Seq<char>, i: int)
    ensures
        hand_scan(c, i).len() == 14,
        forall|k: int| 0 <= k < 14 ==> #[trigger] hand_scan(c, i)[k] >= 0,
    decreases c.len() - i,
{
    if 0 <= i < c.len() {
        match kif_hand_piece(c[i]) {
            None => lemma_hand_scan_shape(c, i + 1),
            Some(k) => {
                lemma_numeral_run_bound(c, i + 1);
                lemma_hand_scan_shape(c, i + 1 + numeral_run(c, i + 1));
            },
        }
    }
}

/// A hand text without its spaces, half- and full-width.
pub open spec fn hand_text_clean(s: Seq<char>) -> Seq<char>
    decreases s.len(),
{
    if s.len() == 0 {
        Seq::empty()
    } else if s.last() == ' ' || s.last() == '　' {
        hand_text_clean(s.drop_last())
    } else {
        hand_text_clean(s.drop_last()).push(s.last())
    }
}

/// The counts of a hand written in kanji, such as `飛　角二　歩十八` (see
/// [`hand_scan`]): fourteen counts by CSA code index, of which only the
/// first eight can be other than zero. `なし` names no piece.
pub open spec fn hand_pieces_spec(s: Seq<char>) -> Seq<int> {
    hand_scan(hand_text_clean(s), 0)
}

/// Whether each count of a hand text fits in a byte.
pub open spec fn hand_pieces_in_range(s: Seq<char>) -> bool {
    forall|k: int| 0 <= k < 14 ==> #[trigger] hand_pieces_spec(s)[k] <= 255
}

fn kif_hand_piece_of(c: char) -> (r: Option<usize>)
    ensures
        match kif_hand_piece(c) {
            Some(k) => r == Some(k as usize),
            None => r is None,
        },
{
    if c == '歩' { Some(0) }
    else if c == '香' { Some(1) }
    else if c == '桂' { Some(2) }
    else if c == '銀' { Some(3) }
    else if c == '金' { Some(4) }
    else if c == '角' { Some(5) }
    else if c == '飛' { Some(6) }
    else if c == '玉' || c == '王' { Some(7) }
    else { None }
}

fn kanji_numeral(c: char) -> (r: bool)
    ensures
        r == is_kanji_numeral(c),
{
    c == '一' || c == '二' || c == '三' || c == '四' || c == '五' || c == '六' || c == '七' || c == '八' || c == '九'
        || c == '十' || c == '〇' || c == '零'
}

fn clean_hand_text(v: &[char]) -> (r: Vec<char>)
    ensures
        r@ == hand_text_clean(v@),
{
    let n = v.len();
    let mut out: Vec<char> = Vec::new();
    let mut i: usize = 0;
    while i < n
        invariant
            i <= n,
            n == v@.len(),
            out@ == hand_text_clean(v@.take(i as int)),
        decreases n - i,
    {
        assert(v@.take(i + 1).drop_last() =~= v@.take(i as int));
        if v[i] != ' ' && v[i] != '　' {
            out.push(v[i]);
        }
        i += 1;
    }
    assert(v@.take(n as int) =~= v@);
    out
}

/// The counts of a hand written in kanji (see [`hand_pieces_spec`]).
pub fn parse_hand_pieces(text: &str) -> (r: Vec<u8>)
    requires
        hand_pieces_in_range(text@),
    ensures
        r@.len() == 14,
        forall|k: int| 0 <= k < 14 ==> r@[k] as int == #[trigger] hand_pieces_spec(text@)[k],
{
    let v = str_chars(text);
    let c = clean_hand_text(v.as_slice());
    let ghost cs = c@;
    let n = c.len();
    let mut counts: Vec<u8> = Vec::new();
    while counts.len() < 14
        invariant
            counts@.len() <= 14,
            forall|k: int| 0 <= k < counts@.len() ==> counts@[k] == 0,
        decreases 14 - counts@.len(),
    {
        counts.push(0);
    }
    proof {
        lemma_hand_scan_shape(cs, 0);
        assert forall|k: int| 0 <= k < 14 implies #[trigger] hand_scan(cs, 0)[k] <= 255 by {
            assert(hand_pieces_spec(text@)[k] <= 255);
        }
    }
    let mut i: usize = 0;
    while i < n
        invariant
            i <= n,
            n == cs.len(),
            cs == c@,
            cs == hand_text_clean(text@),
            counts@.len() == 14,
            hand_scan(cs, 0).len() == 14,
            forall|k: int| 0 <= k < 14 ==> counts@[k] + hand_scan(cs, i as int)[k] == #[trigger] hand_scan(cs, 0)[k],
            forall|k: int| 0 <= k < 14 ==> #[trigger] hand_scan(cs, 0)[k] <= 255,
        decreases n - i,
    {
        match kif_hand_piece_of(c[i]) {
            None => {
                i += 1;
            },
            Some(k) => {
                let mut j: usize = i + 1;
                while j < n && kanji_numeral(c[j])
                    invariant
                        i < j <= n,
                        n == cs.len(),
                        cs == c@,
                        forall|t: int| i + 1 <= t < j ==> is_kanji_numeral(#[trigger] cs[t]),
                    decreases n - j,
                {
                    j += 1;
                }
                proof {
                    lemma_numeral_run(cs, i + 1, j as int);
                    lemma_hand_scan_shape(cs, j as int);
                }
                let digits = vstd::slice::slice_subrange(c.as_slice(), i + 1, j);
                let number = string_from_chars(digits);
                assert(number@ == cs.subrange(i + 1, j as int));
                let count = kanji_to_int(number.as_str());
                let ghost rest = hand_scan(cs, j as int);
                assert(hand_scan(cs, i as int) == rest.update(k as int, rest[k as int] + count as int));
                let before = counts[k];
                assert(hand_scan(cs, 0)[k as int] <= 255);
                assert(counts@[k as int] + rest[k as int] + count <= 255);
                counts.set(k, before + count);
                i = j;
            },
        }
    }
    counts
}

/// The SFEN of a KIF diagram: none for an empty board (the record then
/// starts from its handicap or from the standard position); for a piece
/// without an SFEN token, the text naming its code; else the board, `w`
/// when `-` is to move and `b` otherwise, the hands and move number 1.
pub open spec fn diagram_sfen(b: Seq<Option<(char, Seq<char>)>>, h: Seq<u8>, turn: Option<char>) -> Option<
    Result<Seq<char>, Seq<char>>,
> {
    if forall|i: int| 0 <= i < 81 ==> #[trigger] b[i] is None {
        None
    } else {
        match first_unknown_code(b, 0) {
            Some(code) => Some(Err(unknown_code_text(code))),
            None => Some(
                Ok(
                    rows_text(b, 1) + seq![' '] + (if turn == Some('-') {
                        seq!['w']
                    } else {
                        seq!['b']
                    }) + seq![' '] + hand_sfen(h) + seq![' ', '1'],
                ),
            ),
        }
    }
}

/// The SFEN of a KIF diagram (see [`diagram_sfen`]); an unknown code is an
/// invalid line.
pub fn kif_diagram_sfen(board: &BoardMap, hands: &HandCounts, initial_turn: Option<char>) -> (r: Option<
    Result<String, KifError>,
>)
    ensures
        match diagram_sfen(board@, hands@, initial_turn) {
            None => r is None,
            Some(Ok(t)) => r matches Some(Ok(s)) && s@ == t,
            Some(Err(t)) => r matches Some(Err(KifError::InvalidLine(s))) && s@ == t,
        },
{
    if board.is_empty() {
        return None;
    }
    let board_sfen = match board_map_to_sfen(board) {
        Ok(t) => t,
        Err(msg) => return Some(Err(KifError::InvalidLine(msg))),
    };
    let hands_sfen = match hand_counts_to_sfen(hands) {
        Ok(t) => t,
        Err(msg) => return Some(Err(KifError::InvalidLine(msg))),
    };
    let mut out = board_sfen;
    push_char(&mut out, ' ');
    push_char(&mut out, if initial_turn == Some('-') { 'w' } else { 'b' });
    push_char(&mut out, ' ');
    push_str(&mut out, hands_sfen.as_str());
    push_char(&mut out, ' ');
    push_char(&mut out, '1');
    assert(out@ =~= diagram_sfen(board@, hands@, initial_turn)->Some_0->Ok_0);
    Some(Ok(out))
}

/// What the header of a KIF or KI2 record gives: the metadata, the board
/// and hands of its diagram, the side to move, the comment lines, and the
/// index of the first line after it.
pub struct KifHeaderView {
    pub metadata: RecordMetadataView,
    pub board: Seq<Option<(char, Seq<char>)>>,
    pub hands: Seq<u8>,
    pub turn: Option<char>,
    pub comments: Seq<Seq<char>>,
    pub next: int,
}

/// A header before its first line: no metadata, an empty board, empty
/// hands, no side to move and no comment.
pub open spec fn empty_header() -> KifHeaderView {
    KifHeaderView {
        metadata: empty_metadata(),
        board: Seq::new(81, |i: int| None::<(char, Seq<char>)>),
        hands: Seq::new(28, |i: int| 0u8),
        turn: None,
        comments: Seq::empty(),
        next: 0,
    }
}

/// Whether a trimmed line ends the header: a variation line (`変化：`), the
/// summary (`まで`), and for KIF the move table heading (`手数`) or a line
/// starting with an ASCII digit, for KI2 a line that looks like moves.
pub open spec fn header_stop(s: Seq<char>, ki2: bool) -> bool {
    starts_with(s, "変化："@) || starts_with(s, "まで"@) || if ki2 {
        ki2_move_line_spec(s)
    } else {
        starts_with(s, "手数"@) || (s.len() > 0 && is_digit(s[0]))
    }
}

/// The number of `*` at the start of `s`.
pub open spec fn leading_stars(s: Seq<char>) -> nat
    decreases s.len(),
{
    if s.len() > 0 && s[0] == '*' {
        1 + leading_stars(s.drop_first())
    } else {
        0
    }
}

/// The second field of a line split at `：` and `:`; none when the line has
/// neither.
pub open spec fn second_field(s: Seq<char>) -> Option<Seq<char>> {
    match find_either_from(s, '：', ':', 0) {
        None => None,
        Some(k) => {
            let rest = s.skip(k + 1);
            match find_either_from(rest, '：', ':', 0) {
                None => Some(rest),
                Some(j) => Some(rest.take(j)),
            }
        },
    }
}

/// Whether a trimmed line gives Black's hand (`先手の持駒` or `下手の持駒`).
pub open spec fn black_hand_line(s: Seq<char>) -> bool {
    starts_with(s, "先手の持駒"@) || starts_with(s, "下手の持駒"@)
}

/// Whether a trimmed line gives White's hand (`後手の持駒` or `上手の持駒`).
pub open spec fn white_hand_line(s: Seq<char>) -> bool {
    starts_with(s, "後手の持駒"@) || starts_with(s, "上手の持駒"@)
}

/// The state after a hand line: the side's counts become those of the
/// line's second field, when it has one.
pub open spec fn with_hand_line(st: KifHeaderView, white: bool, s: Seq<char>) -> KifHeaderView {
    match second_field(s) {
        Some(v) => KifHeaderView {
            hands: Seq::new(
                28,
                |i: int|
                    if (i >= 14) == white {
                        hand_pieces_spec(v)[i % 14] as u8
                    } else {
                        st.hands[i]
                    },
            ),
            ..st
        },
        None => st,
    }
}

/// The header read from line `idx` on, from state `st`. Blank lines are
/// skipped; a stop line (see [`header_stop`]) or the end of the text ends
/// the header; a line starting with `*` adds a comment (without the stars
/// and surrounding white space, when that is not empty); `先手番` and
/// `後手番` set the side to move; a hand line sets a hand; a board header
/// line reads a board block (see [`block_board`]) in place of the board;
/// any other line is read as metadata (see [`kif_header_applied`]).
pub open spec fn header_from(lines: Seq<Seq<char>>, idx: int, st: KifHeaderView, ki2: bool) -> KifHeaderView
    decreases lines.len() - idx,
{
    if idx < 0 || idx >= lines.len() {
        KifHeaderView { next: idx, ..st }
    } else {
        let s = trim_spec(lines[idx]);
        if s.len() == 0 {
            header_from(lines, idx + 1, st, ki2)
        } else if header_stop(s, ki2) {
            KifHeaderView { next: idx, ..st }
        } else if s[0] == '*' {
            let c = trim_spec(s.skip(leading_stars(s) as int));
            header_from(
                lines,
                idx + 1,
                if c.len() > 0 {
                    KifHeaderView { comments: st.comments.push(c), ..st }
                } else {
                    st
                },
                ki2,
            )
        } else if s == "先手番"@ {
            header_from(lines, idx + 1, KifHeaderView { turn: Some('+'), ..st }, ki2)
        } else if s == "後手番"@ {
            header_from(lines, idx + 1, KifHeaderView { turn: Some('-'), ..st }, ki2)
        } else if black_hand_line(s) {
            header_from(lines, idx + 1, with_hand_line(st, false, s), ki2)
        } else if white_hand_line(s) {
            header_from(lines, idx + 1, with_hand_line(st, true, s), ki2)
        } else if board_header_spec(lines[idx]) {
            header_from(lines, block_end(lines, idx), KifHeaderView { board: block_board(lines, idx), ..st }, ki2)
        } else {
            header_from(lines, idx + 1, KifHeaderView { metadata: kif_header_applied(st.metadata, s), ..st }, ki2)
        }
    }
}

/// Whether the header read from line `idx` on stays in range: each hand
/// it reads has counts that fit in a byte, and each metadata line it reads
/// is in range (see [`kif_header_in_range`]).
pub open spec fn header_in_range(lines: Seq<Seq<char>>, idx: int, ki2: bool) -> bool
    decreases lines.len() - idx,
{
    if idx < 0 || idx >= lines.len() {
        true
    } else {
        let s = trim_spec(lines[idx]);
        if s.len() == 0 {
            header_in_range(lines, idx + 1, ki2)
        } else if header_stop(s, ki2) {
            true
        } else if s[0] == '*' || s == "先手番"@ || s == "後手番"@ {
            header_in_range(lines, idx + 1, ki2)
        } else if black_hand_line(s) || white_hand_line(s) {
            (second_field(s) matches Some(v) ==> hand_pieces_in_range(v)) && header_in_range(lines, idx + 1, ki2)
        } else if board_header_spec(lines[idx]) {
            header_in_range(lines, block_end(lines, idx), ki2)
        } else {
            kif_header_in_range(s) && header_in_range(lines, idx + 1, ki2)
        }
    }
}

/// What the header of a KIF or KI2 record gives (see [`KifHeaderView`]).
pub struct KifHeader {
    pub metadata: RecordMetadata,
    pub board: BoardMap,
    pub hands: HandCounts,
    pub initial_turn: Option<char>,
    pub comments: Vec<String>,
    pub next: usize,
}

impl View for KifHeader {
    type V = KifHeaderView;

    open spec fn view(&self) -> KifHeaderView {
        KifHeaderView {
            metadata: self.metadata@,
            board: self.board@,
            hands: self.hands@,
            turn: self.initial_turn,
            comments: text_lines(self.comments@),
            next: self.next as int,
        }
    }
}

fn second_field_text(s: &[char]) -> (r: Option<String>)
    ensures
        match second_field(s@) {
            Some(t) => r matches Some(x) && x@ == t,
            None => r is None,
        },
{
    match find_either_index(s, '：', ':') {
        None => None,
        Some(k) => {
            let n = s.len();
            assert(k < n);
            let rest = vstd::slice::slice_subrange(s, k + 1, n);
            assert(rest@ =~= s@.skip(k + 1));
            match find_either_index(rest, '：', ':') {
                None => Some(string_from_chars(rest)),
                Some(j) => {
                    let part = vstd::slice::slice_subrange(rest, 0, j);
                    assert(part@ =~= rest@.take(j as int));
                    Some(string_from_chars(part))
                },
            }
        },
    }
}

proof fn lemma_leading_stars(s: Seq<char>, i: int)
    requires
        0 <= i <= s.len(),
        forall|j: int| 0 <= j < i ==> #[trigger] s[j] == '*',
        i == s.len() || s[i] != '*',
    ensures
        leading_stars(s) == i,
    decreases i,
{
    if i > 0 {
        assert forall|j: int| 0 <= j < i - 1 implies #[trigger] s.drop_first()[j] == '*' by {
            assert(s.drop_first()[j] == s[j + 1]);
        }
        if i < s.len() {
            assert(s.drop_first()[i - 1] == s[i]);
        }
        lemma_leading_stars(s.drop_first(), i - 1);
    }
}

fn comment_text(s: &[char]) -> (r: Vec<char>)
    ensures
        r@ == trim_spec(s@.skip(leading_stars(s@) as int)),
{
    let mut k: usize = 0;
    while k < s.len() && s[k] == '*'
        invariant
            k <= s@.len(),
            forall|j: int| 0 <= j < k ==> #[trigger] s@[j] == '*',
        decreases s.len() - k,
    {
        k += 1;
    }
    proof {
        lemma_leading_stars(s@, k as int);
    }
    let rest = vstd::slice::slice_subrange(s, k, s.len());
    assert(rest@ =~= s@.skip(k as int));
    trim_chars(rest)
}

fn header_stops(s: &[char], ki2: bool) -> (r: bool)
    ensures
        r == header_stop(s@, ki2),
{
    if chars_start_with(s, "変化：") || chars_start_with(s, "まで") {
        return true;
    }
    if ki2 {
        let t = string_from_chars(s);
        looks_like_ki2_move_line(t.as_str())
    } else {
        chars_start_with(s, "手数") || (s.len() > 0 && '0' <= s[0] && s[0] <= '9')
    }
}

/// Reads the header of a KIF record, or of a KI2 record when `ki2` holds
/// (see [`header_from`]).
pub fn parse_record_header(lines: &[String], ki2: bool) -> (r: KifHeader)
    requires
        header_in_range(text_lines(lines@), 0, ki2),
    ensures
        r@ == header_from(text_lines(lines@), 0, empty_header(), ki2),
{
    let ghost lv = text_lines(lines@);
    let n = lines.len();
    let mut builder = RecordMetadata::builder();
    let mut board = BoardMap::new();
    let mut hands = HandCounts::new();
    let mut turn: Option<char> = None;
    let mut comments: Vec<String> = Vec::new();
    let mut idx: usize = 0;
    let mut stopped = false;
    assert(text_lines(comments@) =~= Seq::<Seq<char>>::empty());
    while idx < n && !stopped
        invariant
            idx <= n,
            n == lv.len(),
            lv == text_lines(lines@),
            stopped ==> idx < n && header_stop(trim_spec(lv[idx as int]), ki2) && trim_spec(lv[idx as int]).len() > 0,
            header_in_range(lv, idx as int, ki2),
            hands@.len() == 28,
            header_from(lv, 0, empty_header(), ki2) == header_from(
                lv,
                idx as int,
                KifHeaderView {
                    metadata: builder@,
                    board: board@,
                    hands: hands@,
                    turn,
                    comments: text_lines(comments@),
                    next: 0,
                },
                ki2,
            ),
        decreases n - idx + (if stopped { 0int } else { 1int }),
    {
        let ghost st = KifHeaderView {
            metadata: builder@,
            board: board@,
            hands: hands@,
            turn,
            comments: text_lines(comments@),
            next: 0,
        };
        let v = str_chars(lines[idx].as_str());
        assert(v@ == lv[idx as int]);
        let s = trim_chars(v.as_slice());
        let ghost sv = s@;
        if s.len() == 0 {
            idx += 1;
        } else if header_stops(s.as_slice(), ki2) {
            stopped = true;
        } else if s[0] == '*' {
            let c = comment_text(s.as_slice());
            if c.len() > 0 {
                let ghost before = text_lines(comments@);
                comments.push(string_from_chars(c.as_slice()));
                assert(text_lines(comments@) =~= before.push(c@));
            }
            idx += 1;
        } else if chars_eq_str(s.as_slice(), "先手番") {
            turn = Some('+');
            idx += 1;
        } else if chars_eq_str(s.as_slice(), "後手番") {
            turn = Some('-');
            idx += 1;
        } else if chars_start_with(s.as_slice(), "先手の持駒") || chars_start_with(s.as_slice(), "下手の持駒")
            || chars_start_with(s.as_slice(), "後手の持駒") || chars_start_with(s.as_slice(), "上手の持駒") {
            let white = !(chars_start_with(s.as_slice(), "先手の持駒") || chars_start_with(
                s.as_slice(),
                "下手の持駒",
            ));
            match second_field_text(s.as_slice()) {
                Some(x) => {
                    let counts = parse_hand_pieces(x.as_str());
                    let ghost h0 = hands@;
                    hands.set_side(white, counts.as_slice());
                    assert(hands@ =~= with_hand_line(st, white, sv).hands) by {
                        assert forall|i: int| 0 <= i < 28 implies hands@[i] == with_hand_line(st, white, sv).hands[i] by {
                            if (i >= 14) == white {
                                assert(counts@[i % 14] as int == hand_pieces_spec(x@)[i % 14]);
                            }
                        }
                    }
                },
                None => {},
            }
            idx += 1;
        } else if is_board_header_line(lines[idx].as_str()) {
            let (next, b) = match parse_board_block(lines, idx) {
                Ok(p) => p,
                Err(_) => {
                    assert(false);
                    return KifHeader {
                        metadata: builder.build(),
                        board,
                        hands,
                        initial_turn: turn,
                        comments,
                        next: idx,
                    };
                },
            };
            board = b;
            idx = next;
        } else {
            let t = string_from_chars(s.as_slice());
            apply_metadata_line(&mut builder, t.as_str());
            idx += 1;
        }
    }
    KifHeader { metadata: builder.build(), board, hands, initial_turn: turn, comments, next: idx }
}

/// The number of byte-order marks (`U+FEFF`) at the start of `s`.
pub open spec fn leading_boms(s: Seq<char>) -> nat
    decreases s.len(),
{
    if s.len() > 0 && s[0] == '\u{feff}' {
        1 + leading_boms(s.drop_first())
    } else {
        0
    }
}

pub proof fn lemma_leading_boms(s: Seq<char>, i: int)
    requires
        0 <= i <= s.len(),
        forall|j: int| 0 <= j < i ==> #[trigger] s[j] == '\u{feff}',
        i == s.len() || s[i] != '\u{feff}',
    ensures
        leading_boms(s) == i,
    decreases i,
{
    if i > 0 {
        assert forall|j: int| 0 <= j < i - 1 implies #[trigger] s.drop_first()[j] == '\u{feff}' by {
            assert(s.drop_first()[j] == s[j + 1]);
        }
        if i < s.len() {
            assert(s.drop_first()[i - 1] == s[i]);
        }
        lemma_leading_boms(s.drop_first(), i - 1);
    }
}

/// The lines of a KIF or KI2 text: `\r\n` and a lone `\r` read as line
/// breaks, the text split at each break (as `str::split` gives it, so a
/// final break leaves an empty last line), and the byte-order marks at the
/// start of the first line dropped.
pub open spec fn record_text_lines(text: Seq<char>) -> Seq<Seq<char>> {
    let t = replace_all(replace_all(text, seq!['\r', '\n'], seq!['\n']), seq!['\r'], seq!['\n']);
    let parts = split_at_char(t, '\n');
    parts.update(0, parts[0].skip(leading_boms(parts[0]) as int))
}

/// The lines of a KIF or KI2 text (see [`record_text_lines`]).
pub fn record_lines(text: &str) -> (r: Vec<String>)
    ensures
        text_lines(r@) == record_text_lines(text@),
{
    let v = str_chars(text);
    let crlf = vec!['\r', '\n'];
    let cr = vec!['\r'];
    let lf = vec!['\n'];
    assert(crlf@ =~= seq!['\r', '\n']);
    assert(cr@ =~= seq!['\r']);
    assert(lf@ =~= seq!['\n']);
    let a = replace_chars(v.as_slice(), crlf.as_slice(), lf.as_slice());
    let b = replace_chars(a.as_slice(), cr.as_slice(), lf.as_slice());
    let segs = char_segments(b.as_slice(), '\n');
    let ghost sv = segs_view(segs@);
    proof {
        lemma_split_len(b@, '\n');
    }
    let first = &segs[0];
    let mut k: usize = 0;
    while k < first.len() && first[k] == '\u{feff}'
        invariant
            k <= first@.len(),
            forall|j: int| 0 <= j < k ==> #[trigger] first@[j] == '\u{feff}',
        decreases first.len() - k,
    {
        k += 1;
    }
    proof {
        lemma_leading_boms(first@, k as int);
    }
    let fl = first.len();
    let head = vstd::slice::slice_subrange(first.as_slice(), k, fl);
    assert(head@ =~= first@.skip(k as int));
    let mut out: Vec<String> = Vec::new();
    out.push(string_from_chars(head));
    let ghost want = record_text_lines(text@);
    assert(sv[0] == first@);
    assert(text_lines(out@) =~= want.take(1));
    let n = segs.len();
    let mut i: usize = 1;
    while i < n
        invariant
            1 <= i <= n,
            n == sv.len(),
            sv == segs_view(segs@),
            want.len() == sv.len(),
            forall|j: int| 1 <= j < sv.len() ==> want[j] == sv[j],
            text_lines(out@) == want.take(i as int),
        decreases n - i,
    {
        assert(sv[i as int] == segs@[i as int]@);
        assert(want[i as int] == sv[i as int]);
        let ghost before = text_lines(out@);
        out.push(string_from_chars(segs[i].as_slice()));
        assert(text_lines(out@) =~= before.push(sv[i as int]));
        assert(want.take(i + 1) =~= want.take(i as int).push(want[i as int]));
        i += 1;
    }
    assert(want.take(n as int) =~= want);
    out
}

/// Whether each count of a hand text fits in a byte (see
/// [`hand_pieces_in_range`]).
pub fn hand_pieces_fit(text: &str) -> (r: bool)
    ensures
        r == hand_pieces_in_range(text@),
{
    let v = str_chars(text);
    let c = clean_hand_text(v.as_slice());
    let ghost cs = c@;
    let n = c.len();
    let mut counts: Vec<u16> = Vec::new();
    while counts.len() < 14
        invariant
            counts@.len() <= 14,
            forall|k: int| 0 <= k < counts@.len() ==> counts@[k] == 0,
        decreases 14 - counts@.len(),
    {
        counts.push(0);
    }
    proof {
        lemma_hand_scan_shape(cs, 0);
    }
    let mut i: usize = 0;
    while i < n
        invariant
            i <= n,
            n == cs.len(),
            cs == c@,
            cs == hand_text_clean(text@),
            counts@.len() == 14,
            hand_scan(cs, 0).len() == 14,
            forall|k: int| 0 <= k < 14 ==> counts@[k] <= 255,
            forall|k: int| 0 <= k < 14 ==> counts@[k] + hand_scan(cs, i as int)[k] == #[trigger] hand_scan(cs, 0)[k],
        decreases n - i,
    {
        match kif_hand_piece_of(c[i]) {
            None => {
                i += 1;
            },
            Some(k) => {
                let mut j: usize = i + 1;
                while j < n && kanji_numeral(c[j])
                    invariant
                        i < j <= n,
                        n == cs.len(),
                        cs == c@,
                        forall|t: int| i + 1 <= t < j ==> is_kanji_numeral(#[trigger] cs[t]),
                    decreases n - j,
                {
                    j += 1;
                }
                proof {
                    lemma_numeral_run(cs, i + 1, j as int);
                    lemma_hand_scan_shape(cs, j as int);
                }
                let digits = vstd::slice::slice_subrange(c.as_slice(), i + 1, j);
                let number = string_from_chars(digits);
                assert(number@ == cs.subrange(i + 1, j as int));
                let count = kanji_to_int(number.as_str());
                let ghost rest = hand_scan(cs, j as int);
                assert(hand_scan(cs, i as int) == rest.update(k as int, rest[k as int] + count as int));
                let next = counts[k] + count as u16;
                if next > 255 {
                    assert(hand_scan(cs, 0)[k as int] > 255);
                    assert(hand_pieces_spec(text@)[k as int] > 255);
                    return false;
                }
                counts.set(k, next);
                i = j;
            },
        }
    }
    proof {
        assert forall|k: int| 0 <= k < 14 implies #[trigger] hand_pieces_spec(text@)[k] <= 255 by {
            assert(hand_scan(cs, 0)[k] == counts@[k] + hand_scan(cs, n as int)[k]);
        }
    }
    true
}

/// Whether the header of KIF (or KI2) lines can be read without overflow
/// (see [`header_in_range`]).
pub fn record_header_fits(lines: &[String], ki2: bool) -> (r: bool)
    ensures
        r == header_in_range(text_lines(lines@), 0, ki2),
{
    let ghost lv = text_lines(lines@);
    let n = lines.len();
    let mut idx: usize = 0;
    while idx < n
        invariant
            idx <= n,
            n == lv.len(),
            lv == text_lines(lines@),
            header_in_range(lv, 0, ki2) == header_in_range(lv, idx as int, ki2),
        decreases n - idx,
    {
        let v = str_chars(lines[idx].as_str());
        assert(v@ == lv[idx as int]);
        let s = trim_chars(v.as_slice());
        if s.len() == 0 {
            idx += 1;
        } else if header_stops(s.as_slice(), ki2) {
            return true;
        } else if s[0] == '*' || chars_eq_str(s.as_slice(), "先手番") || chars_eq_str(s.as_slice(), "後手番") {
            idx += 1;
        } else if chars_start_with(s.as_slice(), "先手の持駒") || chars_start_with(s.as_slice(), "下手の持駒")
            || chars_start_with(s.as_slice(), "後手の持駒") || chars_start_with(s.as_slice(), "上手の持駒") {
            match second_field_text(s.as_slice()) {
                Some(x) => {
                    if !hand_pieces_fit(x.as_str()) {
                        return false;
                    }
                },
                None => {},
            }
            idx += 1;
        } else if is_board_header_line(lines[idx].as_str()) {
            let (next, _) = match parse_board_block(lines, idx) {
                Ok(p) => p,
                Err(_) => {
                    assert(false);
                    return false;
                },
            };
            idx = next;
        } else {
            let t = string_from_chars(s.as_slice());
            if !crate::records::formats::kif::kif_header_line_fits(t.as_str()) {
                return false;
            }
            idx += 1;
        }
    }
    true
}

/// Every piece character of a KIF board diagram names the same piece as in
/// KI2 moves: a cell's piece character reads as the CSA code of the piece
/// type that the KI2 reader gives it, whichever of two names (`龍` or `竜`,
/// `玉` or `王`) is written; and the name the diagram writer prints for a
/// piece type reads back as that type's CSA code, also in a cell with a
/// side mark.
pub proof fn lemma_kif_board_names_read_back(c: char, pt: int)
    requires
        1 <= pt <= 14,
    ensures
        kif_board_piece(c) == (match crate::records::formats::kif_notation::ki2_piece_char_spec(c) {
            Some(p) => crate::records::formats::jkf::csa_code_spec(p as int),
            None => None,
        }),
        crate::records::formats::kif_notation::kif_board_name(pt).len() == 1,
        kif_board_piece(crate::records::formats::kif_notation::kif_board_name(pt)[0])
            == crate::records::formats::jkf::csa_code_spec(pt),
        kif_cell(seq![' '] + crate::records::formats::kif_notation::kif_board_name(pt)) == Some(
            ('+', crate::records::formats::jkf::csa_code_spec(pt)->Some_0),
        ),
        kif_cell(seq!['v'] + crate::records::formats::kif_notation::kif_board_name(pt)) == Some(
            ('-', crate::records::formats::jkf::csa_code_spec(pt)->Some_0),
        ),
{
    let name = crate::records::formats::kif_notation::kif_board_name(pt);
    let n = name[0];
    assert(name =~= seq![n]);
    assert(!crate::text::is_white_space(n));
    let s1 = seq![' '] + name;
    let s2 = seq!['v'] + name;
    assert(s1 =~= seq![' ', n]);
    assert(s2 =~= seq!['v', n]);
    assert(trim_spec(s1) =~= seq![n]) by {
        assert(crate::text::leading_space(s1) == 1) by {
            assert(s1.drop_first() =~= seq![n]);
            assert(crate::text::is_white_space(s1[0]));
            assert(crate::text::leading_space(seq![n]) == 0);
        }
        let t = s1.skip(1);
        assert(t =~= seq![n]);
        assert(crate::text::trailing_space(t) == 0);
    }
    assert(trim_spec(s2) =~= seq!['v', n]) by {
        assert(crate::text::leading_space(s2) == 0);
        assert(s2.skip(0) =~= s2);
        assert(crate::text::trailing_space(s2) == 0);
        assert(s2.take(2) =~= s2);
    }
    assert(seq!['v', n].drop_first() =~= seq![n]);
}

} // verus!
