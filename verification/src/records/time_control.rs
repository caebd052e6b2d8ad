//! Time controls: base time, byoyomi and Fischer increment, all in seconds,
//! with their `base+byoyomi+increment` text and the readers of the KIF and
//! CSA time lines.
use vstd::prelude::*;
use crate::text::{
    decimal, digits_value, find_char, find_char_index, find_seq, find_seq_index, is_digit, lemma_decimal_value,
    parse_u32, parse_u32_digits, parse_u32_spec, push_char, push_decimal, str_chars, trim_chars, trim_spec,
    unsigned_body, leading_space, trailing_space,
};

verus! {

/// A time control in seconds.
#[derive(Copy, Clone, Debug, PartialEq, Eq, Structural)]
pub struct TimeControl {
    base_seconds: u32,
    byoyomi_seconds: u32,
    increment_seconds: u32,
}

impl View for TimeControl {
    /// Base time, byoyomi and increment.
    type V = (u32, u32, u32);

    closed spec fn view(&self) -> (u32, u32, u32) {
        (self.base_seconds, self.byoyomi_seconds, self.increment_seconds)
    }
}

/// The text of a time control: base, byoyomi and increment in decimal,
/// joined by `+`.
pub open spec fn spec_text(v: (u32, u32, u32)) -> Seq<char> {
    decimal(v.0 as nat) + seq!['+'] + decimal(v.1 as nat) + seq!['+'] + decimal(v.2 as nat)
}

/// The text of an optional time control.
pub open spec fn opt_spec_text(o: Option<(u32, u32, u32)>) -> Option<Seq<char>> {
    match o {
        Some(v) => Some(spec_text(v)),
        None => None,
    }
}

/// A number field: the text without surrounding white space, read as a
/// `u32`.
pub open spec fn decimal_field_spec(s: Seq<char>) -> Option<u32> {
    parse_u32_spec(trim_spec(s))
}

/// The three parts of a text with exactly two `+`.
pub open spec fn split3_spec(s: Seq<char>) -> Option<(Seq<char>, Seq<char>, Seq<char>)> {
    match find_char(s, '+') {
        None => None,
        Some(i) => {
            let rest = s.skip(i + 1);
            match find_char(rest, '+') {
                None => None,
                Some(j) => {
                    let tail = rest.skip(j + 1);
                    if find_char(tail, '+') is Some {
                        None
                    } else {
                        Some((s.take(i), rest.take(j), tail))
                    }
                },
            }
        },
    }
}

/// What reading `base+byoyomi+increment` gives: three number fields.
pub open spec fn from_spec_spec(s: Seq<char>) -> Option<(u32, u32, u32)> {
    match split3_spec(s) {
        None => None,
        Some((a, b, c)) => match (decimal_field_spec(a), decimal_field_spec(b), decimal_field_spec(c)) {
            (Some(x), Some(y), Some(z)) => Some((x, y, z)),
            _ => None,
        },
    }
}

/// The CSA v2.2 `HH:MM+SS` fields: hours, minutes and byoyomi.
pub open spec fn csa_v22_fields(s: Seq<char>) -> Option<(u32, u32, u32)> {
    match find_char(s, '+') {
        None => None,
        Some(i) => {
            let base = s.take(i);
            match find_char(base, ':') {
                None => None,
                Some(j) => match (
                    decimal_field_spec(base.take(j)),
                    decimal_field_spec(base.skip(j + 1)),
                    decimal_field_spec(s.skip(i + 1)),
                ) {
                    (Some(h), Some(m), Some(b)) => Some((h, m, b)),
                    _ => None,
                },
            }
        },
    }
}

/// Whether a CSA time text read as `HH:MM+SS` has a base time that fits in
/// a `u32` of seconds.
pub open spec fn csa_time_in_range(s: Seq<char>) -> bool {
    from_spec_spec(s) is None ==> (csa_v22_fields(s) matches Some((h, m, _)) ==> h * 3600 + m * 60 <= u32::MAX)
}

/// What reading a CSA `TIME_LIMIT` / `TIME` value gives: the v3.0
/// `base+byoyomi+increment` form, or else the v2.2 `HH:MM+SS` form.
pub open spec fn csa_time_control_spec(s: Seq<char>) -> Option<(u32, u32, u32)> {
    match from_spec_spec(s) {
        Some(v) => Some(v),
        None => match csa_v22_fields(s) {
            Some((h, m, b)) => Some(((h * 3600 + m * 60) as u32, b, 0)),
            None => None,
        },
    }
}

/// The number of ASCII digits at the end of `s`.
pub open spec fn trailing_digits(s: Seq<char>) -> nat
    decreases s.len(),
{
    if s.len() > 0 && is_digit(s.last()) {
        1 + trailing_digits(s.drop_last())
    } else {
        0
    }
}

/// The ASCII digits of `s`, in order.
pub open spec fn digits_in(s: Seq<char>) -> Seq<char>
    decreases s.len(),
{
    if s.len() == 0 {
        Seq::empty()
    } else if is_digit(s.last()) {
        digits_in(s.drop_last()).push(s.last())
    } else {
        digits_in(s.drop_last())
    }
}

/// The value of a non-empty run of digits that fits in a `u32`.
pub open spec fn digits_u32(d: Seq<char>) -> Option<u32> {
    if d.len() == 0 || digits_value(d) > u32::MAX {
        None
    } else {
        Some(digits_value(d) as u32)
    }
}

/// The number written right before the first `marker` of `text`: the digits
/// that end there.
pub open spec fn number_before_marker(text: Seq<char>, marker: Seq<char>) -> Option<u32> {
    match find_seq(text, marker) {
        None => None,
        Some(idx) => {
            let before = text.take(idx);
            digits_u32(before.skip(before.len() - trailing_digits(before)))
        },
    }
}

/// The number between the first `+` of `text` and the first `marker` after
/// it: every digit there, in order.
pub open spec fn number_after_plus(text: Seq<char>, marker: Seq<char>) -> Option<u32> {
    match find_char(text, '+') {
        None => None,
        Some(i) => {
            let after = text.skip(i + 1);
            match find_seq(after, marker) {
                None => None,
                Some(j) => digits_u32(digits_in(after.take(j))),
            }
        },
    }
}

/// `時間` (hours).
pub open spec fn hours_marker() -> Seq<char> {
    seq!['時', '間']
}

/// `分` (minutes).
pub open spec fn minutes_marker() -> Seq<char> {
    seq!['分']
}

/// `秒` (seconds).
pub open spec fn seconds_marker() -> Seq<char> {
    seq!['秒']
}

/// The base time of a KIF time line in minutes: hours and minutes written
/// before `時間` and `分`; none when both are absent or zero.
pub open spec fn kif_minutes_spec(text: Seq<char>) -> Option<int> {
    let h: int = match number_before_marker(text, hours_marker()) {
        Some(v) => v as int,
        None => 0,
    };
    let m: int = match number_before_marker(text, minutes_marker()) {
        Some(v) => v as int,
        None => 0,
    };
    if h == 0 && m == 0 {
        None
    } else {
        Some(h * 60 + m)
    }
}

/// Whether the base time of a KIF time line fits in a `u32` of seconds.
pub open spec fn kif_time_in_range(text: Seq<char>) -> bool {
    kif_minutes_spec(text) matches Some(m) ==> m * 60 <= u32::MAX
}

/// The byoyomi of a KIF time line: the number before `秒`, or else the digits
/// between `+` and `秒`.
pub open spec fn kif_byoyomi_spec(text: Seq<char>) -> Option<u32> {
    match number_before_marker(text, seconds_marker()) {
        Some(v) => Some(v),
        None => number_after_plus(text, seconds_marker()),
    }
}

/// What reading a KIF `持ち時間` value gives: the base time and byoyomi found,
/// with zero for the one absent; none when both are absent.
pub open spec fn kif_time_control_spec(text: Seq<char>) -> Option<(u32, u32, u32)> {
    match (kif_minutes_spec(text), kif_byoyomi_spec(text)) {
        (None, None) => None,
        (m, b) => Some(
            (
                match m {
                    Some(v) => (v * 60) as u32,
                    None => 0,
                },
                match b {
                    Some(v) => v,
                    None => 0,
                },
                0,
            ),
        ),
    }
}

impl TimeControl {
    /// A time control; every value is in seconds.
    pub fn new(base_seconds: u32, byoyomi_seconds: u32, increment_seconds: u32) -> (r: TimeControl)
        ensures
            r@ == (base_seconds, byoyomi_seconds, increment_seconds),
    {
        TimeControl { base_seconds, byoyomi_seconds, increment_seconds }
    }

    /// The base time in seconds.
    pub fn base_seconds(&self) -> (r: u32)
        ensures
            r == self@.0,
    {
        self.base_seconds
    }

    /// The byoyomi in seconds.
    pub fn byoyomi_seconds(&self) -> (r: u32)
        ensures
            r == self@.1,
    {
        self.byoyomi_seconds
    }

    /// The Fischer increment in seconds.
    pub fn increment_seconds(&self) -> (r: u32)
        ensures
            r == self@.2,
    {
        self.increment_seconds
    }

    /// The `base+byoyomi+increment` text (see [`spec_text`]).
    pub fn to_spec(&self) -> (r: String)
        ensures
            r@ == spec_text(self@),
    {
        let mut s = String::new();
        push_decimal(&mut s, self.base_seconds as u64);
        push_char(&mut s, '+');
        push_decimal(&mut s, self.byoyomi_seconds as u64);
        push_char(&mut s, '+');
        push_decimal(&mut s, self.increment_seconds as u64);
        assert(s@ =~= spec_text(self@));
        s
    }

    /// Reads a `base+byoyomi+increment` text (see [`from_spec_spec`]).
    pub fn from_spec(spec: &str) -> (r: Option<TimeControl>)
        ensures
            match from_spec_spec(spec@) {
                Some(v) => r matches Some(t) && t@ == v,
                None => r is None,
            },
    {
        let v = str_chars(spec);
        match spec_fields(v.as_slice()) {
            Some((b, y, i)) => Some(TimeControl::new(b, y, i)),
            None => None,
        }
    }

    /// The text of the time control a `base+byoyomi+increment` text reads as.
    pub fn normalize_spec(spec: &str) -> (r: Option<String>)
        ensures
            match from_spec_spec(spec@) {
                Some(v) => r matches Some(s) && s@ == spec_text(v),
                None => r is None,
            },
    {
        match TimeControl::from_spec(spec) {
            Some(tc) => Some(tc.to_spec()),
            None => None,
        }
    }
}

/// Reads a number field (see [`decimal_field_spec`]).
fn decimal_field(v: &[char]) -> (r: Option<u32>)
    ensures
        r == decimal_field_spec(v@),
{
    let t = trim_chars(v);
    parse_u32(t.as_slice())
}

fn chars_after(v: &[char], i: usize) -> (r: Vec<char>)
    requires
        i < v@.len(),
    ensures
        r@ == v@.skip(i + 1),
{
    let n = v.len();
    let mut out: Vec<char> = Vec::new();
    let mut k: usize = i + 1;
    while k < v.len()
        invariant
            i + 1 <= k <= v@.len(),
            out@ == v@.subrange(i + 1, k as int),
        decreases v.len() - k,
    {
        out.push(v[k]);
        k += 1;
        assert(out@ =~= v@.subrange(i + 1, k as int));
    }
    assert(out@ =~= v@.skip(i + 1));
    out
}

fn chars_before(v: &[char], i: usize) -> (r: Vec<char>)
    requires
        i <= v@.len(),
    ensures
        r@ == v@.take(i as int),
{
    let mut out: Vec<char> = Vec::new();
    let mut k: usize = 0;
    while k < i
        invariant
            k <= i <= v@.len(),
            out@ == v@.take(k as int),
        decreases i - k,
    {
        out.push(v[k]);
        k += 1;
        assert(out@ =~= v@.take(k as int));
    }
    out
}

/// Reads the three number fields of `base+byoyomi+increment`.
fn spec_fields(v: &[char]) -> (r: Option<(u32, u32, u32)>)
    ensures
        r == from_spec_spec(v@),
{
    let i = match find_char_index(v, '+') {
        Some(i) => i,
        None => return None,
    };
    let rest = chars_after(v, i);
    let j = match find_char_index(rest.as_slice(), '+') {
        Some(j) => j,
        None => return None,
    };
    let tail = chars_after(rest.as_slice(), j);
    if find_char_index(tail.as_slice(), '+').is_some() {
        return None;
    }
    let a = chars_before(v, i);
    let b = chars_before(rest.as_slice(), j);
    let x = decimal_field(a.as_slice());
    let y = decimal_field(b.as_slice());
    let z = decimal_field(tail.as_slice());
    match (x, y, z) {
        (Some(x), Some(y), Some(z)) => Some((x, y, z)),
        _ => None,
    }
}

/// Reads the hours, minutes and byoyomi of `HH:MM+SS`.
fn csa_v22_read(v: &[char]) -> (r: Option<(u32, u32, u32)>)
    ensures
        r == csa_v22_fields(v@),
{
    let i = match find_char_index(v, '+') {
        Some(i) => i,
        None => return None,
    };
    let base = chars_before(v, i);
    let j = match find_char_index(base.as_slice(), ':') {
        Some(j) => j,
        None => return None,
    };
    let hours = chars_before(base.as_slice(), j);
    let minutes = chars_after(base.as_slice(), j);
    let byoyomi = chars_after(v, i);
    let h = decimal_field(hours.as_slice());
    let m = decimal_field(minutes.as_slice());
    let b = decimal_field(byoyomi.as_slice());
    match (h, m, b) {
        (Some(h), Some(m), Some(b)) => Some((h, m, b)),
        _ => None,
    }
}

/// Reads a CSA `TIME_LIMIT` / `TIME` value (see [`csa_time_control_spec`]).
pub fn parse_csa_time_control(value: &str) -> (r: Option<TimeControl>)
    requires
        csa_time_in_range(value@),
    ensures
        match csa_time_control_spec(value@) {
            Some(v) => r matches Some(t) && t@ == v,
            None => r is None,
        },
{
    let v = str_chars(value);
    match spec_fields(v.as_slice()) {
        Some((b, y, i)) => return Some(TimeControl::new(b, y, i)),
        None => {},
    }
    match csa_v22_read(v.as_slice()) {
        Some((h, m, b)) => Some(TimeControl::new(h * 3600 + m * 60, b, 0)),
        None => None,
    }
}

/// Reads the number right before the first `marker` (see
/// [`number_before_marker`]).
fn read_number_before_marker(v: &[char], marker: &[char]) -> (r: Option<u32>)
    ensures
        r == number_before_marker(v@, marker@),
{
    let idx = match find_seq_index(v, marker) {
        Some(idx) => idx,
        None => return None,
    };
    let before = chars_before(v, idx);
    let ghost b = before@;
    let mut k: usize = 0;
    while k < before.len() && '0' <= before[before.len() - 1 - k] && before[before.len() - 1 - k] <= '9'
        invariant
            b == before@,
            k <= b.len(),
            forall|j: int| b.len() - k <= j < b.len() ==> is_digit(#[trigger] b[j]),
        decreases before.len() - k,
    {
        k += 1;
    }
    proof {
        lemma_trailing_digits(b, k as int);
    }
    let mut digits: Vec<char> = Vec::new();
    let mut i: usize = before.len() - k;
    while i < before.len()
        invariant
            b == before@,
            k <= b.len(),
            b.len() - k <= i <= b.len(),
            digits@ == b.subrange(b.len() - k, i as int),
        decreases before.len() - i,
    {
        digits.push(before[i]);
        i += 1;
        assert(digits@ =~= b.subrange(b.len() - k, i as int));
    }
    assert(digits@ =~= b.skip(b.len() - trailing_digits(b)));
    digits_to_u32(digits.as_slice())
}

proof fn lemma_trailing_digits(s: Seq<char>, k: int)
    requires
        0 <= k <= s.len(),
        forall|j: int| s.len() - k <= j < s.len() ==> is_digit(#[trigger] s[j]),
        k == s.len() || !is_digit(s[s.len() - k - 1]),
    ensures
        trailing_digits(s) == k,
    decreases k,
{
    if k > 0 {
        let d = s.drop_last();
        assert forall|j: int| d.len() - (k - 1) <= j < d.len() implies is_digit(#[trigger] d[j]) by {
            assert(d[j] == s[j]);
        }
        if k < s.len() {
            assert(d[d.len() - (k - 1) - 1] == s[s.len() - k - 1]);
        }
        lemma_trailing_digits(d, k - 1);
    }
}

/// The value of a run of digits (see [`digits_u32`]).
fn digits_to_u32(d: &[char]) -> (r: Option<u32>)
    requires
        forall|j: int| 0 <= j < d@.len() ==> is_digit(#[trigger] d@[j]),
    ensures
        r == digits_u32(d@),
{
    parse_u32_digits(d)
}

proof fn lemma_digits_in_all_digits(s: Seq<char>)
    ensures
        forall|j: int| 0 <= j < digits_in(s).len() ==> is_digit(#[trigger] digits_in(s)[j]),
    decreases s.len(),
{
    if s.len() > 0 {
        lemma_digits_in_all_digits(s.drop_last());
        let d = digits_in(s.drop_last());
        if is_digit(s.last()) {
            assert forall|j: int| 0 <= j < digits_in(s).len() implies is_digit(#[trigger] digits_in(s)[j]) by {
                if j < d.len() {
                    assert(digits_in(s)[j] == d[j]);
                }
            }
        }
    }
}

/// Reads the digits between the first `+` and the first `marker` after it
/// (see [`number_after_plus`]).
fn read_number_after_plus(v: &[char], marker: &[char]) -> (r: Option<u32>)
    ensures
        r == number_after_plus(v@, marker@),
{
    let i = match find_char_index(v, '+') {
        Some(i) => i,
        None => return None,
    };
    let after = chars_after(v, i);
    let j = match find_seq_index(after.as_slice(), marker) {
        Some(j) => j,
        None => return None,
    };
    let ghost a = after@.take(j as int);
    let mut digits: Vec<char> = Vec::new();
    let mut k: usize = 0;
    while k < j
        invariant
            j <= after@.len(),
            a == after@.take(j as int),
            k <= j,
            digits@ == digits_in(a.take(k as int)),
        decreases j - k,
    {
        assert(a.take(k + 1).drop_last() =~= a.take(k as int));
        assert(a.take(k + 1).last() == after@[k as int]);
        let c = after[k];
        if '0' <= c && c <= '9' {
            digits.push(c);
        }
        k += 1;
    }
    assert(a.take(j as int) =~= a);
    proof {
        lemma_digits_in_all_digits(a);
    }
    digits_to_u32(digits.as_slice())
}

/// Reads a KIF `持ち時間` value (see [`kif_time_control_spec`]).
pub fn parse_kif_time_control(value: &str) -> (r: Option<TimeControl>)
    requires
        kif_time_in_range(value@),
    ensures
        match kif_time_control_spec(value@) {
            Some(v) => r matches Some(t) && t@ == v,
            None => r is None,
        },
{
    let v = str_chars(value);
    let hours = vec!['時', '間'];
    let minutes = vec!['分'];
    let seconds = vec!['秒'];
    assert(hours@ =~= hours_marker());
    assert(minutes@ =~= minutes_marker());
    assert(seconds@ =~= seconds_marker());
    let h: u32 = match read_number_before_marker(v.as_slice(), hours.as_slice()) {
        Some(x) => x,
        None => 0,
    };
    let m: u32 = match read_number_before_marker(v.as_slice(), minutes.as_slice()) {
        Some(x) => x,
        None => 0,
    };
    let base: Option<u32> = if h == 0 && m == 0 {
        None
    } else {
        Some((h * 60 + m) * 60)
    };
    let byoyomi = match read_number_before_marker(v.as_slice(), seconds.as_slice()) {
        Some(x) => Some(x),
        None => read_number_after_plus(v.as_slice(), seconds.as_slice()),
    };
    match (base, byoyomi) {
        (None, None) => None,
        (b, y) => Some(
            TimeControl::new(
                match b {
                    Some(x) => x,
                    None => 0,
                },
                match y {
                    Some(x) => x,
                    None => 0,
                },
                0,
            ),
        ),
    }
}

pub proof fn lemma_decimal_field_of_decimal(n: u32)
    ensures
        decimal_field_spec(decimal(n as nat)) == Some(n),
        find_char(decimal(n as nat), '+') is None,
{
    let d = decimal(n as nat);
    lemma_decimal_value(n as nat);
    assert(!crate::text::is_white_space(d[0]));
    assert(!crate::text::is_white_space(d.last()));
    assert(leading_space(d) == 0);
    assert(d.skip(0) =~= d);
    assert(trailing_space(d) == 0);
    assert(d.take(d.len() as int) =~= d);
    assert(trim_spec(d) == d);
    assert(unsigned_body(d) == d);
    lemma_no_char(d, '+', 0);
}

proof fn lemma_no_char(s: Seq<char>, c: char, from: int)
    requires
        0 <= from,
        forall|j: int| 0 <= j < s.len() ==> s[j] != c,
    ensures
        crate::text::find_char_from(s, c, from) is None,
    decreases s.len() - from,
{
    if from < s.len() {
        lemma_no_char(s, c, from + 1);
    }
}

proof fn lemma_find_char_from_shift(s: Seq<char>, c: char, from: int, k: int)
    requires
        0 <= k <= from,
        forall|j: int| 0 <= j < k ==> s[j] != c,
    ensures
        crate::text::find_char_from(s, c, 0) == crate::text::find_char_from(s, c, k),
    decreases k,
{
    if k > 0 {
        lemma_find_char_from_shift(s, c, from, k - 1);
    }
}

proof fn lemma_find_first(a: Seq<char>, c: char, rest: Seq<char>)
    requires
        forall|j: int| 0 <= j < a.len() ==> a[j] != c,
    ensures
        find_char(a + seq![c] + rest, c) == Some(a.len() as int),
{
    let s = a + seq![c] + rest;
    assert forall|j: int| 0 <= j < a.len() implies s[j] != c by {
        assert(s[j] == a[j]);
    }
    lemma_find_char_from_shift(s, c, a.len() as int, a.len() as int);
    assert(s[a.len() as int] == c);
}

/// The text of a time control reads back as that time control.
pub proof fn lemma_time_control_text_roundtrip(v: (u32, u32, u32))
    ensures
        from_spec_spec(spec_text(v)) == Some(v),
        csa_time_control_spec(spec_text(v)) == Some(v),
{
    let d0 = decimal(v.0 as nat);
    let d1 = decimal(v.1 as nat);
    let d2 = decimal(v.2 as nat);
    lemma_decimal_field_of_decimal(v.0);
    lemma_decimal_field_of_decimal(v.1);
    lemma_decimal_field_of_decimal(v.2);
    lemma_decimal_value(v.0 as nat);
    lemma_decimal_value(v.1 as nat);
    lemma_decimal_value(v.2 as nat);
    let s = spec_text(v);
    let rest = d1 + seq!['+'] + d2;
    assert(s =~= d0 + seq!['+'] + rest);
    lemma_find_first(d0, '+', rest);
    assert(s.skip(d0.len() as int + 1) =~= rest);
    assert(s.take(d0.len() as int) =~= d0);
    lemma_find_first(d1, '+', d2);
    assert(rest.skip(d1.len() as int + 1) =~= d2);
    assert(rest.take(d1.len() as int) =~= d1);
}

/// Normalizing a time-control text twice gives what normalizing once gives:
/// the normal text reads back as the same time control.
pub proof fn lemma_normalize_idempotent(s: Seq<char>)
    requires
        from_spec_spec(s) is Some,
    ensures
        from_spec_spec(spec_text(from_spec_spec(s)->Some_0)) == from_spec_spec(s),
{
    lemma_time_control_text_roundtrip(from_spec_spec(s)->Some_0);
}


/// Whether `c` separates the fields of an elapsed time: `:`, `：`, or an
/// ASCII or full-width space.
pub open spec fn is_time_sep(c: char) -> bool {
    c == '：' || c == ':' || c == ' ' || c == '　'
}

/// The first separator at or after `from`, or the length of `s`.
pub open spec fn first_time_sep(s: Seq<char>, from: int) -> int
    decreases s.len() - from,
{
    if from < 0 || from >= s.len() {
        s.len() as int
    } else if is_time_sep(s[from]) {
        from
    } else {
        first_time_sep(s, from + 1)
    }
}

/// The non-empty fields of an elapsed time text, split at the separators.
pub open spec fn time_fields(s: Seq<char>) -> Seq<Seq<char>>
    decreases s.len(),
{
    let j = first_time_sep(s, 0);
    if 0 <= j < s.len() {
        (if j > 0 {
            seq![s.take(j)]
        } else {
            Seq::empty()
        }) + time_fields(s.skip(j + 1))
    } else if s.len() > 0 {
        seq![s]
    } else {
        Seq::empty()
    }
}

/// Seconds, multiplier and whether a number was read, after reading the
/// fields from the last to the first: a field that reads as a `u32` adds its
/// value times the multiplier, which then grows sixty-fold; other fields are
/// skipped.
pub open spec fn time_fold(parts: Seq<Seq<char>>) -> (int, int, bool)
    decreases parts.len(),
{
    if parts.len() == 0 {
        (0, 1, false)
    } else {
        let f = time_fold(parts.drop_first());
        match parse_u32_spec(parts[0]) {
            Some(v) => (f.0 + v * f.1, f.1 * 60, true),
            None => f,
        }
    }
}

/// Whether the seconds and the multiplier stay within `u32` at every step
/// of [`time_fold`].
pub open spec fn time_fold_in_range(parts: Seq<Seq<char>>) -> bool
    decreases parts.len(),
{
    parts.len() == 0 || (time_fold_in_range(parts.drop_first()) && time_fold(parts).0 <= u32::MAX && time_fold(
        parts,
    ).1 <= u32::MAX)
}

/// An elapsed time such as `1:02:03` in milliseconds: the numbers of its
/// fields read as seconds, minutes, hours from the right; none when no field
/// is a number.
pub open spec fn colon_time_ms_spec(text: Seq<char>) -> Option<u32> {
    let f = time_fold(time_fields(text));
    if f.2 {
        Some((f.0 * 1000) as u32)
    } else {
        None
    }
}

/// Whether an elapsed time text can be read without overflow.
pub open spec fn colon_time_in_range(text: Seq<char>) -> bool {
    time_fold_in_range(time_fields(text)) && time_fold(time_fields(text)).0 * 1000 <= u32::MAX
}

proof fn lemma_first_time_sep_at(s: Seq<char>, from: int, k: int)
    requires
        0 <= from <= k <= s.len(),
        forall|j: int| from <= j < k ==> !is_time_sep(#[trigger] s[j]),
        k == s.len() || is_time_sep(s[k]),
    ensures
        first_time_sep(s, from) == k,
    decreases k - from,
{
    if from < k {
        lemma_first_time_sep_at(s, from + 1, k);
    }
}

/// The texts of a list of character vectors.
pub open spec fn char_vecs(v: Seq<Vec<char>>) -> Seq<Seq<char>> {
    v.map_values(|f: Vec<char>| f@)
}

fn time_field_list(v: &[char]) -> (r: Vec<Vec<char>>)
    ensures
        char_vecs(r@) == time_fields(v@),
{
    let n = v.len();
    let mut out: Vec<Vec<char>> = Vec::new();
    let mut cur: Vec<char> = Vec::new();
    let mut i: usize = 0;
    assert(v@.skip(0) =~= v@);
    assert(cur@ + v@ =~= v@);
    while i < n
        invariant
            n == v@.len(),
            i <= n,
            forall|j: int| 0 <= j < cur@.len() ==> !is_time_sep(#[trigger] cur@[j]),
            char_vecs(out@) + time_fields(cur@ + v@.skip(i as int)) == time_fields(v@),
        decreases n - i,
    {
        let c = v[i];
        let ghost s = cur@ + v@.skip(i as int);
        assert(s[cur@.len() as int] == c);
        assert(v@.skip(i as int).drop_first() =~= v@.skip(i + 1));
        if c == '：' || c == ':' || c == ' ' || c == '　' {
            proof {
                assert forall|j: int| 0 <= j < cur@.len() implies !is_time_sep(#[trigger] s[j]) by {
                    assert(s[j] == cur@[j]);
                }
                lemma_first_time_sep_at(s, 0, cur@.len() as int);
                assert(s.take(cur@.len() as int) =~= cur@);
                assert(s.skip(cur@.len() as int + 1) =~= v@.skip(i + 1));
                assert(Seq::<char>::empty() + v@.skip(i + 1) =~= v@.skip(i + 1));
            }
            let ghost before = char_vecs(out@);
            if cur.len() > 0 {
                out.push(cur);
                assert(char_vecs(out@) =~= before.push(s.take(cur@.len() as int)));
            }
            cur = Vec::new();
            assert(cur@ + v@.skip(i + 1) =~= v@.skip(i + 1));
        } else {
            cur.push(c);
            assert(cur@ + v@.skip(i + 1) =~= s);
        }
        i += 1;
    }
    proof {
        assert(v@.skip(n as int) =~= Seq::<char>::empty());
        assert(cur@ + v@.skip(n as int) =~= cur@);
        lemma_first_time_sep_at(cur@, 0, cur@.len() as int);
    }
    let ghost before = char_vecs(out@);
    if cur.len() > 0 {
        out.push(cur);
        assert(char_vecs(out@) =~= before.push(cur@));
    } else {
        assert(char_vecs(out@) =~= before);
    }
    out
}

proof fn lemma_fold_in_range_suffix(parts: Seq<Seq<char>>, k: int)
    requires
        0 <= k <= parts.len(),
        time_fold_in_range(parts),
    ensures
        time_fold_in_range(parts.skip(k)),
    decreases k,
{
    if k > 0 {
        assert(parts.drop_first().skip(k - 1) =~= parts.skip(k));
        lemma_fold_in_range_suffix(parts.drop_first(), k - 1);
    } else {
        assert(parts.skip(0) =~= parts);
    }
}

/// Reads the fields of an elapsed time from the last to the first (see
/// [`time_fold`]): seconds and whether a number was read.
pub fn fold_time_fields(v: &[char]) -> (r: (u32, bool))
    requires
        time_fold_in_range(time_fields(v@)),
    ensures
        r.0 == time_fold(time_fields(v@)).0,
        r.1 == time_fold(time_fields(v@)).2,
{
    let fields = time_field_list(v);
    let ghost f = char_vecs(fields@);
    let n = fields.len();
    let mut seconds: u32 = 0;
    let mut multiplier: u32 = 1;
    let mut any = false;
    let mut k: usize = n;
    assert(f.skip(n as int) =~= Seq::<Seq<char>>::empty());
    while k > 0
        invariant
            k <= n,
            n == fields@.len(),
            f == char_vecs(fields@),
            f == time_fields(v@),
            time_fold_in_range(f),
            (seconds as int, multiplier as int, any) == time_fold(f.skip(k as int)),
        decreases k,
    {
        let ghost tail = f.skip(k - 1);
        proof {
            lemma_fold_in_range_suffix(f, k - 1);
            assert(tail.drop_first() =~= f.skip(k as int));
            assert(tail[0] == fields@[k - 1]@);
        }
        match parse_u32(fields[k - 1].as_slice()) {
            Some(value) => {
                assert(time_fold(tail).0 <= u32::MAX && time_fold(tail).1 <= u32::MAX);
                assert(value as int * multiplier as int <= seconds as int + value as int * multiplier as int);
                seconds = seconds + value * multiplier;
                multiplier = multiplier * 60;
                any = true;
            },
            None => {},
        }
        k -= 1;
    }
    assert(f.skip(0) =~= f);
    (seconds, any)
}

/// An elapsed time in milliseconds (see [`colon_time_ms_spec`]).
pub fn colon_time_ms(text: &str) -> (r: Option<u32>)
    requires
        colon_time_in_range(text@),
    ensures
        r == colon_time_ms_spec(text@),
{
    let v = str_chars(text);
    let (seconds, any) = fold_time_fields(v.as_slice());
    if any {
        Some(seconds * 1000)
    } else {
        None
    }
}

/// Whether the fields of an elapsed time text can be folded without
/// overflow (see [`time_fold_in_range`]), and then the seconds.
fn fold_within(text: &[char]) -> (r: Option<u64>)
    ensures
        r is Some <==> time_fold_in_range(time_fields(text@)),
        r matches Some(x) ==> x == time_fold(time_fields(text@)).0,
{
    let fields = time_field_list(text);
    let ghost f = char_vecs(fields@);
    let n = fields.len();
    let mut seconds: u64 = 0;
    let mut multiplier: u64 = 1;
    let mut any = false;
    let mut k: usize = n;
    assert(f.skip(n as int) =~= Seq::<Seq<char>>::empty());
    while k > 0
        invariant
            k <= n,
            n == fields@.len(),
            f == char_vecs(fields@),
            f == time_fields(text@),
            time_fold_in_range(f.skip(k as int)),
            seconds <= u32::MAX,
            multiplier <= u32::MAX,
            (seconds as int, multiplier as int, any) == time_fold(f.skip(k as int)),
        decreases k,
    {
        let ghost tail = f.skip(k - 1);
        proof {
            assert(tail.drop_first() =~= f.skip(k as int));
            assert(tail[0] == fields@[k - 1]@);
        }
        match parse_u32(fields[k - 1].as_slice()) {
            Some(value) => {
                assert(value as int * multiplier as int <= 0xffff_ffff * 0xffff_ffff) by (nonlinear_arith)
                    requires
                        value <= 0xffff_ffff,
                        multiplier <= 0xffff_ffff,
                ;
                let next_seconds = seconds + (value as u64) * multiplier;
                let next_multiplier = multiplier * 60;
                if next_seconds > 0xffff_ffff || next_multiplier > 0xffff_ffff {
                    proof {
                        if time_fold_in_range(f) {
                            lemma_fold_in_range_suffix(f, k - 1);
                        }
                    }
                    assert(f.skip(0) =~= f);
                    return None;
                }
                seconds = next_seconds;
                multiplier = next_multiplier;
                any = true;
            },
            None => {},
        }
        k -= 1;
    }
    assert(f.skip(0) =~= f);
    Some(seconds)
}

/// Whether the fields of an elapsed time text can be folded without
/// overflow (see [`time_fold_in_range`]), so that [`fold_time_fields`] may
/// be called.
pub fn time_fields_fit(text: &[char]) -> (r: bool)
    ensures
        r == time_fold_in_range(time_fields(text@)),
{
    fold_within(text).is_some()
}

/// Whether an elapsed time text can be read without overflow (see
/// [`colon_time_in_range`]).
pub fn colon_time_fits(text: &[char]) -> (r: bool)
    ensures
        r == colon_time_in_range(text@),
{
    match fold_within(text) {
        Some(seconds) => seconds * 1000 <= 0xffff_ffff,
        None => false,
    }
}

/// Whether a CSA time text can be read without overflow (see
/// [`csa_time_in_range`]).
pub fn csa_time_fits(value: &str) -> (r: bool)
    ensures
        r == csa_time_in_range(value@),
{
    let v = str_chars(value);
    if spec_fields(v.as_slice()).is_some() {
        return true;
    }
    match csa_v22_read(v.as_slice()) {
        Some((h, m, _)) => (h as u64) * 3600 + (m as u64) * 60 <= 0xffff_ffff,
        None => true,
    }
}

/// Whether a KIF time text can be read without overflow (see
/// [`kif_time_in_range`]).
pub fn kif_time_fits(value: &str) -> (r: bool)
    ensures
        r == kif_time_in_range(value@),
{
    let v = str_chars(value);
    let hours = vec!['時', '間'];
    let minutes = vec!['分'];
    assert(hours@ =~= hours_marker());
    assert(minutes@ =~= minutes_marker());
    let h: u64 = match read_number_before_marker(v.as_slice(), hours.as_slice()) {
        Some(x) => x as u64,
        None => 0,
    };
    let m: u64 = match read_number_before_marker(v.as_slice(), minutes.as_slice()) {
        Some(x) => x as u64,
        None => 0,
    };
    if h == 0 && m == 0 {
        true
    } else {
        (h * 60 + m) * 60 <= 0xffff_ffff
    }
}

} // verus!
