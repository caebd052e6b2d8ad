//! Character-level helpers shared by the notation and record modules.
use vstd::prelude::*;

verus! {

/// The ASCII lower-case form of a character; other characters are kept.
pub open spec fn ascii_lower(c: char) -> char {
    if 'A' <= c && c <= 'Z' {
        ((c as u32) + 32) as char
    } else {
        c
    }
}

/// The ASCII upper-case form of a character; other characters are kept.
pub open spec fn ascii_upper(c: char) -> char {
    if 'a' <= c && c <= 'z' {
        ((c as u32) - 32) as char
    } else {
        c
    }
}

pub open spec fn ascii_lower_seq(s: Seq<char>) -> Seq<char> {
    s.map_values(|c: char| ascii_lower(c))
}

pub open spec fn ascii_upper_seq(s: Seq<char>) -> Seq<char> {
    s.map_values(|c: char| ascii_upper(c))
}

/// The decimal digit character for `d` (`0 <= d < 10`).
pub open spec fn digit_char(d: int) -> char {
    (48 + d) as char
}

/// Decimal representation of a natural number, without leading zeros.
pub open spec fn decimal(n: nat) -> Seq<char>
    decreases n,
{
    if n < 10 {
        seq![digit_char(n as int)]
    } else {
        decimal(n / 10).push(digit_char((n % 10) as int))
    }
}

/// Decimal representation of an integer, with a leading `-` when negative.
pub open spec fn signed_decimal(n: int) -> Seq<char> {
    if n < 0 {
        seq!['-'] + decimal((-n) as nat)
    } else {
        decimal(n as nat)
    }
}

/// The characters of a string slice, in order.
pub fn str_chars(s: &str) -> (v: Vec<char>)
    ensures
        v@ == s@,
{
    let mut v: Vec<char> = Vec::new();
    for c in it: s.chars()
        invariant
            v@ == it.seq().take(it.index() as int),
            it.seq() == s@,
    {
        v.push(c);
    }
    v
}

/// `String::push`: appends one character.
#[verifier::external_body]
pub(crate) fn push_char(s: &mut String, c: char)
    ensures
        final(s)@ == old(s)@.push(c),
{
    s.push(c);
}

/// Whether the characters `v` spell exactly the string `t`.
pub fn chars_eq_str(v: &[char], t: &str) -> (r: bool)
    ensures
        r == (v@ == t@),
{
    let w = str_chars(t);
    if v.len() != w.len() {
        assert(v@.len() != w@.len());
        return false;
    }
    let mut i: usize = 0;
    while i < v.len()
        invariant
            i <= v.len(),
            v@.len() == w@.len(),
            w@ == t@,
            forall|j: int| 0 <= j < i ==> v@[j] == w@[j],
        decreases v.len() - i,
    {
        if v[i] != w[i] {
            assert(v@[i as int] != w@[i as int]);
            assert(v@ != w@);
            return false;
        }
        i += 1;
    }
    assert(v@ =~= w@);
    true
}

/// Appends a string slice.
pub fn push_str(s: &mut String, t: &str)
    ensures
        final(s)@ == old(s)@ + t@,
{
    s.append(t);
}

/// A string made of the given characters.
pub fn string_from_chars(v: &[char]) -> (s: String)
    ensures
        s@ == v@,
{
    let mut s = String::new();
    let mut i: usize = 0;
    while i < v.len()
        invariant
            i <= v.len(),
            s@ == v@.take(i as int),
        decreases v.len() - i,
    {
        push_char(&mut s, v[i]);
        i += 1;
        assert(s@ =~= v@.take(i as int));
    }
    assert(v@.take(v.len() as int) =~= v@);
    s
}

/// A string holding a copy of the given slice.
pub fn string_from_str(t: &str) -> (s: String)
    ensures
        s@ == t@,
{
    String::from_str(t)
}

/// Appends the decimal form of `n`.
pub fn push_decimal(s: &mut String, n: u64)
    ensures
        final(s)@ == old(s)@ + decimal(n as nat),
    decreases n,
{
    if n < 10 {
        let c = ((n as u8) + 48u8) as char;
        push_char(s, c);
        assert(decimal(n as nat) =~= seq![c]);
    } else {
        let ghost before = s@;
        push_decimal(s, n / 10);
        let c = (((n % 10) as u8) + 48u8) as char;
        push_char(s, c);
        assert(decimal(n as nat) =~= decimal((n / 10) as nat).push(c));
        assert(s@ =~= before + decimal(n as nat));
    }
}

/// Appends the decimal form of a signed integer.
pub fn push_signed_decimal(s: &mut String, n: i64)
    ensures
        final(s)@ == old(s)@ + signed_decimal(n as int),
{
    if n < 0 {
        push_char(s, '-');
        let m: u64 = if n == i64::MIN { 9223372036854775808u64 } else { (-n) as u64 };
        let ghost mid = s@;
        push_decimal(s, m);
        assert(s@ =~= old(s)@ + signed_decimal(n as int));
    } else {
        push_decimal(s, n as u64);
    }
}

/// The decimal form of `n` as a new string.
pub fn decimal_string(n: u64) -> (s: String)
    ensures
        s@ == decimal(n as nat),
{
    let mut s = String::new();
    push_decimal(&mut s, n);
    assert(s@ =~= decimal(n as nat));
    s
}

/// Whether `c` is an ASCII decimal digit.
pub open spec fn is_digit(c: char) -> bool {
    '0' <= c && c <= '9'
}

/// The value of a sequence of decimal digits (most significant first).
pub open spec fn digits_value(s: Seq<char>) -> nat
    decreases s.len(),
{
    if s.len() == 0 {
        0
    } else {
        digits_value(s.drop_last()) * 10 + ((s.last() as u32) - 48) as nat
    }
}

/// Parses a non-empty run of ASCII digits as a `u32`; `None` for an empty
/// sequence, any other character, or a value above `u32::MAX`.
pub fn parse_u32_digits(s: &[char]) -> (r: Option<u32>)
    ensures
        r is Some <==> (s@.len() > 0 && (forall|i: int| 0 <= i < s@.len() ==> is_digit(#[trigger] s@[i]))
            && digits_value(s@) <= u32::MAX),
        r matches Some(v) ==> v == digits_value(s@),
{
    if s.len() == 0 {
        return None;
    }
    let mut value: u64 = 0;
    let mut i: usize = 0;
    while i < s.len()
        invariant
            i <= s.len(),
            forall|j: int| 0 <= j < i ==> is_digit(#[trigger] s@[j]),
            value == digits_value(s@.take(i as int)),
            value <= u32::MAX,
        decreases s.len() - i,
    {
        let c = s[i];
        assert(s@.take(i + 1).drop_last() =~= s@.take(i as int));
        if !('0' <= c && c <= '9') {
            return None;
        }
        let next = value * 10 + ((c as u32) - 48) as u64;
        if next > 4294967295u64 {
            proof {
                lemma_digits_value_prefix_monotone(s@, i + 1);
            }
            return None;
        }
        value = next;
        i += 1;
    }
    assert(s@.take(s.len() as int) =~= s@);
    Some(value as u32)
}

/// A longer all-digit prefix never has a smaller value.
pub proof fn lemma_digits_value_prefix_monotone(s: Seq<char>, k: int)
    requires
        0 <= k <= s.len(),
        forall|j: int| 0 <= j < k ==> is_digit(#[trigger] s[j]),
    ensures
        (forall|j: int| 0 <= j < s.len() ==> is_digit(#[trigger] s[j])) ==> digits_value(s.take(k))
            <= digits_value(s),
    decreases s.len() - k,
{
    if k < s.len() && (forall|j: int| 0 <= j < s.len() ==> is_digit(#[trigger] s[j])) {
        lemma_digits_value_prefix_monotone(s, k + 1);
        assert(s.take(k + 1).drop_last() =~= s.take(k));
        assert(is_digit(s[k]));
    }
    if k == s.len() {
        assert(s.take(k) =~= s);
    }
}


/// Whether `s` begins with `p`.
pub open spec fn starts_with(s: Seq<char>, p: Seq<char>) -> bool {
    p.len() <= s.len() && s.take(p.len() as int) == p
}

/// Whether the characters `v` begin with the string `p`.
pub fn chars_start_with(v: &[char], p: &str) -> (r: bool)
    ensures
        r == starts_with(v@, p@),
{
    let w = str_chars(p);
    if w.len() > v.len() {
        return false;
    }
    let mut i: usize = 0;
    while i < w.len()
        invariant
            i <= w@.len(),
            w@.len() <= v@.len(),
            w@ == p@,
            forall|j: int| 0 <= j < i ==> v@[j] == w@[j],
        decreases w.len() - i,
    {
        if v[i] != w[i] {
            assert(v@.take(w@.len() as int)[i as int] != w@[i as int]);
            return false;
        }
        i += 1;
    }
    assert(v@.take(w@.len() as int) =~= w@);
    true
}

/// The digits of an unsigned number: the text without one leading `+`.
pub open spec fn unsigned_body(s: Seq<char>) -> Seq<char> {
    if s.len() > 0 && s[0] == '+' {
        s.drop_first()
    } else {
        s
    }
}

/// What `u8::from_str` gives: an optional `+`, then at least one decimal digit,
/// with a value of at most 255.
pub open spec fn parse_u8_spec(s: Seq<char>) -> Option<u8> {
    let body = unsigned_body(s);
    if body.len() > 0 && (forall|i: int| 0 <= i < body.len() ==> is_digit(#[trigger] body[i])) && digits_value(body)
        <= 255 {
        Some(digits_value(body) as u8)
    } else {
        None
    }
}

/// Parses a `u8` as `u8::from_str` does (see [`parse_u8_spec`]).
pub fn parse_u8(s: &[char]) -> (r: Option<u8>)
    ensures
        r == parse_u8_spec(s@),
{
    let body = if s.len() > 0 && s[0] == '+' {
        vstd::slice::slice_subrange(s, 1, s.len())
    } else {
        s
    };
    let ghost b = unsigned_body(s@);
    proof {
        if s@.len() > 0 && s@[0] == '+' {
            assert(body@ =~= s@.drop_first());
        }
    }
    assert(body@ == b);
    let digits = parse_u32_digits(body);
    match digits {
        Some(v) => {
            if v <= 255 {
                assert(parse_u8_spec(s@) == Some(digits_value(b) as u8));
                let out = Some(v as u8);
                assert(out == parse_u8_spec(s@));
                out
            } else {
                assert(digits_value(b) > 255);
                assert(parse_u8_spec(s@) is None);
                None
            }
        },
        None => {
            assert(!(b.len() > 0 && (forall|i: int| 0 <= i < b.len() ==> is_digit(#[trigger] b[i])) && digits_value(b)
                <= u32::MAX));
            proof {
                if b.len() > 0 && (forall|i: int| 0 <= i < b.len() ==> is_digit(#[trigger] b[i])) {
                    assert(digits_value(b) > 255);
                }
            }
            assert(parse_u8_spec(s@) is None);
            None
        },
    }
}


/// What `u32::from_str` gives: an optional `+`, then at least one decimal
/// digit, with a value of at most `u32::MAX`.
pub open spec fn parse_u32_spec(s: Seq<char>) -> Option<u32> {
    let body = unsigned_body(s);
    if body.len() > 0 && (forall|i: int| 0 <= i < body.len() ==> is_digit(#[trigger] body[i])) && digits_value(body)
        <= u32::MAX {
        Some(digits_value(body) as u32)
    } else {
        None
    }
}

/// Parses a `u32` as `u32::from_str` does (see [`parse_u32_spec`]).
pub fn parse_u32(s: &[char]) -> (r: Option<u32>)
    ensures
        r == parse_u32_spec(s@),
{
    let body = if s.len() > 0 && s[0] == '+' {
        vstd::slice::slice_subrange(s, 1, s.len())
    } else {
        s
    };
    proof {
        if s@.len() > 0 && s@[0] == '+' {
            assert(body@ =~= s@.drop_first());
        }
    }
    parse_u32_digits(body)
}

/// Whether `c` is white space as `char::is_whitespace` has it (the Unicode
/// `White_Space` property).
pub open spec fn is_white_space(c: char) -> bool {
    ('\u{9}' <= c && c <= '\u{d}') || c == ' ' || c == '\u{85}' || c == '\u{a0}' || c == '\u{1680}' || ('\u{2000}'
        <= c && c <= '\u{200a}') || c == '\u{2028}' || c == '\u{2029}' || c == '\u{202f}' || c == '\u{205f}' || c
        == '\u{3000}'
}

/// Whether `c` is white space.
pub fn char_is_white_space(c: char) -> (r: bool)
    ensures
        r == is_white_space(c),
{
    ('\u{9}' <= c && c <= '\u{d}') || c == ' ' || c == '\u{85}' || c == '\u{a0}' || c == '\u{1680}' || ('\u{2000}'
        <= c && c <= '\u{200a}') || c == '\u{2028}' || c == '\u{2029}' || c == '\u{202f}' || c == '\u{205f}' || c
        == '\u{3000}'
}

/// The number of white-space characters at the start of `s`.
pub open spec fn leading_space(s: Seq<char>) -> nat
    decreases s.len(),
{
    if s.len() > 0 && is_white_space(s[0]) {
        1 + leading_space(s.drop_first())
    } else {
        0
    }
}

/// The number of white-space characters at the end of `s`.
pub open spec fn trailing_space(s: Seq<char>) -> nat
    decreases s.len(),
{
    if s.len() > 0 && is_white_space(s.last()) {
        1 + trailing_space(s.drop_last())
    } else {
        0
    }
}

/// `s` without white space at either end, as `str::trim` gives it.
pub open spec fn trim_spec(s: Seq<char>) -> Seq<char> {
    let t = s.skip(leading_space(s) as int);
    t.take(t.len() - trailing_space(t))
}

proof fn lemma_leading_space(s: Seq<char>, i: int)
    requires
        0 <= i <= s.len(),
        forall|j: int| 0 <= j < i ==> is_white_space(#[trigger] s[j]),
        i == s.len() || !is_white_space(s[i]),
    ensures
        leading_space(s) == i,
    decreases i,
{
    if i > 0 {
        assert forall|j: int| 0 <= j < i - 1 implies is_white_space(#[trigger] s.drop_first()[j]) by {
            assert(s.drop_first()[j] == s[j + 1]);
        }
        if i < s.len() {
            assert(s.drop_first()[i - 1] == s[i]);
        }
        lemma_leading_space(s.drop_first(), i - 1);
    }
}

proof fn lemma_trailing_space(s: Seq<char>, k: int)
    requires
        0 <= k <= s.len(),
        forall|j: int| s.len() - k <= j < s.len() ==> is_white_space(#[trigger] s[j]),
        k == s.len() || !is_white_space(s[s.len() - k - 1]),
    ensures
        trailing_space(s) == k,
    decreases k,
{
    if k > 0 {
        let d = s.drop_last();
        assert forall|j: int| d.len() - (k - 1) <= j < d.len() implies is_white_space(#[trigger] d[j]) by {
            assert(d[j] == s[j]);
        }
        if k < s.len() {
            assert(d[d.len() - (k - 1) - 1] == s[s.len() - k - 1]);
        }
        lemma_trailing_space(d, k - 1);
    }
}

/// `v` without white space at either end (see [`trim_spec`]).
pub fn trim_chars(v: &[char]) -> (r: Vec<char>)
    ensures
        r@ == trim_spec(v@),
{
    let n = v.len();
    let mut a: usize = 0;
    while a < n && char_is_white_space(v[a])
        invariant
            a <= n,
            n == v@.len(),
            forall|j: int| 0 <= j < a ==> is_white_space(#[trigger] v@[j]),
        decreases n - a,
    {
        a += 1;
    }
    proof {
        lemma_leading_space(v@, a as int);
    }
    let ghost t = v@.skip(a as int);
    let mut k: usize = 0;
    while k < n - a && char_is_white_space(v[n - 1 - k])
        invariant
            a <= n,
            n == v@.len(),
            t == v@.skip(a as int),
            k <= n - a,
            forall|j: int| t.len() - k <= j < t.len() ==> is_white_space(#[trigger] t[j]),
        decreases n - a - k,
    {
        assert(t[t.len() - k - 1] == v@[n - 1 - k]);
        k += 1;
    }
    proof {
        if k < n - a {
            assert(t[t.len() - k - 1] == v@[n - 1 - k]);
        }
        lemma_trailing_space(t, k as int);
    }
    let mut out: Vec<char> = Vec::new();
    let mut i: usize = a;
    while i < n - k
        invariant
            a <= i <= n - k,
            k <= n - a,
            n == v@.len(),
            out@ == v@.subrange(a as int, i as int),
        decreases n - k - i,
    {
        out.push(v[i]);
        i += 1;
        assert(out@ =~= v@.subrange(a as int, i as int));
    }
    assert(out@ =~= trim_spec(v@));
    out
}

/// The index of the first `c` in `s` at or after `from`.
pub open spec fn find_char_from(s: Seq<char>, c: char, from: int) -> Option<int>
    decreases s.len() - from,
{
    if from < 0 || from >= s.len() {
        None
    } else if s[from] == c {
        Some(from)
    } else {
        find_char_from(s, c, from + 1)
    }
}

/// The index of the first `c` in `s`.
pub open spec fn find_char(s: Seq<char>, c: char) -> Option<int> {
    find_char_from(s, c, 0)
}

/// A found `c` is a `c` at or after `from`.
pub proof fn lemma_find_char_from_bounds(s: Seq<char>, c: char, from: int)
    ensures
        find_char_from(s, c, from) matches Some(i) ==> from <= i < s.len() && s[i] == c,
    decreases s.len() - from,
{
    if 0 <= from < s.len() && s[from] != c {
        lemma_find_char_from_bounds(s, c, from + 1);
    }
}

/// The index of the first `c` in `v`.
pub fn find_char_index(v: &[char], c: char) -> (r: Option<usize>)
    ensures
        r matches Some(i) ==> find_char(v@, c) == Some(i as int) && i < v@.len() && v@[i as int] == c,
        r is None ==> find_char(v@, c) is None,
{
    proof {
        lemma_find_char_from_bounds(v@, c, 0);
    }
    let mut i: usize = 0;
    while i < v.len()
        invariant
            i <= v@.len(),
            find_char(v@, c) == find_char_from(v@, c, i as int),
        decreases v.len() - i,
    {
        if v[i] == c {
            return Some(i);
        }
        i += 1;
    }
    None
}

/// The index of the first occurrence of `p` in `s` at or after `from`.
pub open spec fn find_seq_from(s: Seq<char>, p: Seq<char>, from: int) -> Option<int>
    decreases s.len() + 1 - from,
{
    if from < 0 || from + p.len() > s.len() {
        None
    } else if s.subrange(from, from + p.len()) == p {
        Some(from)
    } else {
        find_seq_from(s, p, from + 1)
    }
}

/// The index of the first occurrence of `p` in `s`.
pub open spec fn find_seq(s: Seq<char>, p: Seq<char>) -> Option<int> {
    find_seq_from(s, p, 0)
}

/// A found occurrence lies inside `s`, at or after `from`.
pub proof fn lemma_find_seq_from_bounds(s: Seq<char>, p: Seq<char>, from: int)
    ensures
        find_seq_from(s, p, from) matches Some(i) ==> from <= i && i + p.len() <= s.len() && s.subrange(i, i + p.len())
            == p,
    decreases s.len() + 1 - from,
{
    if 0 <= from && from + p.len() <= s.len() && s.subrange(from, from + p.len()) != p {
        lemma_find_seq_from_bounds(s, p, from + 1);
    }
}

/// The index of the first occurrence of `p` in `v`.
pub fn find_seq_index(v: &[char], p: &[char]) -> (r: Option<usize>)
    ensures
        r matches Some(i) ==> find_seq(v@, p@) == Some(i as int) && i + p@.len() <= v@.len(),
        r is None ==> find_seq(v@, p@) is None,
{
    proof {
        lemma_find_seq_from_bounds(v@, p@, 0);
    }
    let n = v.len();
    let m = p.len();
    if m > n {
        return None;
    }
    let mut i: usize = 0;
    while i <= n - m
        invariant
            m <= n,
            n == v@.len(),
            m == p@.len(),
            i <= n - m + 1,
            find_seq(v@, p@) == find_seq_from(v@, p@, i as int),
        decreases n - m + 1 - i,
    {
        let mut j: usize = 0;
        while j < m && v[i + j] == p[j]
            invariant
                j <= m,
                i + m <= n,
                m <= n,
                n == v@.len(),
                m == p@.len(),
                forall|t: int| 0 <= t < j ==> v@[i + t] == p@[t],
            decreases m - j,
        {
            j += 1;
        }
        if j == m {
            assert(v@.subrange(i as int, i + m) =~= p@);
            return Some(i);
        }
        assert(v@.subrange(i as int, i + m)[j as int] != p@[j as int]);
        i += 1;
    }
    None
}

/// `v` with ASCII upper-case letters made lower-case.
pub fn ascii_lowercase_chars(v: &[char]) -> (r: Vec<char>)
    ensures
        r@ == ascii_lower_seq(v@),
{
    let n = v.len();
    let mut lower: Vec<char> = Vec::new();
    let mut i: usize = 0;
    while i < n
        invariant
            n == v@.len(),
            i <= n,
            lower@ == ascii_lower_seq(v@.take(i as int)),
        decreases n - i,
    {
        let c = v[i];
        let l = if 'A' <= c && c <= 'Z' { ((c as u32) + 32) as u8 as char } else { c };
        assert(l == ascii_lower(c));
        lower.push(l);
        i += 1;
        assert(lower@ =~= ascii_lower_seq(v@.take(i as int)));
    }
    assert(v@.take(n as int) =~= v@);
    lower
}

/// The decimal form of a number is a non-empty run of digits with that value.
pub proof fn lemma_decimal_value(n: nat)
    ensures
        decimal(n).len() > 0,
        forall|i: int| 0 <= i < decimal(n).len() ==> is_digit(#[trigger] decimal(n)[i]),
        digits_value(decimal(n)) == n,
    decreases n,
{
    if n < 10 {
        let s = decimal(n);
        assert(s.drop_last() =~= Seq::<char>::empty());
        assert(s.last() == digit_char(n as int));
        assert((digit_char(n as int) as u32) == 48 + n);
        assert(digits_value(s.drop_last()) == 0);
        assert(digits_value(s) == digits_value(s.drop_last()) * 10 + ((s.last() as u32) - 48) as nat);
    } else {
        lemma_decimal_value(n / 10);
        let s = decimal(n);
        assert(s.drop_last() =~= decimal(n / 10));
        assert(s.last() == digit_char((n % 10) as int));
        assert((digit_char((n % 10) as int) as u32) == 48 + n % 10);
        assert(n == (n / 10) * 10 + n % 10);
        assert(digits_value(s.drop_last()) == n / 10);
        assert(digits_value(s) == digits_value(s.drop_last()) * 10 + ((s.last() as u32) - 48) as nat);
        assert forall|i: int| 0 <= i < s.len() implies is_digit(#[trigger] s[i]) by {
            if i < s.len() - 1 {
                assert(s[i] == decimal(n / 10)[i]);
            }
        }
    }
}


/// The texts of a list of strings.
pub open spec fn text_lines(v: Seq<String>) -> Seq<Seq<char>> {
    v.map_values(|s: String| s@)
}

/// Appends a line to a list of lines.
pub fn push_line(lines: &mut Vec<String>, line: String)
    ensures
        text_lines(final(lines)@) == text_lines(old(lines)@).push(line@),
{
    let ghost before = lines@;
    lines.push(line);
    assert(text_lines(lines@) =~= text_lines(before).push(line@));
}

/// A string made of two texts.
pub fn concat2(a: &str, b: &str) -> (s: String)
    ensures
        s@ == a@ + b@,
{
    let mut s = string_from_str(a);
    push_str(&mut s, b);
    s
}

/// A string made of three texts.
pub fn concat3(a: &str, b: &str, c: &str) -> (s: String)
    ensures
        s@ == a@ + b@ + c@,
{
    let mut s = string_from_str(a);
    push_str(&mut s, b);
    push_str(&mut s, c);
    s
}


/// The line `prefix + value` when there is a value, else no line.
pub open spec fn opt_line(prefix: Seq<char>, o: Option<Seq<char>>) -> Seq<Seq<char>> {
    match o {
        Some(v) => seq![prefix + v],
        None => Seq::empty(),
    }
}

/// The text of an optional string.
pub open spec fn opt_text(o: Option<String>) -> Option<Seq<char>> {
    match o {
        Some(s) => Some(s@),
        None => None,
    }
}

/// The text of an optional string slice.
pub open spec fn opt_str(o: Option<&str>) -> Option<Seq<char>> {
    match o {
        Some(s) => Some(s@),
        None => None,
    }
}

/// Appends the line `prefix + value` when there is a value.
pub fn push_opt_line(lines: &mut Vec<String>, prefix: &str, value: Option<&str>)
    ensures
        text_lines(final(lines)@) == text_lines(old(lines)@) + opt_line(prefix@, opt_str(value)),
{
    let ghost before = text_lines(lines@);
    match value {
        Some(v) => push_line(lines, concat2(prefix, v)),
        None => {},
    }
    assert(text_lines(lines@) =~= before + opt_line(prefix@, opt_str(value)));
}

/// The string slice of an optional string.
pub fn opt_as_str(o: &Option<String>) -> (r: Option<&str>)
    ensures
        opt_str(r) == opt_text(*o),
{
    match o {
        Some(s) => Some(s.as_str()),
        None => None,
    }
}


/// The line `prefix + t`, or no line for an empty `t`.
pub open spec fn nonblank_line(prefix: Seq<char>, t: Seq<char>) -> Seq<Seq<char>> {
    if t.len() == 0 {
        Seq::empty()
    } else {
        seq![prefix + t]
    }
}

/// The lines of a text, split at each `\n`, each without surrounding white
/// space and written after `prefix`; blank lines are left out.
pub open spec fn prefixed_lines(prefix: Seq<char>, s: Seq<char>) -> Seq<Seq<char>>
    decreases s.len(),
{
    match find_char(s, '\n') {
        None => nonblank_line(prefix, trim_spec(s)),
        Some(i) => if 0 <= i < s.len() {
            nonblank_line(prefix, trim_spec(s.take(i))) + prefixed_lines(prefix, s.skip(i + 1))
        } else {
            Seq::empty()
        },
    }
}

fn push_nonblank_line(lines: &mut Vec<String>, prefix: &str, t: &[char])
    ensures
        text_lines(final(lines)@) == text_lines(old(lines)@) + nonblank_line(prefix@, trim_spec(t@)),
{
    let ghost before = text_lines(lines@);
    let trimmed = trim_chars(t);
    if trimmed.len() > 0 {
        let mut line = string_from_str(prefix);
        let body = string_from_chars(trimmed.as_slice());
        push_str(&mut line, body.as_str());
        push_line(lines, line);
    }
    assert(text_lines(lines@) =~= before + nonblank_line(prefix@, trim_spec(t@)));
}

/// Appends the lines of a text after `prefix` (see [`prefixed_lines`]).
pub fn push_prefixed_lines(lines: &mut Vec<String>, prefix: &str, text: &str)
    ensures
        text_lines(final(lines)@) == text_lines(old(lines)@) + prefixed_lines(prefix@, text@),
{
    let ghost target = text_lines(lines@) + prefixed_lines(prefix@, text@);
    let v = str_chars(text);
    let n = v.len();
    let mut start: usize = 0;
    let mut done = false;
    assert(v@.skip(0) =~= v@);
    while !done
        invariant
            n == v@.len(),
            v@ == text@,
            start <= n,
            done ==> text_lines(lines@) == target,
            !done ==> text_lines(lines@) + prefixed_lines(prefix@, v@.skip(start as int)) == target,
        decreases (if done { 0 } else { n - start + 1 }),
    {
        let rest = vstd::slice::slice_subrange(v.as_slice(), start, n);
        assert(rest@ =~= v@.skip(start as int));
        proof {
            lemma_find_char_from_bounds(rest@, '\n', 0);
        }
        match find_char_index(rest, '\n') {
            None => {
                let ghost before = text_lines(lines@);
                push_nonblank_line(lines, prefix, rest);
                assert(text_lines(lines@) =~= before + prefixed_lines(prefix@, v@.skip(start as int)));
                done = true;
            },
            Some(i) => {
                let ghost before = text_lines(lines@);
                let head = vstd::slice::slice_subrange(rest, 0, i);
                assert(head@ =~= rest@.take(i as int));
                push_nonblank_line(lines, prefix, head);
                assert(rest@.skip(i + 1) =~= v@.skip(start + i + 1));
                assert(text_lines(lines@) + prefixed_lines(prefix@, v@.skip(start + i + 1)) =~= before
                    + prefixed_lines(prefix@, rest@));
                start = start + i + 1;
            },
        }
    }
}


/// The number of white-space characters at the start of `v` (see
/// [`leading_space`]).
pub fn leading_space_count(v: &[char]) -> (r: usize)
    ensures
        r == leading_space(v@),
        r <= v@.len(),
{
    let n = v.len();
    let mut a: usize = 0;
    while a < n && char_is_white_space(v[a])
        invariant
            a <= n,
            n == v@.len(),
            forall|j: int| 0 <= j < a ==> is_white_space(#[trigger] v@[j]),
        decreases n - a,
    {
        a += 1;
    }
    proof {
        lemma_leading_space(v@, a as int);
    }
    a
}

/// Whether `c` occurs in `s`.
pub open spec fn has_char(s: Seq<char>, c: char) -> bool {
    exists|i: int| 0 <= i < s.len() && s[i] == c
}

/// Whether `c` occurs in `v`.
pub fn chars_contain(v: &[char], c: char) -> (r: bool)
    ensures
        r == has_char(v@, c),
{
    let mut i: usize = 0;
    while i < v.len()
        invariant
            i <= v@.len(),
            forall|j: int| 0 <= j < i ==> v@[j] != c,
        decreases v.len() - i,
    {
        if v[i] == c {
            return true;
        }
        i += 1;
    }
    false
}


/// `s` with every occurrence of `p` replaced by `r`, scanning from the left
/// and never inside a replaced occurrence (as `str::replace` does).
pub open spec fn replace_all(s: Seq<char>, p: Seq<char>, r: Seq<char>) -> Seq<char>
    decreases s.len(),
{
    if p.len() == 0 || s.len() < p.len() {
        s
    } else if s.take(p.len() as int) == p {
        r + replace_all(s.skip(p.len() as int), p, r)
    } else {
        seq![s[0]] + replace_all(s.drop_first(), p, r)
    }
}

/// `v` with every occurrence of `p` replaced by `r` (see [`replace_all`]).
pub fn replace_chars(v: &[char], p: &[char], r: &[char]) -> (out: Vec<char>)
    requires
        p@.len() > 0,
    ensures
        out@ == replace_all(v@, p@, r@),
{
    let n = v.len();
    let m = p.len();
    let mut out: Vec<char> = Vec::new();
    let mut i: usize = 0;
    assert(v@.skip(0) =~= v@);
    while i < n
        invariant
            n == v@.len(),
            m == p@.len(),
            m > 0,
            i <= n,
            out@ + replace_all(v@.skip(i as int), p@, r@) == replace_all(v@, p@, r@),
        decreases n - i,
    {
        let ghost rest = v@.skip(i as int);
        let ghost before = out@;
        let mut matched = m <= n - i;
        if matched {
            let mut j: usize = 0;
            while j < m
                invariant
                    i + m <= n,
                    n == v@.len(),
                    m == p@.len(),
                    j <= m,
                    matched == (forall|t: int| 0 <= t < j ==> v@[i + t] == p@[t]),
                decreases m - j,
            {
                if v[i + j] != p[j] {
                    matched = false;
                }
                j += 1;
            }
            if matched {
                assert(rest.take(m as int) =~= p@);
            } else {
                proof {
                    let t = choose|t: int| 0 <= t < m && v@[i + t] != p@[t];
                    assert(rest.take(m as int)[t] != p@[t]);
                }
            }
        }
        if matched {
            let mut k: usize = 0;
            while k < r.len()
                invariant
                    k <= r@.len(),
                    out@ == before + r@.take(k as int),
                decreases r.len() - k,
            {
                out.push(r[k]);
                k += 1;
                assert(out@ =~= before + r@.take(k as int));
            }
            assert(r@.take(r@.len() as int) =~= r@);
            assert(rest.skip(m as int) =~= v@.skip(i + m));
            i = i + m;
        } else {
            out.push(v[i]);
            assert(rest.drop_first() =~= v@.skip(i + 1));
            assert(out@ + replace_all(v@.skip(i + 1), p@, r@) =~= before + (seq![v@[i as int]] + replace_all(
                rest.drop_first(),
                p@,
                r@,
            )));
            i = i + 1;
        }
    }
    assert(v@.skip(n as int) =~= Seq::<char>::empty());
    assert(out@ + replace_all(Seq::<char>::empty(), p@, r@) =~= out@);
    out
}


/// The index of the first character of `s` at or after `from` that is `a`
/// or `b`.
pub open spec fn find_either_from(s: Seq<char>, a: char, b: char, from: int) -> Option<int>
    decreases s.len() - from,
{
    if from < 0 || from >= s.len() {
        None
    } else if s[from] == a || s[from] == b {
        Some(from)
    } else {
        find_either_from(s, a, b, from + 1)
    }
}

/// The index of the first character of `v` that is `a` or `b`.
pub fn find_either_index(v: &[char], a: char, b: char) -> (r: Option<usize>)
    ensures
        r matches Some(i) ==> find_either_from(v@, a, b, 0) == Some(i as int) && i < v@.len(),
        r is None ==> find_either_from(v@, a, b, 0) is None,
{
    let mut i: usize = 0;
    while i < v.len()
        invariant
            i <= v@.len(),
            find_either_from(v@, a, b, 0) == find_either_from(v@, a, b, i as int),
        decreases v.len() - i,
    {
        if v[i] == a || v[i] == b {
            return Some(i);
        }
        i += 1;
    }
    None
}

/// `s` without white space at its end, as `str::trim_end` gives it.
pub open spec fn trim_end_spec(s: Seq<char>) -> Seq<char> {
    s.take(s.len() - trailing_space(s))
}

/// `v` without white space at its end (see [`trim_end_spec`]).
pub fn trim_end_chars(v: &[char]) -> (r: Vec<char>)
    ensures
        r@ == trim_end_spec(v@),
{
    let n = v.len();
    let mut k: usize = 0;
    while k < n && char_is_white_space(v[n - 1 - k])
        invariant
            n == v@.len(),
            k <= n,
            forall|j: int| n - k <= j < n ==> is_white_space(#[trigger] v@[j]),
        decreases n - k,
    {
        k += 1;
    }
    proof {
        lemma_trailing_space(v@, k as int);
    }
    let mut out: Vec<char> = Vec::new();
    let mut i: usize = 0;
    while i < n - k
        invariant
            k <= n,
            n == v@.len(),
            i <= n - k,
            out@ == v@.take(i as int),
        decreases n - k - i,
    {
        out.push(v[i]);
        i += 1;
        assert(out@ =~= v@.take(i as int));
    }
    out
}


/// `v` with ASCII lower-case letters made upper-case.
pub fn ascii_uppercase_chars(v: &[char]) -> (r: Vec<char>)
    ensures
        r@ == ascii_upper_seq(v@),
{
    let n = v.len();
    let mut upper: Vec<char> = Vec::new();
    let mut i: usize = 0;
    while i < n
        invariant
            n == v@.len(),
            i <= n,
            upper@ == ascii_upper_seq(v@.take(i as int)),
        decreases n - i,
    {
        let c = v[i];
        let u = if 'a' <= c && c <= 'z' { ((c as u32) - 32) as u8 as char } else { c };
        assert(u == ascii_upper(c));
        upper.push(u);
        i += 1;
        assert(upper@ =~= ascii_upper_seq(v@.take(i as int)));
    }
    assert(v@.take(n as int) =~= v@);
    upper
}


/// Whether a text has no white space at either end.
pub open spec fn is_trimmed(s: Seq<char>) -> bool {
    s.len() > 0 ==> !is_white_space(s[0]) && !is_white_space(s.last())
}

/// A text with no white space at either end is its own trimmed form.
pub proof fn lemma_trim_of_trimmed(s: Seq<char>)
    requires
        is_trimmed(s),
    ensures
        trim_spec(s) == s,
{
    if s.len() > 0 {
        lemma_leading_space(s, 0);
        assert(s.skip(0) =~= s);
        lemma_trailing_space(s, 0);
        assert(s.take(s.len() as int) =~= s);
    } else {
        assert(leading_space(s) == 0);
        assert(s.skip(0) =~= s);
        assert(trailing_space(s) == 0);
        assert(s.take(0) =~= s);
    }
}

/// The first `c` of `a + [c] + b`, when `a` holds no `c`, is right after
/// `a`.
pub proof fn lemma_find_char_after(a: Seq<char>, c: char, b: Seq<char>, k: int)
    requires
        0 <= k <= a.len(),
        forall|j: int| 0 <= j < a.len() ==> a[j] != c,
    ensures
        find_char_from(a + seq![c] + b, c, k) == Some(a.len() as int),
    decreases a.len() - k,
{
    let s = a + seq![c] + b;
    if k < a.len() {
        assert(s[k] == a[k]);
        lemma_find_char_after(a, c, b, k + 1);
    } else {
        assert(s[a.len() as int] == c);
    }
}

} // verus!
