//! Side to move.
use vstd::prelude::*;
use vstd::std_specs::iter::IteratorSpec;
use crate::text::{ascii_lower_seq, str_chars, string_from_str};

verus! {

/// A side: Black (sente) moves first, White (gote) second.
#[derive(Clone, Copy, Debug, PartialEq, Eq, Hash, Structural)]
pub enum Color {
    Black,
    White,
}

impl Color {
    pub const BLACK: Color = Color::Black;
    pub const WHITE: Color = Color::White;
    pub const ZERO: Color = Color::Black;
    pub const COUNT: usize = 2;

    /// The numeric index of a side: 0 for Black, 1 for White.
    pub open spec fn index_spec(self) -> int {
        match self {
            Color::Black => 0,
            Color::White => 1,
        }
    }

    /// The other side.
    pub open spec fn flip_spec(self) -> Color {
        match self {
            Color::Black => Color::White,
            Color::White => Color::Black,
        }
    }

    /// Black for raw 0, White for any other value.
    pub fn new(raw: u8) -> (r: Color)
        ensures
            r == (if raw == 0 { Color::Black } else { Color::White }),
    {
        if raw == 0 { Color::Black } else { Color::White }
    }

    /// Black for 0, White for 1, `None` otherwise.
    pub fn from_i8(raw: i8) -> (r: Option<Color>)
        ensures
            r == (if raw == 0 { Some(Color::Black) } else if raw == 1 { Some(Color::White) } else { None }),
    {
        if raw == 0 {
            Some(Color::Black)
        } else if raw == 1 {
            Some(Color::White)
        } else {
            None
        }
    }

    pub fn raw(self) -> (r: i8)
        ensures
            r == self.index_spec(),
    {
        match self {
            Color::Black => 0,
            Color::White => 1,
        }
    }

    pub fn to_index(self) -> (r: usize)
        ensures
            r == self.index_spec(),
    {
        match self {
            Color::Black => 0,
            Color::White => 1,
        }
    }

    pub fn flip(self) -> (r: Color)
        ensures
            r == self.flip_spec(),
    {
        match self {
            Color::Black => Color::White,
            Color::White => Color::Black,
        }
    }

    /// Both sides in index order.
    pub fn iter() -> (r: std::vec::IntoIter<Color>)
        ensures
            r.remaining() == seq![Color::Black, Color::White],
    {
        let mut v: Vec<Color> = Vec::new();
        v.push(Color::Black);
        v.push(Color::White);
        proof {
            vstd::std_specs::vec::axiom_spec_into_iter(v);
        }
        assert(v@ =~= seq![Color::Black, Color::White]);
        v.into_iter()
    }

    /// The English name of the side, as `Display` would print it.
    pub fn to_string(&self) -> (r: String)
        ensures
            r@ == (if *self == Color::Black { "Black"@ } else { "White"@ }),
    {
        match self {
            Color::Black => string_from_str("Black"),
            Color::White => string_from_str("White"),
        }
    }

    /// Parses `black`/`b`/`white`/`w`, ignoring ASCII case.
    pub fn parse_text(value: &str) -> (r: Result<Color, &'static str>)
        ensures
            r == (if ascii_lower_seq(value@) == "black"@ || ascii_lower_seq(value@) == "b"@ {
                Ok(Color::Black)
            } else if ascii_lower_seq(value@) == "white"@ || ascii_lower_seq(value@) == "w"@ {
                Ok(Color::White)
            } else {
                Err("invalid color")
            }),
    {
        proof {
            reveal_strlit("black");
            reveal_strlit("b");
            reveal_strlit("white");
            reveal_strlit("w");
        }
        let v = str_chars(value);
        let n = v.len();
        let mut lower: Vec<char> = Vec::new();
        let mut i: usize = 0;
        while i < n
            invariant
                n == v.len(),
                i <= n,
                lower@ == ascii_lower_seq(v@.take(i as int)),
            decreases n - i,
        {
            let c = v[i];
            let l = if 'A' <= c && c <= 'Z' { ((c as u32) + 32) as u8 as char } else { c };
            assert(l == crate::text::ascii_lower(c));
            lower.push(l);
            i += 1;
            assert(lower@ =~= ascii_lower_seq(v@.take(i as int)));
        }
        assert(v@.take(n as int) =~= v@);
        let l = &lower;
        if l.len() == 5 && l[0] == 'b' && l[1] == 'l' && l[2] == 'a' && l[3] == 'c' && l[4] == 'k' {
            assert(lower@ =~= "black"@);
            return Ok(Color::Black);
        }
        if l.len() == 1 && l[0] == 'b' {
            assert(lower@ =~= "b"@);
            return Ok(Color::Black);
        }
        if l.len() == 5 && l[0] == 'w' && l[1] == 'h' && l[2] == 'i' && l[3] == 't' && l[4] == 'e' {
            assert(lower@ =~= "white"@);
            return Ok(Color::White);
        }
        if l.len() == 1 && l[0] == 'w' {
            assert(lower@ =~= "w"@);
            return Ok(Color::White);
        }
        Err("invalid color")
    }
}

impl vstd::std_specs::ops::NotSpecImpl for Color {
    open spec fn obeys_not_spec() -> bool {
        true
    }

    open spec fn not_req(self) -> bool {
        true
    }

    open spec fn not_spec(self) -> Color {
        self.flip_spec()
    }
}

impl core::ops::Not for Color {
    type Output = Color;

    fn not(self) -> (r: Color) {
        self.flip()
    }
}

impl vstd::std_specs::convert::TryFromSpecImpl<u8> for Color {
    open spec fn obeys_try_from_spec() -> bool {
        true
    }

    open spec fn try_from_spec(raw: u8) -> Result<Color, &'static str> {
        if raw == 0 {
            Ok(Color::Black)
        } else if raw == 1 {
            Ok(Color::White)
        } else {
            Err("invalid color")
        }
    }
}

impl core::convert::TryFrom<u8> for Color {
    type Error = &'static str;

    fn try_from(raw: u8) -> (r: Result<Color, &'static str>) {
        if raw == 0 {
            Ok(Color::Black)
        } else if raw == 1 {
            Ok(Color::White)
        } else {
            Err("invalid color")
        }
    }
}

impl core::str::FromStr for Color {
    type Err = &'static str;

    fn from_str(value: &str) -> (r: Result<Color, &'static str>)
        ensures
            r == (if ascii_lower_seq(value@) == "black"@ || ascii_lower_seq(value@) == "b"@ {
                Ok(Color::Black)
            } else if ascii_lower_seq(value@) == "white"@ || ascii_lower_seq(value@) == "w"@ {
                Ok(Color::White)
            } else {
                Err("invalid color")
            }),
    {
        Color::parse_text(value)
    }
}

impl core::default::Default for Color {
    fn default() -> (r: Color)
        ensures
            r == Color::Black,
    {
        Color::Black
    }
}

} // verus!
