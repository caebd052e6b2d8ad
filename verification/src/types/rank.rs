//! Ranks (rows) of the board.
use vstd::prelude::*;
use vstd::std_specs::iter::IteratorSpec;
use crate::text::push_char;

verus! {

/// A rank, stored as `0..=8` for ranks a to i (top to bottom from Black's view).
/// Any `i8` can be held; only `0..=8` is a rank on the board.
#[derive(Clone, Copy, Debug, PartialEq, Eq, PartialOrd, Ord, Hash, Structural)]
pub struct Rank(pub i8);

#[allow(non_snake_case)]
impl Rank {
    pub const COUNT: usize = 9;

    pub fn RANK_1() -> (r: Rank) ensures r.0 == 0 { Rank(0) }
    pub fn RANK_2() -> (r: Rank) ensures r.0 == 1 { Rank(1) }
    pub fn RANK_3() -> (r: Rank) ensures r.0 == 2 { Rank(2) }
    pub fn RANK_4() -> (r: Rank) ensures r.0 == 3 { Rank(3) }
    pub fn RANK_5() -> (r: Rank) ensures r.0 == 4 { Rank(4) }
    pub fn RANK_6() -> (r: Rank) ensures r.0 == 5 { Rank(5) }
    pub fn RANK_7() -> (r: Rank) ensures r.0 == 6 { Rank(6) }
    pub fn RANK_8() -> (r: Rank) ensures r.0 == 7 { Rank(7) }
    pub fn RANK_9() -> (r: Rank) ensures r.0 == 8 { Rank(8) }
    pub fn ZERO() -> (r: Rank) ensures r.0 == 0 { Rank(0) }

    pub open spec fn is_valid_spec(self) -> bool {
        0 <= self.0 < 9
    }

    pub fn new(raw: i8) -> (r: Rank)
        ensures
            r.0 == raw,
    {
        Rank(raw)
    }

    pub fn raw(self) -> (r: i8)
        ensures
            r == self.0,
    {
        self.0
    }

    /// The raw value reinterpreted as an index (wrapping for negative values).
    pub fn to_index(self) -> (r: usize)
        ensures
            r == self.0 as usize,
    {
        self.0 as usize
    }

    pub fn is_valid(self) -> (r: bool)
        ensures
            r == self.is_valid_spec(),
    {
        self.0 >= 0 && self.0 < 9
    }

    /// `'a'..='i'` to ranks 1 to 9.
    pub fn from_usi(value: char) -> (r: Option<Rank>)
        ensures
            r == (if 'a' <= value && value <= 'i' { Some(Rank((value as u32 - 97) as i8)) } else { None }),
    {
        if 'a' <= value && value <= 'i' {
            Some(Rank(((value as u32) - 97) as i8))
        } else {
            None
        }
    }

    /// The USI letter of a rank on the board.
    pub fn to_usi(self) -> (r: char)
        requires
            self.is_valid_spec(),
        ensures
            r == ((self.0 + 97) as char),
    {
        ((self.0 as u8) + 97u8) as char
    }

    /// The ranks 1 to 9 in order.
    pub fn iter() -> (r: std::vec::IntoIter<Rank>)
        ensures
            r.remaining().len() == 9,
            forall|i: int| 0 <= i < 9 ==> #[trigger] r.remaining()[i] == Rank(i as i8),
    {
        let mut v: Vec<Rank> = Vec::new();
        let mut i: i8 = 0;
        while i < 9
            invariant
                0 <= i <= 9,
                v@.len() == i,
                forall|j: int| 0 <= j < i ==> #[trigger] v@[j] == Rank(j as i8),
            decreases 9 - i,
        {
            v.push(Rank(i));
            i += 1;
        }
        proof {
            vstd::std_specs::vec::axiom_spec_into_iter(v);
        }
        v.into_iter()
    }

    /// The USI letter of a rank on the board, as `Display` prints it.
    pub fn to_string(&self) -> (r: String)
        requires
            self.is_valid_spec(),
        ensures
            r@ == seq![((self.0 + 97) as char)],
    {
        let mut s = String::new();
        push_char(&mut s, self.to_usi());
        s
    }
}

impl vstd::std_specs::convert::TryFromSpecImpl<i8> for Rank {
    open spec fn obeys_try_from_spec() -> bool {
        true
    }

    open spec fn try_from_spec(raw: i8) -> Result<Rank, &'static str> {
        if 0 <= raw < 9 {
            Ok(Rank(raw))
        } else {
            Err("invalid rank")
        }
    }
}

impl core::convert::TryFrom<i8> for Rank {
    type Error = &'static str;

    fn try_from(raw: i8) -> (r: Result<Rank, &'static str>) {
        let value = Rank(raw);
        if value.is_valid() {
            Ok(value)
        } else {
            Err("invalid rank")
        }
    }
}

impl core::default::Default for Rank {
    fn default() -> (r: Rank)
        ensures
            r.0 == 0,
    {
        Rank(0)
    }
}

} // verus!
