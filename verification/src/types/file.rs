//! Files (columns) of the board.
use vstd::prelude::*;
use vstd::std_specs::iter::IteratorSpec;
use crate::text::{push_signed_decimal, signed_decimal};

verus! {

/// A file, stored as `0..=8` for files 1 to 9 (right to left from Black's view).
/// Any `i8` can be held; only `0..=8` is a file on the board.
#[derive(Clone, Copy, Debug, PartialEq, Eq, PartialOrd, Ord, Hash, Structural)]
pub struct File(pub i8);

#[allow(non_snake_case)]
impl File {
    pub const COUNT: usize = 9;

    pub fn FILE_1() -> (r: File) ensures r.0 == 0 { File(0) }
    pub fn FILE_2() -> (r: File) ensures r.0 == 1 { File(1) }
    pub fn FILE_3() -> (r: File) ensures r.0 == 2 { File(2) }
    pub fn FILE_4() -> (r: File) ensures r.0 == 3 { File(3) }
    pub fn FILE_5() -> (r: File) ensures r.0 == 4 { File(4) }
    pub fn FILE_6() -> (r: File) ensures r.0 == 5 { File(5) }
    pub fn FILE_7() -> (r: File) ensures r.0 == 6 { File(6) }
    pub fn FILE_8() -> (r: File) ensures r.0 == 7 { File(7) }
    pub fn FILE_9() -> (r: File) ensures r.0 == 8 { File(8) }
    pub fn ZERO() -> (r: File) ensures r.0 == 0 { File(0) }

    pub open spec fn is_valid_spec(self) -> bool {
        0 <= self.0 < 9
    }

    pub fn new(raw: i8) -> (r: File)
        ensures
            r.0 == raw,
    {
        File(raw)
    }

    pub fn raw(self) -> (r: i8)
        ensures
            r == self.0,
    {
        self.0
    }

    /// The raw value reinterpreted as an index (wrapping for negative values).
    pub fn to_index(self) -> (r: usize)
        ensures
            r == self.0 as usize,
    {
        self.0 as usize
    }

    pub fn is_valid(self) -> (r: bool)
        ensures
            r == self.is_valid_spec(),
    {
        self.0 >= 0 && self.0 < 9
    }

    /// `'1'..='9'` to files 1 to 9.
    pub fn from_usi(value: char) -> (r: Option<File>)
        ensures
            r == (if '1' <= value && value <= '9' { Some(File((value as u32 - 49) as i8)) } else { None }),
    {
        if '1' <= value && value <= '9' {
            Some(File(((value as u32) - 49) as i8))
        } else {
            None
        }
    }

    /// The USI digit of a file on the board.
    pub fn to_usi(self) -> (r: char)
        requires
            self.is_valid_spec(),
        ensures
            r == ((self.0 + 49) as char),
    {
        ((self.0 as u8) + 49u8) as char
    }

    /// The files 1 to 9 in order.
    pub fn iter() -> (r: std::vec::IntoIter<File>)
        ensures
            r.remaining().len() == 9,
            forall|i: int| 0 <= i < 9 ==> #[trigger] r.remaining()[i] == File(i as i8),
    {
        let mut v: Vec<File> = Vec::new();
        let mut i: i8 = 0;
        while i < 9
            invariant
                0 <= i <= 9,
                v@.len() == i,
                forall|j: int| 0 <= j < i ==> #[trigger] v@[j] == File(j as i8),
            decreases 9 - i,
        {
            v.push(File(i));
            i += 1;
        }
        proof {
            vstd::std_specs::vec::axiom_spec_into_iter(v);
        }
        v.into_iter()
    }

    /// The file number `raw + 1` in decimal, as `Display` would print it.
    pub fn to_string(&self) -> (r: String)
        ensures
            r@ == signed_decimal(self.0 + 1),
    {
        let mut s = String::new();
        push_signed_decimal(&mut s, (self.0 as i64) + 1);
        assert(s@ =~= signed_decimal(self.0 + 1));
        s
    }
}

impl vstd::std_specs::convert::TryFromSpecImpl<i8> for File {
    open spec fn obeys_try_from_spec() -> bool {
        true
    }

    open spec fn try_from_spec(raw: i8) -> Result<File, &'static str> {
        if 0 <= raw < 9 {
            Ok(File(raw))
        } else {
            Err("invalid file")
        }
    }
}

impl core::convert::TryFrom<i8> for File {
    type Error = &'static str;

    fn try_from(raw: i8) -> (r: Result<File, &'static str>) {
        let value = File(raw);
        if value.is_valid() {
            Ok(value)
        } else {
            Err("invalid file")
        }
    }
}

impl core::default::Default for File {
    fn default() -> (r: File)
        ensures
            r.0 == 0,
    {
        File(0)
    }
}

} // verus!
