//! Squares of the 9x9 board and per-square tables.
use vstd::prelude::*;
use vstd::std_specs::iter::IteratorSpec;
use crate::text::{push_char, str_chars};
use crate::types::color::Color;
use crate::types::file::File;
use crate::types::rank::Rank;

verus! {

/// Quotient of a division by 9, rounded toward zero (as Rust's `/` on integers).
pub open spec fn tdiv9(x: int) -> int {
    if x >= 0 {
        x / 9
    } else {
        -((-x) / 9)
    }
}

/// Remainder of a division by 9 with the sign of `x` (as Rust's `%` on integers).
pub open spec fn tmod9(x: int) -> int {
    x - 9 * tdiv9(x)
}

pub open spec fn abs_int(x: int) -> int {
    if x < 0 {
        -x
    } else {
        x
    }
}

/// A square, stored file-major: `raw = file * 9 + rank`, so `0` is 1a and `80` is 9i.
/// `81` is the "no square" value; any `i8` can be held.
#[derive(Clone, Copy, Debug, PartialEq, Eq, PartialOrd, Ord, Hash, Structural)]
pub struct Square(pub i8);

pub const SQ_D: i8 = 1;
pub const SQ_U: i8 = -1;
pub const SQ_R: i8 = -9;
pub const SQ_L: i8 = 9;
pub const SQ_RU: i8 = -10;
pub const SQ_RD: i8 = -8;
pub const SQ_LU: i8 = 8;
pub const SQ_LD: i8 = 10;

/// Square 1a.
#[allow(non_snake_case)]
pub fn SQ_ZERO() -> (r: Square)
    ensures
        r.0 == 0,
{
    Square(0)
}

/// The "no square" value.
#[allow(non_snake_case)]
pub fn SQ_NONE() -> (r: Square)
    ensures
        r.0 == 81,
{
    Square(81)
}

#[allow(non_snake_case)]
impl Square {
    pub const COUNT: usize = 81;
    pub const COUNT_WITH_NONE: usize = 82;

    /// The "no square" value.
    pub fn NONE() -> (r: Square)
        ensures
            r.0 == 81,
    {
        Square(81)
    }

    pub open spec fn is_valid_spec(self) -> bool {
        0 <= self.0 < 81
    }

    pub open spec fn file_spec(self) -> int {
        tdiv9(self.0 as int)
    }

    pub open spec fn rank_spec(self) -> int {
        tmod9(self.0 as int)
    }

    /// The squares 1a, 1b, ..., 9i in raw order.
    pub fn iter() -> (r: std::vec::IntoIter<Square>)
        ensures
            r.remaining().len() == 81,
            forall|i: int| 0 <= i < 81 ==> #[trigger] r.remaining()[i] == Square(i as i8),
    {
        let mut v: Vec<Square> = Vec::new();
        let mut i: i8 = 0;
        while i < 81
            invariant
                0 <= i <= 81,
                v@.len() == i,
                forall|j: int| 0 <= j < i ==> #[trigger] v@[j] == Square(j as i8),
            decreases 81 - i,
        {
            v.push(Square(i));
            i += 1;
        }
        proof {
            vstd::std_specs::vec::axiom_spec_into_iter(v);
        }
        v.into_iter()
    }

    pub fn new(raw: i8) -> (r: Square)
        ensures
            r.0 == raw,
    {
        Square(raw)
    }

    pub fn raw(self) -> (r: i8)
        ensures
            r == self.0,
    {
        self.0
    }

    /// The raw value reinterpreted as an index (wrapping for negative values).
    pub fn to_index(self) -> (r: usize)
        ensures
            r == self.0 as usize,
    {
        self.0 as usize
    }

    pub fn is_valid(self) -> (r: bool)
        ensures
            r == self.is_valid_spec(),
    {
        self.0 >= 0 && self.0 < 81
    }

    pub fn is_on_board(self) -> (r: bool)
        ensures
            r == self.is_valid_spec(),
    {
        self.is_valid()
    }

    /// The square with raw value `index` (truncated to `i8`).
    pub fn from_index(index: usize) -> (r: Square)
        ensures
            r.0 == index as i8,
    {
        Square(index as i8)
    }

    pub fn to_board_index(self) -> (r: usize)
        ensures
            r == self.0 as usize,
    {
        self.0 as usize
    }

    pub fn to_index_with_none(self) -> (r: usize)
        ensures
            r == self.0 as usize,
    {
        self.0 as usize
    }

    pub fn is_none(self) -> (r: bool)
        ensures
            r == (self.0 == 81),
    {
        self.0 == 81
    }

    /// The file of the square: `raw / 9`, rounded toward zero.
    pub fn file(self) -> (r: File)
        ensures
            r.0 == self.file_spec(),
    {
        let raw = self.0 as i16;
        if raw >= 0 {
            File((raw / 9) as i8)
        } else {
            File((-((-raw) / 9)) as i8)
        }
    }

    /// The rank of the square: `raw % 9`, with the sign of `raw`.
    pub fn rank(self) -> (r: Rank)
        ensures
            r.0 == self.rank_spec(),
    {
        let raw = self.0 as i16;
        let f: i16 = if raw >= 0 { raw / 9 } else { -((-raw) / 9) };
        Rank((raw - 9 * f) as i8)
    }

    /// The square `file * 9 + rank`.
    pub fn from_file_rank(file: File, rank: Rank) -> (r: Square)
        requires
            -128 <= file.0 * 9 + rank.0 <= 127,
        ensures
            r.0 == file.0 * 9 + rank.0,
    {
        Square(((file.0 as i16) * 9 + (rank.0 as i16)) as i8)
    }

    /// The king-move (Chebyshev) distance between two squares.
    pub fn distance(self, other: Square) -> (r: i8)
        ensures
            r == (if abs_int(self.file_spec() - other.file_spec()) > abs_int(self.rank_spec() - other.rank_spec()) {
                abs_int(self.file_spec() - other.file_spec())
            } else {
                abs_int(self.rank_spec() - other.rank_spec())
            }),
    {
        let df = self.file().0 - other.file().0;
        let dr = self.rank().0 - other.rank().0;
        let af = if df < 0 { -df } else { df };
        let ar = if dr < 0 { -dr } else { dr };
        if af > ar { af } else { ar }
    }

    /// The square seen from the other side (rotated by 180 degrees).
    pub fn flip(self) -> (r: Square)
        requires
            self.0 >= -47,
        ensures
            r.0 == 80 - self.0,
    {
        flip(self)
    }

    /// Parses a USI square such as `7g`; see [`Square::parse_text`].
    pub fn from_usi(value: &str) -> (r: Option<Square>)
        ensures
            r == (match square_from_usi_spec(value@) {
                Ok(sq) => Some(sq),
                Err(_) => None::<Square>,
            }),
    {
        match Square::parse_text(value) {
            Ok(sq) => Some(sq),
            Err(_) => None,
        }
    }

    /// Parses `none` or a USI square (`1`-`9` followed by `a`-`i`).
    pub fn parse_text(value: &str) -> (r: Result<Square, &'static str>)
        ensures
            r == square_from_usi_spec(value@),
    {
        proof {
            reveal_strlit("none");
        }
        let v = str_chars(value);
        if v.len() == 4 && v[0] == 'n' && v[1] == 'o' && v[2] == 'n' && v[3] == 'e' {
            assert(v@ =~= "none"@);
            return Ok(Square(81));
        }
        if v.len() != 2 || !('1' <= v[0] && v[0] <= '9') || !('a' <= v[1] && v[1] <= 'i') {
            return Err("invalid USI square");
        }
        let f = ((v[0] as u32) - 49) as i8;
        let r = ((v[1] as u32) - 97) as i8;
        Ok(Square::from_file_rank(File(f), Rank(r)))
    }

    /// The square mirrored left-right (file `f` becomes file `8 - f`).
    pub fn mirror_file(self) -> (r: Square)
        requires
            -128 <= (8 - self.file_spec()) * 9 + self.rank_spec() <= 127,
        ensures
            r.0 == (8 - self.file_spec()) * 9 + self.rank_spec(),
    {
        let f = self.file();
        Square::from_file_rank(File(8 - f.0), self.rank())
    }

    /// The USI name of a square on the board, such as `7g`.
    pub fn to_usi(self) -> (r: String)
        requires
            self.is_valid_spec(),
        ensures
            r@ == square_usi_spec(self),
    {
        let mut s = String::new();
        push_char(&mut s, self.file().to_usi());
        push_char(&mut s, self.rank().to_usi());
        assert(s@ =~= square_usi_spec(self));
        s
    }

    /// The same text as [`Square::to_usi`], as `Display` prints it.
    pub fn to_string(&self) -> (r: String)
        requires
            self.is_valid_spec(),
        ensures
            r@ == square_usi_spec(*self),
    {
        self.to_usi()
    }
}

/// The two characters naming a square in USI.
pub open spec fn square_usi_spec(sq: Square) -> Seq<char> {
    seq![((sq.file_spec() + 49) as char), ((sq.rank_spec() + 97) as char)]
}

/// What parsing `s` as a USI square gives.
pub open spec fn square_from_usi_spec(s: Seq<char>) -> Result<Square, &'static str> {
    if s == "none"@ {
        Ok(Square(81))
    } else if s.len() == 2 && '1' <= s[0] && s[0] <= '9' && 'a' <= s[1] && s[1] <= 'i' {
        Ok(Square((((s[0] as u32) - 49) * 9 + ((s[1] as u32) - 97)) as i8))
    } else {
        Err("invalid USI square")
    }
}

impl core::str::FromStr for Square {
    type Err = &'static str;

    fn from_str(value: &str) -> (r: Result<Square, &'static str>)
        ensures
            r == square_from_usi_spec(value@),
    {
        Square::parse_text(value)
    }
}

/// The square seen from the other side: `80 - raw`.
pub fn flip(square: Square) -> (r: Square)
    requires
        square.0 >= -47,
    ensures
        r.0 == 80 - square.0,
{
    Square(80 - square.0)
}

/// Whether a board move between the two squares enters, leaves or stays in the
/// promotion zone of `color` (the three farthest ranks).
pub fn is_promotable_move(color: Color, from: Square, to: Square) -> (r: bool)
    ensures
        r == (match color {
            Color::Black => from.rank_spec() <= 2 || to.rank_spec() <= 2,
            Color::White => from.rank_spec() >= 6 || to.rank_spec() >= 6,
        }),
{
    match color {
        Color::Black => from.rank().0 <= 2 || to.rank().0 <= 2,
        Color::White => from.rank().0 >= 6 || to.rank().0 >= 6,
    }
}

/// Whether `square` lies in the promotion zone of `color`.
pub fn is_promotable_square(color: Color, square: Square) -> (r: bool)
    ensures
        r == (match color {
            Color::Black => square.rank_spec() <= 2,
            Color::White => square.rank_spec() >= 6,
        }),
{
    match color {
        Color::Black => square.rank().0 <= 2,
        Color::White => square.rank().0 >= 6,
    }
}

/// Every raw value splits into its file and rank: `raw == file * 9 + rank`.
pub proof fn lemma_square_file_rank_split(sq: Square)
    ensures
        sq.0 == sq.file_spec() * 9 + sq.rank_spec(),
{
}

/// For a square on the board, file and rank are its coordinates and rebuilding
/// the square from them gives it back.
pub proof fn lemma_square_coordinates(sq: Square)
    requires
        sq.is_valid_spec(),
    ensures
        0 <= sq.file_spec() < 9,
        0 <= sq.rank_spec() < 9,
        sq.file_spec() == sq.0 / 9,
        sq.rank_spec() == sq.0 % 9,
{
}

/// A square built from a file and a rank on the board has exactly those coordinates.
pub proof fn lemma_file_rank_roundtrip(f: File, r: Rank)
    requires
        f.is_valid_spec(),
        r.is_valid_spec(),
    ensures
        Square((f.0 * 9 + r.0) as i8).file_spec() == f.0,
        Square((f.0 * 9 + r.0) as i8).rank_spec() == r.0,
        Square((f.0 * 9 + r.0) as i8).is_valid_spec(),
{
}

/// Mirroring a square on the board twice gives it back, and stays on the board.
pub proof fn lemma_mirror_file_involution(sq: Square)
    requires
        sq.is_valid_spec(),
    ensures
        Square(((8 - sq.file_spec()) * 9 + sq.rank_spec()) as i8).is_valid_spec(),
        ({
            let m = Square(((8 - sq.file_spec()) * 9 + sq.rank_spec()) as i8);
            ((8 - m.file_spec()) * 9 + m.rank_spec()) == sq.0
        }),
{
}

/// Flipping a square on the board twice gives it back, and stays on the board.
pub proof fn lemma_flip_involution(sq: Square)
    requires
        sq.is_valid_spec(),
    ensures
        0 <= 80 - sq.0 < 81,
        80 - (80 - sq.0) == sq.0,
{
}

/// The USI name of every square on the board parses back to that square.
pub proof fn lemma_square_usi_roundtrip(sq: Square)
    requires
        sq.is_valid_spec(),
    ensures
        square_from_usi_spec(square_usi_spec(sq)) == Ok::<Square, &'static str>(sq),
{
    reveal_strlit("none");
    let s = square_usi_spec(sq);
    assert(s.len() == 2);
    assert(s != "none"@);
}

/// A fixed-size table indexed by square.
#[derive(Clone, Debug, PartialEq, Eq)]
pub struct SquareTable<T, const N: usize>(pub [T; N]);

impl<T, const N: usize> SquareTable<T, N> {
    pub fn new(values: [T; N]) -> (r: Self)
        ensures
            r.0@ == values@,
    {
        SquareTable(values)
    }

    pub fn len(&self) -> (r: usize)
        ensures
            r == N,
    {
        N
    }

    pub fn is_empty(&self) -> (r: bool)
        ensures
            r == (N == 0),
    {
        N == 0
    }

    pub fn as_slice(&self) -> (r: &[T])
        ensures
            r@ == self.0@,
    {
        self.0.as_slice()
    }

    pub fn iter(&self) -> (r: core::slice::Iter<'_, T>)
        ensures
            r.remaining() == self.0@.map_values(|t: T| &t),
    {
        self.0.iter()
    }
}

} // verus!
