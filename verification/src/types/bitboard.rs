//! Bitboards: one bit for each of the 81 squares.
//!
//! Squares 0-62 (files 1-7) live in the low word, squares 63-80 (files 8 and 9)
//! in bits 0-17 of the high word. A board is *masked* when no other bit is set;
//! every constructor gives a masked board and every square-level operation keeps
//! it so. The raw bit operations used by sliding-piece attack generation may
//! leave other bits set, and their contracts speak of the words themselves.
use vstd::prelude::*;
use vstd::std_specs::bits::{u64_leading_zeros, u64_trailing_zeros};
use crate::text::push_char;
use crate::types::color::Color;
use crate::types::file::File;
use crate::types::rank::Rank;
use crate::types::square::Square;

verus! {

const BOARD_MASK_LOW: u64 = 0x7FFF_FFFF_FFFF_FFFF;
const BOARD_MASK_HIGH: u64 = 0x0000_0000_0003_FFFF;

/// Bit `i` of a word.
pub open spec fn bit64(x: u64, i: int) -> bool {
    0 <= i < 64 && (x >> (i as u64)) & 1u64 == 1u64
}

/// Bit-level facts about the word operations.
proof fn lemma_word_bits(x: u64, y: u64, j: u64)
    by (bit_vector)
    requires
        j < 64,
    ensures
        (((x & y) >> j) & 1u64 == 1u64) == (((x >> j) & 1u64 == 1u64) && ((y >> j) & 1u64 == 1u64)),
        (((x | y) >> j) & 1u64 == 1u64) == (((x >> j) & 1u64 == 1u64) || ((y >> j) & 1u64 == 1u64)),
        (((x ^ y) >> j) & 1u64 == 1u64) == (((x >> j) & 1u64 == 1u64) != ((y >> j) & 1u64 == 1u64)),
        (((x & !y) >> j) & 1u64 == 1u64) == (((x >> j) & 1u64 == 1u64) && !((y >> j) & 1u64 == 1u64)),
        (((!x) >> j) & 1u64 == 1u64) == !((x >> j) & 1u64 == 1u64),
        ((0x7FFF_FFFF_FFFF_FFFFu64 >> j) & 1u64 == 1u64) == (j < 63),
        ((0x3FFFFu64 >> j) & 1u64 == 1u64) == (j < 18),
        (0u64 >> j) & 1u64 == 0u64,
        x < 0x8000_0000_0000_0000u64 && j == 63 ==> (x >> j) & 1u64 == 0u64,
        x < 0x40000u64 && j >= 18 ==> (x >> j) & 1u64 == 0u64,
        x < 0x8000_0000_0000_0000u64 && y < 0x8000_0000_0000_0000u64 ==> (x | y) < 0x8000_0000_0000_0000u64
            && (x ^ y) < 0x8000_0000_0000_0000u64,
        x < 0x40000u64 && y < 0x40000u64 ==> (x | y) < 0x40000u64 && (x ^ y) < 0x40000u64,
        x < 0x8000_0000_0000_0000u64 ==> (x & y) < 0x8000_0000_0000_0000u64,
        x < 0x40000u64 ==> (x & y) < 0x40000u64,
        (x & 0x7FFF_FFFF_FFFF_FFFFu64) < 0x8000_0000_0000_0000u64,
        (x & 0x3FFFFu64) < 0x40000u64,
{
}

/// Setting, clearing and testing one bit.
proof fn lemma_single_bit(x: u64, s: u64, j: u64)
    by (bit_vector)
    requires
        s < 64,
        j < 64,
    ensures
        (((x | (1u64 << s)) >> j) & 1u64 == 1u64) == (((x >> j) & 1u64 == 1u64) || j == s),
        (((x & !(1u64 << s)) >> j) & 1u64 == 1u64) == (((x >> j) & 1u64 == 1u64) && j != s),
        ((x & (1u64 << s)) != 0u64) == ((x >> s) & 1u64 == 1u64),
        (((1u64 << s) >> j) & 1u64 == 1u64) == (j == s),
        x < 0x8000_0000_0000_0000u64 && s < 63 ==> (x | (1u64 << s)) < 0x8000_0000_0000_0000u64
            && (1u64 << s) < 0x8000_0000_0000_0000u64,
        x < 0x40000u64 && s < 18 ==> (x | (1u64 << s)) < 0x40000u64 && (1u64 << s) < 0x40000u64,
        x < 0x8000_0000_0000_0000u64 ==> (x & !(1u64 << s)) < 0x8000_0000_0000_0000u64,
        x < 0x40000u64 ==> (x & !(1u64 << s)) < 0x40000u64,
{
}

/// Clearing the lowest set bit.
proof fn lemma_clear_lowest(x: u64, t: u64, j: u64)
    by (bit_vector)
    requires
        t < 64,
        j < 64,
        (x >> t) & 1u64 == 1u64,
        x << ((64 - t) as u64) == 0u64,
    ensures
        (((x & ((x - 1u64) as u64)) >> j) & 1u64 == 1u64) == (((x >> j) & 1u64 == 1u64) && j != t),
        j < t ==> (x >> j) & 1u64 == 0u64,
{
}

/// A word is determined by its bits.
proof fn lemma_word_ext(x: u64, y: u64)
    requires
        forall|j: int| 0 <= j < 64 ==> bit64(x, j) == bit64(y, j),
    ensures
        x == y,
{
    let z = x ^ y;
    if z != 0 {
        vstd::std_specs::bits::axiom_u64_trailing_zeros(z);
        let t = u64_trailing_zeros(z) as u64;
        lemma_word_bits(x, y, t);
        assert(bit64(x, t as int) == bit64(y, t as int));
        assert(false);
    } else {
        assert(x ^ y == 0u64 ==> x == y) by (bit_vector);
    }
}

/// The index of the lowest set bit of a word (64 for zero).
pub open spec fn t_of(x: u64) -> int {
    u64_trailing_zeros(x) as int
}

/// The number of set bits among bits `0..n`.
pub open spec fn popcount(x: u64, n: nat) -> nat
    decreases n,
{
    if n == 0 {
        0
    } else {
        popcount(x, (n - 1) as nat) + (if bit64(x, n - 1) { 1nat } else { 0nat })
    }
}

/// A set of squares on the 9x9 board.
#[derive(Clone, Copy, Debug, PartialEq, Eq, Hash, Structural)]
pub struct Bitboard {
    lo: u64,
    hi: u64,
}

/// An iterator over the squares of a bitboard, lowest square first.
#[derive(Clone, Copy, Debug)]
pub struct BitIter {
    bb: Bitboard,
}

#[allow(non_snake_case)]
impl Bitboard {
    /// The low word: squares 0-62.
    pub closed spec fn low(self) -> u64 {
        self.lo
    }

    /// The high word: squares 63-80 in bits 0-17.
    pub closed spec fn high(self) -> u64 {
        self.hi
    }

    /// Whether square index `i` is in the set.
    pub open spec fn has(self, i: int) -> bool {
        if 0 <= i < 63 {
            bit64(self.low(), i)
        } else if 63 <= i < 81 {
            bit64(self.high(), i - 63)
        } else {
            false
        }
    }

    /// No bit outside the 81 squares is set.
    pub open spec fn is_masked(self) -> bool {
        self.low() < 0x8000_0000_0000_0000u64 && self.high() < 0x40000u64
    }

    /// Two bitboards with the same words are the same.
    pub proof fn lemma_eq_words(a: Bitboard, b: Bitboard)
        requires
            a.low() == b.low(),
            a.high() == b.high(),
        ensures
            a == b,
    {
    }

    /// Two masked bitboards holding the same squares are the same.
    pub proof fn lemma_eq_squares(a: Bitboard, b: Bitboard)
        requires
            a.is_masked(),
            b.is_masked(),
            forall|i: int| 0 <= i < 81 ==> a.has(i) == b.has(i),
        ensures
            a == b,
    {
        assert forall|j: int| 0 <= j < 64 implies bit64(a.low(), j) == bit64(b.low(), j) by {
            lemma_word_bits(a.low(), b.low(), j as u64);
            lemma_word_bits(b.low(), a.low(), j as u64);
            if j < 63 {
                assert(a.has(j) == b.has(j));
            }
        }
        lemma_word_ext(a.low(), b.low());
        assert forall|j: int| 0 <= j < 64 implies bit64(a.high(), j) == bit64(b.high(), j) by {
            lemma_word_bits(a.high(), b.high(), j as u64);
            lemma_word_bits(b.high(), a.high(), j as u64);
            if j < 18 {
                assert(a.has(j + 63) == b.has(j + 63));
            }
        }
        lemma_word_ext(a.high(), b.high());
    }

    /// The empty set.
    pub fn EMPTY() -> (r: Bitboard)
        ensures
            r.low() == 0,
            r.high() == 0,
            r.is_masked(),
            forall|i: int| !r.has(i),
    {
        let r = Bitboard { lo: 0, hi: 0 };
        assert forall|i: int| !r.has(i) by {
            if 0 <= i < 63 {
                lemma_word_bits(0, 0, i as u64);
            } else if 63 <= i < 81 {
                lemma_word_bits(0, 0, (i - 63) as u64);
            }
        }
        r
    }

    /// All 81 squares.
    pub fn ALL() -> (r: Bitboard)
        ensures
            r.low() == 0x7FFF_FFFF_FFFF_FFFFu64,
            r.high() == 0x3FFFFu64,
            r.is_masked(),
            forall|i: int| r.has(i) == (0 <= i < 81),
    {
        let r = Bitboard { lo: BOARD_MASK_LOW, hi: BOARD_MASK_HIGH };
        assert forall|i: int| r.has(i) == (0 <= i < 81) by {
            if 0 <= i < 63 {
                lemma_word_bits(0, 0, i as u64);
            } else if 63 <= i < 81 {
                lemma_word_bits(0, 0, (i - 63) as u64);
            }
        }
        r
    }

    /// The words as `[low, high]`.
    pub fn parts(&self) -> (r: [u64; 2])
        ensures
            r@ == seq![self.low(), self.high()],
    {
        let r = [self.lo, self.hi];
        assert(r@ =~= seq![self.low(), self.high()]);
        r
    }

    /// A bitboard from `[low, high]`, keeping only the bits of the 81 squares.
    pub fn from_parts(parts: [u64; 2]) -> (r: Bitboard)
        ensures
            r.low() == parts@[0] & 0x7FFF_FFFF_FFFF_FFFFu64,
            r.high() == parts@[1] & 0x3FFFFu64,
            r.is_masked(),
            forall|i: int| r.has(i) == (0 <= i < 81 && (if i < 63 {
                bit64(parts@[0], i)
            } else {
                bit64(parts@[1], i - 63)
            })),
    {
        let lo = parts[0] & BOARD_MASK_LOW;
        let hi = parts[1] & BOARD_MASK_HIGH;
        let r = Bitboard { lo, hi };
        proof {
            lemma_word_bits(parts[0], 0, 0);
            lemma_word_bits(parts[1], 0, 0);
            assert forall|i: int| r.has(i) == (0 <= i < 81 && (if i < 63 {
                bit64(parts@[0], i)
            } else {
                bit64(parts@[1], i - 63)
            })) by {
                if 0 <= i < 63 {
                    lemma_word_bits(parts[0], BOARD_MASK_LOW, i as u64);
                } else if 63 <= i < 81 {
                    lemma_word_bits(parts[1], BOARD_MASK_HIGH, (i - 63) as u64);
                }
            }
        }
        r
    }

    /// The squares held by both boards (word by word).
    pub fn and(&self, other: Bitboard) -> (r: Bitboard)
        ensures
            r.low() == self.low() & other.low(),
            r.high() == self.high() & other.high(),
            forall|i: int| r.has(i) == (self.has(i) && other.has(i)),
            self.is_masked() ==> r.is_masked(),
    {
        let r = Bitboard { lo: self.lo & other.lo, hi: self.hi & other.hi };
        proof {
            lemma_word_bits(self.lo, other.lo, 0);
            lemma_word_bits(self.hi, other.hi, 0);
            assert forall|i: int| r.has(i) == (self.has(i) && other.has(i)) by {
                if 0 <= i < 63 {
                    lemma_word_bits(self.lo, other.lo, i as u64);
                } else if 63 <= i < 81 {
                    lemma_word_bits(self.hi, other.hi, (i - 63) as u64);
                }
            }
        }
        r
    }

    /// The squares held by either board (word by word).
    pub fn or(&self, other: Bitboard) -> (r: Bitboard)
        ensures
            r.low() == self.low() | other.low(),
            r.high() == self.high() | other.high(),
            forall|i: int| r.has(i) == (self.has(i) || other.has(i)),
            self.is_masked() && other.is_masked() ==> r.is_masked(),
    {
        let r = Bitboard { lo: self.lo | other.lo, hi: self.hi | other.hi };
        proof {
            lemma_word_bits(self.lo, other.lo, 0);
            lemma_word_bits(self.hi, other.hi, 0);
            assert forall|i: int| r.has(i) == (self.has(i) || other.has(i)) by {
                if 0 <= i < 63 {
                    lemma_word_bits(self.lo, other.lo, i as u64);
                } else if 63 <= i < 81 {
                    lemma_word_bits(self.hi, other.hi, (i - 63) as u64);
                }
            }
        }
        r
    }

    /// The squares held by exactly one of the boards (word by word).
    pub fn xor(&self, other: Bitboard) -> (r: Bitboard)
        ensures
            r.low() == self.low() ^ other.low(),
            r.high() == self.high() ^ other.high(),
            forall|i: int| r.has(i) == (self.has(i) != other.has(i)),
            self.is_masked() && other.is_masked() ==> r.is_masked(),
    {
        let r = Bitboard { lo: self.lo ^ other.lo, hi: self.hi ^ other.hi };
        proof {
            lemma_word_bits(self.lo, other.lo, 0);
            lemma_word_bits(self.hi, other.hi, 0);
            assert forall|i: int| r.has(i) == (self.has(i) != other.has(i)) by {
                if 0 <= i < 63 {
                    lemma_word_bits(self.lo, other.lo, i as u64);
                } else if 63 <= i < 81 {
                    lemma_word_bits(self.hi, other.hi, (i - 63) as u64);
                }
            }
        }
        r
    }

    /// `self & !other`: the squares of `self` not in `other`.
    pub fn and_not(&self, other: Bitboard) -> (r: Bitboard)
        ensures
            r.low() == self.low() & !other.low(),
            r.high() == self.high() & !other.high(),
            forall|i: int| r.has(i) == (self.has(i) && !other.has(i)),
            self.is_masked() ==> r.is_masked(),
    {
        let r = Bitboard { lo: self.lo & !other.lo, hi: self.hi & !other.hi };
        proof {
            lemma_word_bits(self.lo, !other.lo, 0);
            lemma_word_bits(self.hi, !other.hi, 0);
            assert forall|i: int| r.has(i) == (self.has(i) && !other.has(i)) by {
                if 0 <= i < 63 {
                    lemma_word_bits(self.lo, other.lo, i as u64);
                } else if 63 <= i < 81 {
                    lemma_word_bits(self.hi, other.hi, (i - 63) as u64);
                }
            }
        }
        r
    }

    /// The complement within the 81 squares.
    pub fn not(&self) -> (r: Bitboard)
        ensures
            r.low() == !self.low() & 0x7FFF_FFFF_FFFF_FFFFu64,
            r.high() == !self.high() & 0x3FFFFu64,
            r.is_masked(),
            forall|i: int| r.has(i) == (0 <= i < 81 && !self.has(i)),
    {
        let r = Bitboard { lo: !self.lo & BOARD_MASK_LOW, hi: !self.hi & BOARD_MASK_HIGH };
        proof {
            lemma_word_bits(!self.lo, 0, 0);
            lemma_word_bits(!self.hi, 0, 0);
            assert forall|i: int| r.has(i) == (0 <= i < 81 && !self.has(i)) by {
                if 0 <= i < 63 {
                    lemma_word_bits(!self.lo, BOARD_MASK_LOW, i as u64);
                    lemma_word_bits(self.lo, 0, i as u64);
                } else if 63 <= i < 81 {
                    lemma_word_bits(!self.hi, BOARD_MASK_HIGH, (i - 63) as u64);
                    lemma_word_bits(self.hi, 0, (i - 63) as u64);
                }
            }
        }
        r
    }

    /// Whether the boards share a bit (word by word).
    pub fn intersects(&self, other: Bitboard) -> (r: bool)
        ensures
            r == ((self.low() & other.low()) != 0 || (self.high() & other.high()) != 0),
            self.is_masked() ==> (r == exists|i: int| #[trigger] self.has(i) && other.has(i)),
    {
        let a = self.and(other);
        let r = a.lo != 0 || a.hi != 0;
        proof {
            if self.is_masked() {
                if r {
                    if a.lo != 0 {
                        vstd::std_specs::bits::axiom_u64_trailing_zeros(a.lo);
                        let t = u64_trailing_zeros(a.lo) as int;
                        lemma_word_bits(a.lo, 0, t as u64);
                        assert(a.has(t));
                        assert(self.has(t) && other.has(t));
                    } else {
                        vstd::std_specs::bits::axiom_u64_trailing_zeros(a.hi);
                        let t = u64_trailing_zeros(a.hi) as int;
                        lemma_word_bits(a.hi, 0, t as u64);
                        assert(a.has(t + 63));
                        assert(self.has(t + 63) && other.has(t + 63));
                    }
                } else {
                    assert forall|i: int| !(#[trigger] self.has(i) && other.has(i)) by {
                        assert(a.has(i) == (self.has(i) && other.has(i)));
                        if 0 <= i < 63 {
                            lemma_word_bits(0, 0, i as u64);
                        } else if 63 <= i < 81 {
                            lemma_word_bits(0, 0, (i - 63) as u64);
                        }
                    }
                }
            }
        }
        r
    }

    /// Whether no bit is set.
    pub fn is_empty(&self) -> (r: bool)
        ensures
            r == (self.low() == 0 && self.high() == 0),
    {
        self.lo == 0 && self.hi == 0
    }

    /// Whether some bit is set.
    pub fn any(&self) -> (r: bool)
        ensures
            r == (self.low() != 0 || self.high() != 0),
    {
        self.lo != 0 || self.hi != 0
    }
}


impl Bitboard {
    /// The one-square set `{sq}`.
    pub fn from_square(sq: Square) -> (r: Bitboard)
        requires
            sq.is_valid_spec(),
        ensures
            r.is_masked(),
            forall|i: int| r.has(i) == (i == sq.0),
            sq.0 < 63 ==> r.low() == 1u64 << (sq.0 as u64) && r.high() == 0,
            sq.0 >= 63 ==> r.low() == 0 && r.high() == 1u64 << ((sq.0 - 63) as u64),
    {
        let idx = sq.0;
        if idx < 63 {
            let shift = idx as u64;
            let r = Bitboard { lo: 1u64 << shift, hi: 0 };
            proof {
                lemma_single_bit(0, shift, 0);
                assert forall|i: int| r.has(i) == (i == sq.0) by {
                    if 0 <= i < 63 {
                        lemma_single_bit(0, shift, i as u64);
                    } else if 63 <= i < 81 {
                        lemma_word_bits(0, 0, (i - 63) as u64);
                    }
                }
            }
            r
        } else {
            let shift = (idx - 63) as u64;
            let r = Bitboard { lo: 0, hi: 1u64 << shift };
            proof {
                lemma_single_bit(0, shift, 0);
                assert forall|i: int| r.has(i) == (i == sq.0) by {
                    if 0 <= i < 63 {
                        lemma_word_bits(0, 0, i as u64);
                    } else if 63 <= i < 81 {
                        lemma_single_bit(0, shift, (i - 63) as u64);
                    }
                }
            }
            r
        }
    }

    /// Adds `sq` to the set.
    pub fn set(&mut self, sq: Square)
        requires
            sq.is_valid_spec(),
        ensures
            forall|i: int| final(self).has(i) == (old(self).has(i) || i == sq.0),
            old(self).is_masked() ==> final(self).is_masked(),
            sq.0 < 63 ==> final(self).low() == old(self).low() | (1u64 << (sq.0 as u64))
                && final(self).high() == old(self).high(),
            sq.0 >= 63 ==> final(self).high() == old(self).high() | (1u64 << ((sq.0 - 63) as u64))
                && final(self).low() == old(self).low(),
    {
        let idx = sq.0;
        let ghost lo0 = self.lo;
        let ghost hi0 = self.hi;
        if idx < 63 {
            let shift = idx as u64;
            self.lo = self.lo | (1u64 << shift);
            proof {
                lemma_single_bit(lo0, shift, 0);
                assert forall|i: int| self.has(i) == (old(self).has(i) || i == sq.0) by {
                    if 0 <= i < 63 {
                        lemma_single_bit(lo0, shift, i as u64);
                    }
                }
            }
        } else {
            let shift = (idx - 63) as u64;
            self.hi = self.hi | (1u64 << shift);
            proof {
                lemma_single_bit(hi0, shift, 0);
                assert forall|i: int| self.has(i) == (old(self).has(i) || i == sq.0) by {
                    if 63 <= i < 81 {
                        lemma_single_bit(hi0, shift, (i - 63) as u64);
                    }
                }
            }
        }
    }

    /// Removes `sq` from the set.
    pub fn clear(&mut self, sq: Square)
        requires
            sq.is_valid_spec(),
        ensures
            forall|i: int| final(self).has(i) == (old(self).has(i) && i != sq.0),
            old(self).is_masked() ==> final(self).is_masked(),
            sq.0 < 63 ==> final(self).low() == old(self).low() & !(1u64 << (sq.0 as u64))
                && final(self).high() == old(self).high(),
            sq.0 >= 63 ==> final(self).high() == old(self).high() & !(1u64 << ((sq.0 - 63) as u64))
                && final(self).low() == old(self).low(),
    {
        let idx = sq.0;
        let ghost lo0 = self.lo;
        let ghost hi0 = self.hi;
        if idx < 63 {
            let shift = idx as u64;
            self.lo = self.lo & !(1u64 << shift);
            proof {
                lemma_single_bit(lo0, shift, 0);
                assert forall|i: int| self.has(i) == (old(self).has(i) && i != sq.0) by {
                    if 0 <= i < 63 {
                        lemma_single_bit(lo0, shift, i as u64);
                    }
                }
            }
        } else {
            let shift = (idx - 63) as u64;
            self.hi = self.hi & !(1u64 << shift);
            proof {
                lemma_single_bit(hi0, shift, 0);
                assert forall|i: int| self.has(i) == (old(self).has(i) && i != sq.0) by {
                    if 63 <= i < 81 {
                        lemma_single_bit(hi0, shift, (i - 63) as u64);
                    }
                }
            }
        }
    }

    /// Whether `sq` is in the set.
    pub fn test(&self, sq: Square) -> (r: bool)
        requires
            sq.is_valid_spec(),
        ensures
            r == self.has(sq.0 as int),
    {
        self.test_index(sq.0 as usize)
    }

    /// Whether the square with index `index` is in the set; `false` past the board.
    pub fn test_index(&self, index: usize) -> (r: bool)
        ensures
            r == self.has(index as int),
    {
        if index < 63 {
            let shift = index as u64;
            proof {
                lemma_single_bit(self.lo, shift, 0);
            }
            (self.lo & (1u64 << shift)) != 0
        } else if index < 81 {
            let shift = (index - 63) as u64;
            proof {
                lemma_single_bit(self.hi, shift, 0);
            }
            (self.hi & (1u64 << shift)) != 0
        } else {
            false
        }
    }

    /// The lowest set bit of the words, as a square: the low word first, then
    /// the high word (offset by 63).
    pub open spec fn lsb_spec(self) -> Option<Square> {
        if self.low() != 0 {
            Some(Square(u64_trailing_zeros(self.low()) as i8))
        } else if self.high() != 0 {
            Some(Square((63 + u64_trailing_zeros(self.high())) as i8))
        } else {
            None
        }
    }

    /// On a masked board, the lowest set bit is the least square in the set.
    pub proof fn lemma_lsb_least(self)
        requires
            self.is_masked(),
        ensures
            self.lsb_spec() matches Some(sq) ==> self.has(sq.0 as int) && 0 <= sq.0 < 81
                && forall|j: int| j < sq.0 ==> !#[trigger] self.has(j),
            self.lsb_spec() is None ==> forall|j: int| !#[trigger] self.has(j),
    {
        let lo = self.low();
        let hi = self.high();
        vstd::std_specs::bits::axiom_u64_trailing_zeros(lo);
        vstd::std_specs::bits::axiom_u64_trailing_zeros(hi);
        if lo != 0 {
            let t = u64_trailing_zeros(lo) as u64;
            lemma_word_bits(lo, 0, t);
            assert(t != 63);
            assert forall|j: int| j < t implies !#[trigger] self.has(j) by {
                if 0 <= j {
                    assert((lo >> (j as u64)) & 1u64 == 0u64);
                }
            }
        } else if hi != 0 {
            let t = u64_trailing_zeros(hi) as u64;
            lemma_word_bits(hi, 0, t);
            assert(t < 18);
            assert forall|j: int| j < 63 + t implies !#[trigger] self.has(j) by {
                if 0 <= j < 63 {
                    lemma_word_bits(0, 0, j as u64);
                } else if 63 <= j {
                    assert((hi >> ((j - 63) as u64)) & 1u64 == 0u64);
                }
            }
        } else {
            assert forall|j: int| !#[trigger] self.has(j) by {
                if 0 <= j < 63 {
                    lemma_word_bits(0, 0, j as u64);
                } else if 63 <= j < 81 {
                    lemma_word_bits(0, 0, (j - 63) as u64);
                }
            }
        }
    }

    /// The lowest set square, without removing it.
    pub fn lsb(&self) -> (r: Option<Square>)
        ensures
            r == self.lsb_spec(),
    {
        if self.lo == 0 && self.hi == 0 {
            return None;
        }
        if self.lo != 0 {
            let t = self.lo.trailing_zeros();
            proof {
                vstd::std_specs::bits::axiom_u64_trailing_zeros(self.lo);
            }
            Some(Square(t as i8))
        } else {
            let t = self.hi.trailing_zeros();
            proof {
                vstd::std_specs::bits::axiom_u64_trailing_zeros(self.hi);
            }
            Some(Square((63 + t) as i8))
        }
    }

    /// Removes the lowest set square and returns it.
    pub fn pop_lsb(&mut self) -> (r: Option<Square>)
        ensures
            r == old(self).lsb_spec(),
            old(self).low() != 0 ==> final(self).low() == old(self).low() & ((old(self).low() - 1) as u64)
                && final(self).high() == old(self).high(),
            old(self).low() == 0 ==> final(self).low() == 0,
            old(self).low() == 0 && old(self).high() != 0 ==> final(self).high() == old(self).high() & ((
            old(self).high() - 1) as u64),
            old(self).low() == 0 && old(self).high() == 0 ==> final(self).high() == 0,
            old(self).is_masked() ==> final(self).is_masked() && (r matches Some(sq) ==> forall|i: int|
                final(self).has(i) == (old(self).has(i) && i != sq.0)),
    {
        let r = self.lsb();
        let ghost lo0 = self.lo;
        let ghost hi0 = self.hi;
        if self.lo != 0 {
            proof {
                vstd::std_specs::bits::axiom_u64_trailing_zeros(lo0);
                let t = u64_trailing_zeros(lo0) as u64;
                lemma_word_bits(lo0, (lo0 - 1) as u64, 0);
                lemma_word_bits(lo0, 0, t);
                lemma_word_bits(lo0, 0, 63);
                assert forall|i: int| 0 <= i < 63 implies bit64(lo0 & ((lo0 - 1) as u64), i) == (bit64(lo0, i)
                    && i != t) by {
                    lemma_clear_lowest(lo0, t, i as u64);
                }
            }
            self.lo = self.lo & (self.lo - 1);
            proof {
                if old(self).is_masked() {
                    assert(t_of(lo0) != 63);
                    assert forall|i: int| self.has(i) == (old(self).has(i) && i != t_of(lo0)) by {
                        if 0 <= i < 63 {
                            assert(self.low() == lo0 & ((lo0 - 1) as u64));
                            vstd::std_specs::bits::axiom_u64_trailing_zeros(lo0);
                            lemma_clear_lowest(lo0, t_of(lo0) as u64, i as u64);
                        }
                    }
                }
            }
        } else if self.hi != 0 {
            proof {
                vstd::std_specs::bits::axiom_u64_trailing_zeros(hi0);
                let t = u64_trailing_zeros(hi0) as u64;
                lemma_word_bits(hi0, (hi0 - 1) as u64, 0);
                lemma_word_bits(hi0, 0, t);
                assert forall|i: int| 0 <= i < 18 implies bit64(hi0 & ((hi0 - 1) as u64), i) == (bit64(hi0, i)
                    && i != t) by {
                    lemma_clear_lowest(hi0, t, i as u64);
                }
            }
            self.hi = self.hi & (self.hi - 1);
            proof {
                if old(self).is_masked() {
                    assert(t_of(hi0) < 18);
                    assert forall|i: int| self.has(i) == (old(self).has(i) && i != 63 + t_of(hi0)) by {
                        if 0 <= i < 63 {
                            lemma_word_bits(0, 0, i as u64);
                        }
                    }
                }
            }
        }
        r
    }

    /// The highest set bit of the words, as a square: the high word first
    /// (offset by 63), then the low word.
    pub open spec fn msb_spec(self) -> Option<Square> {
        if self.high() != 0 {
            Some(Square((126 - u64_leading_zeros(self.high())) as i8))
        } else if self.low() != 0 {
            Some(Square((63 - u64_leading_zeros(self.low())) as i8))
        } else {
            None
        }
    }

    /// The highest set square.
    pub fn msb(&self) -> (r: Option<Square>)
        ensures
            r == self.msb_spec(),
    {
        if self.lo == 0 && self.hi == 0 {
            return None;
        }
        if self.hi != 0 {
            let z = self.hi.leading_zeros();
            proof {
                vstd::std_specs::bits::axiom_u64_leading_zeros(self.hi);
            }
            Some(Square((126 - z) as i8))
        } else {
            let z = self.lo.leading_zeros();
            proof {
                vstd::std_specs::bits::axiom_u64_leading_zeros(self.lo);
            }
            Some(Square((63 - z) as i8))
        }
    }
}

impl BitIter {
    /// The squares that are left.
    pub closed spec fn board(self) -> Bitboard {
        self.bb
    }

    /// The next square, lowest first.
    pub fn next(&mut self) -> (r: Option<Square>)
        ensures
            r == old(self).board().lsb_spec(),
            old(self).board().is_masked() ==> final(self).board().is_masked() && (r matches Some(sq)
                ==> forall|i: int| final(self).board().has(i) == (old(self).board().has(i) && i != sq.0)),
            r is None ==> final(self).board() == old(self).board(),
    {
        let r = self.bb.pop_lsb();
        proof {
            if r is None {
                Bitboard::lemma_eq_words(self.bb, old(self).bb);
            }
        }
        r
    }
}

impl Bitboard {
    /// An iterator over the set squares, lowest first.
    pub fn iter(&self) -> (r: BitIter)
        ensures
            r.board() == *self,
    {
        BitIter { bb: *self }
    }
}


/// The number of set bits of a word.
fn count_word(x: u64) -> (r: u32)
    ensures
        r == popcount(x, 64),
        r <= 64,
{
    let mut c: u32 = 0;
    let mut i: u64 = 0;
    while i < 64
        invariant
            i <= 64,
            c == popcount(x, i as nat),
            c <= i,
        decreases 64 - i,
    {
        if (x >> i) & 1u64 == 1u64 {
            c += 1;
        }
        i += 1;
    }
    c
}

/// The square of the board rotated by 180 degrees.
pub open spec fn flip_index(i: int) -> int {
    80 - i
}

/// The square mirrored left-right: file `f` becomes file `8 - f`.
pub open spec fn mirror_index(i: int) -> int {
    (8 - i / 9) * 9 + i % 9
}

proof fn lemma_mirror_index(i: int)
    requires
        0 <= i < 81,
    ensures
        0 <= mirror_index(i) < 81,
        mirror_index(mirror_index(i)) == i,
{
    let f = i / 9;
    let r = i % 9;
    let m = (8 - f) * 9 + r;
    assert(m / 9 == 8 - f && m % 9 == r) by {
        vstd::arithmetic::div_mod::lemma_fundamental_div_mod_converse(m, 9, 8 - f, r);
    }
}

impl Bitboard {
    /// The number of set bits in both words (the number of squares, for a
    /// masked board).
    pub fn count(&self) -> (r: u32)
        ensures
            r == popcount(self.low(), 64) + popcount(self.high(), 64),
    {
        count_word(self.lo) + count_word(self.hi)
    }

    /// Whether at least two bits are set: a word with a bit besides its lowest,
    /// or both words non-zero.
    pub fn more_than_one(&self) -> (r: bool)
        ensures
            r == ((self.low() & self.low().wrapping_sub(1)) != 0 || (self.high() & self.high().wrapping_sub(1)) != 0
                || (self.low() != 0 && self.high() != 0)),
    {
        if self.lo & self.lo.wrapping_sub(1) != 0 {
            return true;
        }
        if self.hi & self.hi.wrapping_sub(1) != 0 {
            return true;
        }
        self.lo != 0 && self.hi != 0
    }

    /// The nine squares of a file.
    pub fn file_mask(file: File) -> (r: Bitboard)
        requires
            file.is_valid_spec(),
        ensures
            r.is_masked(),
            forall|i: int| r.has(i) == (0 <= i < 81 && i / 9 == file.0),
    {
        let mut b = Bitboard::EMPTY();
        let mut rank: i8 = 0;
        while rank < 9
            invariant
                0 <= rank <= 9,
                0 <= file.0 < 9,
                b.is_masked(),
                forall|i: int| b.has(i) == (0 <= i < 81 && i / 9 == file.0 && i % 9 < rank),
            decreases 9 - rank,
        {
            b.set(Square(file.0 * 9 + rank));
            rank += 1;
        }
        b
    }

    /// The nine squares of a rank.
    pub fn rank_mask(rank: Rank) -> (r: Bitboard)
        requires
            rank.is_valid_spec(),
        ensures
            r.is_masked(),
            forall|i: int| r.has(i) == (0 <= i < 81 && i % 9 == rank.0),
    {
        let mut b = Bitboard::EMPTY();
        let mut file: i8 = 0;
        while file < 9
            invariant
                0 <= file <= 9,
                0 <= rank.0 < 9,
                b.is_masked(),
                forall|i: int| b.has(i) == (0 <= i < 81 && i % 9 == rank.0 && i / 9 < file),
            decreases 9 - file,
        {
            b.set(Square(file * 9 + rank.0));
            file += 1;
        }
        b
    }

    /// The promotion zone of `us`: the three farthest ranks.
    pub fn promotion_zone(us: Color) -> (r: Bitboard)
        ensures
            r.is_masked(),
            forall|i: int| r.has(i) == (0 <= i < 81 && (if us == Color::Black { i % 9 < 3 } else { i % 9 >= 6 })),
    {
        let first: i8 = if us == Color::Black { 0 } else { 6 };
        let a = Bitboard::rank_mask(Rank(first));
        let b = Bitboard::rank_mask(Rank(first + 1));
        let c = Bitboard::rank_mask(Rank(first + 2));
        a.or(b).or(c)
    }

    /// The board rotated by 180 degrees.
    pub fn flip(&self) -> (r: Bitboard)
        ensures
            r.is_masked(),
            forall|i: int| r.has(i) == (0 <= i < 81 && self.has(flip_index(i))),
    {
        let mut out = Bitboard::EMPTY();
        let mut raw: i8 = 0;
        while raw < 81
            invariant
                0 <= raw <= 81,
                out.is_masked(),
                forall|i: int| out.has(i) == (0 <= i < 81 && flip_index(i) < raw && self.has(flip_index(i))),
            decreases 81 - raw,
        {
            if self.test(Square(raw)) {
                out.set(Square(80 - raw));
            }
            raw += 1;
        }
        out
    }

    /// The board mirrored left-right.
    pub fn mirror_file(&self) -> (r: Bitboard)
        ensures
            r.is_masked(),
            forall|i: int| r.has(i) == (0 <= i < 81 && self.has(mirror_index(i))),
    {
        let mut out = Bitboard::EMPTY();
        let mut raw: i8 = 0;
        while raw < 81
            invariant
                0 <= raw <= 81,
                out.is_masked(),
                forall|i: int| out.has(i) == (0 <= i < 81 && mirror_index(i) < raw && self.has(mirror_index(i))),
            decreases 81 - raw,
        {
            if self.test(Square(raw)) {
                let file = raw / 9;
                let rank = raw % 9;
                proof {
                    lemma_mirror_index(raw as int);
                    assert forall|i: int| 0 <= i < 81 && mirror_index(i) == raw implies i == (8 - file) * 9 + rank by {
                        lemma_mirror_index(i);
                    }
                }
                out.set(Square((8 - file) * 9 + rank));
            }
            raw += 1;
        }
        out
    }
}

/// Rotating a masked board twice gives it back.
pub proof fn lemma_flip_involution(b: Bitboard, once: Bitboard, twice: Bitboard)
    requires
        b.is_masked(),
        once.is_masked(),
        twice.is_masked(),
        forall|i: int| once.has(i) == (0 <= i < 81 && b.has(flip_index(i))),
        forall|i: int| twice.has(i) == (0 <= i < 81 && once.has(flip_index(i))),
    ensures
        twice == b,
{
    assert forall|i: int| 0 <= i < 81 implies twice.has(i) == b.has(i) by {
        assert(once.has(flip_index(i)) == b.has(flip_index(flip_index(i))));
    }
    Bitboard::lemma_eq_squares(twice, b);
}

/// Mirroring a masked board twice gives it back.
pub proof fn lemma_mirror_involution(b: Bitboard, once: Bitboard, twice: Bitboard)
    requires
        b.is_masked(),
        once.is_masked(),
        twice.is_masked(),
        forall|i: int| once.has(i) == (0 <= i < 81 && b.has(mirror_index(i))),
        forall|i: int| twice.has(i) == (0 <= i < 81 && once.has(mirror_index(i))),
    ensures
        twice == b,
{
    assert forall|i: int| 0 <= i < 81 implies twice.has(i) == b.has(i) by {
        lemma_mirror_index(i);
        assert(once.has(mirror_index(i)) == b.has(mirror_index(mirror_index(i))));
    }
    Bitboard::lemma_eq_squares(twice, b);
}


proof fn lemma_packed(x: u128, lo: u64, hi: u64)
    by (bit_vector)
    ensures
        (x & 0x7FFF_FFFF_FFFF_FFFFu128) < 0x8000_0000_0000_0000u128,
        ((x >> 63u128) & 0x3FFFFu128) < 0x40000u128,
        lo < 0x8000_0000_0000_0000u64 && hi < 0x40000u64 ==> ((lo as u128) | ((hi as u128) << 63u128))
            & 0x7FFF_FFFF_FFFF_FFFFu128 == lo as u128 && (((lo as u128) | ((hi as u128) << 63u128)) >> 63u128)
            & 0x3FFFFu128 == hi as u128,
        (((x & 0x7FFF_FFFF_FFFF_FFFFu128) as u64) as u128) | ((((x >> 63u128) & 0x3FFFFu128) as u64) as u128)
            << 63u128 == x & 0x1_FFFF_FFFF_FFFF_FFFF_FFFFu128,
{
}

/// Byte `k` (`0..8`, least significant first) of a word.
pub open spec fn byte_of(x: u64, k: int) -> u64 {
    (x >> ((8 * k) as u64)) & 0xffu64
}

spec fn swapped(x: u64) -> u64 {
    ((x & 0xff) << 56u64) | (((x >> 8u64) & 0xff) << 48u64) | (((x >> 16u64) & 0xff) << 40u64) | (((x >> 24u64)
        & 0xff) << 32u64) | (((x >> 32u64) & 0xff) << 24u64) | (((x >> 40u64) & 0xff) << 16u64) | (((x >> 48u64)
        & 0xff) << 8u64) | ((x >> 56u64) & 0xff)
}

proof fn lemma_swapped_bytes(x: u64, k: u64)
    by (bit_vector)
    requires
        k < 8,
    ensures
        (swapped(x) >> ((8 * k) as u64)) & 0xffu64 == (x >> ((8 * (7 - k)) as u64)) & 0xffu64,
{
}

fn swap_bytes(x: u64) -> (r: u64)
    ensures
        forall|k: int| 0 <= k < 8 ==> #[trigger] byte_of(r, k) == byte_of(x, 7 - k),
{
    let r = ((x & 0xff) << 56u64) | (((x >> 8u64) & 0xff) << 48u64) | (((x >> 16u64) & 0xff) << 40u64) | (((x
        >> 24u64) & 0xff) << 32u64) | (((x >> 32u64) & 0xff) << 24u64) | (((x >> 40u64) & 0xff) << 16u64) | (((x
        >> 48u64) & 0xff) << 8u64) | ((x >> 56u64) & 0xff);
    assert forall|k: int| 0 <= k < 8 implies #[trigger] byte_of(r, k) == byte_of(x, 7 - k) by {
        lemma_swapped_bytes(x, k as u64);
    }
    r
}

impl Bitboard {
    /// A bitboard from the packed form: bit `i` of `packed_bits` is square `i`;
    /// bits from 81 up are dropped.
    pub fn from_packed_bits(packed_bits: u128) -> (r: Bitboard)
        ensures
            r.is_masked(),
            r.low() as u128 == packed_bits & 0x7FFF_FFFF_FFFF_FFFFu128,
            r.high() as u128 == (packed_bits >> 63u128) & 0x3FFFFu128,
    {
        proof {
            lemma_packed(packed_bits, 0, 0);
        }
        let lo = (packed_bits & 0x7FFF_FFFF_FFFF_FFFFu128) as u64;
        let hi = ((packed_bits >> 63u128) & 0x3FFFFu128) as u64;
        Bitboard { lo, hi }
    }

    /// The packed form: the low word in bits 0-62 and the high word from bit 63.
    pub fn packed_bits(&self) -> (r: u128)
        ensures
            r == (self.low() as u128) | ((self.high() as u128) << 63u128),
    {
        (self.lo as u128) | ((self.hi as u128) << 63u128)
    }

    /// The words with their bytes reversed as one 128-bit value: the new low
    /// word is the old high word byte-swapped, and the other way round.
    pub fn byte_reverse(&self) -> (r: Bitboard)
        ensures
            forall|k: int| 0 <= k < 8 ==> byte_of(r.low(), k) == byte_of(self.high(), 7 - k),
            forall|k: int| 0 <= k < 8 ==> byte_of(r.high(), k) == byte_of(self.low(), 7 - k),
    {
        Bitboard { lo: swap_bytes(self.hi), hi: swap_bytes(self.lo) }
    }

    /// Interleaves the words of two boards: the first result holds the high
    /// words of `lo_in` and `hi_in`, the second their low words.
    pub fn unpack(hi_in: Bitboard, lo_in: Bitboard) -> (r: (Bitboard, Bitboard))
        ensures
            r.0.low() == lo_in.high(),
            r.0.high() == hi_in.high(),
            r.1.low() == lo_in.low(),
            r.1.high() == hi_in.low(),
    {
        (Bitboard { lo: lo_in.hi, hi: hi_in.hi }, Bitboard { lo: lo_in.lo, hi: hi_in.lo })
    }

    /// Subtracts one from each 128-bit value formed, word by word, by a word of
    /// `hi_in` over the same word of `lo_in`.
    pub fn decrement_pair(hi_in: Bitboard, lo_in: Bitboard) -> (r: (Bitboard, Bitboard))
        ensures
            r.1.low() == lo_in.low().wrapping_sub(1),
            r.1.high() == lo_in.high().wrapping_sub(1),
            r.0.low() == (if lo_in.low() == 0 { hi_in.low().wrapping_sub(1) } else { hi_in.low() }),
            r.0.high() == (if lo_in.high() == 0 { hi_in.high().wrapping_sub(1) } else { hi_in.high() }),
    {
        let hi_lo = if lo_in.lo == 0 { hi_in.lo.wrapping_sub(1) } else { hi_in.lo };
        let hi_hi = if lo_in.hi == 0 { hi_in.hi.wrapping_sub(1) } else { hi_in.hi };
        (
            Bitboard { lo: hi_lo, hi: hi_hi },
            Bitboard { lo: lo_in.lo.wrapping_sub(1), hi: lo_in.hi.wrapping_sub(1) },
        )
    }

    /// Subtracts one from the board read as the 128-bit value `high * 2^64 + low`.
    pub fn decrement(&self) -> (r: Bitboard)
        ensures
            r.low() == self.low().wrapping_sub(1),
            r.high() == (if self.low() == 0 { self.high().wrapping_sub(1) } else { self.high() }),
            (r.high() as int) * 0x1_0000_0000_0000_0000int + r.low() == ((self.high() as int) * 0x1_0000_0000_0000_0000int
                + self.low() - 1 + 0x1_0000_0000_0000_0000_0000_0000_0000_0000int) % 0x1_0000_0000_0000_0000_0000_0000_0000_0000int,
    {
        let lo = self.lo.wrapping_sub(1);
        let hi = if self.lo == 0 { self.hi.wrapping_sub(1) } else { self.hi };
        let r = Bitboard { lo, hi };
        proof {
            let big: int = 0x1_0000_0000_0000_0000int;
            let v = (self.hi as int) * big + self.lo;
            if self.lo == 0 {
                if self.hi == 0 {
                    assert(v - 1 + big * big == (big - 1) * big + (big - 1));
                    vstd::arithmetic::div_mod::lemma_small_mod((v - 1 + big * big) as nat, (big * big) as nat);
                } else {
                    assert(v - 1 + big * big == big * big + ((self.hi - 1) * big + (big - 1)));
                    vstd::arithmetic::div_mod::lemma_mod_add_multiples_vanish((self.hi - 1) * big + (big - 1), big * big);
                    vstd::arithmetic::div_mod::lemma_small_mod(((self.hi - 1) * big + (big - 1)) as nat, (big * big) as nat);
                }
            } else {
                assert(v - 1 + big * big == big * big + ((self.hi as int) * big + self.lo - 1));
                vstd::arithmetic::div_mod::lemma_mod_add_multiples_vanish((self.hi as int) * big + self.lo - 1, big * big);
                vstd::arithmetic::div_mod::lemma_small_mod(((self.hi as int) * big + self.lo - 1) as nat, (big * big) as nat);
            }
        }
        r
    }
}

/// Packing a masked board and reading it back gives the board.
pub proof fn lemma_packed_roundtrip(b: Bitboard)
    requires
        b.is_masked(),
    ensures
        ((b.low() as u128) | ((b.high() as u128) << 63u128)) & 0x7FFF_FFFF_FFFF_FFFFu128 == b.low() as u128,
        (((b.low() as u128) | ((b.high() as u128) << 63u128)) >> 63u128) & 0x3FFFFu128 == b.high() as u128,
{
    lemma_packed(0, b.low(), b.high());
}


impl Bitboard {
    /// The bitboard with the given words.
    pub closed spec fn words(lo: u64, hi: u64) -> Bitboard {
        Bitboard { lo, hi }
    }

    /// The words of [`Bitboard::words`] read back.
    pub proof fn lemma_words(lo: u64, hi: u64)
        ensures
            Bitboard::words(lo, hi).low() == lo,
            Bitboard::words(lo, hi).high() == hi,
    {
    }
}

impl vstd::std_specs::ops::BitAndSpecImpl for Bitboard {
    open spec fn obeys_bitand_spec() -> bool {
        true
    }

    open spec fn bitand_req(self, rhs: Bitboard) -> bool {
        true
    }

    open spec fn bitand_spec(self, rhs: Bitboard) -> Bitboard {
        Bitboard::words(self.low() & rhs.low(), self.high() & rhs.high())
    }
}

impl core::ops::BitAnd for Bitboard {
    type Output = Bitboard;

    fn bitand(self, rhs: Bitboard) -> (r: Bitboard)
        ensures
            forall|i: int| r.has(i) == (self.has(i) && rhs.has(i)),
    {
        self.and(rhs)
    }
}

impl vstd::std_specs::ops::BitOrSpecImpl for Bitboard {
    open spec fn obeys_bitor_spec() -> bool {
        true
    }

    open spec fn bitor_req(self, rhs: Bitboard) -> bool {
        true
    }

    open spec fn bitor_spec(self, rhs: Bitboard) -> Bitboard {
        Bitboard::words(self.low() | rhs.low(), self.high() | rhs.high())
    }
}

impl core::ops::BitOr for Bitboard {
    type Output = Bitboard;

    fn bitor(self, rhs: Bitboard) -> (r: Bitboard)
        ensures
            forall|i: int| r.has(i) == (self.has(i) || rhs.has(i)),
    {
        self.or(rhs)
    }
}

impl vstd::std_specs::ops::BitXorSpecImpl for Bitboard {
    open spec fn obeys_bitxor_spec() -> bool {
        true
    }

    open spec fn bitxor_req(self, rhs: Bitboard) -> bool {
        true
    }

    open spec fn bitxor_spec(self, rhs: Bitboard) -> Bitboard {
        Bitboard::words(self.low() ^ rhs.low(), self.high() ^ rhs.high())
    }
}

impl core::ops::BitXor for Bitboard {
    type Output = Bitboard;

    fn bitxor(self, rhs: Bitboard) -> (r: Bitboard)
        ensures
            forall|i: int| r.has(i) == (self.has(i) != rhs.has(i)),
    {
        self.xor(rhs)
    }
}

impl vstd::std_specs::ops::NotSpecImpl for Bitboard {
    open spec fn obeys_not_spec() -> bool {
        true
    }

    open spec fn not_req(self) -> bool {
        true
    }

    open spec fn not_spec(self) -> Bitboard {
        Bitboard::words(!self.low() & 0x7FFF_FFFF_FFFF_FFFFu64, !self.high() & 0x3FFFFu64)
    }
}

impl core::ops::Not for Bitboard {
    type Output = Bitboard;

    fn not(self) -> (r: Bitboard)
        ensures
            r.is_masked(),
            forall|i: int| r.has(i) == (0 <= i < 81 && !self.has(i)),
    {
        Bitboard::not(&self)
    }
}

impl core::ops::BitAndAssign for Bitboard {
    fn bitand_assign(&mut self, rhs: Bitboard)
        ensures
            final(self).low() == old(self).low() & rhs.low(),
            final(self).high() == old(self).high() & rhs.high(),
    {
        *self = self.and(rhs);
    }
}

impl core::ops::BitOrAssign for Bitboard {
    fn bitor_assign(&mut self, rhs: Bitboard)
        ensures
            final(self).low() == old(self).low() | rhs.low(),
            final(self).high() == old(self).high() | rhs.high(),
    {
        *self = self.or(rhs);
    }
}

impl core::ops::BitXorAssign for Bitboard {
    fn bitxor_assign(&mut self, rhs: Bitboard)
        ensures
            final(self).low() == old(self).low() ^ rhs.low(),
            final(self).high() == old(self).high() ^ rhs.high(),
    {
        *self = self.xor(rhs);
    }
}

impl core::default::Default for Bitboard {
    fn default() -> (r: Bitboard)
        ensures
            r.low() == 0,
            r.high() == 0,
    {
        Bitboard::EMPTY()
    }
}

/// `1` for a square in the set, `0` otherwise.
pub open spec fn grid_cell(b: Bitboard, file: int, rank: int) -> char {
    if b.has(file * 9 + rank) {
        '1'
    } else {
        '0'
    }
}

/// Two spaces, then the cells of files 9, 8, ... for the first `k` files of `rank`.
pub open spec fn grid_row(b: Bitboard, rank: int, k: nat) -> Seq<char>
    decreases k,
{
    if k == 0 {
        seq![' ', ' ']
    } else {
        grid_row(b, rank, (k - 1) as nat).push(grid_cell(b, 9 - k, rank))
    }
}

/// The lines of ranks 9, 8, ... for the first `k` ranks, each ending in a newline.
pub open spec fn grid_rows(b: Bitboard, k: nat) -> Seq<char>
    decreases k,
{
    if k == 0 {
        Seq::empty()
    } else {
        grid_rows(b, (k - 1) as nat) + grid_row(b, 9 - k, 9).push('\n')
    }
}

/// The text of a bitboard: `Bitboard(`, nine lines of cells with rank 9 (the
/// last rank) first and file 9 on the left, and `)`.
pub open spec fn grid_text(b: Bitboard) -> Seq<char> {
    "Bitboard("@.push('\n') + grid_rows(b, 9).push(')')
}

impl Bitboard {
    /// The text of the board (see [`grid_text`]); what `Display` and `Debug` print.
    pub fn to_string(&self) -> (r: String)
        ensures
            r@ == grid_text(*self),
    {
        let mut s = crate::text::string_from_str("Bitboard(");
        push_char(&mut s, '\n');
        let ghost head = s@;
        let mut k: i8 = 0;
        while k < 9
            invariant
                0 <= k <= 9,
                s@ == head + grid_rows(*self, k as nat),
            decreases 9 - k,
        {
            let rank = 8 - k;
            push_char(&mut s, ' ');
            push_char(&mut s, ' ');
            let ghost row_start = s@;
            let mut j: i8 = 0;
            while j < 9
                invariant
                    0 <= j <= 9,
                    0 <= rank < 9,
                    rank == 8 - k,
                    0 <= k < 9,
                    row_start == head + grid_rows(*self, k as nat) + seq![' ', ' '],
                    s@ == head + grid_rows(*self, k as nat) + grid_row(*self, rank as int, j as nat),
                decreases 9 - j,
            {
                let file = 8 - j;
                let c = if self.test(Square(file * 9 + rank)) { '1' } else { '0' };
                push_char(&mut s, c);
                j += 1;
                assert(s@ =~= head + grid_rows(*self, k as nat) + grid_row(*self, rank as int, j as nat));
            }
            push_char(&mut s, '\n');
            k += 1;
            assert(s@ =~= head + grid_rows(*self, k as nat));
        }
        push_char(&mut s, ')');
        assert(s@ =~= grid_text(*self));
        s
    }
}

} // verus!
