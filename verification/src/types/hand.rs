//! Pieces in hand, packed into one 32-bit word.
use vstd::prelude::*;
use vstd::std_specs::iter::IteratorSpec;
use crate::types::piece::PieceType;

verus! {

/// The bits that hold piece counts: pawn 0-4, lance 8-10, knight 12-14,
/// silver 16-18, bishop 20-21, rook 24-25, gold 28-30.
pub const HAND_BIT_MASK: u32 =
    0x1f | (0x7 << 8) | (0x7 << 12) | (0x7 << 16) | (0x3 << 20) | (0x3 << 24) | (0x7 << 28);

/// The bit just above each count field, set when a count has overflowed.
pub const HAND_BORROW_MASK: u32 =
    (1 << 5) | (1 << 11) | (1 << 15) | (1 << 19) | (1 << 22) | (1 << 26) | (1 << 31);

/// A piece kind that can be held in hand: `0..=6` for pawn, lance, knight,
/// silver, bishop, rook and gold. Any `i8` can be held.
#[derive(Clone, Copy, Debug, PartialEq, Eq, PartialOrd, Ord, Hash, Structural)]
pub struct HandPiece(pub i8);

#[allow(non_snake_case)]
impl HandPiece {
    pub const COUNT: usize = 7;

    pub fn PAWN() -> (r: HandPiece) ensures r.0 == 0 { HandPiece(0) }
    pub fn LANCE() -> (r: HandPiece) ensures r.0 == 1 { HandPiece(1) }
    pub fn KNIGHT() -> (r: HandPiece) ensures r.0 == 2 { HandPiece(2) }
    pub fn SILVER() -> (r: HandPiece) ensures r.0 == 3 { HandPiece(3) }
    pub fn BISHOP() -> (r: HandPiece) ensures r.0 == 4 { HandPiece(4) }
    pub fn ROOK() -> (r: HandPiece) ensures r.0 == 5 { HandPiece(5) }
    pub fn GOLD() -> (r: HandPiece) ensures r.0 == 6 { HandPiece(6) }

    pub open spec fn is_valid_spec(self) -> bool {
        0 <= self.0 < 7
    }

    pub fn new(raw: i8) -> (r: HandPiece)
        ensures
            r.0 == raw,
    {
        HandPiece(raw)
    }

    pub fn raw(self) -> (r: i8)
        ensures
            r == self.0,
    {
        self.0
    }

    pub fn to_index(self) -> (r: usize)
        ensures
            r == self.0 as usize,
    {
        self.0 as usize
    }

    pub fn is_valid(self) -> (r: bool)
        ensures
            r == self.is_valid_spec(),
    {
        self.0 >= 0 && self.0 < 7
    }

    /// The piece type `raw + 1` (pawn is piece type 1).
    pub fn to_piece_type(self) -> (r: PieceType)
        requires
            self.0 < 127,
        ensures
            r.0 == self.0 + 1,
    {
        PieceType(self.0 + 1)
    }

    /// The hand piece of a piece type `1..=7`, `None` for other piece types.
    pub fn from_piece_type(pt: PieceType) -> (r: Option<HandPiece>)
        ensures
            r == (if 1 <= pt.0 <= 7 { Some(HandPiece((pt.0 - 1) as i8)) } else { None }),
    {
        if 1 <= pt.0 && pt.0 <= 7 {
            Some(HandPiece(pt.0 - 1))
        } else {
            None
        }
    }

    /// The seven hand pieces in order.
    pub fn iter() -> (r: std::vec::IntoIter<HandPiece>)
        ensures
            r.remaining().len() == 7,
            forall|i: int| 0 <= i < 7 ==> #[trigger] r.remaining()[i] == HandPiece(i as i8),
    {
        let mut v: Vec<HandPiece> = Vec::new();
        let mut i: i8 = 0;
        while i < 7
            invariant
                0 <= i <= 7,
                v@.len() == i,
                forall|j: int| 0 <= j < i ==> #[trigger] v@[j] == HandPiece(j as i8),
            decreases 7 - i,
        {
            v.push(HandPiece(i));
            i += 1;
        }
        proof {
            vstd::std_specs::vec::axiom_spec_into_iter(v);
        }
        v.into_iter()
    }
}

/// Bit position of the count field of hand piece `i`.
pub open spec fn shift_spec(i: int) -> u32 {
    if i == 0 { 0 } else if i == 1 { 8 } else if i == 2 { 12 } else if i == 3 { 16 }
    else if i == 4 { 20 } else if i == 5 { 24 } else { 28 }
}

/// Largest count that the field of hand piece `i` holds.
pub open spec fn max_spec(i: int) -> u32 {
    if i == 0 { 31 } else if i == 1 { 7 } else if i == 2 { 7 } else if i == 3 { 7 }
    else if i == 4 { 3 } else if i == 5 { 3 } else { 7 }
}

/// Pieces in hand for one side: seven counts packed into bit fields.
#[derive(Clone, Copy, Debug, PartialEq, Eq, PartialOrd, Ord, Hash, Structural)]
pub struct Hand(pub u32);

#[allow(non_snake_case)]
impl Hand {
    /// The empty hand.
    pub fn ZERO() -> (r: Hand)
        ensures
            r.0 == 0,
    {
        Hand(0)
    }

    /// The count of hand piece `i` (`0..7`).
    pub open spec fn count_spec(self, i: int) -> u32 {
        (self.0 >> shift_spec(i)) & max_spec(i)
    }

    pub open spec fn superior_spec(a: Hand, b: Hand) -> bool {
        forall|i: int| 0 <= i < 7 ==> #[trigger] a.count_spec(i) >= b.count_spec(i)
    }

    pub fn raw(self) -> (r: u32)
        ensures
            r == self.0,
    {
        self.0
    }

    pub fn bits(self) -> (r: u32)
        ensures
            r == self.0,
    {
        self.0
    }

    pub fn from_bits(bits: u32) -> (r: Hand)
        ensures
            r.0 == bits,
    {
        Hand(bits)
    }

    pub fn from_raw(raw: u32) -> (r: Hand)
        ensures
            r.0 == raw,
    {
        Hand(raw)
    }

    fn shift(p: HandPiece) -> (r: u32)
        requires
            p.is_valid_spec(),
        ensures
            r == shift_spec(p.0 as int),
    {
        if p.0 == 0 { 0 } else if p.0 == 1 { 8 } else if p.0 == 2 { 12 } else if p.0 == 3 { 16 }
        else if p.0 == 4 { 20 } else if p.0 == 5 { 24 } else { 28 }
    }

    fn max(p: HandPiece) -> (r: u32)
        requires
            p.is_valid_spec(),
        ensures
            r == max_spec(p.0 as int),
    {
        if p.0 == 0 { 31 } else if p.0 == 1 { 7 } else if p.0 == 2 { 7 } else if p.0 == 3 { 7 }
        else if p.0 == 4 { 3 } else if p.0 == 5 { 3 } else { 7 }
    }

    /// Largest count that the field of `p` can hold.
    pub fn count_mask(p: HandPiece) -> (r: u32)
        requires
            p.is_valid_spec(),
        ensures
            r == max_spec(p.0 as int),
    {
        Hand::max(p)
    }

    pub fn count(self, p: HandPiece) -> (r: u32)
        requires
            p.is_valid_spec(),
        ensures
            r == self.count_spec(p.0 as int),
            r <= max_spec(p.0 as int),
    {
        let x = self.0;
        let s = Hand::shift(p);
        let m = Hand::max(p);
        assert((x >> s) & m <= m) by (bit_vector);
        (x >> s) & m
    }

    /// Whether at least one piece of type `piece` is held; `false` for piece
    /// types that cannot be held.
    pub fn has(self, piece: PieceType) -> (r: bool)
        ensures
            r == (1 <= piece.0 <= 7 && self.count_spec(piece.0 - 1) != 0),
    {
        match HandPiece::from_piece_type(piece) {
            Some(hp) => self.count(hp) != 0,
            None => false,
        }
    }

    pub fn has_overflow(self) -> (r: bool)
        ensures
            r == (self.0 & HAND_BORROW_MASK != 0),
    {
        self.0 & HAND_BORROW_MASK != 0
    }

    pub fn count_of(hand: Hand, p: HandPiece) -> (r: u32)
        requires
            p.is_valid_spec(),
        ensures
            r == hand.count_spec(p.0 as int),
    {
        hand.count(p)
    }

    /// Adds `n` pieces of `p`; the count must stay within its field.
    pub fn add(&mut self, p: HandPiece, n: u32)
        requires
            p.is_valid_spec(),
            n <= max_spec(p.0 as int) - old(self).count_spec(p.0 as int),
        ensures
            final(self).0 == old(self).0 + (n << shift_spec(p.0 as int)),
    {
        match self.checked_add(p, n) {
            Some(v) => {
                *self = v;
            },
            None => {},
        }
    }

    /// Removes `n` pieces of `p`; at least `n` must be held.
    pub fn sub(&mut self, p: HandPiece, n: u32)
        requires
            p.is_valid_spec(),
            n <= old(self).count_spec(p.0 as int),
        ensures
            final(self).0 == old(self).0 - (n << shift_spec(p.0 as int)),
    {
        match self.checked_sub(p, n) {
            Some(v) => {
                *self = v;
            },
            None => {},
        }
    }

    /// One more `p`, or the hand unchanged when its field is full.
    pub fn add_one(hand: Hand, p: HandPiece) -> (r: Hand)
        requires
            p.is_valid_spec(),
        ensures
            r == (if hand.count_spec(p.0 as int) < max_spec(p.0 as int) {
                Hand((hand.0 + (1u32 << shift_spec(p.0 as int))) as u32)
            } else {
                hand
            }),
    {
        match hand.checked_add(p, 1) {
            Some(v) => v,
            None => hand,
        }
    }

    /// One fewer `p`, or the hand unchanged when none is held.
    pub fn sub_one(hand: Hand, p: HandPiece) -> (r: Hand)
        requires
            p.is_valid_spec(),
        ensures
            r == (if hand.count_spec(p.0 as int) >= 1 {
                Hand((hand.0 - (1u32 << shift_spec(p.0 as int))) as u32)
            } else {
                hand
            }),
    {
        match hand.checked_sub(p, 1) {
            Some(v) => v,
            None => hand,
        }
    }

    /// `n` more pieces of `p`, or `None` when the count would leave its field.
    /// The other counts are unchanged.
    pub fn checked_add(self, p: HandPiece, n: u32) -> (r: Option<Hand>)
        requires
            p.is_valid_spec(),
        ensures
            r is None <==> n > max_spec(p.0 as int) - self.count_spec(p.0 as int),
            r matches Some(h) ==> {
                &&& h.0 == self.0 + (n << shift_spec(p.0 as int))
                &&& h.count_spec(p.0 as int) == self.count_spec(p.0 as int) + n
                &&& forall|q: int| 0 <= q < 7 && q != p.0 ==> #[trigger] h.count_spec(q) == self.count_spec(q)
            },
    {
        let c = self.count(p);
        let m = Hand::max(p);
        if n > m - c {
            None
        } else {
            let s = Hand::shift(p);
            proof {
        if p.0 == 0 { lemma_field_add_0(self.0, n); }
        else if p.0 == 1 { lemma_field_add_1(self.0, n); }
        else if p.0 == 2 { lemma_field_add_2(self.0, n); }
        else if p.0 == 3 { lemma_field_add_3(self.0, n); }
        else if p.0 == 4 { lemma_field_add_4(self.0, n); }
        else if p.0 == 5 { lemma_field_add_5(self.0, n); }
        else if p.0 == 6 { lemma_field_add_6(self.0, n); }
            }
            Some(Hand(self.0 + (n << s)))
        }
    }

    /// `n` fewer pieces of `p`, or `None` when fewer than `n` are held.
    /// The other counts are unchanged.
    pub fn checked_sub(self, p: HandPiece, n: u32) -> (r: Option<Hand>)
        requires
            p.is_valid_spec(),
        ensures
            r is None <==> n > self.count_spec(p.0 as int),
            r matches Some(h) ==> {
                &&& h.0 == self.0 - (n << shift_spec(p.0 as int))
                &&& h.count_spec(p.0 as int) == self.count_spec(p.0 as int) - n
                &&& forall|q: int| 0 <= q < 7 && q != p.0 ==> #[trigger] h.count_spec(q) == self.count_spec(q)
            },
    {
        let c = self.count(p);
        if n > c {
            None
        } else {
            let s = Hand::shift(p);
            proof {
        if p.0 == 0 { lemma_field_sub_0(self.0, n); }
        else if p.0 == 1 { lemma_field_sub_1(self.0, n); }
        else if p.0 == 2 { lemma_field_sub_2(self.0, n); }
        else if p.0 == 3 { lemma_field_sub_3(self.0, n); }
        else if p.0 == 4 { lemma_field_sub_4(self.0, n); }
        else if p.0 == 5 { lemma_field_sub_5(self.0, n); }
        else if p.0 == 6 { lemma_field_sub_6(self.0, n); }
            }
            Some(Hand(self.0 - (n << s)))
        }
    }

    /// Whether `a` holds at least as many of every piece as `b`.
    pub fn is_equal_or_superior(a: Hand, b: Hand) -> (r: bool)
        ensures
            r == Hand::superior_spec(a, b),
    {
        let r = a.count(HandPiece(0)) >= b.count(HandPiece(0))
            && a.count(HandPiece(1)) >= b.count(HandPiece(1))
            && a.count(HandPiece(2)) >= b.count(HandPiece(2))
            && a.count(HandPiece(3)) >= b.count(HandPiece(3))
            && a.count(HandPiece(4)) >= b.count(HandPiece(4))
            && a.count(HandPiece(5)) >= b.count(HandPiece(5))
            && a.count(HandPiece(6)) >= b.count(HandPiece(6));
        proof {
            if r {
                assert forall|i: int| 0 <= i < 7 implies #[trigger] a.count_spec(i) >= b.count_spec(i) by {
                    assert(i == 0 || i == 1 || i == 2 || i == 3 || i == 4 || i == 5 || i == 6);
                }
            }
        }
        r
    }

    pub fn pawn_count(self) -> (r: u32) ensures r == self.count_spec(0) { self.count(HandPiece(0)) }
    pub fn lance_count(self) -> (r: u32) ensures r == self.count_spec(1) { self.count(HandPiece(1)) }
    pub fn knight_count(self) -> (r: u32) ensures r == self.count_spec(2) { self.count(HandPiece(2)) }
    pub fn silver_count(self) -> (r: u32) ensures r == self.count_spec(3) { self.count(HandPiece(3)) }
    pub fn bishop_count(self) -> (r: u32) ensures r == self.count_spec(4) { self.count(HandPiece(4)) }
    pub fn rook_count(self) -> (r: u32) ensures r == self.count_spec(5) { self.count(HandPiece(5)) }
    pub fn gold_count(self) -> (r: u32) ensures r == self.count_spec(6) { self.count(HandPiece(6)) }
}

impl core::default::Default for Hand {
    fn default() -> (r: Hand)
        ensures
            r.0 == 0,
    {
        Hand(0)
    }
}

impl core::default::Default for HandPiece {
    fn default() -> (r: HandPiece)
        ensures
            r.0 == 0,
    {
        HandPiece(0)
    }
}

/// Removing what was just added gives the hand back.
pub proof fn lemma_add_then_sub(h: Hand, h2: Hand, p: int, n: u32)
    requires
        0 <= p < 7,
        n <= max_spec(p) - h.count_spec(p),
        h2.0 == h.0 + (n << shift_spec(p)),
    ensures
        n <= h2.count_spec(p),
        h2.0 - (n << shift_spec(p)) == h.0,
{
        if p == 0 { lemma_field_add_0(h.0, n); }
        else if p == 1 { lemma_field_add_1(h.0, n); }
        else if p == 2 { lemma_field_add_2(h.0, n); }
        else if p == 3 { lemma_field_add_3(h.0, n); }
        else if p == 4 { lemma_field_add_4(h.0, n); }
        else if p == 5 { lemma_field_add_5(h.0, n); }
        else if p == 6 { lemma_field_add_6(h.0, n); }
}

/// Every hand holds at least as much as itself, and adding pieces never makes
/// a hand inferior to what it was.
pub proof fn lemma_superior_reflexive_and_monotone(h: Hand, h2: Hand, p: int, n: u32)
    requires
        0 <= p < 7,
        n <= max_spec(p) - h.count_spec(p),
        h2.0 == h.0 + (n << shift_spec(p)),
    ensures
        Hand::superior_spec(h, h),
        Hand::superior_spec(h2, h),
{
    assert forall|q: int| 0 <= q < 7 implies #[trigger] h2.count_spec(q) >= h.count_spec(q) by {
        if p == 0 { lemma_field_add_0(h.0, n); }
        else if p == 1 { lemma_field_add_1(h.0, n); }
        else if p == 2 { lemma_field_add_2(h.0, n); }
        else if p == 3 { lemma_field_add_3(h.0, n); }
        else if p == 4 { lemma_field_add_4(h.0, n); }
        else if p == 5 { lemma_field_add_5(h.0, n); }
        else if p == 6 { lemma_field_add_6(h.0, n); }
    }
}

proof fn lemma_field_add_0(raw: u32, n: u32)
    by (bit_vector)
    requires
        n <= 31u32 - ((raw >> 0u32) & 31u32),
    ensures
        raw as int + ((n << 0u32) as int) <= 0xffff_ffff,
        ((((raw + (n << 0u32)) as u32)) >> 0u32) & 31u32 == ((raw >> 0u32) & 31u32) + n,
        ((((raw + (n << 0u32)) as u32)) >> 8u32) & 7u32 == (raw >> 8u32) & 7u32 && ((((raw + (n << 0u32)) as u32)) >> 12u32) & 7u32 == (raw >> 12u32) & 7u32 && ((((raw + (n << 0u32)) as u32)) >> 16u32) & 7u32 == (raw >> 16u32) & 7u32 && ((((raw + (n << 0u32)) as u32)) >> 20u32) & 3u32 == (raw >> 20u32) & 3u32 && ((((raw + (n << 0u32)) as u32)) >> 24u32) & 3u32 == (raw >> 24u32) & 3u32 && ((((raw + (n << 0u32)) as u32)) >> 28u32) & 7u32 == (raw >> 28u32) & 7u32,
{
}

proof fn lemma_field_sub_0(raw: u32, n: u32)
    by (bit_vector)
    requires
        n <= (raw >> 0u32) & 31u32,
    ensures
        (n << 0u32) <= raw,
        ((((raw - (n << 0u32)) as u32)) >> 0u32) & 31u32 == ((raw >> 0u32) & 31u32) - n,
        ((((raw - (n << 0u32)) as u32)) >> 8u32) & 7u32 == (raw >> 8u32) & 7u32 && ((((raw - (n << 0u32)) as u32)) >> 12u32) & 7u32 == (raw >> 12u32) & 7u32 && ((((raw - (n << 0u32)) as u32)) >> 16u32) & 7u32 == (raw >> 16u32) & 7u32 && ((((raw - (n << 0u32)) as u32)) >> 20u32) & 3u32 == (raw >> 20u32) & 3u32 && ((((raw - (n << 0u32)) as u32)) >> 24u32) & 3u32 == (raw >> 24u32) & 3u32 && ((((raw - (n << 0u32)) as u32)) >> 28u32) & 7u32 == (raw >> 28u32) & 7u32,
{
}

proof fn lemma_field_add_1(raw: u32, n: u32)
    by (bit_vector)
    requires
        n <= 7u32 - ((raw >> 8u32) & 7u32),
    ensures
        raw as int + ((n << 8u32) as int) <= 0xffff_ffff,
        ((((raw + (n << 8u32)) as u32)) >> 8u32) & 7u32 == ((raw >> 8u32) & 7u32) + n,
        ((((raw + (n << 8u32)) as u32)) >> 0u32) & 31u32 == (raw >> 0u32) & 31u32 && ((((raw + (n << 8u32)) as u32)) >> 12u32) & 7u32 == (raw >> 12u32) & 7u32 && ((((raw + (n << 8u32)) as u32)) >> 16u32) & 7u32 == (raw >> 16u32) & 7u32 && ((((raw + (n << 8u32)) as u32)) >> 20u32) & 3u32 == (raw >> 20u32) & 3u32 && ((((raw + (n << 8u32)) as u32)) >> 24u32) & 3u32 == (raw >> 24u32) & 3u32 && ((((raw + (n << 8u32)) as u32)) >> 28u32) & 7u32 == (raw >> 28u32) & 7u32,
{
}

proof fn lemma_field_sub_1(raw: u32, n: u32)
    by (bit_vector)
    requires
        n <= (raw >> 8u32) & 7u32,
    ensures
        (n << 8u32) <= raw,
        ((((raw - (n << 8u32)) as u32)) >> 8u32) & 7u32 == ((raw >> 8u32) & 7u32) - n,
        ((((raw - (n << 8u32)) as u32)) >> 0u32) & 31u32 == (raw >> 0u32) & 31u32 && ((((raw - (n << 8u32)) as u32)) >> 12u32) & 7u32 == (raw >> 12u32) & 7u32 && ((((raw - (n << 8u32)) as u32)) >> 16u32) & 7u32 == (raw >> 16u32) & 7u32 && ((((raw - (n << 8u32)) as u32)) >> 20u32) & 3u32 == (raw >> 20u32) & 3u32 && ((((raw - (n << 8u32)) as u32)) >> 24u32) & 3u32 == (raw >> 24u32) & 3u32 && ((((raw - (n << 8u32)) as u32)) >> 28u32) & 7u32 == (raw >> 28u32) & 7u32,
{
}

proof fn lemma_field_add_2(raw: u32, n: u32)
    by (bit_vector)
    requires
        n <= 7u32 - ((raw >> 12u32) & 7u32),
    ensures
        raw as int + ((n << 12u32) as int) <= 0xffff_ffff,
        ((((raw + (n << 12u32)) as u32)) >> 12u32) & 7u32 == ((raw >> 12u32) & 7u32) + n,
        ((((raw + (n << 12u32)) as u32)) >> 0u32) & 31u32 == (raw >> 0u32) & 31u32 && ((((raw + (n << 12u32)) as u32)) >> 8u32) & 7u32 == (raw >> 8u32) & 7u32 && ((((raw + (n << 12u32)) as u32)) >> 16u32) & 7u32 == (raw >> 16u32) & 7u32 && ((((raw + (n << 12u32)) as u32)) >> 20u32) & 3u32 == (raw >> 20u32) & 3u32 && ((((raw + (n << 12u32)) as u32)) >> 24u32) & 3u32 == (raw >> 24u32) & 3u32 && ((((raw + (n << 12u32)) as u32)) >> 28u32) & 7u32 == (raw >> 28u32) & 7u32,
{
}

proof fn lemma_field_sub_2(raw: u32, n: u32)
    by (bit_vector)
    requires
        n <= (raw >> 12u32) & 7u32,
    ensures
        (n << 12u32) <= raw,
        ((((raw - (n << 12u32)) as u32)) >> 12u32) & 7u32 == ((raw >> 12u32) & 7u32) - n,
        ((((raw - (n << 12u32)) as u32)) >> 0u32) & 31u32 == (raw >> 0u32) & 31u32 && ((((raw - (n << 12u32)) as u32)) >> 8u32) & 7u32 == (raw >> 8u32) & 7u32 && ((((raw - (n << 12u32)) as u32)) >> 16u32) & 7u32 == (raw >> 16u32) & 7u32 && ((((raw - (n << 12u32)) as u32)) >> 20u32) & 3u32 == (raw >> 20u32) & 3u32 && ((((raw - (n << 12u32)) as u32)) >> 24u32) & 3u32 == (raw >> 24u32) & 3u32 && ((((raw - (n << 12u32)) as u32)) >> 28u32) & 7u32 == (raw >> 28u32) & 7u32,
{
}

proof fn lemma_field_add_3(raw: u32, n: u32)
    by (bit_vector)
    requires
        n <= 7u32 - ((raw >> 16u32) & 7u32),
    ensures
        raw as int + ((n << 16u32) as int) <= 0xffff_ffff,
        ((((raw + (n << 16u32)) as u32)) >> 16u32) & 7u32 == ((raw >> 16u32) & 7u32) + n,
        ((((raw + (n << 16u32)) as u32)) >> 0u32) & 31u32 == (raw >> 0u32) & 31u32 && ((((raw + (n << 16u32)) as u32)) >> 8u32) & 7u32 == (raw >> 8u32) & 7u32 && ((((raw + (n << 16u32)) as u32)) >> 12u32) & 7u32 == (raw >> 12u32) & 7u32 && ((((raw + (n << 16u32)) as u32)) >> 20u32) & 3u32 == (raw >> 20u32) & 3u32 && ((((raw + (n << 16u32)) as u32)) >> 24u32) & 3u32 == (raw >> 24u32) & 3u32 && ((((raw + (n << 16u32)) as u32)) >> 28u32) & 7u32 == (raw >> 28u32) & 7u32,
{
}

proof fn lemma_field_sub_3(raw: u32, n: u32)
    by (bit_vector)
    requires
        n <= (raw >> 16u32) & 7u32,
    ensures
        (n << 16u32) <= raw,
        ((((raw - (n << 16u32)) as u32)) >> 16u32) & 7u32 == ((raw >> 16u32) & 7u32) - n,
        ((((raw - (n << 16u32)) as u32)) >> 0u32) & 31u32 == (raw >> 0u32) & 31u32 && ((((raw - (n << 16u32)) as u32)) >> 8u32) & 7u32 == (raw >> 8u32) & 7u32 && ((((raw - (n << 16u32)) as u32)) >> 12u32) & 7u32 == (raw >> 12u32) & 7u32 && ((((raw - (n << 16u32)) as u32)) >> 20u32) & 3u32 == (raw >> 20u32) & 3u32 && ((((raw - (n << 16u32)) as u32)) >> 24u32) & 3u32 == (raw >> 24u32) & 3u32 && ((((raw - (n << 16u32)) as u32)) >> 28u32) & 7u32 == (raw >> 28u32) & 7u32,
{
}

proof fn lemma_field_add_4(raw: u32, n: u32)
    by (bit_vector)
    requires
        n <= 3u32 - ((raw >> 20u32) & 3u32),
    ensures
        raw as int + ((n << 20u32) as int) <= 0xffff_ffff,
        ((((raw + (n << 20u32)) as u32)) >> 20u32) & 3u32 == ((raw >> 20u32) & 3u32) + n,
        ((((raw + (n << 20u32)) as u32)) >> 0u32) & 31u32 == (raw >> 0u32) & 31u32 && ((((raw + (n << 20u32)) as u32)) >> 8u32) & 7u32 == (raw >> 8u32) & 7u32 && ((((raw + (n << 20u32)) as u32)) >> 12u32) & 7u32 == (raw >> 12u32) & 7u32 && ((((raw + (n << 20u32)) as u32)) >> 16u32) & 7u32 == (raw >> 16u32) & 7u32 && ((((raw + (n << 20u32)) as u32)) >> 24u32) & 3u32 == (raw >> 24u32) & 3u32 && ((((raw + (n << 20u32)) as u32)) >> 28u32) & 7u32 == (raw >> 28u32) & 7u32,
{
}

proof fn lemma_field_sub_4(raw: u32, n: u32)
    by (bit_vector)
    requires
        n <= (raw >> 20u32) & 3u32,
    ensures
        (n << 20u32) <= raw,
        ((((raw - (n << 20u32)) as u32)) >> 20u32) & 3u32 == ((raw >> 20u32) & 3u32) - n,
        ((((raw - (n << 20u32)) as u32)) >> 0u32) & 31u32 == (raw >> 0u32) & 31u32 && ((((raw - (n << 20u32)) as u32)) >> 8u32) & 7u32 == (raw >> 8u32) & 7u32 && ((((raw - (n << 20u32)) as u32)) >> 12u32) & 7u32 == (raw >> 12u32) & 7u32 && ((((raw - (n << 20u32)) as u32)) >> 16u32) & 7u32 == (raw >> 16u32) & 7u32 && ((((raw - (n << 20u32)) as u32)) >> 24u32) & 3u32 == (raw >> 24u32) & 3u32 && ((((raw - (n << 20u32)) as u32)) >> 28u32) & 7u32 == (raw >> 28u32) & 7u32,
{
}

proof fn lemma_field_add_5(raw: u32, n: u32)
    by (bit_vector)
    requires
        n <= 3u32 - ((raw >> 24u32) & 3u32),
    ensures
        raw as int + ((n << 24u32) as int) <= 0xffff_ffff,
        ((((raw + (n << 24u32)) as u32)) >> 24u32) & 3u32 == ((raw >> 24u32) & 3u32) + n,
        ((((raw + (n << 24u32)) as u32)) >> 0u32) & 31u32 == (raw >> 0u32) & 31u32 && ((((raw + (n << 24u32)) as u32)) >> 8u32) & 7u32 == (raw >> 8u32) & 7u32 && ((((raw + (n << 24u32)) as u32)) >> 12u32) & 7u32 == (raw >> 12u32) & 7u32 && ((((raw + (n << 24u32)) as u32)) >> 16u32) & 7u32 == (raw >> 16u32) & 7u32 && ((((raw + (n << 24u32)) as u32)) >> 20u32) & 3u32 == (raw >> 20u32) & 3u32 && ((((raw + (n << 24u32)) as u32)) >> 28u32) & 7u32 == (raw >> 28u32) & 7u32,
{
}

proof fn lemma_field_sub_5(raw: u32, n: u32)
    by (bit_vector)
    requires
        n <= (raw >> 24u32) & 3u32,
    ensures
        (n << 24u32) <= raw,
        ((((raw - (n << 24u32)) as u32)) >> 24u32) & 3u32 == ((raw >> 24u32) & 3u32) - n,
        ((((raw - (n << 24u32)) as u32)) >> 0u32) & 31u32 == (raw >> 0u32) & 31u32 && ((((raw - (n << 24u32)) as u32)) >> 8u32) & 7u32 == (raw >> 8u32) & 7u32 && ((((raw - (n << 24u32)) as u32)) >> 12u32) & 7u32 == (raw >> 12u32) & 7u32 && ((((raw - (n << 24u32)) as u32)) >> 16u32) & 7u32 == (raw >> 16u32) & 7u32 && ((((raw - (n << 24u32)) as u32)) >> 20u32) & 3u32 == (raw >> 20u32) & 3u32 && ((((raw - (n << 24u32)) as u32)) >> 28u32) & 7u32 == (raw >> 28u32) & 7u32,
{
}

proof fn lemma_field_add_6(raw: u32, n: u32)
    by (bit_vector)
    requires
        n <= 7u32 - ((raw >> 28u32) & 7u32),
    ensures
        raw as int + ((n << 28u32) as int) <= 0xffff_ffff,
        ((((raw + (n << 28u32)) as u32)) >> 28u32) & 7u32 == ((raw >> 28u32) & 7u32) + n,
        ((((raw + (n << 28u32)) as u32)) >> 0u32) & 31u32 == (raw >> 0u32) & 31u32 && ((((raw + (n << 28u32)) as u32)) >> 8u32) & 7u32 == (raw >> 8u32) & 7u32 && ((((raw + (n << 28u32)) as u32)) >> 12u32) & 7u32 == (raw >> 12u32) & 7u32 && ((((raw + (n << 28u32)) as u32)) >> 16u32) & 7u32 == (raw >> 16u32) & 7u32 && ((((raw + (n << 28u32)) as u32)) >> 20u32) & 3u32 == (raw >> 20u32) & 3u32 && ((((raw + (n << 28u32)) as u32)) >> 24u32) & 3u32 == (raw >> 24u32) & 3u32,
{
}

proof fn lemma_field_sub_6(raw: u32, n: u32)
    by (bit_vector)
    requires
        n <= (raw >> 28u32) & 7u32,
    ensures
        (n << 28u32) <= raw,
        ((((raw - (n << 28u32)) as u32)) >> 28u32) & 7u32 == ((raw >> 28u32) & 7u32) - n,
        ((((raw - (n << 28u32)) as u32)) >> 0u32) & 31u32 == (raw >> 0u32) & 31u32 && ((((raw - (n << 28u32)) as u32)) >> 8u32) & 7u32 == (raw >> 8u32) & 7u32 && ((((raw - (n << 28u32)) as u32)) >> 12u32) & 7u32 == (raw >> 12u32) & 7u32 && ((((raw - (n << 28u32)) as u32)) >> 16u32) & 7u32 == (raw >> 16u32) & 7u32 && ((((raw - (n << 28u32)) as u32)) >> 20u32) & 3u32 == (raw >> 20u32) & 3u32 && ((((raw - (n << 28u32)) as u32)) >> 24u32) & 3u32 == (raw >> 24u32) & 3u32,
{
}

} // verus!
