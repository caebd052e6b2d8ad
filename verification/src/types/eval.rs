//! Evaluation values in centipawns, with a special range for mate scores.
use vstd::prelude::*;
use crate::text::{push_signed_decimal, signed_decimal};

verus! {

/// An evaluation: `Cp` for centipawn values in `-32000..=32000`, `Special` for
/// every other `i16` (mate scores and sentinels).
#[derive(Clone, Copy, Debug, PartialEq, Eq, Hash, Structural)]
pub enum Eval {
    Cp(i16),
    Special(i16),
}

/// The variant that holds a raw value: `Cp` inside the centipawn range, `Special` outside.
pub open spec fn eval_from_raw_spec(raw: i16) -> Eval {
    if Eval::CP_MIN <= raw <= Eval::CP_MAX {
        Eval::Cp(raw)
    } else {
        Eval::Special(raw)
    }
}

/// An `i32` clamped to the `i16` range.
pub open spec fn clamp_i16(value: int) -> i16 {
    if value > i16::MAX {
        i16::MAX
    } else if value < i16::MIN {
        i16::MIN
    } else {
        value as i16
    }
}

#[allow(non_snake_case)]
impl Eval {
    pub const CP_MIN: i16 = -32_000;
    pub const CP_MAX: i16 = 32_000;

    /// The centipawn value 0.
    pub fn ZERO() -> (r: Eval)
        ensures
            r == Eval::Cp(0),
    {
        Eval::Cp(0)
    }

    pub open spec fn raw_spec(self) -> i16 {
        match self {
            Eval::Cp(v) => v,
            Eval::Special(v) => v,
        }
    }

    pub fn from_raw(raw: i16) -> (r: Eval)
        ensures
            r == eval_from_raw_spec(raw),
    {
        if raw >= Eval::CP_MIN && raw <= Eval::CP_MAX {
            Eval::Cp(raw)
        } else {
            Eval::Special(raw)
        }
    }

    /// A centipawn value, or `None` outside `-32000..=32000`.
    pub fn from_cp(value: i32) -> (r: Option<Eval>)
        ensures
            r == (if Eval::CP_MIN <= value <= Eval::CP_MAX { Some(Eval::Cp(value as i16)) } else { None }),
    {
        if value >= -32000i32 && value <= 32000i32 {
            Some(Eval::Cp(value as i16))
        } else {
            None
        }
    }

    /// The value clamped to `i16`, then classified as by [`Eval::from_raw`].
    pub fn from_i32(value: i32) -> (r: Eval)
        ensures
            r == eval_from_raw_spec(clamp_i16(value as int)),
    {
        let clamped: i16 = if value > 32767i32 {
            i16::MAX
        } else if value < -32768i32 {
            i16::MIN
        } else {
            value as i16
        };
        Eval::from_raw(clamped)
    }

    pub fn raw(self) -> (r: i16)
        ensures
            r == self.raw_spec(),
    {
        match self {
            Eval::Cp(value) => value,
            Eval::Special(value) => value,
        }
    }

    pub fn to_i32(self) -> (r: i32)
        ensures
            r == self.raw_spec(),
    {
        self.raw() as i32
    }

    pub fn is_special(self) -> (r: bool)
        ensures
            r == (self is Special),
    {
        match self {
            Eval::Special(_) => true,
            Eval::Cp(_) => false,
        }
    }

    /// The raw value in decimal, as `Display` prints it.
    pub fn to_string(&self) -> (r: String)
        ensures
            r@ == signed_decimal(self.raw_spec() as int),
    {
        let mut s = String::new();
        push_signed_decimal(&mut s, self.raw() as i64);
        assert(s@ =~= signed_decimal(self.raw_spec() as int));
        s
    }
}

/// Classifying a raw value and reading it back gives the same value, and every
/// evaluation built by the constructors is the classification of its raw value.
pub proof fn lemma_eval_raw_roundtrip(raw: i16)
    ensures
        eval_from_raw_spec(raw).raw_spec() == raw,
        eval_from_raw_spec(eval_from_raw_spec(raw).raw_spec()) == eval_from_raw_spec(raw),
{
}

impl core::default::Default for Eval {
    fn default() -> (r: Eval)
        ensures
            r == Eval::Cp(0),
    {
        Eval::Cp(0)
    }
}

impl vstd::std_specs::convert::FromSpecImpl<i16> for Eval {
    open spec fn obeys_from_spec() -> bool {
        true
    }

    open spec fn from_spec(value: i16) -> Eval {
        eval_from_raw_spec(value)
    }
}

impl core::convert::From<i16> for Eval {
    fn from(value: i16) -> (r: Eval) {
        Eval::from_raw(value)
    }
}

impl vstd::std_specs::convert::FromSpecImpl<Eval> for i16 {
    open spec fn obeys_from_spec() -> bool {
        true
    }

    open spec fn from_spec(value: Eval) -> i16 {
        value.raw_spec()
    }
}

impl core::convert::From<Eval> for i16 {
    fn from(value: Eval) -> (r: i16) {
        value.raw()
    }
}

impl vstd::std_specs::ops::AddSpecImpl for Eval {
    open spec fn obeys_add_spec() -> bool {
        true
    }

    open spec fn add_req(self, rhs: Eval) -> bool {
        true
    }

    open spec fn add_spec(self, rhs: Eval) -> Eval {
        eval_from_raw_spec(clamp_i16(self.raw_spec() + rhs.raw_spec()))
    }
}

/// The sum of the raw values, clamped to `i16`.
impl core::ops::Add for Eval {
    type Output = Eval;

    fn add(self, rhs: Eval) -> (r: Eval) {
        Eval::from_i32(self.to_i32() + rhs.to_i32())
    }
}

impl vstd::std_specs::ops::SubSpecImpl for Eval {
    open spec fn obeys_sub_spec() -> bool {
        true
    }

    open spec fn sub_req(self, rhs: Eval) -> bool {
        true
    }

    open spec fn sub_spec(self, rhs: Eval) -> Eval {
        eval_from_raw_spec(clamp_i16(self.raw_spec() - rhs.raw_spec()))
    }
}

/// The difference of the raw values, clamped to `i16`.
impl core::ops::Sub for Eval {
    type Output = Eval;

    fn sub(self, rhs: Eval) -> (r: Eval) {
        Eval::from_i32(self.to_i32() - rhs.to_i32())
    }
}

impl vstd::std_specs::ops::NegSpecImpl for Eval {
    open spec fn obeys_neg_spec() -> bool {
        true
    }

    open spec fn neg_req(self) -> bool {
        true
    }

    open spec fn neg_spec(self) -> Eval {
        eval_from_raw_spec(clamp_i16(-self.raw_spec()))
    }
}

/// The negated raw value, clamped to `i16` (so `-i16::MIN` is `i16::MAX`).
impl core::ops::Neg for Eval {
    type Output = Eval;

    fn neg(self) -> (r: Eval) {
        Eval::from_i32(-self.to_i32())
    }
}

impl core::ops::AddAssign for Eval {
    fn add_assign(&mut self, rhs: Eval)
        ensures
            *final(self) == eval_from_raw_spec(clamp_i16(old(self).raw_spec() + rhs.raw_spec())),
    {
        *self = Eval::from_i32(self.to_i32() + rhs.to_i32());
    }
}

impl core::ops::SubAssign for Eval {
    fn sub_assign(&mut self, rhs: Eval)
        ensures
            *final(self) == eval_from_raw_spec(clamp_i16(old(self).raw_spec() - rhs.raw_spec())),
    {
        *self = Eval::from_i32(self.to_i32() - rhs.to_i32());
    }
}

} // verus!
