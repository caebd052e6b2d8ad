//! Ordering of evaluations by their raw value.
use vstd::prelude::*;
use core::cmp::Ordering;
use crate::types::eval::Eval;

verus! {

impl vstd::std_specs::cmp::PartialOrdSpecImpl for Eval {
    open spec fn obeys_partial_cmp_spec() -> bool {
        true
    }

    open spec fn partial_cmp_spec(&self, other: &Eval) -> Option<Ordering> {
        if self.raw_spec() < other.raw_spec() {
            Some(Ordering::Less)
        } else if self.raw_spec() == other.raw_spec() {
            Some(Ordering::Equal)
        } else {
            Some(Ordering::Greater)
        }
    }
}

/// Evaluations compare by their raw value, whatever their variant.
impl core::cmp::PartialOrd for Eval {
    fn partial_cmp(&self, other: &Eval) -> (r: Option<Ordering>) {
        let a = self.raw();
        let b = other.raw();
        if a < b {
            Some(Ordering::Less)
        } else if a == b {
            Some(Ordering::Equal)
        } else {
            Some(Ordering::Greater)
        }
    }
}

} // verus!
