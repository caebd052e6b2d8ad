//! Shogi primitives and record formats with machine-checked contracts.
use vstd::prelude::*;

pub mod board;
pub mod records;
pub mod text;
pub mod types;

verus! {
} // verus!
