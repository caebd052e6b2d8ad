//! The self-play chunk format under its short names.
use vstd::prelude::*;
pub use crate::records::formats::sazpack_selfplay::deserialize_selfplay_chunk as deserialize_chunk;
pub use crate::records::formats::sazpack_selfplay::deserialize_selfplay_chunk_indexed as deserialize_chunk_indexed;
pub use crate::records::formats::sazpack_selfplay::serialize_selfplay_chunk as serialize_chunk;
use crate::records::formats::sazpack_selfplay::{
    SazSelfplayError, SazSelfplayGame, SazSelfplayPolicyEntry, SazSelfplayPosition,
};

verus! {

pub type SazError = SazSelfplayError;

pub type SazGame = SazSelfplayGame;

pub type SazPosition = SazSelfplayPosition;

pub type SazPolicyEntry = SazSelfplayPolicyEntry;

} // verus!
