//! Byte-level position encodings carried by the training-data formats.
use vstd::prelude::*;

verus! {

/// A position in the 256-bit Huffman coding used by Apery and cshogi.
#[derive(Clone, Copy, Debug, PartialEq, Eq, Hash, Default)]
pub struct HuffmanCodedPos {
    pub data: [u8; 32],
}

/// A position in the 256-bit packed SFEN coding used by YaneuraOu.
#[derive(Clone, Copy, Debug, PartialEq, Eq, Hash, Default)]
pub struct PackedSfen {
    pub data: [u8; 32],
}

} // verus!
