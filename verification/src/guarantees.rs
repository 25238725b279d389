//! What each operation is for, said of its calls alone: how the result, and what the call leaves
//! behind, relate to what it was given. The statements use numbers, sequences and maps, and none of
//! the definitions that the functions themselves are described by.
use vstd::prelude::*;

pub mod commit;
pub mod engine;
pub mod files;
pub mod format;
pub mod index;
pub mod merging;
pub mod recovery;
pub mod tools;
pub mod writes;

verus! {

/// The number that four bytes stand for, least significant first.
pub open spec fn four_bytes(bytes: Seq<u8>, at: int) -> int {
    bytes[at] + 0x100 * bytes[at + 1] + 0x1_0000 * bytes[at + 2] + 0x100_0000 * bytes[at + 3]
}

/// The number that eight bytes stand for, least significant first.
pub open spec fn eight_bytes(bytes: Seq<u8>, at: int) -> int {
    four_bytes(bytes, at) + 0x1_0000_0000 * four_bytes(bytes, at + 4)
}

} // verus!
