//! The errors of the allocator and of a single block.

use crate::text::{around_number, around_two_numbers, concat, decimal};
use vstd::prelude::*;

verus! {

/// What can go wrong with one block.
#[derive(Debug, Clone, Copy, PartialEq, Eq, Structural)]
pub enum BlockError {
    /// An access of `len` bytes at `offset` runs past the block's `size`.
    OutOfBounds { offset: usize, len: usize, size: usize },
    NotInitialized,
    InUse,
    /// The block carries a generation that the manager has not issued yet.
    InvalidGeneration { block: u64, expected: u64 },
}

/// What can go wrong with an allocation.
#[derive(Debug, PartialEq, Eq)]
pub enum AtomAllocError {
    /// The budget would be exceeded, or the rounded size is above the largest block.
    OutOfMemory,
    /// No pool serves the size.
    InvalidSize { requested: usize, max_allowed: usize },
    /// The alignment is not a power of two.
    InvalidAlignment { requested: usize, supported: usize },
    ManagerError { message: String },
    BlockError(BlockError),
}

impl BlockError {
    /// The error in words.
    pub open spec fn text(self) -> Seq<char> {
        match self {
            BlockError::OutOfBounds { offset, len, size } => "Out of bounds access: offset "@
                + decimal(offset as nat) + " len "@ + decimal(len as nat) + " exceeds size "@
                + decimal(size as nat),
            BlockError::NotInitialized => "Block not initialized"@,
            BlockError::InUse => "Block already in use"@,
            BlockError::InvalidGeneration { block, expected } => "Invalid block generation: "@
                + decimal(block as nat) + " (expected "@ + decimal(expected as nat) + ")"@,
        }
    }

    /// The error in words.
    pub fn message(&self) -> (r: String)
        ensures
            r@ == self.text(),
    {
        match self {
            BlockError::OutOfBounds { offset, len, size } => {
                let front = around_two_numbers(
                    "Out of bounds access: offset ",
                    *offset as u64,
                    " len ",
                    *len as u64,
                    " exceeds size ",
                );
                let r = around_number(front.as_str(), *size as u64, "");
                proof {
                    reveal_strlit("");
                    assert(r@ =~= self.text());
                }
                r
            },
            BlockError::NotInitialized => "Block not initialized".to_string(),
            BlockError::InUse => "Block already in use".to_string(),
            BlockError::InvalidGeneration { block, expected } => around_two_numbers(
                "Invalid block generation: ",
                *block,
                " (expected ",
                *expected,
                ")",
            ),
        }
    }
}

impl AtomAllocError {
    /// The error in words.
    pub open spec fn text(self) -> Seq<char> {
        match self {
            AtomAllocError::OutOfMemory => "Out of memory"@,
            AtomAllocError::InvalidSize { requested, max_allowed } => "Invalid size requested: "@
                + decimal(requested as nat) + " (max: "@ + decimal(max_allowed as nat) + ")"@,
            AtomAllocError::InvalidAlignment { requested, supported } => "Invalid alignment: "@
                + decimal(requested as nat) + " (supported: "@ + decimal(supported as nat)
                + ")"@,
            AtomAllocError::ManagerError { message } => "Manager error: "@ + message@,
            AtomAllocError::BlockError(e) => "Block error: "@ + e.text(),
        }
    }

    /// The error in words.
    pub fn message(&self) -> (r: String)
        ensures
            r@ == self.text(),
    {
        match self {
            AtomAllocError::OutOfMemory => "Out of memory".to_string(),
            AtomAllocError::InvalidSize { requested, max_allowed } => around_two_numbers(
                "Invalid size requested: ",
                *requested as u64,
                " (max: ",
                *max_allowed as u64,
                ")",
            ),
            AtomAllocError::InvalidAlignment { requested, supported } => around_two_numbers(
                "Invalid alignment: ",
                *requested as u64,
                " (supported: ",
                *supported as u64,
                ")",
            ),
            AtomAllocError::ManagerError { message } => concat("Manager error: ", message.as_str()),
            AtomAllocError::BlockError(e) => {
                let inner = e.message();
                concat("Block error: ", inner.as_str())
            },
        }
    }
}

impl From<BlockError> for AtomAllocError {
    fn from(error: BlockError) -> (r: Self) {
        AtomAllocError::BlockError(error)
    }
}

impl vstd::std_specs::convert::FromSpecImpl<BlockError> for AtomAllocError {
    open spec fn obeys_from_spec() -> bool {
        true
    }

    open spec fn from_spec(error: BlockError) -> Self {
        AtomAllocError::BlockError(error)
    }
}

} // verus!
