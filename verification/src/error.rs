//! The protocol's error taxonomy.

use vstd::prelude::*;

verus! {

/// Every way an instruction handler or a store operation can fail.
#[derive(Clone, Copy, Debug, PartialEq, Eq, Structural)]
pub enum SpoolError {
    /// An unclassified failure; also an unknown instruction.
    UnknownError,
    /// The spool is in a state that does not admit the operation.
    UnexpectedState,
    /// A write or update did not verify against the current tree.
    WriteFailed,
    /// The spool would exceed its maximum segment count.
    SpoolTooLong,
    /// The spool's balance is below what the operation requires.
    InsufficientRent,
    /// A submitted solution failed verification.
    SolutionInvalid,
    /// The targeted spool is not the recall spool.
    UnexpectedSpool,
    /// A solution's difficulty is below the epoch's requirement.
    SolutionTooEasy,
    /// A solution was submitted before the block admits one.
    SolutionTooEarly,
    /// A claim asked for more than the unclaimed balance.
    ClaimTooLarge,
    /// The committed leaf does not match the solution.
    CommitmentMismatch,
    /// The reel could not take the packed spool.
    ReelPackFailed,
    /// The reel inclusion proof failed.
    ReelUnpackFailed,
    /// The reel is at capacity.
    ReelTooManySpools,
    /// The commit inclusion proof failed.
    ReelCommitFailed,
    /// No spool is stored under the number.
    SpoolNotFound,
    /// No spool number is stored under the address.
    SpoolNotFoundForAddress,
    /// No segment is stored under the address and number.
    SegmentNotFoundForAddress,
    /// A store key could not be decoded.
    InvalidSegmentKey,
    /// A stored address could not be decoded.
    InvalidPubkey,
}

impl SpoolError {
    /// The numeric instruction-error code surfaced on-ledger.
    pub fn code(&self) -> (r: u32)
        ensures
            r == self.spec_code(),
    {
        match self {
            SpoolError::UnknownError => 0x0,
            SpoolError::UnexpectedState => 0x10,
            SpoolError::WriteFailed => 0x11,
            SpoolError::SpoolTooLong => 0x12,
            SpoolError::InsufficientRent => 0x13,
            SpoolError::SolutionInvalid => 0x20,
            SpoolError::UnexpectedSpool => 0x21,
            SpoolError::SolutionTooEasy => 0x22,
            SpoolError::SolutionTooEarly => 0x23,
            SpoolError::ClaimTooLarge => 0x24,
            SpoolError::CommitmentMismatch => 0x25,
            SpoolError::ReelPackFailed => 0x30,
            SpoolError::ReelUnpackFailed => 0x31,
            SpoolError::ReelTooManySpools => 0x32,
            SpoolError::ReelCommitFailed => 0x33,
            SpoolError::SpoolNotFound => 0x40,
            SpoolError::SpoolNotFoundForAddress => 0x44,
            SpoolError::SegmentNotFoundForAddress => 0x41,
            SpoolError::InvalidSegmentKey => 0x42,
            SpoolError::InvalidPubkey => 0x43,
        }
    }

    /// The numeric code, as a specification function.
    pub open spec fn spec_code(self) -> u32 {
        match self {
            SpoolError::UnknownError => 0x0,
            SpoolError::UnexpectedState => 0x10,
            SpoolError::WriteFailed => 0x11,
            SpoolError::SpoolTooLong => 0x12,
            SpoolError::InsufficientRent => 0x13,
            SpoolError::SolutionInvalid => 0x20,
            SpoolError::UnexpectedSpool => 0x21,
            SpoolError::SolutionTooEasy => 0x22,
            SpoolError::SolutionTooEarly => 0x23,
            SpoolError::ClaimTooLarge => 0x24,
            SpoolError::CommitmentMismatch => 0x25,
            SpoolError::ReelPackFailed => 0x30,
            SpoolError::ReelUnpackFailed => 0x31,
            SpoolError::ReelTooManySpools => 0x32,
            SpoolError::ReelCommitFailed => 0x33,
            SpoolError::SpoolNotFound => 0x40,
            SpoolError::SpoolNotFoundForAddress => 0x44,
            SpoolError::SegmentNotFoundForAddress => 0x41,
            SpoolError::InvalidSegmentKey => 0x42,
            SpoolError::InvalidPubkey => 0x43,
        }
    }
}

} // verus!
