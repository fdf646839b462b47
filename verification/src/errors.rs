//! Structured outcomes of the engine's operations. Every expected failure is
//! reported as a value of [`AkcError`]; no verified function of this crate
//! panics.

use vstd::prelude::*;

verus! {

/// The recoverable error kinds of the engine.
#[derive(Debug)]
pub enum AkcError {
    /// A friend with this name already exists in the roster.
    DuplicateName(String),
    /// No friend with the given name exists in the roster.
    UnknownName,
    /// A contact event named participants that are not in the roster; the
    /// payload lists the offending names in the order they were given.
    UnknownParticipant(Vec<String>),
    /// A contact event named no participants at all.
    EmptyParticipants,
    /// A tier label did not name one of the known closeness tiers.
    InvalidTier,
    /// No friend's chance reaches the suggestion floor.
    NoEligibleFriend,
    /// Every eligible friend has non-positive chance, so there is no
    /// probability mass to draw from.
    DegenerateWeights,
    /// Replaying the ledger failed at the event with this id, for instance
    /// because one of its participants has since been removed.
    ReplayInconsistency(i64),
    /// A chance left the range a 64-bit fixed-point weight can hold. This is
    /// a machine-limit condition, not part of the weight model; the operation
    /// leaves the roster unchanged.
    WeightOverflow,
    /// The storage collaborator failed; the payload carries its message.
    /// Never produced by the engine itself, only by callers that do I/O.
    StorageUnavailable(String),
}

} // verus!
