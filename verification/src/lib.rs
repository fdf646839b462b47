//! An event-sourced engine that tracks a roster of friends, each carrying a
//! probability weight ("chance") that decays when a contact event is logged
//! and is redistributed toward the remaining friends in proportion to their
//! closeness tier. Weights are kept in fixed-point micro-units so that the
//! projection is an exact, replayable function of the event ledger.

pub mod errors;
pub mod friend;
pub mod laws;
pub mod ledger;
pub mod memory;
pub mod projection;
pub mod roster;
pub mod selection;
pub mod session;
pub mod suggest;

pub use errors::AkcError;
pub use ledger::MemoryInfo;
pub use ledger::MemoryKind;
pub use roster::AkcConfig;
pub use roster::FriendInfo;
pub use roster::Level;
