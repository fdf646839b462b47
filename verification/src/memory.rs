//! The memory command: logging one contact event against a set of friends. A
//! front end parses its arguments into these types, hands them with the
//! loaded roster to [`handle`], and on success persists the returned roster
//! and appends the event to the ledger.

use vstd::prelude::*;

use crate::errors::AkcError;
use crate::ledger::MemoryKind;
use crate::projection::apply_contract;
use crate::projection::apply_memory_to_config;
use crate::roster::AkcConfig;
use crate::roster::names_view;

verus! {

/// The arguments every memory subcommand takes: the participants' names.
pub struct MemoryCommandBase {
    pub names: Vec<String>,
}

/// Which kind of contact event is logged.
pub enum MemoryCommand {
    Hangout(MemoryCommandBase),
    VideoCall(MemoryCommandBase),
    Call(MemoryCommandBase),
    Text(MemoryCommandBase),
}

/// The parsed memory command.
pub struct Memory {
    pub command: MemoryCommand,
}

/// The event kind a memory command logs.
pub open spec fn command_kind(command: MemoryCommand) -> MemoryKind {
    match command {
        MemoryCommand::Hangout(_) => MemoryKind::Hangout,
        MemoryCommand::VideoCall(_) => MemoryKind::VideoCall,
        MemoryCommand::Call(_) => MemoryKind::Call,
        MemoryCommand::Text(_) => MemoryKind::Text,
    }
}

/// The participant names a memory command logs.
pub open spec fn command_names(command: MemoryCommand) -> Seq<Seq<char>> {
    match command {
        MemoryCommand::Hangout(base) => names_view(base.names@),
        MemoryCommand::VideoCall(base) => names_view(base.names@),
        MemoryCommand::Call(base) => names_view(base.names@),
        MemoryCommand::Text(base) => names_view(base.names@),
    }
}

/// Applies a hangout event — 2.0 points of reduction per participant.
pub fn add_hangout(config: &AkcConfig, names: &Vec<String>) -> (result: Result<
    AkcConfig,
    AkcError,
>)
    ensures
        apply_contract(config@, MemoryKind::Hangout, names_view(names@), result),
{
    apply_memory_to_config(config, MemoryKind::Hangout, names)
}

/// Applies a video call event — 1.0 point of reduction per participant.
pub fn add_video_call(config: &AkcConfig, names: &Vec<String>) -> (result: Result<
    AkcConfig,
    AkcError,
>)
    ensures
        apply_contract(config@, MemoryKind::VideoCall, names_view(names@), result),
{
    apply_memory_to_config(config, MemoryKind::VideoCall, names)
}

/// Applies a call event — 0.5 points of reduction per participant.
pub fn add_call(config: &AkcConfig, names: &Vec<String>) -> (result: Result<AkcConfig, AkcError>)
    ensures
        apply_contract(config@, MemoryKind::Call, names_view(names@), result),
{
    apply_memory_to_config(config, MemoryKind::Call, names)
}

/// Applies a text event — 0.25 points of reduction per participant.
pub fn add_text(config: &AkcConfig, names: &Vec<String>) -> (result: Result<AkcConfig, AkcError>)
    ensures
        apply_contract(config@, MemoryKind::Text, names_view(names@), result),
{
    apply_memory_to_config(config, MemoryKind::Text, names)
}

/// Runs a memory command against the roster: applies the commanded event to
/// the given projection and returns the updated roster, or reports exactly
/// why the event cannot be applied. Appending the event to the ledger and
/// persisting the roster are the caller's steps, taken only on success.
pub fn handle(config: &AkcConfig, args: &Memory) -> (result: Result<AkcConfig, AkcError>)
    ensures
        apply_contract(config@, command_kind(args.command), command_names(args.command), result),
{
    match &args.command {
        MemoryCommand::Hangout(base) => add_hangout(config, &base.names),
        MemoryCommand::VideoCall(base) => add_video_call(config, &base.names),
        MemoryCommand::Call(base) => add_call(config, &base.names),
        MemoryCommand::Text(base) => add_text(config, &base.names),
    }
}

} // verus!
