//! The friend command: adding one friend of a chosen closeness tier. A front
//! end parses its arguments into these types and hands them, together with
//! the loaded roster, to [`handle`].

use vstd::prelude::*;

use crate::errors::AkcError;
use crate::roster::AkcConfig;
use crate::roster::FriendInfo;
use crate::roster::Level;
use crate::roster::level_default_chance;
use crate::roster::roster_contains;
use crate::roster::unique_names;
use crate::session::add_friend;
use crate::session::new_friend_model;

verus! {

/// The one argument every friend subcommand takes: the new friend's name.
pub struct FriendCommandBase {
    pub name: String,
}

/// Which closeness tier the new friend is added at.
pub enum FriendCommand {
    Aji(FriendCommandBase),
    Ki(FriendCommandBase),
    Chi(FriendCommandBase),
}

/// The parsed friend command.
pub struct Friend {
    pub command: FriendCommand,
}

/// The tier a friend command adds at.
pub open spec fn command_level(command: FriendCommand) -> Level {
    match command {
        FriendCommand::Aji(_) => Level::Aji,
        FriendCommand::Ki(_) => Level::Ki,
        FriendCommand::Chi(_) => Level::Chi,
    }
}

/// The name a friend command adds.
pub open spec fn command_name(command: FriendCommand) -> Seq<char> {
    match command {
        FriendCommand::Aji(base) => base.name@,
        FriendCommand::Ki(base) => base.name@,
        FriendCommand::Chi(base) => base.name@,
    }
}

/// Adds a friend of the closest tier, with its default chance.
pub fn add_aji(config: &mut AkcConfig, name: String) -> (result: Result<(), AkcError>)
    ensures
        result is Ok <==> !roster_contains(old(config)@, name@),
        result is Ok ==> final(config)@ == old(config)@.push(new_friend_model(name@, Level::Aji)),
        result is Err ==> *final(config) == *old(config),
        unique_names(old(config)@) ==> unique_names(final(config)@),
{
    add_friend(
        config,
        FriendInfo { name, chance: level_default_chance(Level::Aji), level: Level::Aji },
    )
}

/// Adds a friend of the middle tier, with its default chance.
pub fn add_ki(config: &mut AkcConfig, name: String) -> (result: Result<(), AkcError>)
    ensures
        result is Ok <==> !roster_contains(old(config)@, name@),
        result is Ok ==> final(config)@ == old(config)@.push(new_friend_model(name@, Level::Ki)),
        result is Err ==> *final(config) == *old(config),
        unique_names(old(config)@) ==> unique_names(final(config)@),
{
    add_friend(
        config,
        FriendInfo { name, chance: level_default_chance(Level::Ki), level: Level::Ki },
    )
}

/// Adds a friend of the outer tier, with its default chance.
pub fn add_chi(config: &mut AkcConfig, name: String) -> (result: Result<(), AkcError>)
    ensures
        result is Ok <==> !roster_contains(old(config)@, name@),
        result is Ok ==> final(config)@ == old(config)@.push(new_friend_model(name@, Level::Chi)),
        result is Err ==> *final(config) == *old(config),
        unique_names(old(config)@) ==> unique_names(final(config)@),
{
    add_friend(
        config,
        FriendInfo { name, chance: level_default_chance(Level::Chi), level: Level::Chi },
    )
}

/// Runs a friend command against the roster: adds the named friend at the
/// commanded tier, or reports the duplicate name and changes nothing.
pub fn handle(config: &mut AkcConfig, args: Friend) -> (result: Result<(), AkcError>)
    ensures
        result is Ok <==> !roster_contains(old(config)@, command_name(args.command)),
        result is Ok ==> final(config)@ == old(config)@.push(
            new_friend_model(command_name(args.command), command_level(args.command)),
        ),
        result is Err ==> *final(config) == *old(config),
        unique_names(old(config)@) ==> unique_names(final(config)@),
{
    match args.command {
        FriendCommand::Aji(base) => add_aji(config, base.name),
        FriendCommand::Ki(base) => add_ki(config, base.name),
        FriendCommand::Chi(base) => add_chi(config, base.name),
    }
}

} // verus!
