//! The suggest command: one weighted random draw over the roster, returning
//! whom to contact next.

use vstd::prelude::*;

use crate::errors::AkcError;
use crate::roster::AkcConfig;
use crate::selection::suggest;
use crate::selection::suggest_contract;

verus! {

/// The parsed suggest command; it takes no arguments.
pub struct SuggestCommand {}

/// Runs the suggest command against the roster: draws one eligible friend
/// with probability proportional to its non-negative chance.
pub fn handle(config: &AkcConfig) -> (result: Result<String, AkcError>)
    ensures
        suggest_contract(config@, result),
{
    suggest(config)
}

} // verus!
