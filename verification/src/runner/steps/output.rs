//! The step that writes out what has been collected so far.

use crate::error::{Failure, GetapiError};
use crate::runner::action::{planned, Action, ActionModel};
use crate::runner::context::{ContextState, RunContext};
use vstd::prelude::*;

verus! {

/// What the step shows: its message as it stands. The caller then writes the
/// collected values out.
pub open spec fn plan(message: Seq<char>, c: ContextState) -> Result<ActionModel, Failure> {
    Ok(ActionModel::Output { message })
}

/// Hands the message of the step on, as it stands.
pub fn handle(message: &str, ctx: &RunContext) -> (r: Result<Action, GetapiError>)
    ensures
        planned(r) == plan(message@, ctx@),
{
    Ok(Action::Output { message: message.to_owned() })
}

} // verus!
