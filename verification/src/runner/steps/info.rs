//! The step that shows a message.

use crate::error::{Failure, GetapiError};
use crate::runner::action::{planned, present, presented, Action, ActionModel};
use crate::runner::context::{ContextState, RunContext};
use vstd::prelude::*;

verus! {

/// What an info step shows: its message, expanded.
pub open spec fn plan(message: Seq<char>, c: ContextState) -> Result<ActionModel, Failure> {
    match presented(message, c) {
        Ok(m) => Ok(ActionModel::Info { message: m }),
        Err(e) => Err(e),
    }
}

/// Expands the message of an info step.
pub fn handle(message: &str, ctx: &RunContext) -> (r: Result<Action, GetapiError>)
    ensures
        planned(r) == plan(message@, ctx@),
{
    match present(message, ctx) {
        Ok(m) => Ok(Action::Info { message: m }),
        Err(e) => Err(e),
    }
}

} // verus!
