//! The step that copies a value to the clipboard.

use crate::error::{Failure, GetapiError};
use crate::recipe::template::{expand, expanded};
use crate::runner::action::{planned, Action, ActionModel};
use crate::runner::context::{ContextState, RunContext};
use vstd::prelude::*;

verus! {

/// What the step copies: its message and its value, both expanded strictly.
pub open spec fn plan(value: Seq<char>, message: Seq<char>, c: ContextState) -> Result<
    ActionModel,
    Failure,
> {
    match expanded(message, c.vars) {
        Err(e) => Err(e),
        Ok(m) => match expanded(value, c.vars) {
            Err(e) => Err(e),
            Ok(v) => Ok(ActionModel::Copy { message: m, value: v, copy: !c.non_interactive }),
        },
    }
}

/// Expands the message and the value of the step.
pub fn handle(value: &str, message: &str, ctx: &RunContext) -> (r: Result<Action, GetapiError>)
    ensures
        planned(r) == plan(value@, message@, ctx@),
{
    let m = match expand(message, &ctx.vars) {
        Ok(m) => m,
        Err(e) => { return Err(e); },
    };
    let v = match expand(value, &ctx.vars) {
        Ok(v) => v,
        Err(e) => { return Err(e); },
    };
    Ok(Action::Copy { message: m, value: v, copy: !ctx.non_interactive })
}

} // verus!
