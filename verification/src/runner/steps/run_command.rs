//! The step that runs a shell command.

use crate::error::{Failure, GetapiError};
use crate::recipe::template::{expand, expanded};
use crate::runner::action::{planned, Action, ActionModel, Answer, AnswerModel, Effect};
use crate::runner::context::{ContextState, RunContext};
use vstd::prelude::*;

verus! {

/// What the step runs: its message and its command, both expanded strictly.
pub open spec fn plan(command: Seq<char>, message: Seq<char>, c: ContextState) -> Result<
    ActionModel,
    Failure,
> {
    match expanded(message, c.vars) {
        Err(e) => Err(e),
        Ok(m) => match expanded(command, c.vars) {
            Err(e) => Err(e),
            Ok(cmd) => Ok(
                ActionModel::RunCommand { message: m, command: cmd, run: !c.non_interactive },
            ),
        },
    }
}

/// What the report does: a command that could not be started fails the run
/// with the caller's error; how a started command ended does not matter.
pub open spec fn effect(c: ContextState, answer: AnswerModel) -> Effect {
    if !c.non_interactive && answer is Failed {
        Effect::Failed(answer->Failed_0)
    } else {
        Effect::Done(c)
    }
}

/// Expands the message and the command of the step.
pub fn handle(command: &str, message: &str, ctx: &RunContext) -> (r: Result<Action, GetapiError>)
    ensures
        planned(r) == plan(command@, message@, ctx@),
{
    let m = match expand(message, &ctx.vars) {
        Ok(m) => m,
        Err(e) => { return Err(e); },
    };
    let cmd = match expand(command, &ctx.vars) {
        Ok(c) => c,
        Err(e) => { return Err(e); },
    };
    Ok(Action::RunCommand { message: m, command: cmd, run: !ctx.non_interactive })
}

/// Takes the report on the command.
pub fn finish(answer: &Answer, ctx: &RunContext) -> (r: Result<(), GetapiError>)
    ensures
        match r {
            Ok(_) => effect(ctx@, answer@) == Effect::Done(ctx@),
            Err(e) => effect(ctx@, answer@) == Effect::Failed(e@),
        },
{
    if !ctx.non_interactive {
        if let Answer::Failed(e) = answer {
            return Err(e.copy());
        }
    }
    Ok(())
}

} // verus!
