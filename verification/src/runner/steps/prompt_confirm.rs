//! The step that asks the user to confirm before the run goes on.

use crate::error::{Failure, GetapiError};
use crate::recipe::template::{expand, expanded};
use crate::runner::action::{planned, Action, ActionModel, Answer, AnswerModel, Effect};
use crate::runner::context::{ContextState, RunContext};
use vstd::prelude::*;

verus! {

/// What the step asks: its message, expanded strictly in either mode.
pub open spec fn plan(message: Seq<char>, c: ContextState) -> Result<ActionModel, Failure> {
    match expanded(message, c.vars) {
        Ok(m) => Ok(ActionModel::Confirm { message: m, ask: !c.non_interactive }),
        Err(e) => Err(e),
    }
}

/// What the answer does: only a yes lets the run go on; a no, or an aborted
/// prompt, cancels it.
pub open spec fn effect(c: ContextState, answer: AnswerModel) -> Effect {
    if c.non_interactive || answer == AnswerModel::Confirmed(true) {
        Effect::Done(c)
    } else {
        Effect::Failed(Failure::UserCancelled)
    }
}

/// Expands the question of the step.
pub fn handle(message: &str, ctx: &RunContext) -> (r: Result<Action, GetapiError>)
    ensures
        planned(r) == plan(message@, ctx@),
{
    match expand(message, &ctx.vars) {
        Ok(m) => Ok(Action::Confirm { message: m, ask: !ctx.non_interactive }),
        Err(e) => Err(e),
    }
}

/// Takes the answer to the question.
pub fn finish(answer: &Answer, ctx: &RunContext) -> (r: Result<(), GetapiError>)
    ensures
        match r {
            Ok(_) => effect(ctx@, answer@) == Effect::Done(ctx@),
            Err(e) => effect(ctx@, answer@) == Effect::Failed(e@),
        },
{
    if ctx.non_interactive {
        return Ok(());
    }
    match answer {
        Answer::Confirmed(yes) => {
            if *yes {
                Ok(())
            } else {
                Err(GetapiError::UserCancelled)
            }
        },
        _ => Err(GetapiError::UserCancelled),
    }
}

} // verus!
