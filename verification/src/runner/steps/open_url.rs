//! The step that shows a URL and offers to open it in a browser.

use crate::error::{Failure, GetapiError};
use crate::runner::action::{
    planned, present, presented, Action, ActionModel, Answer, AnswerModel, Effect,
};
use crate::runner::context::{ContextState, RunContext};
use vstd::prelude::*;

verus! {

/// What the step shows: its message and its URL, both expanded.
pub open spec fn plan(url: Seq<char>, message: Seq<char>, c: ContextState) -> Result<
    ActionModel,
    Failure,
> {
    match presented(message, c) {
        Err(e) => Err(e),
        Ok(m) => match presented(url, c) {
            Err(e) => Err(e),
            Ok(u) => Ok(ActionModel::OpenUrl { message: m, url: u, ask: !c.non_interactive }),
        },
    }
}

/// What the answer to the offer does: an aborted prompt cancels the run,
/// anything else leaves the state as it is.
pub open spec fn effect(c: ContextState, answer: AnswerModel) -> Effect {
    if !c.non_interactive && answer is Cancelled {
        Effect::Failed(Failure::UserCancelled)
    } else {
        Effect::Done(c)
    }
}

/// Expands the message and the URL of the step.
pub fn handle(url: &str, message: &str, ctx: &RunContext) -> (r: Result<Action, GetapiError>)
    ensures
        planned(r) == plan(url@, message@, ctx@),
{
    let m = match present(message, ctx) {
        Ok(m) => m,
        Err(e) => { return Err(e); },
    };
    let u = match present(url, ctx) {
        Ok(u) => u,
        Err(e) => { return Err(e); },
    };
    Ok(Action::OpenUrl { message: m, url: u, ask: !ctx.non_interactive })
}

/// Takes the answer to the offer to open the browser.
pub fn finish(answer: &Answer, ctx: &RunContext) -> (r: Result<(), GetapiError>)
    ensures
        match r {
            Ok(_) => effect(ctx@, answer@) == Effect::Done(ctx@),
            Err(e) => effect(ctx@, answer@) == Effect::Failed(e@),
        },
{
    if !ctx.non_interactive {
        if let Answer::Cancelled = answer {
            return Err(GetapiError::UserCancelled);
        }
    }
    Ok(())
}

} // verus!
