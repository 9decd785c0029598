//! The step that pauses the run until the user comes back.

use crate::error::{Failure, GetapiError};

use crate::runner::action::{planned, Action, ActionModel, Effect};
use crate::runner::context::{ContextState, RunContext};
use vstd::prelude::*;

verus! {

/// What the step shows: its message and its hint, as they stand.
pub open spec fn plan(
    message: Seq<char>,
    resume_hint: Option<Seq<char>>,
    c: ContextState,
) -> Result<ActionModel, Failure> {
    Ok(ActionModel::Wait { message, resume_hint })
}

/// What the step does to the state: an interactive run is paused, another
/// one never.
pub open spec fn effect(c: ContextState) -> Effect {
    if c.non_interactive {
        Effect::Done(c)
    } else {
        Effect::Done(ContextState { paused: true, ..c })
    }
}

/// Hands the message and the hint of the step on, as they stand.
pub fn handle(message: &str, resume_hint: Option<&str>, ctx: &RunContext) -> (r: Result<
    Action,
    GetapiError,
>)
    ensures
        planned(r) == plan(
            message@,
            match resume_hint {
                Some(h) => Some(h@),
                None => None,
            },
            ctx@,
        ),
{
    let hint = match resume_hint {
        Some(h) => Some(h.to_owned()),
        None => None,
    };
    Ok(Action::Wait { message: message.to_owned(), resume_hint: hint })
}

/// Pauses an interactive run.
pub fn finish(ctx: &mut RunContext)
    ensures
        effect(old(ctx)@) == Effect::Done(final(ctx)@),
{
    if !ctx.non_interactive {
        ctx.paused = true;
    }
}

} // verus!
