//! The step that lets the user pick one of several answers.

use crate::error::{Failure, GetapiError};
use crate::recipe::template::{expand, expanded};
use crate::recipe::types::{choice_labels, Choice};
use crate::runner::action::{planned, Action, ActionModel, Answer, AnswerModel, Effect};
use crate::runner::context::{ContextState, RunContext};
use crate::strmap::{put, put_all, Pairs};
use crate::text::{lemma_texts_push, texts};
use vstd::prelude::*;

verus! {

/// The variables that an answer sets.
pub open spec fn sets_of(choice: Choice) -> Pairs {
    match choice.sets {
        Some(s) => s@,
        None => Seq::empty(),
    }
}

/// What the step asks: its message, expanded strictly in either mode, and the
/// labels of its answers.
pub open spec fn plan(message: Seq<char>, choices: Seq<Choice>, c: ContextState) -> Result<
    ActionModel,
    Failure,
> {
    match expanded(message, c.vars) {
        Ok(m) => Ok(
            ActionModel::Choice {
                message: m,
                labels: choice_labels(choices),
                ask: !c.non_interactive,
            },
        ),
        Err(e) => Err(e),
    }
}

/// The state after `choice` has been picked at the step `step_id`: the label
/// is recorded, the variables of the answer are set, and where the answer
/// names a next step that step is the pending jump target.
pub open spec fn chosen(step_id: Seq<char>, choice: Choice, c: ContextState) -> ContextState {
    ContextState {
        choices_made: put(c.choices_made, step_id, choice.label@),
        vars: put_all(c.vars, sets_of(choice)),
        jump_to: match choice.next {
            Some(n) => Some(n@),
            None => c.jump_to,
        },
        ..c
    }
}

/// What a pick does. A position outside the list, like an aborted prompt,
/// cancels the run.
pub open spec fn effect(
    step_id: Seq<char>,
    choices: Seq<Choice>,
    c: ContextState,
    answer: AnswerModel,
) -> Effect {
    if c.non_interactive {
        Effect::Done(c)
    } else {
        match answer {
            AnswerModel::Picked(k) => if k < choices.len() {
                Effect::Done(chosen(step_id, choices[k as int], c))
            } else {
                Effect::Failed(Failure::UserCancelled)
            },
            _ => Effect::Failed(Failure::UserCancelled),
        }
    }
}

/// The labels of `choices`, in order.
fn labels_of(choices: &Vec<Choice>) -> (out: Vec<String>)
    ensures
        texts(out@) == choice_labels(choices@),
{
    let mut out: Vec<String> = Vec::new();
    let mut i: usize = 0;
    while i < choices.len()
        invariant
            i <= choices.len(),
            texts(out@) == choice_labels(choices@).take(i as int),
        decreases choices.len() - i,
    {
        let label = choices[i].label.clone();
        proof {
            lemma_texts_push(out@, label);
            assert(choice_labels(choices@).take(i as int + 1) =~= choice_labels(choices@).take(
                i as int,
            ).push(choices@[i as int].label@));
        }
        out.push(label);
        i += 1;
    }
    assert(choice_labels(choices@).take(choices.len() as int) =~= choice_labels(choices@));
    out
}

/// Expands the question of the step and lists the labels of its answers.
pub fn handle(step_id: &str, message: &str, choices: &Vec<Choice>, ctx: &RunContext) -> (r: Result<
    Action,
    GetapiError,
>)
    ensures
        planned(r) == plan(message@, choices@, ctx@),
{
    match expand(message, &ctx.vars) {
        Ok(m) => Ok(
            Action::Choice { message: m, labels: labels_of(choices), ask: !ctx.non_interactive },
        ),
        Err(e) => Err(e),
    }
}

/// Takes the pick: records it, sets the variables of the answer and the jump
/// target that it names.
pub fn finish(step_id: &str, choices: &Vec<Choice>, answer: &Answer, ctx: &mut RunContext) -> (r:
    Result<(), GetapiError>)
    ensures
        match r {
            Ok(_) => effect(step_id@, choices@, old(ctx)@, answer@) == Effect::Done(final(ctx)@),
            Err(e) => final(ctx)@ == old(ctx)@ && effect(step_id@, choices@, old(ctx)@, answer@)
                == Effect::Failed(e@),
        },
{
    if ctx.non_interactive {
        return Ok(());
    }
    let k = match answer {
        Answer::Picked(k) => *k,
        _ => { return Err(GetapiError::UserCancelled); },
    };
    if k >= choices.len() {
        return Err(GetapiError::UserCancelled);
    }
    let choice = &choices[k];
    ctx.choices_made.insert(step_id.to_owned(), choice.label.clone());
    match &choice.sets {
        Some(sets) => {
            ctx.vars.extend(sets);
        },
        None => {},
    }
    match &choice.next {
        Some(next) => {
            ctx.jump_to = Some(next.clone());
        },
        None => {},
    }
    Ok(())
}

} // verus!
