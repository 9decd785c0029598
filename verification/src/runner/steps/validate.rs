//! The step that has the collected credentials checked against a live
//! endpoint.

use crate::error::{Failure, GetapiError};
use crate::runner::action::{
    planned, present, presented, Action, ActionModel, Answer, AnswerModel, Check, CheckModel,
    Effect, Notice, NoticeModel,
};
use crate::runner::context::{ContextState, RunContext};
use crate::strmap::{Pairs, StrMap};
use crate::text::{concat, concat3};
use crate::validators::{request_for, run, Refusal, RefusalModel};
use vstd::prelude::*;

verus! {

/// What is said after a successful check where the step says nothing else.
pub const VALIDATED: &'static str = "Credentials validated successfully.";

/// What is said after a failed check where the step says nothing else.
pub const NOT_VALIDATED: &'static str = "Validation failed.";

/// What the step shows and what is to be checked. The message is expanded.
/// An interactive run has the validator build its request from the collected
/// values: a fatal refusal fails the step before anything is sent, a missing
/// credential leaves the check unmade. A run that is not interactive checks
/// nothing.
pub open spec fn plan(
    method: Seq<char>,
    message: Seq<char>,
    config: Pairs,
    c: ContextState,
) -> Result<ActionModel, Failure> {
    match presented(message, c) {
        Err(e) => Err(e),
        Ok(m) => if c.non_interactive {
            Ok(ActionModel::Validate { message: m, method, check: CheckModel::Skip })
        } else {
            match request_for(method, c.collected, config) {
                Ok(request) => Ok(
                    ActionModel::Validate { message: m, method, check: CheckModel::Send(request) },
                ),
                Err(RefusalModel::Failed(e)) => Ok(
                    ActionModel::Validate { message: m, method, check: CheckModel::Unmade(e) },
                ),
                Err(RefusalModel::Fatal(e)) => Err(e),
            }
        },
    }
}

/// What the report on the check does: a fatal failure that the caller hands
/// back fails the run; however else the check ended, the state stays as it
/// is and the run goes on.
pub open spec fn effect(c: ContextState, answer: AnswerModel) -> Effect {
    if !c.non_interactive && answer is Failed {
        Effect::Failed(answer->Failed_0)
    } else {
        Effect::Done(c)
    }
}

/// What follows from the outcome of a check.
#[derive(Debug, Clone, PartialEq, Eq)]
pub enum Conclusion {
    /// The user is told, and the run goes on.
    Tell(Notice),
    /// The run fails with this error.
    Abort(GetapiError),
}

/// The mathematical model of a `Conclusion`.
pub enum ConclusionModel {
    Tell(NoticeModel),
    Abort(Failure),
}

impl View for Conclusion {
    type V = ConclusionModel;

    open spec fn view(&self) -> ConclusionModel {
        match self {
            Conclusion::Tell(notice) => ConclusionModel::Tell(notice@),
            Conclusion::Abort(e) => ConclusionModel::Abort(e@),
        }
    }
}

/// What follows from the outcome of a check. Success is told in the words of
/// the step, or in the default ones. A check that failed is told as a
/// warning that carries the error's message, and never stops the run. A
/// fatal refusal stops it.
pub open spec fn concluded(
    on_success: Option<Seq<char>>,
    on_failure: Option<Seq<char>>,
    outcome: Result<(), RefusalModel>,
) -> ConclusionModel {
    match outcome {
        Ok(_) => ConclusionModel::Tell(
            NoticeModel::Success(
                match on_success {
                    Some(m) => m,
                    None => VALIDATED@,
                },
            ),
        ),
        Err(RefusalModel::Failed(e)) => ConclusionModel::Tell(
            NoticeModel::Warning(
                match on_failure {
                    Some(m) => m,
                    None => NOT_VALIDATED@,
                } + " ("@ + e.message() + ")"@,
            ),
        ),
        Err(RefusalModel::Fatal(e)) => ConclusionModel::Abort(e),
    }
}

/// What the caller reports back to the step after a conclusion: nothing
/// where the user was told, the error where the run is to fail.
pub open spec fn answer_of(conclusion: ConclusionModel) -> AnswerModel {
    match conclusion {
        ConclusionModel::Tell(_) => AnswerModel::Done,
        ConclusionModel::Abort(e) => AnswerModel::Failed(e),
    }
}

/// Expands the message of the step and, in an interactive run, has the
/// validator `method` build the request that checks the collected values.
pub fn handle(method: &str, message: &str, config: &StrMap, ctx: &RunContext) -> (r: Result<
    Action,
    GetapiError,
>)
    ensures
        planned(r) == plan(method@, message@, config@, ctx@),
{
    let m = match present(message, ctx) {
        Ok(m) => m,
        Err(e) => { return Err(e); },
    };
    if ctx.non_interactive {
        return Ok(Action::Validate { message: m, method: method.to_owned(), check: Check::Skip });
    }
    match run(method, &ctx.collected, config) {
        Ok(request) => Ok(
            Action::Validate { message: m, method: method.to_owned(), check: Check::Send(request) },
        ),
        Err(Refusal::Failed(e)) => Ok(
            Action::Validate { message: m, method: method.to_owned(), check: Check::Unmade(e) },
        ),
        Err(Refusal::Fatal(e)) => Err(e),
    }
}

/// Takes the report on the check.
pub fn finish(answer: &Answer, ctx: &RunContext) -> (r: Result<(), GetapiError>)
    ensures
        match r {
            Ok(_) => effect(ctx@, answer@) == Effect::Done(ctx@),
            Err(e) => effect(ctx@, answer@) == Effect::Failed(e@),
        },
{
    if !ctx.non_interactive {
        if let Answer::Failed(e) = answer {
            return Err(e.copy());
        }
    }
    Ok(())
}

/// Says what follows from the outcome of a check.
pub fn conclude(
    on_success: Option<&str>,
    on_failure: Option<&str>,
    outcome: &Result<(), Refusal>,
) -> (conclusion: Conclusion)
    ensures
        conclusion@ == concluded(
            match on_success {
                Some(m) => Some(m@),
                None => None,
            },
            match on_failure {
                Some(m) => Some(m@),
                None => None,
            },
            match outcome {
                Ok(_) => Ok(()),
                Err(e) => Err(e@),
            },
        ),
{
    match outcome {
        Ok(_) => Conclusion::Tell(
            Notice::Success(
                match on_success {
                    Some(m) => m.to_owned(),
                    None => VALIDATED.to_owned(),
                },
            ),
        ),
        Err(Refusal::Failed(e)) => {
            let head = match on_failure {
                Some(m) => concat(m, " ("),
                None => concat(NOT_VALIDATED, " ("),
            };
            Conclusion::Tell(
                Notice::Warning(concat3(head.as_str(), e.message().as_str(), ")")),
            )
        },
        Err(Refusal::Fatal(e)) => Conclusion::Abort(e.copy()),
    }
}

/// The outcome of a check that was not made for want of a credential: the
/// check failed, and the run goes on. A check that is to be sent, or
/// skipped, has no outcome yet.
pub open spec fn unmade(check: CheckModel) -> Option<RefusalModel> {
    match check {
        CheckModel::Unmade(e) => Some(RefusalModel::Failed(e)),
        _ => None,
    }
}

/// The outcome of a check that was not made for want of a credential.
pub fn outcome_unmade(check: &Check) -> (r: Option<Refusal>)
    ensures
        match r {
            Some(refusal) => unmade(check@) == Some(refusal@),
            None => unmade(check@) is None,
        },
{
    match check {
        Check::Unmade(e) => Some(Refusal::Failed(e.copy())),
        _ => None,
    }
}

impl Conclusion {
    /// What the caller reports back to the step.
    pub fn answer(&self) -> (answer: Answer)
        ensures
            answer@ == answer_of(self@),
    {
        match self {
            Conclusion::Tell(_) => Answer::Done,
            Conclusion::Abort(e) => Answer::Failed(e.copy()),
        }
    }
}

} // verus!
