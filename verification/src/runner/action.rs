//! What a step asks its caller to do, and what the caller reports back.

use crate::error::{Failure, GetapiError};
use crate::recipe::template::{expand, expand_lenient, expanded, expanded_leniently, outcome};
use crate::recipe::types::optional_text;
use crate::runner::context::{ContextState, RunContext};
use crate::text::texts;
use crate::validators::{HttpRequest, RequestModel};
use vstd::prelude::*;

verus! {

/// What the caller is to do about the check of a validation step.
#[derive(Debug, Clone, PartialEq, Eq)]
pub enum Check {
    /// Nothing: the run is not interactive.
    Skip,
    /// The request is to be sent and the response judged.
    Send(HttpRequest),
    /// The check cannot be made for want of a credential: the user is to be
    /// warned, and the run goes on.
    Unmade(GetapiError),
}

/// The mathematical model of a `Check`.
pub enum CheckModel {
    Skip,
    Send(RequestModel),
    Unmade(Failure),
}

impl View for Check {
    type V = CheckModel;

    open spec fn view(&self) -> CheckModel {
        match self {
            Check::Skip => CheckModel::Skip,
            Check::Send(request) => CheckModel::Send(request@),
            Check::Unmade(e) => CheckModel::Unmade(e@),
        }
    }
}

/// What the caller is to show, ask or carry out for the step that was
/// dispatched. The flag of a variant says whether the run is interactive:
/// without it the caller only shows what would happen.
#[derive(Debug, Clone, PartialEq, Eq)]
pub enum Action {
    Info { message: String },
    OpenUrl { message: String, url: String, ask: bool },
    Confirm { message: String, ask: bool },
    Input { message: String, output_key: String, ask: bool },
    Choice { message: String, labels: Vec<String>, ask: bool },
    Validate { message: String, method: String, check: Check },
    Output { message: String },
    RunCommand { message: String, command: String, run: bool },
    Wait { message: String, resume_hint: Option<String> },
    Copy { message: String, value: String, copy: bool },
}

/// The mathematical model of an `Action`.
pub enum ActionModel {
    Info { message: Seq<char> },
    OpenUrl { message: Seq<char>, url: Seq<char>, ask: bool },
    Confirm { message: Seq<char>, ask: bool },
    Input { message: Seq<char>, output_key: Seq<char>, ask: bool },
    Choice { message: Seq<char>, labels: Seq<Seq<char>>, ask: bool },
    Validate { message: Seq<char>, method: Seq<char>, check: CheckModel },
    Output { message: Seq<char> },
    RunCommand { message: Seq<char>, command: Seq<char>, run: bool },
    Wait { message: Seq<char>, resume_hint: Option<Seq<char>> },
    Copy { message: Seq<char>, value: Seq<char>, copy: bool },
}

impl View for Action {
    type V = ActionModel;

    open spec fn view(&self) -> ActionModel {
        match self {
            Action::Info { message } => ActionModel::Info { message: message@ },
            Action::OpenUrl { message, url, ask } => ActionModel::OpenUrl {
                message: message@,
                url: url@,
                ask: *ask,
            },
            Action::Confirm { message, ask } => ActionModel::Confirm {
                message: message@,
                ask: *ask,
            },
            Action::Input { message, output_key, ask } => ActionModel::Input {
                message: message@,
                output_key: output_key@,
                ask: *ask,
            },
            Action::Choice { message, labels, ask } => ActionModel::Choice {
                message: message@,
                labels: texts(labels@),
                ask: *ask,
            },
            Action::Validate { message, method, check } => ActionModel::Validate {
                message: message@,
                method: method@,
                check: check@,
            },
            Action::Output { message } => ActionModel::Output { message: message@ },
            Action::RunCommand { message, command, run } => ActionModel::RunCommand {
                message: message@,
                command: command@,
                run: *run,
            },
            Action::Wait { message, resume_hint } => ActionModel::Wait {
                message: message@,
                resume_hint: optional_text(*resume_hint),
            },
            Action::Copy { message, value, copy } => ActionModel::Copy {
                message: message@,
                value: value@,
                copy: *copy,
            },
        }
    }
}

/// The view of what a handler returns.
pub open spec fn planned(r: Result<Action, GetapiError>) -> Result<ActionModel, Failure> {
    match r {
        Ok(a) => Ok(a@),
        Err(e) => Err(e@),
    }
}

/// What the caller reports back after it has carried out an action.
#[derive(Debug, Clone, PartialEq, Eq)]
pub enum Answer {
    /// The action was carried out and there is nothing to report.
    Done,
    /// The answer to a yes/no question.
    Confirmed(bool),
    /// The line typed at an input prompt.
    Text(String),
    /// The position of the answer picked from a list.
    Picked(usize),
    /// The prompt was aborted.
    Cancelled,
    /// The action could not be carried out at all.
    Failed(GetapiError),
}

/// The mathematical model of an `Answer`.
pub enum AnswerModel {
    Done,
    Confirmed(bool),
    Text(Seq<char>),
    Picked(usize),
    Cancelled,
    Failed(Failure),
}

impl View for Answer {
    type V = AnswerModel;

    open spec fn view(&self) -> AnswerModel {
        match self {
            Answer::Done => AnswerModel::Done,
            Answer::Confirmed(yes) => AnswerModel::Confirmed(*yes),
            Answer::Text(line) => AnswerModel::Text(line@),
            Answer::Picked(i) => AnswerModel::Picked(*i),
            Answer::Cancelled => AnswerModel::Cancelled,
            Answer::Failed(e) => AnswerModel::Failed(e@),
        }
    }
}

/// The views of a sequence of answers.
pub open spec fn answers(v: Seq<Answer>) -> Seq<AnswerModel> {
    v.map_values(|a: Answer| a@)
}

/// What a handler did with an answer.
pub enum Effect {
    /// The answer was not accepted: the caller is to warn and ask again.
    Retry(Seq<char>),
    /// The step is done and has left the state so.
    Done(ContextState),
    /// The run fails.
    Failed(Failure),
}

/// A message for the user that does not stop the run.
#[derive(Debug, Clone, PartialEq, Eq)]
pub enum Notice {
    Success(String),
    Warning(String),
}

/// The mathematical model of a `Notice`.
pub enum NoticeModel {
    Success(Seq<char>),
    Warning(Seq<char>),
}

impl View for Notice {
    type V = NoticeModel;

    open spec fn view(&self) -> NoticeModel {
        match self {
            Notice::Success(m) => NoticeModel::Success(m@),
            Notice::Warning(m) => NoticeModel::Warning(m@),
        }
    }
}

/// How a text of the recipe is shown: expanded strictly in an interactive
/// run, leniently otherwise.
pub open spec fn presented(template: Seq<char>, c: ContextState) -> Result<Seq<char>, Failure> {
    if c.non_interactive {
        Ok(expanded_leniently(template, c.vars))
    } else {
        expanded(template, c.vars)
    }
}

/// Expands a text of the recipe for display: strictly in an interactive run,
/// leniently, and so without failing, otherwise.
pub fn present(template: &str, ctx: &RunContext) -> (r: Result<String, GetapiError>)
    ensures
        outcome(r) == presented(template@, ctx@),
{
    if ctx.non_interactive {
        Ok(expand_lenient(template, &ctx.vars))
    } else {
        expand(template, &ctx.vars)
    }
}

} // verus!
