//! The interpreter: it walks the steps of a recipe, skips what has been
//! carried out before, follows the jumps that choices ask for, and stops
//! where a step pauses the run.
//!
//! The interpreter asks nothing and shows nothing itself. For each step it
//! hands its caller an `Action` and takes an `Answer` back; `run` plays a
//! whole run against answers that are known beforehand.

pub mod action;
pub mod context;
pub mod steps;

use crate::error::{Failure, GetapiError};
use crate::recipe::types::{optional_text, Recipe, Step};
use crate::runner::action::{answers, planned, Action, ActionModel, Answer, AnswerModel, Effect};
use crate::runner::context::{marked, ContextState, RunContext};
use vstd::prelude::*;

verus! {

/// Where a run stands.
#[derive(Debug, Clone, Copy, PartialEq, Eq)]
pub enum RunState {
    /// The step at this position is the next to look at, or is waiting for
    /// its answer.
    Running(usize),
    /// The run stopped at the wait step at this position.
    Paused(usize),
    /// No step is left.
    Completed,
}

/// What became of a step once its answer was in.
#[derive(Debug, Clone, PartialEq, Eq)]
pub enum Progress {
    /// The answer was not accepted: the caller is to show the warning and ask
    /// again.
    Retry(String),
    /// The run is paused at this step.
    Paused,
    /// The step is completed; the step at this position is the next to look at.
    Next(usize),
}

/// The mathematical model of a `Progress`.
pub enum ProgressModel {
    Retry(Seq<char>),
    Paused,
    Next(usize),
}

impl View for Progress {
    type V = ProgressModel;

    open spec fn view(&self) -> ProgressModel {
        match self {
            Progress::Retry(w) => ProgressModel::Retry(w@),
            Progress::Paused => ProgressModel::Paused,
            Progress::Next(n) => ProgressModel::Next(*n),
        }
    }
}

/// The view of what finishing a step returns.
pub open spec fn progressed(r: Result<Progress, GetapiError>) -> Result<ProgressModel, Failure> {
    match r {
        Ok(p) => Ok(p@),
        Err(e) => Err(e@),
    }
}

/// What the handler of `step` asks its caller to do in the state `c`, or the
/// error with which it fails before anything is asked.
pub open spec fn plan(step: Step, c: ContextState) -> Result<ActionModel, Failure> {
    match step {
        Step::Info { message, .. } => steps::info::plan(message@, c),
        Step::OpenUrl { url, message, .. } => steps::open_url::plan(url@, message@, c),
        Step::PromptConfirm { message, .. } => steps::prompt_confirm::plan(message@, c),
        Step::PromptInput { message, output_key, validation, .. } => steps::prompt_input::plan(
            message@,
            output_key@,
            optional_text(validation),
            c,
        ),
        Step::PromptChoice { message, choices, .. } => steps::prompt_choice::plan(
            message@,
            choices@,
            c,
        ),
        Step::Validate { method, message, config, .. } => steps::validate::plan(
            method@,
            message@,
            config@,
            c,
        ),
        Step::Output { message, .. } => steps::output::plan(message@, c),
        Step::RunCommand { command, message, .. } => steps::run_command::plan(
            command@,
            message@,
            c,
        ),
        Step::Wait { message, resume_hint, .. } => steps::wait::plan(
            message@,
            optional_text(resume_hint),
            c,
        ),
        Step::CopyToClipboard { value, message, .. } => steps::copy_clipboard::plan(
            value@,
            message@,
            c,
        ),
    }
}

/// Whether the outcome of `step` depends on what the caller reports back. No
/// step of a run that is not interactive does.
pub open spec fn asks(step: Step, c: ContextState) -> bool {
    !c.non_interactive && (step is OpenUrl || step is PromptConfirm || step is PromptInput
        || step is PromptChoice || step is Validate || step is RunCommand)
}

/// What `step` does with the answer `answer` in the state `c`.
pub open spec fn effect(step: Step, c: ContextState, answer: AnswerModel) -> Effect {
    match step {
        Step::OpenUrl { .. } => steps::open_url::effect(c, answer),
        Step::PromptConfirm { .. } => steps::prompt_confirm::effect(c, answer),
        Step::PromptInput {
            output_key,
            validation,
            validation_error,
            ..
        } => steps::prompt_input::effect(
            output_key@,
            optional_text(validation),
            optional_text(validation_error),
            c,
            answer,
        ),
        Step::PromptChoice { id, choices, .. } => steps::prompt_choice::effect(
            id@,
            choices@,
            c,
            answer,
        ),
        Step::Validate { .. } => steps::validate::effect(c, answer),
        Step::RunCommand { .. } => steps::run_command::effect(c, answer),
        Step::Wait { .. } => steps::wait::effect(c),
        _ => Effect::Done(c),
    }
}

/// What follows once the handler of the step at position `i` has left the
/// state `c`. A paused run stops there, and the step is not recorded. Else
/// the step is recorded as completed and the pending jump target is consumed:
/// the run goes on at the step that it names, fails where no step has that
/// id, and goes on at the next position where no jump is pending.
pub open spec fn settled(recipe: Recipe, c: ContextState, i: int) -> (
    ContextState,
    Result<ProgressModel, Failure>,
) {
    if c.paused {
        (c, Ok(ProgressModel::Paused))
    } else {
        let done = ContextState {
            completed_steps: marked(c.completed_steps, recipe.ids()[i]),
            jump_to: None,
            ..c
        };
        match c.jump_to {
            Some(target) => match recipe.index_of_step(target) {
                Some(n) => (done, Ok(ProgressModel::Next(n as usize))),
                None => (done, Err(Failure::StepNotFound(target))),
            },
            None => (done, Ok(ProgressModel::Next((i + 1) as usize))),
        }
    }
}

/// The state and the progress after the step at position `i` has been given
/// the answer `answer` in the state `c`.
pub open spec fn finished(recipe: Recipe, c: ContextState, i: int, answer: AnswerModel) -> (
    ContextState,
    Result<ProgressModel, Failure>,
) {
    match effect(recipe.steps@[i], c, answer) {
        Effect::Retry(warning) => (c, Ok(ProgressModel::Retry(warning))),
        Effect::Failed(e) => (c, Err(e)),
        Effect::Done(after) => settled(recipe, after, i),
    }
}

/// The position of the first step at or after `from` that has not been
/// completed, or the number of steps where there is none.
pub open spec fn next_pending(recipe: Recipe, completed: Seq<Seq<char>>, from: int) -> int
    decreases recipe.steps@.len() - from,
{
    if from < 0 || from >= recipe.steps@.len() {
        recipe.steps@.len() as int
    } else if completed.contains(recipe.ids()[from]) {
        next_pending(recipe, completed, from + 1)
    } else {
        from
    }
}

/// The number of steps whose id is not among `completed`.
pub open spec fn pending(ids: Seq<Seq<char>>, completed: Seq<Seq<char>>) -> nat
    decreases ids.len(),
{
    if ids.len() == 0 {
        0
    } else {
        pending(ids.drop_last(), completed) + if completed.contains(ids.last()) {
            0nat
        } else {
            1nat
        }
    }
}

/// Recording one more id leaves no more steps pending than before.
pub proof fn lemma_pending_monotone(ids: Seq<Seq<char>>, completed: Seq<Seq<char>>, id: Seq<char>)
    ensures
        pending(ids, completed.push(id)) <= pending(ids, completed),
    decreases ids.len(),
{
    if ids.len() > 0 {
        lemma_pending_monotone(ids.drop_last(), completed, id);
        if completed.contains(ids.last()) {
            let k = choose|k: int| 0 <= k < completed.len() && completed[k] == ids.last();
            assert(completed.push(id)[k] == ids.last());
        }
    }
}

/// Recording the id of a step that was pending leaves fewer steps pending.
pub proof fn lemma_pending_decreases(ids: Seq<Seq<char>>, completed: Seq<Seq<char>>, i: int)
    requires
        0 <= i < ids.len(),
        !completed.contains(ids[i]),
    ensures
        pending(ids, marked(completed, ids[i])) < pending(ids, completed),
    decreases ids.len(),
{
    let after = completed.push(ids[i]);
    assert(after[completed.len() as int] == ids[i]);
    let front = ids.drop_last();
    if i == ids.len() - 1 {
        lemma_pending_monotone(front, completed, ids[i]);
    } else {
        assert(front[i] == ids[i]);
        lemma_pending_decreases(front, completed, i);
        if completed.contains(ids.last()) {
            let k = choose|k: int| 0 <= k < completed.len() && completed[k] == ids.last();
            assert(after[k] == ids.last());
        }
    }
}

/// No handler touches the record of completed steps.
pub proof fn lemma_effect_keeps_completed(step: Step, c: ContextState, answer: AnswerModel)
    ensures
        effect(step, c, answer) matches Effect::Done(after) ==> after.completed_steps
            == c.completed_steps && after.non_interactive == c.non_interactive,
{
}

/// Where a run ended, in what state, and which steps it dispatched.
pub struct Run {
    /// The state that the run left.
    pub ctx: ContextState,
    /// Where the run stands, or the error that ended it.
    pub result: Result<RunState, Failure>,
    /// The positions of the steps whose handlers were invoked, in order.
    pub trace: Seq<usize>,
}

/// The run that starts in the state `c` at position `i` and is given the
/// answers of `script`, one for each question in turn. With `awaiting` the
/// step at `i` has been dispatched and its answer is due. `trace` holds the
/// positions dispatched so far.
///
/// The run ends when no step is left, at a pause, with an error, or where a
/// question finds no answer left: then the run stands at that step. A step
/// that does not ask uses no answer up.
///
/// A step is dispatched only if it is not on record as completed, so a step
/// that waits for its answer never is; were the function applied to such a
/// state, the run would stand there.
pub open spec fn run_from(
    recipe: Recipe,
    c: ContextState,
    i: int,
    awaiting: bool,
    script: Seq<AnswerModel>,
    trace: Seq<usize>,
) -> Run
    decreases pending(recipe.ids(), c.completed_steps), script.len(), (if awaiting {
        0
    } else {
        recipe.steps@.len() - i + 1
    }),
    via run_from_terminates
{
    if i < 0 || i >= recipe.steps@.len() {
        Run { ctx: c, result: Ok(RunState::Completed), trace }
    } else if c.completed_steps.contains(recipe.ids()[i]) {
        if awaiting {
            Run { ctx: c, result: Ok(RunState::Running(i as usize)), trace }
        } else {
            run_from(recipe, c, i + 1, false, script, trace)
        }
    } else if !awaiting {
        let at = ContextState { current_step_index: i as usize, ..c };
        match plan(recipe.steps@[i], at) {
            Err(e) => Run { ctx: at, result: Err(e), trace: trace.push(i as usize) },
            Ok(_) => run_from(recipe, at, i, true, script, trace.push(i as usize)),
        }
    } else if asks(recipe.steps@[i], c) && script.len() == 0 {
        Run { ctx: c, result: Ok(RunState::Running(i as usize)), trace }
    } else {
        let asking = asks(recipe.steps@[i], c);
        let answer = if asking {
            script[0]
        } else {
            AnswerModel::Done
        };
        let rest = if asking {
            script.drop_first()
        } else {
            script
        };
        let (after, progress) = finished(recipe, c, i, answer);
        match progress {
            Err(e) => Run { ctx: after, result: Err(e), trace },
            Ok(ProgressModel::Retry(_)) => if asking {
                run_from(recipe, after, i, true, rest, trace)
            } else {
                Run { ctx: after, result: Ok(RunState::Running(i as usize)), trace }
            },
            Ok(ProgressModel::Paused) => Run {
                ctx: after,
                result: Ok(RunState::Paused(i as usize)),
                trace,
            },
            Ok(ProgressModel::Next(n)) => run_from(recipe, after, n as int, false, rest, trace),
        }
    }
}

#[via_fn]
proof fn run_from_terminates(
    recipe: Recipe,
    c: ContextState,
    i: int,
    awaiting: bool,
    script: Seq<AnswerModel>,
    trace: Seq<usize>,
) {
    if 0 <= i < recipe.steps@.len() && !c.completed_steps.contains(recipe.ids()[i]) && awaiting {
        let asking = asks(recipe.steps@[i], c);
        let answer = if asking {
            script[0]
        } else {
            AnswerModel::Done
        };
        lemma_effect_keeps_completed(recipe.steps@[i], c, answer);
        lemma_pending_decreases(recipe.ids(), c.completed_steps, i);
    }
}

/// The run that starts in the state `c`, at the position that `c` holds.
pub open spec fn run_of(recipe: Recipe, c: ContextState, script: Seq<AnswerModel>) -> Run {
    run_from(recipe, c, c.current_step_index as int, false, script, Seq::empty())
}

/// What a run that was played against a script of answers came to.
#[derive(Debug, Clone, PartialEq, Eq)]
pub struct RunReport {
    /// Where the run stands.
    pub state: RunState,
    /// The positions of the steps whose handlers were invoked, in order.
    pub trace: Vec<usize>,
}

/// Dispatches `step`: says what the caller is to show, ask or carry out.
pub fn execute_step(step: &Step, ctx: &RunContext) -> (r: Result<Action, GetapiError>)
    ensures
        planned(r) == plan(*step, ctx@),
{
    match step {
        Step::Info { message, .. } => steps::info::handle(message.as_str(), ctx),
        Step::OpenUrl { url, message, .. } => steps::open_url::handle(
            url.as_str(),
            message.as_str(),
            ctx,
        ),
        Step::PromptConfirm { message, .. } => steps::prompt_confirm::handle(
            message.as_str(),
            ctx,
        ),
        Step::PromptInput { message, output_key, validation, .. } => {
            let pattern = match validation {
                Some(p) => Some(p.as_str()),
                None => None,
            };
            steps::prompt_input::handle(message.as_str(), output_key.as_str(), pattern, ctx)
        },
        Step::PromptChoice { id, message, choices } => steps::prompt_choice::handle(
            id.as_str(),
            message.as_str(),
            choices,
            ctx,
        ),
        Step::Validate { method, message, config, .. } => steps::validate::handle(
            method.as_str(),
            message.as_str(),
            config,
            ctx,
        ),
        Step::Output { message, .. } => steps::output::handle(message.as_str(), ctx),
        Step::RunCommand { command, message, .. } => steps::run_command::handle(
            command.as_str(),
            message.as_str(),
            ctx,
        ),
        Step::Wait { message, resume_hint, .. } => {
            let hint = match resume_hint {
                Some(h) => Some(h.as_str()),
                None => None,
            };
            steps::wait::handle(message.as_str(), hint, ctx)
        },
        Step::CopyToClipboard { value, message, .. } => steps::copy_clipboard::handle(
            value.as_str(),
            message.as_str(),
            ctx,
        ),
    }
}

/// Whether the outcome of `step` depends on what the caller reports back.
pub fn needs_answer(step: &Step, ctx: &RunContext) -> (r: bool)
    ensures
        r == asks(*step, ctx@),
{
    if ctx.non_interactive {
        return false;
    }
    match step {
        Step::OpenUrl { .. } => true,
        Step::PromptConfirm { .. } => true,
        Step::PromptInput { .. } => true,
        Step::PromptChoice { .. } => true,
        Step::Validate { .. } => true,
        Step::RunCommand { .. } => true,
        _ => false,
    }
}

/// Whether a run that has left `ctx` is to write the collected credentials
/// out now: a run that is not paused and has collected something is.
pub fn writes_at_end(ctx: &RunContext) -> (r: bool)
    ensures
        r == (!ctx@.paused && ctx@.collected.len() > 0),
{
    !ctx.paused && !ctx.collected.is_empty()
}

/// Skips the steps from `from` on that have been completed before, without
/// dispatching them, and makes the first other step the current one. Returns
/// its position, or `None` where no step is left.
pub fn advance(recipe: &Recipe, ctx: &mut RunContext, from: usize) -> (r: Option<usize>)
    ensures
        match r {
            Some(i) => i < recipe.steps@.len() && i == next_pending(
                *recipe,
                old(ctx)@.completed_steps,
                from as int,
            ) && !old(ctx)@.completed_steps.contains(recipe.ids()[i as int]) && final(ctx)@ == (
            ContextState { current_step_index: i, ..old(ctx)@ }),
            None => next_pending(*recipe, old(ctx)@.completed_steps, from as int)
                == recipe.steps@.len() && final(ctx)@ == old(ctx)@,
        },
{
    let mut i: usize = from;
    while i < recipe.steps.len()
        invariant
            from <= i,
            ctx@ == old(ctx)@,
            next_pending(*recipe, ctx@.completed_steps, from as int) == next_pending(
                *recipe,
                ctx@.completed_steps,
                i as int,
            ),
        decreases recipe.steps.len() - i,
    {
        if !ctx.is_completed(recipe.steps[i].id()) {
            ctx.current_step_index = i;
            return Some(i);
        }
        i += 1;
    }
    None
}

/// Gives the step at position `index` its answer, and settles what follows:
/// a paused run stops, an accepted step is recorded as completed, and the
/// jump that a choice asked for is followed.
pub fn finish_step(recipe: &Recipe, ctx: &mut RunContext, index: usize, answer: &Answer) -> (r:
    Result<Progress, GetapiError>)
    requires
        index < recipe.steps@.len(),
    ensures
        (final(ctx)@, progressed(r)) == finished(*recipe, old(ctx)@, index as int, answer@),
{
    let step = &recipe.steps[index];
    match step {
        Step::OpenUrl { .. } => {
            match steps::open_url::finish(answer, ctx) {
                Ok(_) => {},
                Err(e) => { return Err(e); },
            }
        },
        Step::PromptConfirm { .. } => {
            match steps::prompt_confirm::finish(answer, ctx) {
                Ok(_) => {},
                Err(e) => { return Err(e); },
            }
        },
        Step::PromptInput { output_key, validation, validation_error, .. } => {
            let pattern = match validation {
                Some(p) => Some(p.as_str()),
                None => None,
            };
            let warning = match validation_error {
                Some(w) => Some(w.as_str()),
                None => None,
            };
            match steps::prompt_input::finish(output_key.as_str(), pattern, warning, answer, ctx) {
                Ok(None) => {},
                Ok(Some(w)) => { return Ok(Progress::Retry(w)); },
                Err(e) => { return Err(e); },
            }
        },
        Step::PromptChoice { id, choices, .. } => {
            match steps::prompt_choice::finish(id.as_str(), choices, answer, ctx) {
                Ok(_) => {},
                Err(e) => { return Err(e); },
            }
        },
        Step::Validate { .. } => {
            match steps::validate::finish(answer, ctx) {
                Ok(_) => {},
                Err(e) => { return Err(e); },
            }
        },
        Step::RunCommand { .. } => {
            match steps::run_command::finish(answer, ctx) {
                Ok(_) => {},
                Err(e) => { return Err(e); },
            }
        },
        Step::Wait { .. } => {
            steps::wait::finish(ctx);
        },
        _ => {},
    }
    if ctx.paused {
        return Ok(Progress::Paused);
    }
    assert(index < recipe.steps.len());
    ctx.mark_completed(step.id());
    let target = match &ctx.jump_to {
        Some(t) => Some(t.clone()),
        None => None,
    };
    ctx.jump_to = None;
    match target {
        Some(t) => match recipe.find_step_index(t.as_str()) {
            Some(n) => Ok(Progress::Next(n)),
            None => Err(GetapiError::StepNotFound(t)),
        },
        None => Ok(Progress::Next(index + 1)),
    }
}

/// Plays a run against the answers of `script`, one for each question in
/// turn, from the position that `ctx` holds. Steps that have been completed
/// before are skipped and never dispatched again.
pub fn run(recipe: &Recipe, ctx: &mut RunContext, script: &Vec<Answer>) -> (r: Result<
    RunReport,
    GetapiError,
>)
    ensures
        final(ctx)@ == run_of(*recipe, old(ctx)@, answers(script@)).ctx,
        match r {
            Ok(report) => run_of(*recipe, old(ctx)@, answers(script@)).result == Ok::<
                RunState,
                Failure,
            >(report.state) && run_of(*recipe, old(ctx)@, answers(script@)).trace == report.trace@,
            Err(e) => run_of(*recipe, old(ctx)@, answers(script@)).result == Err::<
                RunState,
                Failure,
            >(e@),
        },
{
    let ghost whole = run_of(*recipe, ctx@, answers(script@));
    let ghost all = answers(script@);
    let n = recipe.steps.len();
    let mut i: usize = ctx.current_step_index;
    let mut k: usize = 0;
    let mut awaiting = false;
    let mut trace: Vec<usize> = Vec::new();
    assert(all.skip(0) =~= all);
    loop
        invariant
            n == recipe.steps@.len(),
            k <= script.len(),
            all == answers(script@),
            whole == run_of(*recipe, old(ctx)@, all),
            whole == run_from(*recipe, ctx@, i as int, awaiting, all.skip(k as int), trace@),
        decreases
                pending(recipe.ids(), ctx@.completed_steps),
                script.len() - k,
                (if awaiting {
                    0
                } else {
                    n - i + 1
                }),
    {
        if i >= n {
            return Ok(RunReport { state: RunState::Completed, trace });
        }
        let step = &recipe.steps[i];
        if ctx.is_completed(step.id()) {
            if awaiting {
                return Ok(RunReport { state: RunState::Running(i), trace });
            }
            i += 1;
        } else if !awaiting {
            ctx.current_step_index = i;
            trace.push(i);
            match execute_step(step, ctx) {
                Ok(_) => {
                    awaiting = true;
                },
                Err(e) => {
                    return Err(e);
                },
            }
        } else {
            let asking = needs_answer(step, ctx);
            if asking && k >= script.len() {
                return Ok(RunReport { state: RunState::Running(i), trace });
            }
            let ghost before = ctx@;
            let ghost old_k = k;
            let done = Answer::Done;
            let answer = if asking {
                &script[k]
            } else {
                &done
            };
            proof {
                lemma_effect_keeps_completed(*step, ctx@, answer@);
                lemma_pending_decreases(recipe.ids(), ctx@.completed_steps, i as int);
                if asking {
                    assert(all.skip(k as int)[0] == script@[k as int]@);
                    assert(all.skip(k as int).drop_first() =~= all.skip(k as int + 1));
                }
            }
            if asking {
                k += 1;
            }
            match finish_step(recipe, ctx, i, answer) {
                Err(e) => {
                    return Err(e);
                },
                Ok(Progress::Retry(_)) => {
                    if !asking {
                        return Ok(RunReport { state: RunState::Running(i), trace });
                    }
                },
                Ok(Progress::Paused) => {
                    return Ok(RunReport { state: RunState::Paused(i), trace });
                },
                Ok(Progress::Next(next)) => {
                    i = next;
                    awaiting = false;
                },
            }
        }
    }
}

} // verus!
