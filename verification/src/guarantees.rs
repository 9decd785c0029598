//! What holds of every run of the interpreter, and of taking a run up again.

use crate::recipe::types::{choice_labels, lemma_index_of_distinct, output_keys, Recipe, Step};
use crate::runner::action::{presented, ActionModel, AnswerModel, Effect};
use crate::runner::steps::validate::{answer_of, concluded};
use crate::validators::{lacks_credential, request_for, theorem_fatal_refusals, RefusalModel};
use crate::runner::context::{fresh, marked, ContextState};
use crate::runner::steps::prompt_choice::sets_of;
use crate::runner::{
    asks, effect, finished, lemma_effect_keeps_completed, lemma_pending_decreases, next_pending,
    pending, plan, run_from, run_of, settled, ProgressModel, Run, RunState,
};
use crate::cli::args::OutputFormat;
use crate::error::Failure;
use crate::session::reconcile::{rediscovered, replayed, resumed, sets_for};
use crate::session::types::{recorded, SessionRecord};
use crate::output::env::{parsed, written};
use crate::output::readback::{
    plain, theorem_other_keys_are_not_made_up, theorem_written_values_are_found,
};
use crate::strmap::{
    distinct_keys, has_key, lemma_lookup_put, lemma_position, lookup, position, Pairs,
};
use crate::text::lemma_index_of;
use vstd::prelude::*;

verus! {

/// Every item of `a` is an item of `b`.
pub open spec fn included(a: Seq<Seq<char>>, b: Seq<Seq<char>>) -> bool {
    forall|x: Seq<char>| a.contains(x) ==> b.contains(x)
}

/// Every position of `trace` is that of a step of `recipe` whose id is not
/// among `done`.
pub open spec fn avoids(recipe: Recipe, done: Seq<Seq<char>>, trace: Seq<usize>) -> bool {
    forall|k: int|
        0 <= k < trace.len() ==> trace[k] < recipe.steps@.len() && !done.contains(
            recipe.ids()[trace[k] as int],
        )
}

/// What finishing a step can do to the state: a refused or failed answer
/// leaves it as it was; progress to a next step records the step, clears the
/// pause and consumes the jump; the record of completed steps only grows.
pub proof fn lemma_finished(recipe: Recipe, c: ContextState, i: int, answer: AnswerModel)
    requires
        0 <= i < recipe.steps@.len(),
    ensures
        ({
            let (after, progress) = finished(recipe, c, i, answer);
            &&& included(c.completed_steps, after.completed_steps)
            &&& after.non_interactive == c.non_interactive
            &&& progress matches Ok(ProgressModel::Retry(_)) ==> after == c
            &&& progress matches Ok(ProgressModel::Next(_)) ==> after.completed_steps == marked(
                c.completed_steps,
                recipe.ids()[i],
            ) && !after.paused && after.jump_to is None
        }),
{
    lemma_effect_keeps_completed(recipe.steps@[i], c, answer);
    let id = recipe.ids()[i];
    assert forall|x: Seq<char>| c.completed_steps.contains(x) implies marked(
        c.completed_steps,
        id,
    ).contains(x) by {
        let k = choose|k: int| 0 <= k < c.completed_steps.len() && c.completed_steps[k] == x;
        assert(c.completed_steps.push(id)[k] == x);
    }
}

proof fn lemma_run_skips(
    recipe: Recipe,
    done: Seq<Seq<char>>,
    c: ContextState,
    i: int,
    awaiting: bool,
    script: Seq<AnswerModel>,
    trace: Seq<usize>,
)
    requires
        included(done, c.completed_steps),
        avoids(recipe, done, trace),
    ensures
        avoids(recipe, done, run_from(recipe, c, i, awaiting, script, trace).trace),
        included(done, run_from(recipe, c, i, awaiting, script, trace).ctx.completed_steps),
    decreases pending(recipe.ids(), c.completed_steps), script.len(), (if awaiting {
        0
    } else {
        recipe.steps@.len() - i + 1
    }),
{
    if i < 0 || i >= recipe.steps@.len() {
    } else if c.completed_steps.contains(recipe.ids()[i]) {
        if !awaiting {
            lemma_run_skips(recipe, done, c, i + 1, false, script, trace);
        }
    } else if !awaiting {
        assert(recipe.steps@.len() == recipe.steps.len());
        let at = ContextState { current_step_index: i as usize, ..c };
        let longer = trace.push(i as usize);
        assert(avoids(recipe, done, longer)) by {
            assert forall|k: int| 0 <= k < longer.len() implies (#[trigger] longer[k])
                < recipe.steps@.len() && !done.contains(recipe.ids()[longer[k] as int]) by {
                if k < trace.len() {
                    assert(longer[k] == trace[k]);
                }
            }
        }
        if plan(recipe.steps@[i], at) is Ok {
            lemma_run_skips(recipe, done, at, i, true, script, trace.push(i as usize));
        }
    } else if asks(recipe.steps@[i], c) && script.len() == 0 {
    } else {
        let asking = asks(recipe.steps@[i], c);
        let answer = if asking {
            script[0]
        } else {
            AnswerModel::Done
        };
        let rest = if asking {
            script.drop_first()
        } else {
            script
        };
        let (after, progress) = finished(recipe, c, i, answer);
        lemma_finished(recipe, c, i, answer);
        lemma_pending_decreases(recipe.ids(), c.completed_steps, i);
        match progress {
            Err(e) => {},
            Ok(ProgressModel::Retry(_)) => {
                if asking {
                    lemma_run_skips(recipe, done, after, i, true, rest, trace);
                }
            },
            Ok(ProgressModel::Paused) => {},
            Ok(ProgressModel::Next(n)) => {
                lemma_run_skips(recipe, done, after, n as int, false, rest, trace);
            },
        }
    }
}

/// A run never dispatches a step that had been completed when it started,
/// whatever the answers are, and it keeps every step that had been completed
/// on record.
pub proof fn theorem_completed_steps_are_skipped(
    recipe: Recipe,
    c: ContextState,
    script: Seq<AnswerModel>,
)
    ensures
        avoids(recipe, c.completed_steps, run_of(recipe, c, script).trace),
        included(c.completed_steps, run_of(recipe, c, script).ctx.completed_steps),
{
    lemma_run_skips(
        recipe,
        c.completed_steps,
        c,
        c.current_step_index as int,
        false,
        script,
        Seq::empty(),
    );
}

/// The run is paused exactly if it ended at a pause, and it ended there at a
/// wait step of an interactive run.
pub open spec fn paused_at_wait(recipe: Recipe, run: Run) -> bool {
    match run.result {
        Ok(RunState::Paused(i)) => run.ctx.paused && i < recipe.steps@.len()
            && recipe.steps@[i as int] is Wait && !run.ctx.non_interactive,
        _ => !run.ctx.paused,
    }
}

proof fn lemma_run_pauses_at_wait(
    recipe: Recipe,
    c: ContextState,
    i: int,
    awaiting: bool,
    script: Seq<AnswerModel>,
    trace: Seq<usize>,
)
    requires
        !c.paused,
    ensures
        paused_at_wait(recipe, run_from(recipe, c, i, awaiting, script, trace)),
    decreases pending(recipe.ids(), c.completed_steps), script.len(), (if awaiting {
        0
    } else {
        recipe.steps@.len() - i + 1
    }),
{
    assert(recipe.steps@.len() == recipe.steps.len());
    if i < 0 || i >= recipe.steps@.len() {
    } else if c.completed_steps.contains(recipe.ids()[i]) {
        if !awaiting {
            lemma_run_pauses_at_wait(recipe, c, i + 1, false, script, trace);
        }
    } else if !awaiting {
        let at = ContextState { current_step_index: i as usize, ..c };
        if plan(recipe.steps@[i], at) is Ok {
            lemma_run_pauses_at_wait(recipe, at, i, true, script, trace.push(i as usize));
        }
    } else if asks(recipe.steps@[i], c) && script.len() == 0 {
    } else {
        let asking = asks(recipe.steps@[i], c);
        let answer = if asking {
            script[0]
        } else {
            AnswerModel::Done
        };
        let rest = if asking {
            script.drop_first()
        } else {
            script
        };
        let (after, progress) = finished(recipe, c, i, answer);
        lemma_finished(recipe, c, i, answer);
        lemma_pending_decreases(recipe.ids(), c.completed_steps, i);
        match progress {
            Err(e) => {},
            Ok(ProgressModel::Retry(_)) => {
                if asking {
                    lemma_run_pauses_at_wait(recipe, after, i, true, rest, trace);
                }
            },
            Ok(ProgressModel::Paused) => {},
            Ok(ProgressModel::Next(n)) => {
                lemma_run_pauses_at_wait(recipe, after, n as int, false, rest, trace);
            },
        }
    }
}

/// A run that starts without a pause is left paused exactly if it ended at a
/// pause, and only a wait step of an interactive run pauses it.
pub proof fn theorem_only_wait_steps_pause(
    recipe: Recipe,
    c: ContextState,
    script: Seq<AnswerModel>,
)
    requires
        !c.paused,
    ensures
        paused_at_wait(recipe, run_of(recipe, c, script)),
{
    lemma_run_pauses_at_wait(
        recipe,
        c,
        c.current_step_index as int,
        false,
        script,
        Seq::empty(),
    );
}

proof fn lemma_run_consumes_jumps(
    recipe: Recipe,
    c: ContextState,
    i: int,
    awaiting: bool,
    script: Seq<AnswerModel>,
    trace: Seq<usize>,
)
    requires
        !c.paused,
        c.jump_to is None,
    ensures
        run_from(recipe, c, i, awaiting, script, trace).ctx.jump_to is None,
    decreases pending(recipe.ids(), c.completed_steps), script.len(), (if awaiting {
        0
    } else {
        recipe.steps@.len() - i + 1
    }),
{
    if i < 0 || i >= recipe.steps@.len() {
    } else if c.completed_steps.contains(recipe.ids()[i]) {
        if !awaiting {
            lemma_run_consumes_jumps(recipe, c, i + 1, false, script, trace);
        }
    } else if !awaiting {
        let at = ContextState { current_step_index: i as usize, ..c };
        if plan(recipe.steps@[i], at) is Ok {
            lemma_run_consumes_jumps(recipe, at, i, true, script, trace.push(i as usize));
        }
    } else if asks(recipe.steps@[i], c) && script.len() == 0 {
    } else {
        let asking = asks(recipe.steps@[i], c);
        let answer = if asking {
            script[0]
        } else {
            AnswerModel::Done
        };
        let rest = if asking {
            script.drop_first()
        } else {
            script
        };
        let (after, progress) = finished(recipe, c, i, answer);
        lemma_finished(recipe, c, i, answer);
        lemma_pending_decreases(recipe.ids(), c.completed_steps, i);
        match progress {
            Err(e) => {},
            Ok(ProgressModel::Retry(_)) => {
                if asking {
                    lemma_run_consumes_jumps(recipe, after, i, true, rest, trace);
                }
            },
            Ok(ProgressModel::Paused) => {},
            Ok(ProgressModel::Next(n)) => {
                lemma_run_consumes_jumps(recipe, after, n as int, false, rest, trace);
            },
        }
    }
}

/// A jump is consumed by the step that asked for it: a run that starts
/// without a pause and without a pending jump leaves none pending, wherever
/// and however it ends.
pub proof fn theorem_jumps_are_consumed(recipe: Recipe, c: ContextState, script: Seq<AnswerModel>)
    requires
        !c.paused,
        c.jump_to is None,
    ensures
        run_of(recipe, c, script).ctx.jump_to is None,
{
    lemma_run_consumes_jumps(
        recipe,
        c,
        c.current_step_index as int,
        false,
        script,
        Seq::empty(),
    );
}

/// The steps at the positions of `trace` have ids of their own.
pub open spec fn once_each(recipe: Recipe, trace: Seq<usize>) -> bool {
    forall|a: int, b: int|
        0 <= a < b < trace.len() ==> trace[a] < recipe.steps@.len() && trace[b]
            < recipe.steps@.len() && recipe.ids()[trace[a] as int] != recipe.ids()[trace[b] as int]
}

proof fn lemma_run_dispatches_once(
    recipe: Recipe,
    c: ContextState,
    i: int,
    awaiting: bool,
    script: Seq<AnswerModel>,
    trace: Seq<usize>,
)
    requires
        once_each(recipe, trace),
        awaiting ==> trace.len() > 0 && trace.last() == i && 0 <= i < recipe.steps@.len()
            && !c.completed_steps.contains(recipe.ids()[i]),
        forall|k: int|
            0 <= k < trace.len() - (if awaiting {
                1int
            } else {
                0int
            }) ==> (#[trigger] trace[k]) < recipe.steps@.len() && c.completed_steps.contains(
                recipe.ids()[trace[k] as int],
            ),
    ensures
        once_each(recipe, run_from(recipe, c, i, awaiting, script, trace).trace),
    decreases pending(recipe.ids(), c.completed_steps), script.len(), (if awaiting {
        0
    } else {
        recipe.steps@.len() - i + 1
    }),
{
    if i < 0 || i >= recipe.steps@.len() {
    } else if c.completed_steps.contains(recipe.ids()[i]) {
        if !awaiting {
            lemma_run_dispatches_once(recipe, c, i + 1, false, script, trace);
        }
    } else if !awaiting {
        assert(recipe.steps@.len() == recipe.steps.len());
        let at = ContextState { current_step_index: i as usize, ..c };
        let longer = trace.push(i as usize);
        assert(once_each(recipe, longer)) by {
            assert forall|a: int, b: int| 0 <= a < b < longer.len() implies longer[a]
                < recipe.steps@.len() && longer[b] < recipe.steps@.len()
                && recipe.ids()[longer[a] as int] != recipe.ids()[longer[b] as int] by {
                assert(longer[a] == trace[a]);
                if b < trace.len() {
                    assert(longer[b] == trace[b]);
                }
            }
        }
        assert forall|k: int| 0 <= k < longer.len() - 1 implies (#[trigger] longer[k])
            < recipe.steps@.len() && at.completed_steps.contains(
            recipe.ids()[longer[k] as int],
        ) by {
            assert(longer[k] == trace[k]);
        }
        if plan(recipe.steps@[i], at) is Ok {
            lemma_run_dispatches_once(recipe, at, i, true, script, longer);
        }
    } else if asks(recipe.steps@[i], c) && script.len() == 0 {
    } else {
        let asking = asks(recipe.steps@[i], c);
        let answer = if asking {
            script[0]
        } else {
            AnswerModel::Done
        };
        let rest = if asking {
            script.drop_first()
        } else {
            script
        };
        let (after, progress) = finished(recipe, c, i, answer);
        lemma_finished(recipe, c, i, answer);
        lemma_pending_decreases(recipe.ids(), c.completed_steps, i);
        match progress {
            Err(e) => {},
            Ok(ProgressModel::Retry(_)) => {
                if asking {
                    lemma_run_dispatches_once(recipe, after, i, true, rest, trace);
                }
            },
            Ok(ProgressModel::Paused) => {},
            Ok(ProgressModel::Next(n)) => {
                let id = recipe.ids()[i];
                assert(marked(c.completed_steps, id).contains(id)) by {
                    assert(c.completed_steps.push(id)[c.completed_steps.len() as int] == id);
                }
                assert forall|k: int| 0 <= k < trace.len() implies (#[trigger] trace[k])
                    < recipe.steps@.len() && after.completed_steps.contains(
                    recipe.ids()[trace[k] as int],
                ) by {
                    if k < trace.len() - 1 {
                        assert(c.completed_steps.contains(recipe.ids()[trace[k] as int]));
                    }
                }
                lemma_run_dispatches_once(recipe, after, n as int, false, rest, trace);
            },
        }
    }
}

/// No run dispatches a step twice: the steps that a run dispatches have ids
/// of their own, so a recipe whose choices jump in a circle cannot keep a
/// run going for ever.
pub proof fn theorem_no_step_is_dispatched_twice(
    recipe: Recipe,
    c: ContextState,
    script: Seq<AnswerModel>,
)
    ensures
        once_each(recipe, run_of(recipe, c, script).trace),
{
    lemma_run_dispatches_once(
        recipe,
        c,
        c.current_step_index as int,
        false,
        script,
        Seq::empty(),
    );
}

/// The step that a choice names is the next to be dispatched, wherever it
/// stands among the steps: picking an answer whose `next` names a step that
/// has not been completed makes the run go on at that step, and no step is
/// skipped on the way to it.
pub proof fn theorem_choice_jumps(recipe: Recipe, c: ContextState, i: int, k: usize, j: int)
    requires
        0 <= i < recipe.steps@.len(),
        !c.non_interactive,
        !c.paused,
        ({
            &&& recipe.steps@[i] matches Step::PromptChoice { choices, .. }
            &&& k < choices@.len()
            &&& choices@[k as int].next matches Some(target)
            &&& recipe.index_of_step(target@) == Some(j)
        }),
        !marked(c.completed_steps, recipe.ids()[i]).contains(recipe.ids()[j]),
    ensures
        ({
            let (after, progress) = finished(recipe, c, i, AnswerModel::Picked(k));
            &&& progress == Ok::<ProgressModel, Failure>(ProgressModel::Next(j as usize))
            &&& next_pending(recipe, after.completed_steps, j) == j
        }),
{
    let target = recipe.steps@[i]->PromptChoice_choices@[k as int].next->0;
    lemma_index_of(recipe.ids(), target@);
}

/// A run only adds to the positions that it has dispatched.
pub proof fn lemma_trace_grows(
    recipe: Recipe,
    c: ContextState,
    i: int,
    awaiting: bool,
    script: Seq<AnswerModel>,
    trace: Seq<usize>,
)
    ensures
        trace.is_prefix_of(run_from(recipe, c, i, awaiting, script, trace).trace),
    decreases pending(recipe.ids(), c.completed_steps), script.len(), (if awaiting {
        0
    } else {
        recipe.steps@.len() - i + 1
    }),
{
    if i < 0 || i >= recipe.steps@.len() {
    } else if c.completed_steps.contains(recipe.ids()[i]) {
        if !awaiting {
            lemma_trace_grows(recipe, c, i + 1, false, script, trace);
        }
    } else if !awaiting {
        let at = ContextState { current_step_index: i as usize, ..c };
        let longer = trace.push(i as usize);
        assert(trace.is_prefix_of(longer));
        if plan(recipe.steps@[i], at) is Ok {
            lemma_trace_grows(recipe, at, i, true, script, longer);
        }
    } else if asks(recipe.steps@[i], c) && script.len() == 0 {
    } else {
        let asking = asks(recipe.steps@[i], c);
        let answer = if asking {
            script[0]
        } else {
            AnswerModel::Done
        };
        let rest = if asking {
            script.drop_first()
        } else {
            script
        };
        let (after, progress) = finished(recipe, c, i, answer);
        lemma_finished(recipe, c, i, answer);
        lemma_pending_decreases(recipe.ids(), c.completed_steps, i);
        match progress {
            Err(e) => {},
            Ok(ProgressModel::Retry(_)) => {
                if asking {
                    lemma_trace_grows(recipe, after, i, true, rest, trace);
                }
            },
            Ok(ProgressModel::Paused) => {},
            Ok(ProgressModel::Next(n)) => {
                lemma_trace_grows(recipe, after, n as int, false, rest, trace);
            },
        }
    }
}

/// In a whole run, too, the step that a choice names is the very next to be
/// dispatched: where the step at `i` waits for its answer and the answer
/// picks a choice whose `next` names a step that has not been completed, the
/// position of that step is the next that the run adds to its trace.
pub proof fn theorem_jump_target_is_dispatched_next(
    recipe: Recipe,
    c: ContextState,
    i: int,
    k: usize,
    j: int,
    script: Seq<AnswerModel>,
    trace: Seq<usize>,
)
    requires
        0 <= i < recipe.steps@.len(),
        !c.non_interactive,
        !c.paused,
        !c.completed_steps.contains(recipe.ids()[i]),
        ({
            &&& recipe.steps@[i] matches Step::PromptChoice { choices, .. }
            &&& k < choices@.len()
            &&& choices@[k as int].next matches Some(target)
            &&& recipe.index_of_step(target@) == Some(j)
        }),
        !marked(c.completed_steps, recipe.ids()[i]).contains(recipe.ids()[j]),
        script.len() > 0,
        script[0] == AnswerModel::Picked(k),
    ensures
        ({
            let run = run_from(recipe, c, i, true, script, trace);
            run.trace.len() > trace.len() && run.trace[trace.len() as int] == j
        }),
{
    theorem_choice_jumps(recipe, c, i, k, j);
    let target = recipe.steps@[i]->PromptChoice_choices@[k as int].next->0;
    lemma_index_of(recipe.ids(), target@);
    lemma_finished(recipe, c, i, AnswerModel::Picked(k));
    let (after, progress) = finished(recipe, c, i, AnswerModel::Picked(k));
    let rest = script.drop_first();
    assert(recipe.steps@.len() == recipe.steps.len());
    assert(asks(recipe.steps@[i], c));
    let jumped = run_from(recipe, after, j, false, rest, trace);
    assert(run_from(recipe, c, i, true, script, trace) == jumped);
    assert(!after.completed_steps.contains(recipe.ids()[j]));
    let at = ContextState { current_step_index: j as usize, ..after };
    let longer = trace.push(j as usize);
    assert(longer[trace.len() as int] == j);
    if plan(recipe.steps@[j], at) is Ok {
        assert(jumped == run_from(recipe, at, j, true, rest, longer));
        lemma_trace_grows(recipe, at, j, true, rest, longer);
        assert(jumped.trace[trace.len() as int] == longer[trace.len() as int]);
    } else {
        assert(jumped.trace == longer);
    }
}

/// An answer that names no next step leaves the order of the steps alone:
/// where no jump is pending, the run goes on at the following position.
pub proof fn theorem_choice_falls_through(recipe: Recipe, c: ContextState, i: int, k: usize)
    requires
        0 <= i < recipe.steps@.len(),
        !c.non_interactive,
        !c.paused,
        c.jump_to is None,
        ({
            &&& recipe.steps@[i] matches Step::PromptChoice { choices, .. }
            &&& k < choices@.len()
            &&& choices@[k as int].next is None
        }),
    ensures
        finished(recipe, c, i, AnswerModel::Picked(k)).1 == Ok::<ProgressModel, Failure>(
            ProgressModel::Next((i + 1) as usize),
        ),
{
}

/// A check that failed never stops the run. Where the check succeeded, or
/// failed without a fatal refusal (a credential that was not collected, a
/// request that could not be sent, a response that refused it), the answer
/// that follows from its conclusion makes the step do to the state what a
/// step that does nothing would do; so in a run that is not paused and has
/// no jump pending the step is recorded as completed, the state is otherwise
/// as it was, and the run goes on at the following position.
pub proof fn theorem_failed_check_never_stops_the_run(
    recipe: Recipe,
    c: ContextState,
    i: int,
    on_success: Option<Seq<char>>,
    on_failure: Option<Seq<char>>,
    outcome: Result<(), RefusalModel>,
)
    requires
        0 <= i < recipe.steps@.len(),
        recipe.steps@[i] is Validate,
        !(outcome matches Err(RefusalModel::Fatal(_))),
    ensures
        concluded(on_success, on_failure, outcome) is Tell,
        finished(recipe, c, i, answer_of(concluded(on_success, on_failure, outcome))) == settled(
            recipe,
            c,
            i,
        ),
        !c.paused && c.jump_to is None ==> finished(
            recipe,
            c,
            i,
            answer_of(concluded(on_success, on_failure, outcome)),
        ) == (
            ContextState {
                completed_steps: marked(c.completed_steps, recipe.ids()[i]),
                ..c
            },
            Ok::<ProgressModel, Failure>(ProgressModel::Next((i + 1) as usize)),
        ),
{
}

/// A fatal refusal stops an interactive run: the answer that follows from
/// its conclusion fails the step with the error of the refusal, and the
/// state stays as it was, the step not recorded.
pub proof fn theorem_fatal_refusal_stops_the_run(
    recipe: Recipe,
    c: ContextState,
    i: int,
    on_success: Option<Seq<char>>,
    on_failure: Option<Seq<char>>,
    e: Failure,
)
    requires
        0 <= i < recipe.steps@.len(),
        recipe.steps@[i] is Validate,
        !c.non_interactive,
    ensures
        finished(
            recipe,
            c,
            i,
            answer_of(
                concluded(
                    on_success,
                    on_failure,
                    Err::<(), RefusalModel>(RefusalModel::Fatal(e)),
                ),
            ),
        ) == (c, Err::<ProgressModel, Failure>(e)),
{
}

/// A validation step with a validator that does not exist, or with a
/// configuration that the validator refuses fatally, fails an interactive
/// run when it is dispatched, with the error of the refusal.
pub proof fn theorem_misconfigured_validation_fails(step: Step, c: ContextState)
    requires
        !c.non_interactive,
        step matches Step::Validate { method, message, config, .. } && presented(message@, c)
            is Ok && request_for(method@, c.collected, config@) is Err && !lacks_credential(
            method@,
            c.collected,
            config@,
        ),
    ensures
        ({
            &&& step matches Step::Validate { method, config, .. }
            &&& request_for(method@, c.collected, config@) matches Err(RefusalModel::Fatal(e))
            &&& plan(step, c) == Err::<ActionModel, Failure>(e)
        }),
{
    let method = step->Validate_method;
    let config = step->Validate_config;
    theorem_fatal_refusals(method@, c.collected, config@);
}

/// The rest of the run does not depend on how a check ended. Where a
/// validation step of an interactive run waits for its answer, and the
/// answer is no fatal failure, the run goes on as the run that starts behind
/// the step, with the step recorded as completed and the remaining answers.
pub proof fn theorem_run_goes_on_after_validation(
    recipe: Recipe,
    c: ContextState,
    i: int,
    script: Seq<AnswerModel>,
    trace: Seq<usize>,
)
    requires
        0 <= i < recipe.steps@.len(),
        recipe.steps@[i] is Validate,
        !c.non_interactive,
        !c.paused,
        c.jump_to is None,
        !c.completed_steps.contains(recipe.ids()[i]),
        script.len() > 0,
        !(script[0] is Failed),
    ensures
        run_from(recipe, c, i, true, script, trace) == run_from(
            recipe,
            ContextState { completed_steps: marked(c.completed_steps, recipe.ids()[i]), ..c },
            i + 1,
            false,
            script.drop_first(),
            trace,
        ),
{
    assert(recipe.steps@.len() == recipe.steps.len());
    assert(asks(recipe.steps@[i], c));
}

/// The variables are those that the recorded choices set, and every step at
/// which a choice was recorded is on record as completed.
pub open spec fn replayable(recipe: Recipe, c: ContextState) -> bool {
    &&& c.vars == replayed(recipe, c.choices_made)
    &&& forall|k: int|
        0 <= k < c.choices_made.len() ==> c.completed_steps.contains(
            (#[trigger] c.choices_made[k]).0,
        )
}

/// The state at the start of a run is replayable.
pub proof fn theorem_fresh_is_replayable(
    recipe: Recipe,
    output_format: OutputFormat,
    output_file: Seq<char>,
    non_interactive: bool,
    total_steps: usize,
)
    ensures
        replayable(recipe, fresh(output_format, output_file, non_interactive, total_steps)),
{
}

/// Finishing a step that had not been completed keeps the state replayable.
pub proof fn theorem_steps_keep_replayable(
    recipe: Recipe,
    c: ContextState,
    i: int,
    answer: AnswerModel,
)
    requires
        recipe.well_formed(),
        replayable(recipe, c),
        0 <= i < recipe.steps@.len(),
        !c.completed_steps.contains(recipe.ids()[i]),
        !c.paused,
    ensures
        replayable(recipe, finished(recipe, c, i, answer).0),
{
    let step = recipe.steps@[i];
    let id = recipe.ids()[i];
    let (after, progress) = finished(recipe, c, i, answer);
    lemma_finished(recipe, c, i, answer);
    match effect(step, c, answer) {
        Effect::Done(mid) => {
            assert(included(mid.completed_steps, after.completed_steps)) by {
                if !mid.paused {
                    assert forall|x: Seq<char>| mid.completed_steps.contains(x) implies marked(
                        mid.completed_steps,
                        id,
                    ).contains(x) by {
                        let k = choose|k: int|
                            0 <= k < mid.completed_steps.len() && mid.completed_steps[k] == x;
                        assert(mid.completed_steps.push(id)[k] == x);
                    }
                }
            }
            assert(after.vars == mid.vars && after.choices_made == mid.choices_made);
            if step is PromptChoice && !c.non_interactive {
                let choices = step->PromptChoice_choices@;
                let k = answer->Picked_0;
                let choice = choices[k as int];
                lemma_position(c.choices_made, id);
                assert(position(c.choices_made, id) is None) by {
                    if position(c.choices_made, id) is Some {
                        let p = position(c.choices_made, id)->0;
                        assert(c.completed_steps.contains(c.choices_made[p].0));
                    }
                }
                let grown = c.choices_made.push((id, choice.label@));
                assert(mid.choices_made == grown);
                assert(grown.drop_last() =~= c.choices_made);
                lemma_index_of_distinct(recipe.ids(), i);
                lemma_index_of_distinct(choice_labels(choices), k as int);
                assert(sets_for(recipe, id, choice.label@) == sets_of(choice));
                assert(!mid.paused);
                assert(after.completed_steps == marked(c.completed_steps, id));
                assert(marked(c.completed_steps, id).contains(id)) by {
                    assert(c.completed_steps.push(id)[c.completed_steps.len() as int] == id);
                }
                assert forall|q: int| 0 <= q < grown.len() implies after.completed_steps.contains(
                    (#[trigger] grown[q]).0,
                ) by {
                    if q < c.choices_made.len() {
                        assert(grown[q] == c.choices_made[q]);
                        assert(c.completed_steps.contains(c.choices_made[q].0));
                    }
                }
            } else {
                assert(mid.vars == c.vars && mid.choices_made == c.choices_made);
            }
        },
        _ => {},
    }
}

proof fn lemma_run_keeps_replayable(
    recipe: Recipe,
    c: ContextState,
    i: int,
    awaiting: bool,
    script: Seq<AnswerModel>,
    trace: Seq<usize>,
)
    requires
        recipe.well_formed(),
        replayable(recipe, c),
        !c.paused,
    ensures
        replayable(recipe, run_from(recipe, c, i, awaiting, script, trace).ctx),
    decreases pending(recipe.ids(), c.completed_steps), script.len(), (if awaiting {
        0
    } else {
        recipe.steps@.len() - i + 1
    }),
{
    if i < 0 || i >= recipe.steps@.len() {
    } else if c.completed_steps.contains(recipe.ids()[i]) {
        if !awaiting {
            lemma_run_keeps_replayable(recipe, c, i + 1, false, script, trace);
        }
    } else if !awaiting {
        let at = ContextState { current_step_index: i as usize, ..c };
        if plan(recipe.steps@[i], at) is Ok {
            lemma_run_keeps_replayable(recipe, at, i, true, script, trace.push(i as usize));
        }
    } else if asks(recipe.steps@[i], c) && script.len() == 0 {
    } else {
        let asking = asks(recipe.steps@[i], c);
        let answer = if asking {
            script[0]
        } else {
            AnswerModel::Done
        };
        let rest = if asking {
            script.drop_first()
        } else {
            script
        };
        let (after, progress) = finished(recipe, c, i, answer);
        lemma_finished(recipe, c, i, answer);
        lemma_pending_decreases(recipe.ids(), c.completed_steps, i);
        theorem_steps_keep_replayable(recipe, c, i, answer);
        match progress {
            Err(e) => {},
            Ok(ProgressModel::Retry(_)) => {
                if asking {
                    lemma_run_keeps_replayable(recipe, after, i, true, rest, trace);
                }
            },
            Ok(ProgressModel::Paused) => {},
            Ok(ProgressModel::Next(n)) => {
                lemma_run_keeps_replayable(recipe, after, n as int, false, rest, trace);
            },
        }
    }
}

/// A run of a well-formed recipe that starts in a replayable state leaves a
/// replayable state, wherever and however it ends.
pub proof fn theorem_runs_keep_replayable(
    recipe: Recipe,
    c: ContextState,
    script: Seq<AnswerModel>,
)
    requires
        recipe.well_formed(),
        replayable(recipe, c),
        !c.paused,
    ensures
        replayable(recipe, run_of(recipe, c, script).ctx),
{
    lemma_run_keeps_replayable(
        recipe,
        c,
        c.current_step_index as int,
        false,
        script,
        Seq::empty(),
    );
}

/// The state and the result of a run do not depend on the trace that it
/// started with.
pub proof fn lemma_trace_is_a_record(
    recipe: Recipe,
    c: ContextState,
    i: int,
    awaiting: bool,
    script: Seq<AnswerModel>,
    trace: Seq<usize>,
    other: Seq<usize>,
)
    ensures
        run_from(recipe, c, i, awaiting, script, trace).ctx == run_from(
            recipe,
            c,
            i,
            awaiting,
            script,
            other,
        ).ctx,
        run_from(recipe, c, i, awaiting, script, trace).result == run_from(
            recipe,
            c,
            i,
            awaiting,
            script,
            other,
        ).result,
    decreases pending(recipe.ids(), c.completed_steps), script.len(), (if awaiting {
        0
    } else {
        recipe.steps@.len() - i + 1
    }),
{
    if i < 0 || i >= recipe.steps@.len() {
    } else if c.completed_steps.contains(recipe.ids()[i]) {
        if !awaiting {
            lemma_trace_is_a_record(recipe, c, i + 1, false, script, trace, other);
        }
    } else if !awaiting {
        let at = ContextState { current_step_index: i as usize, ..c };
        if plan(recipe.steps@[i], at) is Ok {
            lemma_trace_is_a_record(
                recipe,
                at,
                i,
                true,
                script,
                trace.push(i as usize),
                other.push(i as usize),
            );
        }
    } else if asks(recipe.steps@[i], c) && script.len() == 0 {
    } else {
        let asking = asks(recipe.steps@[i], c);
        let answer = if asking {
            script[0]
        } else {
            AnswerModel::Done
        };
        let rest = if asking {
            script.drop_first()
        } else {
            script
        };
        let (after, progress) = finished(recipe, c, i, answer);
        lemma_finished(recipe, c, i, answer);
        lemma_pending_decreases(recipe.ids(), c.completed_steps, i);
        match progress {
            Err(e) => {},
            Ok(ProgressModel::Retry(_)) => {
                if asking {
                    lemma_trace_is_a_record(recipe, after, i, true, rest, trace, other);
                }
            },
            Ok(ProgressModel::Paused) => {},
            Ok(ProgressModel::Next(n)) => {
                lemma_trace_is_a_record(recipe, after, n as int, false, rest, trace, other);
            },
        }
    }
}

/// The step at `i` has been dispatched in the state `c` and waits for its
/// answer.
pub open spec fn waits_at(recipe: Recipe, c: ContextState, i: int) -> bool {
    &&& 0 <= i < recipe.steps@.len()
    &&& c.current_step_index == i
    &&& !c.completed_steps.contains(recipe.ids()[i])
    &&& plan(recipe.steps@[i], c) is Ok
}

/// Answers that come later do not change what a run has done with the
/// earlier ones. A run that ended, paused or failed is not touched by more
/// answers; a run that stands at a question goes on from there with them.
pub proof fn lemma_answers_in_two_parts(
    recipe: Recipe,
    c: ContextState,
    i: int,
    awaiting: bool,
    first: Seq<AnswerModel>,
    second: Seq<AnswerModel>,
    trace: Seq<usize>,
)
    requires
        awaiting ==> waits_at(recipe, c, i),
    ensures
        ({
            let part = run_from(recipe, c, i, awaiting, first, trace);
            let whole = run_from(recipe, c, i, awaiting, first + second, trace);
            match part.result {
                Ok(RunState::Running(j)) => waits_at(recipe, part.ctx, j as int) && whole
                    == run_from(recipe, part.ctx, j as int, true, second, part.trace),
                _ => whole == part,
            }
        }),
    decreases pending(recipe.ids(), c.completed_steps), first.len(), (if awaiting {
        0
    } else {
        recipe.steps@.len() - i + 1
    }),
{
    let both = first + second;
    assert(recipe.steps@.len() == recipe.steps.len());
    if i < 0 || i >= recipe.steps@.len() {
    } else if c.completed_steps.contains(recipe.ids()[i]) {
        if !awaiting {
            lemma_answers_in_two_parts(recipe, c, i + 1, false, first, second, trace);
        }
    } else if !awaiting {
        let at = ContextState { current_step_index: i as usize, ..c };
        if plan(recipe.steps@[i], at) is Ok {
            lemma_answers_in_two_parts(
                recipe,
                at,
                i,
                true,
                first,
                second,
                trace.push(i as usize),
            );
        }
    } else if asks(recipe.steps@[i], c) && first.len() == 0 {
        assert(both =~= second);
    } else {
        let asking = asks(recipe.steps@[i], c);
        let answer = if asking {
            first[0]
        } else {
            AnswerModel::Done
        };
        let rest = if asking {
            first.drop_first()
        } else {
            first
        };
        if asking {
            assert(both[0] == first[0]);
            assert(both.drop_first() =~= first.drop_first() + second);
        }
        let (after, progress) = finished(recipe, c, i, answer);
        lemma_finished(recipe, c, i, answer);
        lemma_pending_decreases(recipe.ids(), c.completed_steps, i);
        match progress {
            Err(e) => {},
            Ok(ProgressModel::Retry(_)) => {
                if asking {
                    lemma_answers_in_two_parts(recipe, after, i, true, rest, second, trace);
                }
            },
            Ok(ProgressModel::Paused) => {},
            Ok(ProgressModel::Next(n)) => {
                lemma_answers_in_two_parts(recipe, after, n as int, false, rest, second, trace);
            },
        }
    }
}

/// A run can be taken up where it stood. Where a run from the state `c`
/// stands at a question once the answers of `first` are used up, the run
/// that goes on from the state it left with the answers of `second` ends in
/// the state, and with the result, of the one run that is given all the
/// answers at once.
pub proof fn theorem_run_in_two_parts(
    recipe: Recipe,
    c: ContextState,
    first: Seq<AnswerModel>,
    second: Seq<AnswerModel>,
)
    requires
        run_of(recipe, c, first).result matches Ok(RunState::Running(_)),
    ensures
        run_of(recipe, run_of(recipe, c, first).ctx, second).ctx == run_of(
            recipe,
            c,
            first + second,
        ).ctx,
        run_of(recipe, run_of(recipe, c, first).ctx, second).result == run_of(
            recipe,
            c,
            first + second,
        ).result,
{
    let part = run_of(recipe, c, first);
    let j = part.result->Ok_0->Running_0 as int;
    lemma_answers_in_two_parts(
        recipe,
        c,
        c.current_step_index as int,
        false,
        first,
        second,
        Seq::empty(),
    );
    let at = ContextState { current_step_index: j as usize, ..part.ctx };
    assert(at == part.ctx);
    lemma_trace_is_a_record(
        recipe,
        part.ctx,
        j,
        true,
        second,
        part.trace,
        Seq::<usize>::empty().push(j as usize),
    );
}

/// A run that may have been cut short between two steps.
pub struct Part {
    /// What the run came to, as far as it went.
    pub run: Run,
    /// Whether the run was cut: it then stands before the step at the
    /// position of its result, which it has not looked at.
    pub cut: bool,
    /// The answers that it has not used.
    pub rest: Seq<AnswerModel>,
}

/// The run of `run_from`, cut short before it looks at another step once it
/// has finished `budget` steps. A run that ends earlier is not cut.
pub open spec fn run_for(
    recipe: Recipe,
    c: ContextState,
    i: int,
    awaiting: bool,
    script: Seq<AnswerModel>,
    trace: Seq<usize>,
    budget: nat,
) -> Part
    decreases pending(recipe.ids(), c.completed_steps), script.len(), (if awaiting {
        0
    } else {
        recipe.steps@.len() - i + 1
    }),
    via run_for_terminates
{
    if budget == 0 && !awaiting {
        Part {
            run: Run { ctx: c, result: Ok(RunState::Running(i as usize)), trace },
            cut: true,
            rest: script,
        }
    } else if i < 0 || i >= recipe.steps@.len() {
        Part {
            run: Run { ctx: c, result: Ok(RunState::Completed), trace },
            cut: false,
            rest: script,
        }
    } else if c.completed_steps.contains(recipe.ids()[i]) {
        if awaiting {
            Part {
                run: Run { ctx: c, result: Ok(RunState::Running(i as usize)), trace },
                cut: false,
                rest: script,
            }
        } else {
            run_for(recipe, c, i + 1, false, script, trace, budget)
        }
    } else if !awaiting {
        let at = ContextState { current_step_index: i as usize, ..c };
        match plan(recipe.steps@[i], at) {
            Err(e) => Part {
                run: Run { ctx: at, result: Err(e), trace: trace.push(i as usize) },
                cut: false,
                rest: script,
            },
            Ok(_) => run_for(recipe, at, i, true, script, trace.push(i as usize), budget),
        }
    } else if asks(recipe.steps@[i], c) && script.len() == 0 {
        Part {
            run: Run { ctx: c, result: Ok(RunState::Running(i as usize)), trace },
            cut: false,
            rest: script,
        }
    } else {
        let asking = asks(recipe.steps@[i], c);
        let answer = if asking {
            script[0]
        } else {
            AnswerModel::Done
        };
        let rest = if asking {
            script.drop_first()
        } else {
            script
        };
        let (after, progress) = finished(recipe, c, i, answer);
        match progress {
            Err(e) => Part { run: Run { ctx: after, result: Err(e), trace }, cut: false, rest },
            Ok(ProgressModel::Retry(_)) => if asking {
                run_for(recipe, after, i, true, rest, trace, budget)
            } else {
                Part {
                    run: Run { ctx: after, result: Ok(RunState::Running(i as usize)), trace },
                    cut: false,
                    rest,
                }
            },
            Ok(ProgressModel::Paused) => Part {
                run: Run { ctx: after, result: Ok(RunState::Paused(i as usize)), trace },
                cut: false,
                rest,
            },
            Ok(ProgressModel::Next(n)) => run_for(
                recipe,
                after,
                n as int,
                false,
                rest,
                trace,
                (budget - 1) as nat,
            ),
        }
    }
}

#[via_fn]
proof fn run_for_terminates(
    recipe: Recipe,
    c: ContextState,
    i: int,
    awaiting: bool,
    script: Seq<AnswerModel>,
    trace: Seq<usize>,
    budget: nat,
) {
    if 0 <= i < recipe.steps@.len() && !c.completed_steps.contains(recipe.ids()[i]) && awaiting {
        let asking = asks(recipe.steps@[i], c);
        let answer = if asking {
            script[0]
        } else {
            AnswerModel::Done
        };
        lemma_effect_keeps_completed(recipe.steps@[i], c, answer);
        lemma_pending_decreases(recipe.ids(), c.completed_steps, i);
    }
}

/// A run that is cut between two steps and taken up from the state it left,
/// with the answers it has not used, is the run that was never cut; a run
/// that ended before the cut is that run already.
pub proof fn lemma_cut_run(
    recipe: Recipe,
    c: ContextState,
    i: int,
    awaiting: bool,
    script: Seq<AnswerModel>,
    trace: Seq<usize>,
    budget: nat,
)
    requires
        0 <= i <= usize::MAX,
    ensures
        ({
            let part = run_for(recipe, c, i, awaiting, script, trace, budget);
            let whole = run_from(recipe, c, i, awaiting, script, trace);
            if part.cut {
                &&& part.run.result matches Ok(RunState::Running(j))
                &&& whole == run_from(
                    recipe,
                    part.run.ctx,
                    j as int,
                    false,
                    part.rest,
                    part.run.trace,
                )
            } else {
                part.run == whole
            }
        }),
    decreases pending(recipe.ids(), c.completed_steps), script.len(), (if awaiting {
        0
    } else {
        recipe.steps@.len() - i + 1
    }),
{
    assert(recipe.steps@.len() == recipe.steps.len());
    if budget == 0 && !awaiting {
    } else if i < 0 || i >= recipe.steps@.len() {
    } else if c.completed_steps.contains(recipe.ids()[i]) {
        if !awaiting {
            lemma_cut_run(recipe, c, i + 1, false, script, trace, budget);
        }
    } else if !awaiting {
        let at = ContextState { current_step_index: i as usize, ..c };
        if plan(recipe.steps@[i], at) is Ok {
            lemma_cut_run(recipe, at, i, true, script, trace.push(i as usize), budget);
        }
    } else if asks(recipe.steps@[i], c) && script.len() == 0 {
    } else {
        let asking = asks(recipe.steps@[i], c);
        let answer = if asking {
            script[0]
        } else {
            AnswerModel::Done
        };
        let rest = if asking {
            script.drop_first()
        } else {
            script
        };
        let (after, progress) = finished(recipe, c, i, answer);
        lemma_finished(recipe, c, i, answer);
        lemma_pending_decreases(recipe.ids(), c.completed_steps, i);
        match progress {
            Err(e) => {},
            Ok(ProgressModel::Retry(_)) => {
                if asking {
                    lemma_cut_run(recipe, after, i, true, rest, trace, budget);
                }
            },
            Ok(ProgressModel::Paused) => {},
            Ok(ProgressModel::Next(n)) => {
                lemma_cut_run(recipe, after, n as int, false, rest, trace, (budget - 1) as nat);
            },
        }
    }
}

/// Two states agree in all but the position of the step dispatched last.
pub open spec fn same_but_position(a: ContextState, b: ContextState) -> bool {
    a == ContextState { current_step_index: a.current_step_index, ..b }
}

/// What a run comes to does not depend on the position that the state held
/// when the run started, nor on the trace: the position is set anew when a
/// step is dispatched.
pub proof fn lemma_position_is_a_record(
    recipe: Recipe,
    c: ContextState,
    d: ContextState,
    i: int,
    script: Seq<AnswerModel>,
    trace: Seq<usize>,
    other: Seq<usize>,
)
    requires
        same_but_position(c, d),
    ensures
        run_from(recipe, c, i, false, script, trace).result == run_from(
            recipe,
            d,
            i,
            false,
            script,
            other,
        ).result,
        same_but_position(
            run_from(recipe, c, i, false, script, trace).ctx,
            run_from(recipe, d, i, false, script, other).ctx,
        ),
    decreases recipe.steps@.len() - i,
{
    if i < 0 || i >= recipe.steps@.len() {
    } else if c.completed_steps.contains(recipe.ids()[i]) {
        lemma_position_is_a_record(recipe, c, d, i + 1, script, trace, other);
    } else {
        let at = ContextState { current_step_index: i as usize, ..c };
        let bt = ContextState { current_step_index: i as usize, ..d };
        assert(at == bt);
        if plan(recipe.steps@[i], at) is Ok {
            lemma_trace_is_a_record(
                recipe,
                at,
                i,
                true,
                script,
                trace.push(i as usize),
                other.push(i as usize),
            );
        }
    }
}

/// A run can be cut between any two steps and taken up later. Let a run be
/// cut once it has finished `budget` steps, and let a new run start before
/// the step at which it was cut, in the state that the cut run left, with
/// the answers that it has not used. Then the new run ends with the result
/// of the run that was never cut, and in its state: the same credentials,
/// variables, choices and completed steps, the same pause and pending jump.
/// A run that ended before the cut is the whole run already.
pub proof fn theorem_run_cut_between_steps(
    recipe: Recipe,
    c: ContextState,
    script: Seq<AnswerModel>,
    budget: nat,
)
    ensures
        ({
            let whole = run_of(recipe, c, script);
            let part = run_for(
                recipe,
                c,
                c.current_step_index as int,
                false,
                script,
                Seq::empty(),
                budget,
            );
            if part.cut {
                &&& part.run.result matches Ok(RunState::Running(j))
                &&& run_of(
                    recipe,
                    ContextState { current_step_index: j, ..part.run.ctx },
                    part.rest,
                ).result == whole.result
                &&& same_but_position(
                    run_of(
                        recipe,
                        ContextState { current_step_index: j, ..part.run.ctx },
                        part.rest,
                    ).ctx,
                    whole.ctx,
                )
            } else {
                part.run == whole
            }
        }),
{
    let part = run_for(
        recipe,
        c,
        c.current_step_index as int,
        false,
        script,
        Seq::empty(),
        budget,
    );
    lemma_cut_run(recipe, c, c.current_step_index as int, false, script, Seq::empty(), budget);
    if part.cut {
        let j = part.run.result->Ok_0->Running_0;
        let again = ContextState { current_step_index: j, ..part.run.ctx };
        lemma_position_is_a_record(
            recipe,
            again,
            part.run.ctx,
            j as int,
            part.rest,
            Seq::empty(),
            part.run.trace,
        );
    }
}

/// What the output file holds for a key, as a resumed run sees it: the value
/// of a declared output, nothing for any other key.
pub proof fn lemma_rediscovered(wanted: Seq<Seq<char>>, existing: Pairs, key: Seq<char>)
    ensures
        lookup(rediscovered(wanted, existing), key) == if wanted.contains(key) {
            lookup(existing, key)
        } else {
            None
        },
    decreases wanted.len(),
{
    if wanted.len() > 0 {
        let front = wanted.drop_last();
        let last = wanted.last();
        lemma_rediscovered(front, existing, key);
        let before = rediscovered(front, existing);
        assert(wanted[wanted.len() - 1] == last);
        if front.contains(key) {
            let q = choose|q: int| 0 <= q < front.len() && front[q] == key;
            assert(wanted[q] == key);
        }
        if wanted.contains(key) && key != last {
            let q = choose|q: int| 0 <= q < wanted.len() && wanted[q] == key;
            assert(front[q] == key);
        }
        match lookup(existing, last) {
            Some(v) => {
                lemma_lookup_put(before, last, v, key);
            },
            None => {},
        }
    } else {
        lemma_position(Seq::<(Seq<char>, Seq<char>)>::empty(), key);
    }
}

/// Taking a run up again restores the state in which it was left. Let a run
/// of a well-formed recipe have been paused at one of the steps, in the
/// replayable state `c`, and let the session `s` have recorded it at the
/// moment `now`. Let the output file hold, for the outputs that the recipe declares,
/// what had been collected, and let nothing else have been collected. Then
/// resuming succeeds, and the resumed state has the completed steps, the
/// choices, the variables and the position of `c`, no pause and no pending
/// jump, and it maps every key to the credential that `c` maps it to. Where
/// the credentials also stand in the same order, the resumed run is the run
/// that goes on from `c` itself.
pub proof fn theorem_resume_restores_the_state(
    recipe: Recipe,
    c: ContextState,
    s: SessionRecord,
    now: Seq<char>,
    existing: Pairs,
    script: Seq<AnswerModel>,
)
    requires
        recipe.well_formed(),
        replayable(recipe, c),
        c.paused,
        c.current_step_index < recipe.steps@.len(),
        forall|key: Seq<char>|
            lookup(c.collected, key) == if output_keys(recipe.outputs@).contains(key) {
                lookup(existing, key)
            } else {
                None
            },
    ensures
        resumed(
            recipe,
            recorded(s, recipe, c, now),
            existing,
            c.output_format,
            c.output_file,
            c.non_interactive,
        ) matches Ok(r) && ({
            let go_on = ContextState {
                paused: false,
                jump_to: None,
                total_steps: recipe.steps@.len() as usize,
                ..c
            };
            &&& r == ContextState { collected: r.collected, ..go_on }
            &&& forall|key: Seq<char>| lookup(r.collected, key) == lookup(c.collected, key)
            &&& r.collected == c.collected ==> run_of(recipe, r, script) == run_of(
                recipe,
                go_on,
                script,
            )
        }),
{
    let r = resumed(
        recipe,
        recorded(s, recipe, c, now),
        existing,
        c.output_format,
        c.output_file,
        c.non_interactive,
    )->Ok_0;
    lemma_index_of_distinct(recipe.ids(), c.current_step_index as int);
    assert forall|key: Seq<char>| lookup(r.collected, key) == lookup(c.collected, key) by {
        lemma_rediscovered(output_keys(recipe.outputs@), existing, key);
    }
}

/// What a resumed run finds depends on the file only through what it holds
/// for the declared outputs.
pub proof fn lemma_rediscovered_by_lookup(wanted: Seq<Seq<char>>, a: Pairs, b: Pairs)
    requires
        forall|i: int| 0 <= i < wanted.len() ==> lookup(a, wanted[i]) == lookup(b, wanted[i]),
    ensures
        rediscovered(wanted, a) == rediscovered(wanted, b),
    decreases wanted.len(),
{
    if wanted.len() > 0 {
        let front = wanted.drop_last();
        assert forall|i: int| 0 <= i < front.len() implies lookup(a, front[i]) == lookup(
            b,
            front[i],
        ) by {
            assert(front[i] == wanted[i]);
        }
        lemma_rediscovered_by_lookup(front, a, b);
        assert(wanted[wanted.len() - 1] == wanted.last());
    }
}

/// A paused run whose credentials have been written out is restored by
/// resuming. Let a run of a well-formed recipe have been paused at one of the
/// steps, in the replayable state `c`; let every credential that it
/// collected be plain and a declared output, and let the credentials have
/// been written to the env file that held `before`, which held no declared
/// output that the run had not collected. Then resuming with what is read
/// from the file succeeds, and the resumed state is `c` without the pause,
/// with every key mapped to the credential that `c` maps it to. Where the
/// credentials were collected in the order in which the recipe declares
/// them, the resumed state is `c` without the pause to the letter, so that
/// the resumed run is the run that goes on from `c`: it ends in the same
/// state, and what is written at its end is the same.
pub proof fn theorem_written_run_is_restored(
    recipe: Recipe,
    c: ContextState,
    s: SessionRecord,
    now: Seq<char>,
    before: Seq<char>,
    script: Seq<AnswerModel>,
)
    requires
        recipe.well_formed(),
        replayable(recipe, c),
        c.paused,
        c.current_step_index < recipe.steps@.len(),
        distinct_keys(c.collected),
        plain(c.collected),
        forall|key: Seq<char>|
            has_key(c.collected, key) ==> output_keys(recipe.outputs@).contains(key),
        forall|key: Seq<char>|
            output_keys(recipe.outputs@).contains(key) && has_key(parsed(before), key)
                ==> has_key(c.collected, key),
    ensures
        resumed(
            recipe,
            recorded(s, recipe, c, now),
            parsed(written(before, c.collected)),
            c.output_format,
            c.output_file,
            c.non_interactive,
        ) matches Ok(r) && ({
            let go_on = ContextState {
                paused: false,
                jump_to: None,
                total_steps: recipe.steps@.len() as usize,
                ..c
            };
            &&& r == ContextState { collected: r.collected, ..go_on }
            &&& forall|key: Seq<char>| lookup(r.collected, key) == lookup(c.collected, key)
            &&& c.collected == rediscovered(output_keys(recipe.outputs@), c.collected) ==> r
                == go_on && run_of(recipe, r, script) == run_of(recipe, go_on, script)
        }),
{
    let existing = parsed(written(before, c.collected));
    assert forall|key: Seq<char>|
        lookup(c.collected, key) == if output_keys(recipe.outputs@).contains(key) {
            lookup(existing, key)
        } else {
            None
        } by {
        if has_key(c.collected, key) {
            theorem_written_values_are_found(before, c.collected, key);
        } else if output_keys(recipe.outputs@).contains(key) {
            theorem_other_keys_are_not_made_up(before, c.collected, key);
        }
    }
    theorem_resume_restores_the_state(recipe, c, s, now, existing, script);
    let wanted = output_keys(recipe.outputs@);
    assert forall|i: int| 0 <= i < wanted.len() implies lookup(existing, wanted[i]) == lookup(
        c.collected,
        wanted[i],
    ) by {
        assert(wanted.contains(wanted[i]));
    }
    lemma_rediscovered_by_lookup(wanted, existing, c.collected);
}

} // verus!
