//! From a persisted session back to the state of a run.

use crate::cli::args::OutputFormat;
use crate::error::{Failure, GetapiError};
use crate::recipe::types::{choice_labels, output_keys, Recipe, Step};
use crate::runner::context::{ContextState, RunContext};
use crate::runner::steps::prompt_choice::sets_of;
use crate::session::types::{Session, SessionRecord};
use crate::strmap::{lookup, put, put_all, Pairs, StrMap};
use crate::text::{clone_strings, index_of, lemma_index_of, lemma_index_of_is, str_eq};
use vstd::prelude::*;

verus! {

/// The variables that the answer labelled `label` of the choice step
/// `step_id` sets; none where the recipe has no such step or answer.
pub open spec fn sets_for(recipe: Recipe, step_id: Seq<char>, label: Seq<char>) -> Pairs {
    match recipe.index_of_step(step_id) {
        Some(i) => match recipe.steps@[i] {
            Step::PromptChoice { choices, .. } => match index_of(choice_labels(choices@), label) {
                Some(k) => sets_of(choices@[k]),
                None => Seq::empty(),
            },
            _ => Seq::empty(),
        },
        None => Seq::empty(),
    }
}

/// The variables that the recorded choices set, replayed in the order in
/// which the choices were recorded.
pub open spec fn replayed(recipe: Recipe, choices: Pairs) -> Pairs
    decreases choices.len(),
{
    if choices.len() == 0 {
        Seq::empty()
    } else {
        put_all(
            replayed(recipe, choices.drop_last()),
            sets_for(recipe, choices.last().0, choices.last().1),
        )
    }
}

/// The values that `existing` holds for the keys of `wanted`, in the order of
/// `wanted`.
pub open spec fn rediscovered(wanted: Seq<Seq<char>>, existing: Pairs) -> Pairs
    decreases wanted.len(),
{
    if wanted.len() == 0 {
        Seq::empty()
    } else {
        let before = rediscovered(wanted.drop_last(), existing);
        match lookup(existing, wanted.last()) {
            Some(v) => put(before, wanted.last(), v),
            None => before,
        }
    }
}

/// The position at which a resumed run starts: that of the step that the
/// session names, or the start where it names none. A session that names a
/// step that the recipe does not have cannot be resumed.
pub open spec fn resume_position(recipe: Recipe, current_step: Option<Seq<char>>) -> Result<
    usize,
    Failure,
> {
    match current_step {
        Some(id) => match recipe.index_of_step(id) {
            Some(i) => Ok(i as usize),
            None => Err(Failure::StepNotFound(id)),
        },
        None => Ok(0),
    }
}

/// The state in which the run of `recipe` recorded in `s` is taken up again,
/// where the output file holds `existing`.
pub open spec fn resumed(
    recipe: Recipe,
    s: SessionRecord,
    existing: Pairs,
    output_format: OutputFormat,
    output_file: Seq<char>,
    non_interactive: bool,
) -> Result<ContextState, Failure> {
    match resume_position(recipe, s.current_step) {
        Err(e) => Err(e),
        Ok(position) => Ok(
            ContextState {
                vars: replayed(recipe, s.choices_made),
                collected: rediscovered(output_keys(recipe.outputs@), existing),
                completed_steps: s.completed_steps,
                choices_made: s.choices_made,
                output_format,
                output_file,
                non_interactive,
                current_step_index: position,
                total_steps: recipe.steps@.len() as usize,
                paused: false,
                jump_to: None,
            },
        ),
    }
}

/// The variables of the answer labelled `label` of the choice step `step_id`
/// are stored in `vars`.
#[verifier::loop_isolation(false)]
fn replay_choice(recipe: &Recipe, step_id: &str, label: &str, vars: &mut StrMap)
    ensures
        final(vars)@ == put_all(old(vars)@, sets_for(*recipe, step_id@, label@)),
{
    if let Some(i) = recipe.find_step_index(step_id) {
        if let Step::PromptChoice { choices, .. } = &recipe.steps[i] {
            let mut k: usize = 0;
            while k < choices.len()
                invariant
                    k <= choices.len(),
                    vars@ == old(vars)@,
                    forall|j: int| 0 <= j < k ==> choice_labels(choices@)[j] != label@,
                decreases choices.len() - k,
            {
                if str_eq(choices[k].label.as_str(), label) {
                    proof {
                        lemma_index_of_is(choice_labels(choices@), label@, k as int);
                    }
                    if let Some(sets) = &choices[k].sets {
                        vars.extend(sets);
                    }
                    return ;
                }
                k += 1;
            }
            proof {
                lemma_index_of(choice_labels(choices@), label@);
            }
        }
    }
}

impl RunContext {
    /// Takes the run of `recipe` that `session` records up again. Completed
    /// steps and choices are restored as recorded; the variables are set
    /// anew by replaying the choices; the credentials are those that the
    /// output file, whose entries are `existing`, holds for the outputs that
    /// the recipe declares. The run starts at the step that the session
    /// names, and fails where the recipe has no step of that id.
    pub fn resume(
        recipe: &Recipe,
        session: &Session,
        existing: &StrMap,
        output_format: OutputFormat,
        output_file: String,
        non_interactive: bool,
    ) -> (r: Result<RunContext, GetapiError>)
        ensures
            match r {
                Ok(ctx) => resumed(
                    *recipe,
                    session@,
                    existing@,
                    output_format,
                    output_file@,
                    non_interactive,
                ) == Ok::<ContextState, Failure>(ctx@),
                Err(e) => resumed(
                    *recipe,
                    session@,
                    existing@,
                    output_format,
                    output_file@,
                    non_interactive,
                ) == Err::<ContextState, Failure>(e@),
            },
    {
        let mut position: usize = 0;
        if let Some(current) = &session.current_step {
            match recipe.find_step_index(current.as_str()) {
                Some(i) => {
                    position = i;
                },
                None => {
                    return Err(GetapiError::StepNotFound(current.clone()));
                },
            }
        }
        let mut vars = StrMap::new();
        let ghost choices = session.choices_made@;
        let mut k: usize = 0;
        assert(choices.take(0) =~= Seq::empty());
        while k < session.choices_made.len()
            invariant
                k <= choices.len(),
                choices == session.choices_made@,
                vars@ == replayed(*recipe, choices.take(k as int)),
            decreases choices.len() - k,
        {
            assert(choices.take(k as int + 1).drop_last() =~= choices.take(k as int));
            replay_choice(
                recipe,
                session.choices_made.key_at(k).as_str(),
                session.choices_made.value_at(k).as_str(),
                &mut vars,
            );
            k += 1;
        }
        assert(choices.take(choices.len() as int) =~= choices);
        let mut collected = StrMap::new();
        let ghost wanted = output_keys(recipe.outputs@);
        let mut j: usize = 0;
        assert(wanted.take(0) =~= Seq::empty());
        while j < recipe.outputs.len()
            invariant
                j <= recipe.outputs@.len(),
                wanted == output_keys(recipe.outputs@),
                collected@ == rediscovered(wanted.take(j as int), existing@),
            decreases recipe.outputs@.len() - j,
        {
            assert(wanted.take(j as int + 1).drop_last() =~= wanted.take(j as int));
            let key = recipe.outputs[j].key.as_str();
            if let Some(value) = existing.get(key) {
                collected.insert(key.to_owned(), value.clone());
            }
            j += 1;
        }
        assert(wanted.take(wanted.len() as int) =~= wanted);
        Ok(RunContext {
            vars,
            collected,
            completed_steps: clone_strings(&session.completed_steps),
            choices_made: session.choices_made.copy(),
            output_format,
            output_file,
            non_interactive,
            current_step_index: position,
            total_steps: recipe.steps.len(),
            paused: false,
            jump_to: None,
        })
    }
}

} // verus!
