//! What is decided before and after a run: whether the credentials are there
//! already, what to validate, what is missing, how far a session has come.

use crate::cli::args::{Cli, OutputFormat};
use crate::recipe::types::{output_keys, Recipe, Step};
use crate::runner::context::{fresh, RunContext};
use crate::session::types::SessionStatus;
use crate::strmap::{has_key, Pairs, StrMap};
use crate::text::{lemma_texts_push, texts};
use vstd::prelude::*;

verus! {

/// The width of the progress bar, in cells.
pub const BAR_WIDTH: usize = 12;

/// The file that the credentials go to where the caller names none.
pub open spec fn default_file(format: OutputFormat) -> Seq<char> {
    match format {
        OutputFormat::Env => ".env"@,
        OutputFormat::Json => "credentials.json"@,
        OutputFormat::Stdout => ""@,
    }
}

/// The file that the credentials go to where the caller names none.
pub fn default_output_file(format: &OutputFormat) -> (file: String)
    ensures
        file@ == default_file(*format),
{
    match format {
        OutputFormat::Env => ".env".to_owned(),
        OutputFormat::Json => "credentials.json".to_owned(),
        OutputFormat::Stdout => "".to_owned(),
    }
}

/// The file that the credentials of a setup go to: the one that the command
/// line names, or else the one that goes with the output format.
pub fn output_file_for(cli: &Cli) -> (file: String)
    ensures
        file@ == match cli.output_file {
            Some(named) => named@,
            None => default_file(cli.output),
        },
{
    match &cli.output_file {
        Some(named) => named.clone(),
        None => default_output_file(&cli.output),
    }
}

/// The keys of `wanted` that `existing` does not hold, in their order.
pub open spec fn missing_keys(wanted: Seq<Seq<char>>, existing: Pairs) -> Seq<Seq<char>>
    decreases wanted.len(),
{
    if wanted.len() == 0 {
        Seq::empty()
    } else if has_key(existing, wanted.last()) {
        missing_keys(wanted.drop_last(), existing)
    } else {
        missing_keys(wanted.drop_last(), existing).push(wanted.last())
    }
}

/// Whether an interactive start of `recipe` finds every credential that the
/// recipe declares in the output file already. A recipe that declares none
/// is never found set up, and a run that is not interactive never looks.
pub open spec fn already_set_up(recipe: Recipe, existing: Pairs, non_interactive: bool) -> bool {
    !non_interactive && recipe.outputs@.len() > 0 && missing_keys(
        output_keys(recipe.outputs@),
        existing,
    ).len() == 0
}

/// None of `wanted` is missing exactly if `existing` holds every one of
/// them.
pub proof fn theorem_nothing_is_missing_where_all_is_there(
    wanted: Seq<Seq<char>>,
    existing: Pairs,
)
    ensures
        missing_keys(wanted, existing).len() == 0 <==> forall|i: int|
            0 <= i < wanted.len() ==> has_key(existing, wanted[i]),
    decreases wanted.len(),
{
    if wanted.len() > 0 {
        let front = wanted.drop_last();
        theorem_nothing_is_missing_where_all_is_there(front, existing);
        if missing_keys(wanted, existing).len() == 0 {
            assert forall|i: int| 0 <= i < wanted.len() implies has_key(existing, wanted[i]) by {
                if i < front.len() {
                    assert(front[i] == wanted[i]);
                }
            }
        } else {
            if has_key(existing, wanted.last()) {
                let i = choose|i: int| 0 <= i < front.len() && !has_key(existing, front[i]);
                assert(front[i] == wanted[i]);
            } else {
                assert(wanted[wanted.len() - 1] == wanted.last());
            }
        }
    }
}

/// How a setup starts.
#[derive(Debug, Clone, PartialEq, Eq)]
pub enum Start {
    /// Every declared credential is in the output file: the user is offered
    /// to validate them, to run the setup again, or to leave. `found` names
    /// them. No step has been dispatched and there is no run state yet.
    Offer { found: Vec<String> },
    /// The run starts in this state.
    Run(RunContext),
}

/// The declared outputs of `recipe` that `existing` does not hold, in the
/// order of the recipe.
pub fn missing_outputs(recipe: &Recipe, existing: &StrMap) -> (missing: Vec<String>)
    ensures
        texts(missing@) == missing_keys(output_keys(recipe.outputs@), existing@),
{
    let ghost wanted = output_keys(recipe.outputs@);
    let mut missing: Vec<String> = Vec::new();
    let mut i: usize = 0;
    assert(wanted.take(0) =~= Seq::empty());
    assert(texts(missing@) =~= Seq::empty());
    while i < recipe.outputs.len()
        invariant
            i <= recipe.outputs.len(),
            wanted == output_keys(recipe.outputs@),
            texts(missing@) == missing_keys(wanted.take(i as int), existing@),
        decreases recipe.outputs.len() - i,
    {
        assert(wanted.take(i as int + 1).drop_last() =~= wanted.take(i as int));
        assert(wanted.take(i as int + 1).last() == recipe.outputs@[i as int].key@);
        if !existing.contains_key(recipe.outputs[i].key.as_str()) {
            let key = recipe.outputs[i].key.clone();
            proof {
                lemma_texts_push(missing@, key);
            }
            missing.push(key);
        }
        i += 1;
    }
    assert(wanted.take(recipe.outputs.len() as int) =~= wanted);
    missing
}

/// The keys of the declared outputs of `recipe`, in order.
fn declared_keys(recipe: &Recipe) -> (keys: Vec<String>)
    ensures
        texts(keys@) == output_keys(recipe.outputs@),
{
    let mut keys: Vec<String> = Vec::new();
    let mut i: usize = 0;
    assert(texts(keys@) =~= output_keys(recipe.outputs@).take(0));
    while i < recipe.outputs.len()
        invariant
            i <= recipe.outputs.len(),
            texts(keys@) == output_keys(recipe.outputs@).take(i as int),
        decreases recipe.outputs.len() - i,
    {
        let key = recipe.outputs[i].key.clone();
        proof {
            lemma_texts_push(keys@, key);
            assert(output_keys(recipe.outputs@).take(i as int + 1) =~= output_keys(
                recipe.outputs@,
            ).take(i as int).push(key@));
        }
        keys.push(key);
        i += 1;
    }
    assert(output_keys(recipe.outputs@).take(recipe.outputs.len() as int) =~= output_keys(
        recipe.outputs@,
    ));
    keys
}

/// Starts the setup of `recipe`, where the output file holds `existing`. An
/// interactive start that finds every declared credential there dispatches
/// no step: it hands back the offer. Any other start hands back the state
/// of a run at its beginning.
pub fn start(
    recipe: &Recipe,
    existing: &StrMap,
    output_format: OutputFormat,
    output_file: String,
    non_interactive: bool,
) -> (s: Start)
    ensures
        match s {
            Start::Offer { found } => already_set_up(*recipe, existing@, non_interactive)
                && texts(found@) == output_keys(recipe.outputs@),
            Start::Run(ctx) => !already_set_up(*recipe, existing@, non_interactive) && ctx@
                == fresh(
                output_format,
                output_file@,
                non_interactive,
                recipe.steps@.len() as usize,
            ),
        },
{
    if !non_interactive && recipe.outputs.len() > 0 && missing_outputs(recipe, existing).len()
        == 0 {
        Start::Offer { found: declared_keys(recipe) }
    } else {
        Start::Run(
            RunContext::new(output_format, output_file, non_interactive, recipe.steps.len()),
        )
    }
}

/// What the user makes of the offer.
#[derive(Debug, Clone, Copy, PartialEq, Eq)]
pub enum Offered {
    /// Validate the credentials that are there.
    Validate,
    /// Run the setup again, which overwrites them.
    Rerun,
    /// Leave.
    Exit,
}

/// What the pick at position `index` of the offer means: the first entry
/// validates, the second runs the setup again, any other leaves.
pub fn offered(index: usize) -> (o: Offered)
    ensures
        o == if index == 0 {
            Offered::Validate
        } else if index == 1 {
            Offered::Rerun
        } else {
            Offered::Exit
        },
{
    if index == 0 {
        Offered::Validate
    } else if index == 1 {
        Offered::Rerun
    } else {
        Offered::Exit
    }
}

/// The position of the first validation step of `recipe`.
pub fn first_validation(recipe: &Recipe) -> (r: Option<usize>)
    ensures
        match r {
            Some(i) => i < recipe.steps@.len() && recipe.steps@[i as int] is Validate && forall|
                j: int,
            | 0 <= j < i ==> !(recipe.steps@[j] is Validate),
            None => forall|j: int| 0 <= j < recipe.steps@.len() ==> !(recipe.steps@[j] is Validate),
        },
{
    let mut i: usize = 0;
    while i < recipe.steps.len()
        invariant
            i <= recipe.steps.len(),
            forall|j: int| 0 <= j < i ==> !(recipe.steps@[j] is Validate),
        decreases recipe.steps.len() - i,
    {
        if let Step::Validate { .. } = &recipe.steps[i] {
            return Some(i);
        }
        i += 1;
    }
    None
}

/// What a progress display shows for a session.
#[derive(Debug, Clone, Copy, PartialEq, Eq)]
pub struct ProgressBar {
    /// The number of completed steps.
    pub completed: usize,
    /// The number of steps that it is measured against.
    pub total: usize,
    /// The number of filled cells, of `BAR_WIDTH`.
    pub filled: usize,
}

/// The progress of a session with `completed` completed steps of a recipe
/// with `steps` steps. A completed session is measured against what it
/// completed; the bar is filled in proportion, rounded down.
pub open spec fn progress_of(completed: usize, steps: usize, status: SessionStatus) -> ProgressBar {
    let total = if status == SessionStatus::Completed {
        completed
    } else {
        steps
    };
    ProgressBar {
        completed,
        total,
        filled: if total > 0 {
            ((completed * BAR_WIDTH) / (total as int)) as usize
        } else {
            0
        },
    }
}

/// The progress of a session with `completed` completed steps of a recipe
/// with `steps` steps. A session that is not completed must not have
/// completed more steps than the recipe has.
pub fn progress(completed: usize, steps: usize, status: SessionStatus) -> (bar: ProgressBar)
    requires
        status == SessionStatus::Completed || completed <= steps,
    ensures
        bar == progress_of(completed, steps, status),
        bar.filled <= BAR_WIDTH,
{
    let total = match status {
        SessionStatus::Completed => completed,
        _ => steps,
    };
    let filled: usize = if total > 0 {
        let cells: u128 = (completed as u128) * (BAR_WIDTH as u128) / (total as u128);
        assert(cells <= BAR_WIDTH) by (nonlinear_arith)
            requires
                cells == (completed * BAR_WIDTH) / (total as int),
                completed <= total,
                total > 0,
                BAR_WIDTH == 12,
        ;
        cells as usize
    } else {
        0
    };
    ProgressBar { completed, total, filled }
}

} // verus!
