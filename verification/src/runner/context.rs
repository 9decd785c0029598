//! The state of one run of a recipe.

use crate::cli::args::OutputFormat;
use crate::strmap::{put, Pairs, StrMap};
use crate::text::{contains_string, lemma_texts_push, texts};
use vstd::prelude::*;

verus! {

/// The state that one run of a recipe threads through its steps.
#[derive(Debug, Clone, PartialEq, Eq)]
pub struct RunContext {
    /// The variables of templates, set by choices.
    pub vars: StrMap,
    /// The credentials collected so far, by output key.
    pub collected: StrMap,
    /// The ids of the steps that have been carried out, in that order.
    pub completed_steps: Vec<String>,
    /// The label chosen at each choice step, by step id.
    pub choices_made: StrMap,
    pub output_format: OutputFormat,
    pub output_file: String,
    /// In this mode every step shows what it would do, and nothing is asked.
    pub non_interactive: bool,
    /// The position of the step that was dispatched last.
    pub current_step_index: usize,
    pub total_steps: usize,
    /// Whether the run stopped at a wait step.
    pub paused: bool,
    /// The step to go to next, where the last choice named one.
    pub jump_to: Option<String>,
}

/// The mathematical model of a `RunContext`.
pub struct ContextState {
    pub vars: Pairs,
    pub collected: Pairs,
    pub completed_steps: Seq<Seq<char>>,
    pub choices_made: Pairs,
    pub output_format: OutputFormat,
    pub output_file: Seq<char>,
    pub non_interactive: bool,
    pub current_step_index: usize,
    pub total_steps: usize,
    pub paused: bool,
    pub jump_to: Option<Seq<char>>,
}

/// The state at the start of a run.
pub open spec fn fresh(
    output_format: OutputFormat,
    output_file: Seq<char>,
    non_interactive: bool,
    total_steps: usize,
) -> ContextState {
    ContextState {
        vars: Seq::empty(),
        collected: Seq::empty(),
        completed_steps: Seq::empty(),
        choices_made: Seq::empty(),
        output_format,
        output_file,
        non_interactive,
        current_step_index: 0,
        total_steps,
        paused: false,
        jump_to: None,
    }
}

/// `completed` with `id` recorded: at the end, unless it is recorded already.
pub open spec fn marked(completed: Seq<Seq<char>>, id: Seq<char>) -> Seq<Seq<char>> {
    if completed.contains(id) {
        completed
    } else {
        completed.push(id)
    }
}

impl View for RunContext {
    type V = ContextState;

    open spec fn view(&self) -> ContextState {
        ContextState {
            vars: self.vars@,
            collected: self.collected@,
            completed_steps: texts(self.completed_steps@),
            choices_made: self.choices_made@,
            output_format: self.output_format,
            output_file: self.output_file@,
            non_interactive: self.non_interactive,
            current_step_index: self.current_step_index,
            total_steps: self.total_steps,
            paused: self.paused,
            jump_to: match self.jump_to {
                Some(t) => Some(t@),
                None => None,
            },
        }
    }
}

impl RunContext {
    /// The state at the start of a run: nothing set, collected or completed.
    pub fn new(
        output_format: OutputFormat,
        output_file: String,
        non_interactive: bool,
        total_steps: usize,
    ) -> (ctx: RunContext)
        ensures
            ctx@ == fresh(output_format, output_file@, non_interactive, total_steps),
    {
        let ctx = RunContext {
            vars: StrMap::new(),
            collected: StrMap::new(),
            completed_steps: Vec::new(),
            choices_made: StrMap::new(),
            output_format,
            output_file,
            non_interactive,
            current_step_index: 0,
            total_steps,
            paused: false,
            jump_to: None,
        };
        assert(texts(ctx.completed_steps@) =~= Seq::empty());
        ctx
    }

    /// Sets the variable `key` to `value`.
    pub fn set_var(&mut self, key: String, value: String)
        ensures
            final(self)@ == (ContextState {
                vars: put(old(self)@.vars, key@, value@),
                ..old(self)@
            }),
    {
        self.vars.insert(key, value);
    }

    /// Stores the credential `value` under the output key `key`.
    pub fn set_collected(&mut self, key: String, value: String)
        ensures
            final(self)@ == (ContextState {
                collected: put(old(self)@.collected, key@, value@),
                ..old(self)@
            }),
    {
        self.collected.insert(key, value);
    }

    /// Records the step `step_id` as carried out. A step that is recorded
    /// already stays where it is: nothing is recorded twice, nothing removed.
    pub fn mark_completed(&mut self, step_id: &str)
        ensures
            final(self)@ == (ContextState {
                completed_steps: marked(old(self)@.completed_steps, step_id@),
                ..old(self)@
            }),
    {
        if !contains_string(&self.completed_steps, step_id) {
            let id = step_id.to_owned();
            proof {
                lemma_texts_push(self.completed_steps@, id);
            }
            self.completed_steps.push(id);
        }
    }

    /// Whether the step `step_id` has been carried out.
    pub fn is_completed(&self, step_id: &str) -> (r: bool)
        ensures
            r == self@.completed_steps.contains(step_id@),
    {
        contains_string(&self.completed_steps, step_id)
    }
}

} // verus!
