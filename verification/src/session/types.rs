//! The record of a run that outlives the process: progress, never
//! credentials.

use crate::clock::now_rfc3339;
use crate::recipe::types::{optional_text, Recipe};
use crate::runner::context::{ContextState, RunContext};
use crate::strmap::{Pairs, StrMap};
use crate::text::{clone_strings, texts};
use vstd::prelude::*;

verus! {

/// How far the run of a provider has come.
#[derive(Debug, Clone, Copy, PartialEq, Eq)]
pub enum SessionStatus {
    InProgress,
    Paused,
    Completed,
}

/// The persisted record of the run of one provider.
#[derive(Debug, Clone, PartialEq, Eq)]
pub struct Session {
    pub provider: String,
    pub recipe_version: Option<String>,
    pub started_at: String,
    pub updated_at: String,
    /// The id of the step at which the run is paused.
    pub current_step: Option<String>,
    pub status: SessionStatus,
    pub completed_steps: Vec<String>,
    pub skipped_steps: Vec<String>,
    /// The label chosen at each choice step, by step id.
    pub choices_made: StrMap,
    pub output_file: String,
    pub output_format: String,
    pub notes: Option<String>,
}

/// The mathematical model of a `Session`.
pub struct SessionRecord {
    pub provider: Seq<char>,
    pub recipe_version: Option<Seq<char>>,
    pub started_at: Seq<char>,
    pub updated_at: Seq<char>,
    pub current_step: Option<Seq<char>>,
    pub status: SessionStatus,
    pub completed_steps: Seq<Seq<char>>,
    pub skipped_steps: Seq<Seq<char>>,
    pub choices_made: Pairs,
    pub output_file: Seq<char>,
    pub output_format: Seq<char>,
    pub notes: Option<Seq<char>>,
}

impl View for Session {
    type V = SessionRecord;

    open spec fn view(&self) -> SessionRecord {
        SessionRecord {
            provider: self.provider@,
            recipe_version: optional_text(self.recipe_version),
            started_at: self.started_at@,
            updated_at: self.updated_at@,
            current_step: optional_text(self.current_step),
            status: self.status,
            completed_steps: texts(self.completed_steps@),
            skipped_steps: texts(self.skipped_steps@),
            choices_made: self.choices_made@,
            output_file: self.output_file@,
            output_format: self.output_format@,
            notes: optional_text(self.notes),
        }
    }
}

/// The record of a run that starts at the moment `now`.
pub open spec fn started(
    provider: Seq<char>,
    output_file: Seq<char>,
    output_format: Seq<char>,
    now: Seq<char>,
) -> SessionRecord {
    SessionRecord {
        provider,
        recipe_version: None,
        started_at: now,
        updated_at: now,
        current_step: None,
        status: SessionStatus::InProgress,
        completed_steps: Seq::empty(),
        skipped_steps: Seq::empty(),
        choices_made: Seq::empty(),
        output_file,
        output_format,
        notes: None,
    }
}

/// The record `s` after a run of `recipe` has left the state `c` at the
/// moment `now`. Progress is taken over from the state. A paused run is
/// recorded as paused at the step that it stands at; any other as completed,
/// with no current step.
pub open spec fn recorded(
    s: SessionRecord,
    recipe: Recipe,
    c: ContextState,
    now: Seq<char>,
) -> SessionRecord {
    SessionRecord {
        completed_steps: c.completed_steps,
        choices_made: c.choices_made,
        updated_at: now,
        status: if c.paused {
            SessionStatus::Paused
        } else {
            SessionStatus::Completed
        },
        current_step: if c.paused {
            if c.current_step_index < recipe.steps@.len() {
                Some(recipe.ids()[c.current_step_index as int])
            } else {
                s.current_step
            }
        } else {
            None
        },
        ..s
    }
}

impl Session {
    /// The record of a run that starts at the moment `now`.
    pub fn new_at(provider: &str, output_file: &str, output_format: &str, now: String) -> (s:
        Session)
        ensures
            s@ == started(provider@, output_file@, output_format@, now@),
    {
        let s = Session {
            provider: provider.to_owned(),
            recipe_version: None,
            started_at: now.clone(),
            updated_at: now,
            current_step: None,
            status: SessionStatus::InProgress,
            completed_steps: Vec::new(),
            skipped_steps: Vec::new(),
            choices_made: StrMap::new(),
            output_file: output_file.to_owned(),
            output_format: output_format.to_owned(),
            notes: None,
        };
        assert(texts(s.completed_steps@) =~= Seq::empty());
        assert(texts(s.skipped_steps@) =~= Seq::empty());
        s
    }

    /// The record of a run that starts now: in progress, with nothing
    /// completed, started and updated at the same moment.
    pub fn new(provider: &str, output_file: &str, output_format: &str) -> (s: Session)
        ensures
            s@ == started(provider@, output_file@, output_format@, s@.started_at),
    {
        Session::new_at(provider, output_file, output_format, now_rfc3339())
    }

    /// Takes over what a run of `recipe` has left in `ctx`, at the moment
    /// `now`.
    pub fn record_at(&mut self, recipe: &Recipe, ctx: &RunContext, now: String)
        ensures
            final(self)@ == recorded(old(self)@, *recipe, ctx@, now@),
    {
        self.completed_steps = clone_strings(&ctx.completed_steps);
        self.choices_made = ctx.choices_made.copy();
        self.updated_at = now;
        if ctx.paused {
            self.status = SessionStatus::Paused;
            if ctx.current_step_index < recipe.steps.len() {
                self.current_step = Some(recipe.steps[ctx.current_step_index].id().to_owned());
            }
        } else {
            self.status = SessionStatus::Completed;
            self.current_step = None;
        }
    }

    /// Takes over what a run of `recipe` has left in `ctx`, at this moment.
    pub fn record(&mut self, recipe: &Recipe, ctx: &RunContext)
        ensures
            final(self)@ == recorded(old(self)@, *recipe, ctx@, final(self)@.updated_at),
    {
        self.record_at(recipe, ctx, now_rfc3339());
    }
}

} // verus!
