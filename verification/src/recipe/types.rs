//! A recipe: the steps that lead a user to the credentials of one provider.

use crate::strmap::StrMap;
use crate::text::{index_of, lemma_index_of, lemma_index_of_is, str_eq};
use vstd::prelude::*;

verus! {

/// One credential that a recipe is expected to produce.
#[derive(Debug, Clone, PartialEq, Eq)]
pub struct RecipeOutput {
    pub key: String,
    pub description: String,
    pub sensitive: bool,
}

/// One answer that a choice step offers.
#[derive(Debug, Clone, PartialEq, Eq)]
pub struct Choice {
    pub label: String,
    /// The step to go to next, where the answer leaves the order of the steps.
    pub next: Option<String>,
    /// The variables that the answer sets.
    pub sets: Option<StrMap>,
}

/// One step of a recipe. A step says what to do, never what has been done.
#[derive(Debug, Clone, PartialEq, Eq)]
pub enum Step {
    Info { id: String, message: String },
    OpenUrl { id: String, url: String, message: String },
    PromptConfirm { id: String, message: String },
    PromptInput {
        id: String,
        message: String,
        output_key: String,
        validation: Option<String>,
        validation_error: Option<String>,
    },
    PromptChoice { id: String, message: String, choices: Vec<Choice> },
    Validate {
        id: String,
        method: String,
        message: String,
        depends_on: Vec<String>,
        on_success: Option<String>,
        on_failure: Option<String>,
        /// What the validator is handed besides the collected values.
        config: StrMap,
    },
    Output { id: String, message: String },
    RunCommand { id: String, command: String, message: String },
    Wait { id: String, message: String, resume_hint: Option<String> },
    CopyToClipboard { id: String, value: String, message: String },
}

/// The setup flow of one provider.
#[derive(Debug, Clone, PartialEq, Eq)]
pub struct Recipe {
    pub schema_version: String,
    pub id: String,
    pub display_name: String,
    pub description: String,
    pub category: Vec<String>,
    pub website: Option<String>,
    pub auth_types: Vec<String>,
    pub estimated_time: Option<String>,
    pub prerequisites: Vec<String>,
    pub outputs: Vec<RecipeOutput>,
    pub steps: Vec<Step>,
    pub gotchas: Vec<String>,
    pub version: Option<String>,
    pub last_verified: Option<String>,
}

/// The view of an optional string.
pub open spec fn optional_text(o: Option<String>) -> Option<Seq<char>> {
    match o {
        Some(s) => Some(s@),
        None => None,
    }
}

impl Step {
    /// The step's id, as a text.
    pub open spec fn id_text(self) -> Seq<char> {
        match self {
            Step::Info { id, .. } => id@,
            Step::OpenUrl { id, .. } => id@,
            Step::PromptConfirm { id, .. } => id@,
            Step::PromptInput { id, .. } => id@,
            Step::PromptChoice { id, .. } => id@,
            Step::Validate { id, .. } => id@,
            Step::Output { id, .. } => id@,
            Step::RunCommand { id, .. } => id@,
            Step::Wait { id, .. } => id@,
            Step::CopyToClipboard { id, .. } => id@,
        }
    }

    /// The step's id.
    pub fn id(&self) -> (r: &str)
        ensures
            r@ == self.id_text(),
    {
        match self {
            Step::Info { id, .. } => id.as_str(),
            Step::OpenUrl { id, .. } => id.as_str(),
            Step::PromptConfirm { id, .. } => id.as_str(),
            Step::PromptInput { id, .. } => id.as_str(),
            Step::PromptChoice { id, .. } => id.as_str(),
            Step::Validate { id, .. } => id.as_str(),
            Step::Output { id, .. } => id.as_str(),
            Step::RunCommand { id, .. } => id.as_str(),
            Step::Wait { id, .. } => id.as_str(),
            Step::CopyToClipboard { id, .. } => id.as_str(),
        }
    }
}

/// The ids of a sequence of steps, in order.
pub open spec fn step_ids(steps: Seq<Step>) -> Seq<Seq<char>> {
    steps.map_values(|s: Step| s.id_text())
}

/// The keys of a sequence of declared outputs, in order.
pub open spec fn output_keys(outputs: Seq<RecipeOutput>) -> Seq<Seq<char>> {
    outputs.map_values(|o: RecipeOutput| o.key@)
}

/// The labels of a sequence of choices, in order.
pub open spec fn choice_labels(choices: Seq<Choice>) -> Seq<Seq<char>> {
    choices.map_values(|c: Choice| c.label@)
}

/// No two items of `list` are equal.
pub open spec fn all_distinct(list: Seq<Seq<char>>) -> bool {
    forall|i: int, j: int| 0 <= i < j < list.len() ==> list[i] != list[j]
}

impl Recipe {
    /// The ids of the recipe's steps, in order.
    pub open spec fn ids(self) -> Seq<Seq<char>> {
        step_ids(self.steps@)
    }

    /// The position of the first step with id `step_id`.
    pub open spec fn index_of_step(self, step_id: Seq<char>) -> Option<int> {
        index_of(self.ids(), step_id)
    }

    /// Every step has an id of its own, and in a choice step every answer a
    /// label of its own.
    pub open spec fn well_formed(self) -> bool {
        &&& all_distinct(self.ids())
        &&& forall|i: int|
            0 <= i < self.steps@.len() ==> (#[trigger] self.steps@[i] matches Step::PromptChoice {
                choices,
                ..
            } ==> all_distinct(choice_labels(choices@)))
    }

    /// The position of the first step with id `step_id`.
    pub fn find_step_index(&self, step_id: &str) -> (r: Option<usize>)
        ensures
            match r {
                Some(i) => self.index_of_step(step_id@) == Some(i as int) && i
                    < self.steps@.len(),
                None => self.index_of_step(step_id@) is None,
            },
    {
        let mut i: usize = 0;
        while i < self.steps.len()
            invariant
                i <= self.steps.len(),
                forall|j: int| 0 <= j < i ==> self.ids()[j] != step_id@,
            decreases self.steps.len() - i,
        {
            if str_eq(self.steps[i].id(), step_id) {
                proof {
                    lemma_index_of_is(self.ids(), step_id@, i as int);
                }
                return Some(i);
            }
            i += 1;
        }
        proof {
            lemma_index_of(self.ids(), step_id@);
        }
        None
    }
}

/// In a list without repetition every item is found at its own position.
pub proof fn lemma_index_of_distinct(list: Seq<Seq<char>>, i: int)
    requires
        all_distinct(list),
        0 <= i < list.len(),
    ensures
        index_of(list, list[i]) == Some(i),
{
    lemma_index_of_is(list, list[i], i);
}

} // verus!
