//! Where the collected credentials go: what is to be written for each output
//! format. Writing is the caller's part.

pub mod env;
pub mod json;
pub mod order;
pub mod readback;
pub mod stdout;

use crate::cli::args::OutputFormat;
use crate::error::{Failure, GetapiError};
use crate::strmap::{Pairs, StrMap};
use crate::text::texts;
use vstd::prelude::*;

verus! {

/// What the caller is to write.
#[derive(Debug, Clone, PartialEq, Eq)]
pub enum OutputPlan {
    /// The file at `path` is to hold `contents`.
    WriteFile { path: String, contents: String },
    /// The lines are to be printed to standard output.
    Print { lines: Vec<String> },
}

/// The mathematical model of an `OutputPlan`.
pub enum PlanModel {
    WriteFile { path: Seq<char>, contents: Seq<char> },
    Print { lines: Seq<Seq<char>> },
}

impl View for OutputPlan {
    type V = PlanModel;

    open spec fn view(&self) -> PlanModel {
        match self {
            OutputPlan::WriteFile { path, contents } => PlanModel::WriteFile {
                path: path@,
                contents: contents@,
            },
            OutputPlan::Print { lines } => PlanModel::Print { lines: texts(lines@) },
        }
    }
}

/// What writing `values` in the format `format` to `file` comes to, where the
/// file holds `existing` so far. An env file keeps the entries that it has
/// and takes the new values over them; a JSON file holds the new values
/// alone; standard output gets one line for each value.
pub open spec fn output_plan(
    format: OutputFormat,
    file: Seq<char>,
    existing: Seq<char>,
    values: Pairs,
) -> Result<PlanModel, Failure> {
    match format {
        OutputFormat::Env => Ok(
            PlanModel::WriteFile { path: file, contents: env::written(existing, values) },
        ),
        OutputFormat::Json => match json::written(values) {
            Ok(contents) => Ok(PlanModel::WriteFile { path: file, contents }),
            Err(e) => Err(e),
        },
        OutputFormat::Stdout => Ok(PlanModel::Print { lines: stdout::printed(values) }),
    }
}

/// Says what is to be written so that `values` go out in the format
/// `format`. `existing` is what the file `file` holds so far, empty where
/// there is no such file; only the env format reads it.
pub fn write_output(format: &OutputFormat, file: &str, existing: &str, values: &StrMap) -> (r:
    Result<OutputPlan, GetapiError>)
    ensures
        match r {
            Ok(plan) => output_plan(*format, file@, existing@, values@) == Ok::<
                PlanModel,
                Failure,
            >(plan@),
            Err(e) => output_plan(*format, file@, existing@, values@) == Err::<
                PlanModel,
                Failure,
            >(e@),
        },
{
    match format {
        OutputFormat::Env => Ok(
            OutputPlan::WriteFile {
                path: file.to_owned(),
                contents: env::write(existing, values),
            },
        ),
        OutputFormat::Json => match json::write(values) {
            Ok(contents) => Ok(OutputPlan::WriteFile { path: file.to_owned(), contents }),
            Err(e) => Err(e),
        },
        OutputFormat::Stdout => Ok(OutputPlan::Print { lines: stdout::write(values) }),
    }
}

} // verus!
