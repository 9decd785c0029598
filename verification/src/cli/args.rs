//! What the command line asks for, and what the program is to do about it.

use crate::recipe::types::optional_text;
use crate::text::{clone_strings, texts};
use vstd::prelude::*;

verus! {

/// Where the collected credentials go.
#[derive(Debug, Clone, Copy, PartialEq, Eq)]
pub enum OutputFormat {
    Env,
    Json,
    Stdout,
}

/// A subcommand.
#[derive(Debug, Clone, PartialEq, Eq)]
pub enum Command {
    /// Take a paused setup up again.
    Resume { provider: String },
    /// Show how far the setup of each provider has come.
    Status,
    /// List the providers, all or those that match.
    List { search: Option<String>, category: Option<String> },
    /// Validate the credentials of a provider once more.
    Validate { provider: String },
    /// Forget the session of one provider, or of all.
    Reset { provider: Option<String> },
    /// Fetch the recipes of the remote repository.
    Update,
}

/// The command line, parsed.
#[derive(Debug, Clone, PartialEq, Eq)]
pub struct Cli {
    pub command: Option<Command>,
    /// The providers to set up.
    pub providers: Vec<String>,
    pub output: OutputFormat,
    pub output_file: Option<String>,
    pub non_interactive: bool,
    /// A recipe file to use in place of a known provider.
    pub recipe: Option<String>,
    /// One more directory to look for recipes in.
    pub recipe_dir: Option<String>,
}

/// What the program is to do.
#[derive(Debug, Clone, PartialEq, Eq)]
pub enum Invocation {
    Update,
    List { search: Option<String>, category: Option<String> },
    Status,
    Resume { provider: String },
    Validate { provider: String },
    Reset { provider: Option<String> },
    /// Set up the provider whose recipe stands in the file at `path`.
    SetupFromFile { path: String },
    /// Show what the manifest of the project asks for.
    Manifest,
    /// Set up the providers, one after the other.
    Setup { providers: Vec<String> },
}

/// The mathematical model of an `Invocation`.
pub enum InvocationModel {
    Update,
    List { search: Option<Seq<char>>, category: Option<Seq<char>> },
    Status,
    Resume { provider: Seq<char> },
    Validate { provider: Seq<char> },
    Reset { provider: Option<Seq<char>> },
    SetupFromFile { path: Seq<char> },
    Manifest,
    Setup { providers: Seq<Seq<char>> },
}

impl View for Invocation {
    type V = InvocationModel;

    open spec fn view(&self) -> InvocationModel {
        match self {
            Invocation::Update => InvocationModel::Update,
            Invocation::List { search, category } => InvocationModel::List {
                search: optional_text(*search),
                category: optional_text(*category),
            },
            Invocation::Status => InvocationModel::Status,
            Invocation::Resume { provider } => InvocationModel::Resume { provider: provider@ },
            Invocation::Validate { provider } => InvocationModel::Validate { provider: provider@ },
            Invocation::Reset { provider } => InvocationModel::Reset {
                provider: optional_text(*provider),
            },
            Invocation::SetupFromFile { path } => InvocationModel::SetupFromFile { path: path@ },
            Invocation::Manifest => InvocationModel::Manifest,
            Invocation::Setup { providers } => InvocationModel::Setup {
                providers: texts(providers@),
            },
        }
    }
}

/// What a command line asks for. A subcommand is carried out as it stands.
/// Without one, a recipe file goes before the named providers, and with
/// neither the manifest of the project is shown.
pub open spec fn asked_for(cli: Cli) -> InvocationModel {
    match cli.command {
        Some(Command::Update) => InvocationModel::Update,
        Some(Command::List { search, category }) => InvocationModel::List {
            search: optional_text(search),
            category: optional_text(category),
        },
        Some(Command::Status) => InvocationModel::Status,
        Some(Command::Resume { provider }) => InvocationModel::Resume { provider: provider@ },
        Some(Command::Validate { provider }) => InvocationModel::Validate { provider: provider@ },
        Some(Command::Reset { provider }) => InvocationModel::Reset {
            provider: optional_text(provider),
        },
        None => match cli.recipe {
            Some(path) => InvocationModel::SetupFromFile { path: path@ },
            None => if cli.providers@.len() == 0 {
                InvocationModel::Manifest
            } else {
                InvocationModel::Setup { providers: texts(cli.providers@) }
            },
        },
    }
}

/// A copy of an optional string.
fn copy_of(o: &Option<String>) -> (out: Option<String>)
    ensures
        optional_text(out) == optional_text(*o),
{
    match o {
        Some(s) => Some(s.clone()),
        None => None,
    }
}

impl Cli {
    /// What the command line asks the program to do.
    pub fn invocation(&self) -> (what: Invocation)
        ensures
            what@ == asked_for(*self),
    {
        match &self.command {
            Some(Command::Update) => Invocation::Update,
            Some(Command::List { search, category }) => Invocation::List {
                search: copy_of(search),
                category: copy_of(category),
            },
            Some(Command::Status) => Invocation::Status,
            Some(Command::Resume { provider }) => Invocation::Resume {
                provider: provider.clone(),
            },
            Some(Command::Validate { provider }) => Invocation::Validate {
                provider: provider.clone(),
            },
            Some(Command::Reset { provider }) => Invocation::Reset { provider: copy_of(provider) },
            None => match &self.recipe {
                Some(path) => Invocation::SetupFromFile { path: path.clone() },
                None => if self.providers.len() == 0 {
                    Invocation::Manifest
                } else {
                    Invocation::Setup { providers: clone_strings(&self.providers) }
                },
            },
        }
    }
}

} // verus!
