use getapi::cli::args::{Cli, Command, Invocation, OutputFormat};
use getapi::manifest::types::{
    default_env, default_env_file, default_true, Manifest, ManifestProvider,
};
use getapi::recipe::types::{Recipe, RecipeOutput, Step};
use getapi::runner::context::RunContext;
use getapi::runner::writes_at_end;
use getapi::session::types::SessionStatus;
use getapi::setup::{
    default_output_file, first_validation, missing_outputs, offered, output_file_for, progress,
    start, Offered, ProgressBar, Start,
};
use getapi::strmap::StrMap;

fn recipe(steps: Vec<Step>, outputs: Vec<&str>) -> Recipe {
    Recipe {
        schema_version: "1".to_string(),
        id: "demo".to_string(),
        display_name: "Demo".to_string(),
        description: String::new(),
        category: vec![],
        website: None,
        auth_types: vec![],
        estimated_time: None,
        prerequisites: vec![],
        outputs: outputs
            .into_iter()
            .map(|k| RecipeOutput {
                key: k.to_string(),
                description: String::new(),
                sensitive: true,
            })
            .collect(),
        steps,
        gotchas: vec![],
        version: None,
        last_verified: None,
    }
}

fn map(entries: Vec<(&str, &str)>) -> StrMap {
    let mut m = StrMap::new();
    for (k, v) in entries {
        m.insert(k.to_string(), v.to_string());
    }
    m
}

fn info(id: &str) -> Step {
    Step::Info { id: id.to_string(), message: "m".to_string() }
}

fn validation(id: &str) -> Step {
    Step::Validate {
        id: id.to_string(),
        method: "http_get".to_string(),
        message: "m".to_string(),
        depends_on: vec![],
        on_success: None,
        on_failure: None,
        config: StrMap::new(),
    }
}

#[test]
fn default_files() {
    assert_eq!(default_output_file(&OutputFormat::Env), ".env");
    assert_eq!(default_output_file(&OutputFormat::Json), "credentials.json");
    assert_eq!(default_output_file(&OutputFormat::Stdout), "");
}

#[test]
fn start_offers_when_every_output_is_there() {
    let r = recipe(vec![info("a")], vec!["KEY", "SECRET"]);
    let existing = map(vec![("SECRET", "s"), ("OTHER", "o"), ("KEY", "k")]);
    let s = start(&r, &existing, OutputFormat::Env, ".env".to_string(), false);
    assert_eq!(s, Start::Offer { found: vec!["KEY".to_string(), "SECRET".to_string()] });
}

#[test]
fn start_runs_when_something_is_missing() {
    let r = recipe(vec![info("a"), info("b")], vec!["KEY", "SECRET"]);
    let existing = map(vec![("KEY", "k")]);
    let s = start(&r, &existing, OutputFormat::Env, ".env".to_string(), false);
    assert_eq!(s, Start::Run(RunContext::new(OutputFormat::Env, ".env".to_string(), false, 2)));
}

#[test]
fn start_never_offers_without_outputs_or_without_a_user() {
    let none = recipe(vec![info("a")], vec![]);
    let s = start(&none, &StrMap::new(), OutputFormat::Env, ".env".to_string(), false);
    assert!(matches!(s, Start::Run(_)));
    let r = recipe(vec![info("a")], vec!["KEY"]);
    let existing = map(vec![("KEY", "k")]);
    let s = start(&r, &existing, OutputFormat::Env, ".env".to_string(), true);
    assert_eq!(s, Start::Run(RunContext::new(OutputFormat::Env, ".env".to_string(), true, 1)));
}

#[test]
fn offer_entries() {
    assert_eq!(offered(0), Offered::Validate);
    assert_eq!(offered(1), Offered::Rerun);
    assert_eq!(offered(2), Offered::Exit);
    assert_eq!(offered(9), Offered::Exit);
}

#[test]
fn missing_outputs_in_recipe_order() {
    let r = recipe(vec![], vec!["C", "A", "B"]);
    let existing = map(vec![("A", "1")]);
    assert_eq!(missing_outputs(&r, &existing), vec!["C".to_string(), "B".to_string()]);
    assert!(missing_outputs(&r, &map(vec![("A", ""), ("B", ""), ("C", "")])).is_empty());
}

#[test]
fn first_validation_step() {
    let r = recipe(vec![info("a"), validation("v1"), info("b"), validation("v2")], vec![]);
    assert_eq!(first_validation(&r), Some(1));
    assert_eq!(first_validation(&recipe(vec![info("a")], vec![])), None);
}

#[test]
fn progress_bars() {
    assert_eq!(
        progress(3, 12, SessionStatus::Paused),
        ProgressBar { completed: 3, total: 12, filled: 3 }
    );
    assert_eq!(
        progress(2, 5, SessionStatus::InProgress),
        ProgressBar { completed: 2, total: 5, filled: 4 }
    );
    assert_eq!(
        progress(7, 9, SessionStatus::Completed),
        ProgressBar { completed: 7, total: 7, filled: 12 }
    );
    assert_eq!(
        progress(0, 0, SessionStatus::InProgress),
        ProgressBar { completed: 0, total: 0, filled: 0 }
    );
    assert_eq!(
        progress(0, 4, SessionStatus::Completed),
        ProgressBar { completed: 0, total: 0, filled: 0 }
    );
}

#[test]
fn final_write_only_with_credentials_and_without_pause() {
    let mut ctx = RunContext::new(OutputFormat::Env, ".env".to_string(), false, 0);
    assert!(!writes_at_end(&ctx));
    ctx.set_collected("K".to_string(), "v".to_string());
    assert!(writes_at_end(&ctx));
    ctx.paused = true;
    assert!(!writes_at_end(&ctx));
}

#[test]
fn manifest_defaults_and_required_providers() {
    assert!(default_true());
    assert_eq!(default_env(), "env");
    assert_eq!(default_env_file(), ".env");
    let provider = |id: &str, required: bool| ManifestProvider {
        id: id.to_string(),
        reason: None,
        scopes: vec![],
        required,
    };
    let m = Manifest {
        version: "1".to_string(),
        providers: vec![provider("a", true), provider("b", false), provider("c", true)],
        output: None,
    };
    assert_eq!(m.required_providers(), vec!["a".to_string(), "c".to_string()]);
}

fn cli() -> Cli {
    Cli {
        command: None,
        providers: vec![],
        output: OutputFormat::Env,
        output_file: None,
        non_interactive: false,
        recipe: None,
        recipe_dir: None,
    }
}

#[test]
fn command_line_without_subcommand() {
    assert_eq!(cli().invocation(), Invocation::Manifest);
    let mut named = cli();
    named.providers = vec!["twitter".to_string(), "openai".to_string()];
    assert_eq!(
        named.invocation(),
        Invocation::Setup { providers: vec!["twitter".to_string(), "openai".to_string()] }
    );
    named.recipe = Some("my.json".to_string());
    assert_eq!(named.invocation(), Invocation::SetupFromFile { path: "my.json".to_string() });
}

#[test]
fn command_line_with_subcommand() {
    let with = |command: Command| {
        let mut c = cli();
        c.providers = vec!["ignored".to_string()];
        c.recipe = Some("ignored.json".to_string());
        c.command = Some(command);
        c.invocation()
    };
    assert_eq!(with(Command::Update), Invocation::Update);
    assert_eq!(with(Command::Status), Invocation::Status);
    assert_eq!(
        with(Command::Resume { provider: "p".to_string() }),
        Invocation::Resume { provider: "p".to_string() }
    );
    assert_eq!(
        with(Command::Validate { provider: "p".to_string() }),
        Invocation::Validate { provider: "p".to_string() }
    );
    assert_eq!(with(Command::Reset { provider: None }), Invocation::Reset { provider: None });
    assert_eq!(
        with(Command::List { search: Some("mail".to_string()), category: None }),
        Invocation::List { search: Some("mail".to_string()), category: None }
    );
}

#[test]
fn output_file_of_a_setup() {
    let mut c = cli();
    assert_eq!(output_file_for(&c), ".env");
    c.output = OutputFormat::Json;
    assert_eq!(output_file_for(&c), "credentials.json");
    c.output_file = Some("secrets.env".to_string());
    assert_eq!(output_file_for(&c), "secrets.env");
}
