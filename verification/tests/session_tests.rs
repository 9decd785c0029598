use getapi::cli::args::OutputFormat;
use getapi::error::GetapiError;
use getapi::recipe::types::{Choice, Recipe, RecipeOutput, Step};
use getapi::runner::action::Answer;
use getapi::runner::context::RunContext;
use getapi::runner::{run, RunState};
use getapi::session::types::{Session, SessionStatus};
use getapi::strmap::StrMap;

fn recipe(steps: Vec<Step>, outputs: Vec<&str>) -> Recipe {
    Recipe {
        schema_version: "1".to_string(),
        id: "demo".to_string(),
        display_name: "Demo".to_string(),
        description: String::new(),
        category: vec![],
        website: None,
        auth_types: vec![],
        estimated_time: None,
        prerequisites: vec![],
        outputs: outputs
            .into_iter()
            .map(|k| RecipeOutput {
                key: k.to_string(),
                description: String::new(),
                sensitive: true,
            })
            .collect(),
        steps,
        gotchas: vec![],
        version: Some("3".to_string()),
        last_verified: None,
    }
}

fn info(id: &str, message: &str) -> Step {
    Step::Info { id: id.to_string(), message: message.to_string() }
}

fn input(id: &str, key: &str) -> Step {
    Step::PromptInput {
        id: id.to_string(),
        message: "Enter".to_string(),
        output_key: key.to_string(),
        validation: None,
        validation_error: None,
    }
}

fn wait(id: &str) -> Step {
    Step::Wait { id: id.to_string(), message: "Later".to_string(), resume_hint: None }
}

fn pick(id: &str) -> Step {
    let mut sets = StrMap::new();
    sets.insert("plan".to_string(), "paid".to_string());
    sets.insert("tier".to_string(), "2".to_string());
    Step::PromptChoice {
        id: id.to_string(),
        message: "Plan?".to_string(),
        choices: vec![
            Choice { label: "Free".to_string(), next: None, sets: None },
            Choice { label: "Paid".to_string(), next: None, sets: Some(sets) },
        ],
    }
}

#[test]
fn new_session_is_in_progress_and_stamped_once() {
    let s = Session::new("twitter", ".env", "env");
    assert_eq!(s.provider, "twitter");
    assert_eq!(s.output_file, ".env");
    assert_eq!(s.output_format, "env");
    assert_eq!(s.status, SessionStatus::InProgress);
    assert_eq!(s.started_at, s.updated_at);
    assert!(s.started_at.len() >= 20);
    assert_eq!(&s.started_at[4..5], "-");
    assert_eq!(&s.started_at[10..11], "T");
    assert!(s.completed_steps.is_empty());
    assert!(s.skipped_steps.is_empty());
    assert!(s.choices_made.is_empty());
    assert_eq!(s.current_step, None);
    assert_eq!(s.recipe_version, None);
    assert_eq!(s.notes, None);
}

#[test]
fn session_at_a_given_moment() {
    let s = Session::new_at("p", "out.json", "json", "2024-01-01T00:00:00+00:00".to_string());
    assert_eq!(s.started_at, "2024-01-01T00:00:00+00:00");
    assert_eq!(s.updated_at, "2024-01-01T00:00:00+00:00");
}

#[test]
fn paused_run_is_recorded_with_its_step() {
    let r = recipe(vec![info("a", "one"), wait("w"), info("b", "two")], vec![]);
    let mut ctx = RunContext::new(OutputFormat::Env, ".env".to_string(), false, 3);
    assert_eq!(run(&r, &mut ctx, &vec![]).unwrap().state, RunState::Paused(1));
    let mut s = Session::new_at("demo", ".env", "env", "t0".to_string());
    s.record_at(&r, &ctx, "t1".to_string());
    assert_eq!(s.status, SessionStatus::Paused);
    assert_eq!(s.current_step, Some("w".to_string()));
    assert_eq!(s.completed_steps, vec!["a".to_string()]);
    assert_eq!(s.started_at, "t0");
    assert_eq!(s.updated_at, "t1");
}

#[test]
fn completed_run_is_recorded_without_a_step() {
    let r = recipe(vec![info("a", "one")], vec![]);
    let mut ctx = RunContext::new(OutputFormat::Env, ".env".to_string(), false, 1);
    run(&r, &mut ctx, &vec![]).unwrap();
    let mut s = Session::new_at("demo", ".env", "env", "t0".to_string());
    s.current_step = Some("stale".to_string());
    s.record(&r, &ctx);
    assert_eq!(s.status, SessionStatus::Completed);
    assert_eq!(s.current_step, None);
    assert_eq!(s.completed_steps, vec!["a".to_string()]);
    assert_ne!(s.updated_at, "");
}

#[test]
fn resumed_state_equals_the_paused_state() {
    let r = recipe(
        vec![pick("p"), info("a", "plan {{plan}}"), wait("w"), input("i", "KEY"), info("z", "{{tier}}")],
        vec!["KEY"],
    );
    let mut ctx = RunContext::new(OutputFormat::Env, ".env".to_string(), false, 5);
    let report = run(&r, &mut ctx, &vec![Answer::Picked(1)]).unwrap();
    assert_eq!(report.state, RunState::Paused(2));
    let mut s = Session::new_at("demo", ".env", "env", "t0".to_string());
    s.record_at(&r, &ctx, "t1".to_string());

    let resumed =
        RunContext::resume(&r, &s, &StrMap::new(), OutputFormat::Env, ".env".to_string(), false)
            .unwrap();
    let mut expected = ctx.clone();
    expected.paused = false;
    assert_eq!(resumed, expected);
    assert_eq!(resumed.current_step_index, 2);
    assert_eq!(resumed.vars.get("plan"), Some(&"paid".to_string()));
    assert_eq!(resumed.vars.get("tier"), Some(&"2".to_string()));
    assert_eq!(resumed.total_steps, 5);
}

#[test]
fn resume_in_one_pass_or_two_collects_the_same() {
    // one pass over the recipe without the wait step
    let whole = recipe(vec![pick("p"), input("i", "KEY"), info("z", "{{plan}}")], vec!["KEY"]);
    let mut one = RunContext::new(OutputFormat::Env, ".env".to_string(), false, 3);
    let script = vec![Answer::Picked(1), Answer::Text("secret".to_string())];
    assert_eq!(run(&whole, &mut one, &script).unwrap().state, RunState::Completed);

    // the same recipe with a wait after the first step
    let halted =
        recipe(vec![pick("p"), wait("w"), input("i", "KEY"), info("z", "{{plan}}")], vec!["KEY"]);
    let mut first = RunContext::new(OutputFormat::Env, ".env".to_string(), false, 4);
    assert_eq!(run(&halted, &mut first, &script).unwrap().state, RunState::Paused(1));
    let mut s = Session::new_at("demo", ".env", "env", "t0".to_string());
    s.record_at(&halted, &first, "t1".to_string());

    // taken up again without prompts for what was done; the wait is
    // acknowledged by recording it as completed
    let mut second = RunContext::resume(
        &halted,
        &s,
        &StrMap::new(),
        OutputFormat::Env,
        ".env".to_string(),
        false,
    )
    .unwrap();
    second.mark_completed("w");
    let rest = vec![Answer::Text("secret".to_string())];
    let report = run(&halted, &mut second, &rest).unwrap();
    assert_eq!(report.state, RunState::Completed);
    assert_eq!(report.trace, vec![2, 3]);
    assert_eq!(second.collected, one.collected);
    assert_eq!(second.vars, one.vars);
    assert_eq!(second.choices_made, one.choices_made);
}

#[test]
fn resumed_run_pauses_again_at_the_wait_step() {
    let r = recipe(vec![info("a", "one"), wait("w"), info("b", "two")], vec![]);
    let mut ctx = RunContext::new(OutputFormat::Env, ".env".to_string(), false, 3);
    run(&r, &mut ctx, &vec![]).unwrap();
    let mut s = Session::new_at("demo", ".env", "env", "t0".to_string());
    s.record_at(&r, &ctx, "t1".to_string());
    let mut again =
        RunContext::resume(&r, &s, &StrMap::new(), OutputFormat::Env, ".env".to_string(), false)
            .unwrap();
    let report = run(&r, &mut again, &vec![]).unwrap();
    assert_eq!(report.state, RunState::Paused(1));
    assert_eq!(report.trace, vec![1]);
}

#[test]
fn resume_rediscovers_declared_outputs_only() {
    let r = recipe(vec![input("i", "KEY"), input("j", "OTHER")], vec!["KEY", "OTHER"]);
    let mut s = Session::new_at("demo", ".env", "env", "t0".to_string());
    s.completed_steps = vec!["i".to_string()];
    let mut existing = StrMap::new();
    existing.insert("UNRELATED".to_string(), "x".to_string());
    existing.insert("KEY".to_string(), "from-file".to_string());
    let ctx = RunContext::resume(&r, &s, &existing, OutputFormat::Json, "c.json".to_string(), true)
        .unwrap();
    assert_eq!(ctx.collected.len(), 1);
    assert_eq!(ctx.collected.get("KEY"), Some(&"from-file".to_string()));
    assert_eq!(ctx.current_step_index, 0);
    assert_eq!(ctx.completed_steps, vec!["i".to_string()]);
    assert!(ctx.non_interactive);
    assert_eq!(ctx.output_file, "c.json");
    assert_eq!(ctx.output_format, OutputFormat::Json);
}

#[test]
fn replay_ignores_choices_that_the_recipe_does_not_know() {
    let r = recipe(vec![pick("p"), info("a", "x")], vec![]);
    let mut s = Session::new_at("demo", ".env", "env", "t0".to_string());
    s.choices_made.insert("a".to_string(), "Paid".to_string());
    s.choices_made.insert("ghost".to_string(), "Paid".to_string());
    s.choices_made.insert("p".to_string(), "Unknown label".to_string());
    let ctx =
        RunContext::resume(&r, &s, &StrMap::new(), OutputFormat::Env, ".env".to_string(), false)
            .unwrap();
    assert!(ctx.vars.is_empty());
    assert_eq!(ctx.choices_made.len(), 3);
}

#[test]
fn resume_fails_where_the_named_step_is_gone() {
    let r = recipe(vec![info("a", "x"), info("b", "y")], vec![]);
    let mut s = Session::new_at("demo", ".env", "env", "t0".to_string());
    s.current_step = Some("gone".to_string());
    assert_eq!(
        RunContext::resume(&r, &s, &StrMap::new(), OutputFormat::Env, ".env".to_string(), false),
        Err(GetapiError::StepNotFound("gone".to_string()))
    );
    s.current_step = Some("b".to_string());
    let ctx =
        RunContext::resume(&r, &s, &StrMap::new(), OutputFormat::Env, ".env".to_string(), false)
            .unwrap();
    assert_eq!(ctx.current_step_index, 1);
}
