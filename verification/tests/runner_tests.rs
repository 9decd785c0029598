use getapi::cli::args::OutputFormat;
use getapi::error::GetapiError;
use getapi::recipe::types::{Choice, Recipe, RecipeOutput, Step};
use getapi::runner::action::{Action, Answer, Check, Notice};
use getapi::runner::context::RunContext;
use getapi::runner::steps::prompt_input::accept;
use getapi::runner::steps::validate::{conclude, outcome_unmade, Conclusion};
use getapi::runner::{advance, execute_step, finish_step, needs_answer, run, Progress, RunState};
use getapi::strmap::StrMap;
use getapi::validators;
use getapi::validators::Refusal;

fn recipe(steps: Vec<Step>, outputs: Vec<&str>) -> Recipe {
    Recipe {
        schema_version: "1".to_string(),
        id: "demo".to_string(),
        display_name: "Demo".to_string(),
        description: "A demo provider".to_string(),
        category: vec![],
        website: None,
        auth_types: vec![],
        estimated_time: None,
        prerequisites: vec![],
        outputs: outputs
            .into_iter()
            .map(|k| RecipeOutput {
                key: k.to_string(),
                description: String::new(),
                sensitive: false,
            })
            .collect(),
        steps,
        gotchas: vec![],
        version: None,
        last_verified: None,
    }
}

fn info(id: &str, message: &str) -> Step {
    Step::Info { id: id.to_string(), message: message.to_string() }
}

fn input(id: &str, key: &str, validation: Option<&str>) -> Step {
    Step::PromptInput {
        id: id.to_string(),
        message: "Enter a value".to_string(),
        output_key: key.to_string(),
        validation: validation.map(|s| s.to_string()),
        validation_error: None,
    }
}

fn wait(id: &str) -> Step {
    Step::Wait { id: id.to_string(), message: "Come back later".to_string(), resume_hint: None }
}

fn choice(label: &str, next: Option<&str>, sets: Vec<(&str, &str)>) -> Choice {
    let sets = if sets.is_empty() {
        None
    } else {
        let mut m = StrMap::new();
        for (k, v) in sets {
            m.insert(k.to_string(), v.to_string());
        }
        Some(m)
    };
    Choice { label: label.to_string(), next: next.map(|s| s.to_string()), sets }
}

fn validate_step(id: &str) -> Step {
    let mut config = StrMap::new();
    config.insert("url".to_string(), "https://api.example.com/me".to_string());
    config.insert("api_key_field".to_string(), "API_KEY".to_string());
    Step::Validate {
        id: id.to_string(),
        method: "http_get".to_string(),
        message: "Checking".to_string(),
        depends_on: vec![],
        on_success: None,
        on_failure: None,
        config,
    }
}

fn interactive(total: usize) -> RunContext {
    RunContext::new(OutputFormat::Env, ".env".to_string(), false, total)
}

#[test]
fn run_of_info_steps_completes_in_order() {
    let r = recipe(vec![info("a", "one"), info("b", "two"), info("c", "three")], vec![]);
    let mut ctx = interactive(3);
    let report = run(&r, &mut ctx, &vec![]).unwrap();
    assert_eq!(report.state, RunState::Completed);
    assert_eq!(report.trace, vec![0, 1, 2]);
    assert_eq!(ctx.completed_steps, vec!["a".to_string(), "b".to_string(), "c".to_string()]);
    assert_eq!(ctx.current_step_index, 2);
    assert!(!ctx.paused);
}

#[test]
fn completed_steps_are_never_dispatched_again() {
    let r = recipe(
        vec![info("a", "one"), input("b", "KEY", None), info("c", "three"), info("d", "four")],
        vec!["KEY"],
    );
    let mut ctx = interactive(4);
    ctx.mark_completed("a");
    ctx.mark_completed("b");
    ctx.mark_completed("d");
    let report = run(&r, &mut ctx, &vec![]).unwrap();
    assert_eq!(report.state, RunState::Completed);
    assert_eq!(report.trace, vec![2]);
    assert!(ctx.collected.is_empty());
    assert_eq!(
        ctx.completed_steps,
        vec!["a".to_string(), "b".to_string(), "d".to_string(), "c".to_string()]
    );
}

#[test]
fn choice_with_next_jumps_to_the_named_step() {
    let r = recipe(
        vec![
            Step::PromptChoice {
                id: "pick".to_string(),
                message: "Which plan?".to_string(),
                choices: vec![
                    choice("Free", None, vec![("plan", "free")]),
                    choice("Paid", Some("stepC"), vec![("plan", "paid")]),
                ],
            },
            info("stepA", "a"),
            info("stepB", "b"),
            info("stepC", "plan is {{plan}}"),
        ],
        vec![],
    );
    let mut ctx = interactive(4);
    let report = run(&r, &mut ctx, &vec![Answer::Picked(1)]).unwrap();
    assert_eq!(report.state, RunState::Completed);
    assert_eq!(report.trace, vec![0, 3]);
    assert_eq!(ctx.vars.get("plan"), Some(&"paid".to_string()));
    assert_eq!(ctx.choices_made.get("pick"), Some(&"Paid".to_string()));
    assert_eq!(ctx.jump_to, None);
}

#[test]
fn choice_without_next_falls_through() {
    let r = recipe(
        vec![
            Step::PromptChoice {
                id: "pick".to_string(),
                message: "Which plan?".to_string(),
                choices: vec![
                    choice("Free", None, vec![("plan", "free")]),
                    choice("Paid", Some("stepC"), vec![]),
                ],
            },
            info("stepA", "a"),
            info("stepB", "b"),
            info("stepC", "c"),
        ],
        vec![],
    );
    let mut ctx = interactive(4);
    let report = run(&r, &mut ctx, &vec![Answer::Picked(0)]).unwrap();
    assert_eq!(report.trace, vec![0, 1, 2, 3]);
    assert_eq!(report.state, RunState::Completed);
}

#[test]
fn jump_backwards_then_skips_what_is_completed() {
    let r = recipe(
        vec![
            info("first", "a"),
            Step::PromptChoice {
                id: "pick".to_string(),
                message: "Again?".to_string(),
                choices: vec![choice("Back", Some("first"), vec![])],
            },
            info("last", "z"),
        ],
        vec![],
    );
    let mut ctx = interactive(3);
    let report = run(&r, &mut ctx, &vec![Answer::Picked(0)]).unwrap();
    assert_eq!(report.trace, vec![0, 1, 2]);
    assert_eq!(report.state, RunState::Completed);
}

#[test]
fn jump_to_missing_step_fails() {
    let r = recipe(
        vec![Step::PromptChoice {
            id: "pick".to_string(),
            message: "Where?".to_string(),
            choices: vec![choice("Nowhere", Some("ghost"), vec![])],
        }],
        vec![],
    );
    let mut ctx = interactive(1);
    let err = run(&r, &mut ctx, &vec![Answer::Picked(0)]).unwrap_err();
    assert_eq!(err, GetapiError::StepNotFound("ghost".to_string()));
    assert_eq!(err.message(), "Step 'ghost' not found in recipe");
    assert_eq!(ctx.completed_steps, vec!["pick".to_string()]);
    assert_eq!(ctx.jump_to, None);
}

#[test]
fn wait_pauses_an_interactive_run() {
    let r = recipe(vec![info("a", "one"), wait("w"), info("b", "two")], vec![]);
    let mut ctx = interactive(3);
    let report = run(&r, &mut ctx, &vec![]).unwrap();
    assert_eq!(report.state, RunState::Paused(1));
    assert_eq!(report.trace, vec![0, 1]);
    assert!(ctx.paused);
    assert_eq!(ctx.current_step_index, 1);
    assert_eq!(ctx.completed_steps, vec!["a".to_string()]);
}

#[test]
fn wait_never_pauses_a_non_interactive_run() {
    let r = recipe(vec![info("a", "{{unset}}"), wait("w"), input("i", "KEY", None)], vec!["KEY"]);
    let mut ctx = RunContext::new(OutputFormat::Env, ".env".to_string(), true, 3);
    let report = run(&r, &mut ctx, &vec![]).unwrap();
    assert_eq!(report.state, RunState::Completed);
    assert_eq!(report.trace, vec![0, 1, 2]);
    assert!(!ctx.paused);
    assert!(ctx.collected.is_empty());
    assert!(ctx.vars.is_empty());
}

#[test]
fn input_is_trimmed_and_asked_again_until_it_fits() {
    let r = recipe(vec![input("i", "API_KEY", Some("^sk-[a-z]+$"))], vec!["API_KEY"]);
    let mut ctx = interactive(1);
    let script = vec![
        Answer::Text("   ".to_string()),
        Answer::Text("wrong".to_string()),
        Answer::Text("  sk-abc \n".to_string()),
    ];
    let report = run(&r, &mut ctx, &script).unwrap();
    assert_eq!(report.state, RunState::Completed);
    assert_eq!(report.trace, vec![0]);
    assert_eq!(ctx.collected.get("API_KEY"), Some(&"sk-abc".to_string()));
}

#[test]
fn input_warnings() {
    let r = recipe(
        vec![Step::PromptInput {
            id: "i".to_string(),
            message: "Key".to_string(),
            output_key: "K".to_string(),
            validation: Some("^[0-9]+$".to_string()),
            validation_error: Some("Digits only.".to_string()),
        }],
        vec!["K"],
    );
    let mut ctx = interactive(1);
    assert_eq!(advance(&r, &mut ctx, 0), Some(0));
    assert!(needs_answer(&r.steps[0], &ctx));
    let action = execute_step(&r.steps[0], &ctx).unwrap();
    assert_eq!(
        action,
        Action::Input { message: "Key".to_string(), output_key: "K".to_string(), ask: true }
    );
    assert_eq!(
        finish_step(&r, &mut ctx, 0, &Answer::Text("".to_string())),
        Ok(Progress::Retry("Value cannot be empty. Please try again.".to_string()))
    );
    assert_eq!(
        finish_step(&r, &mut ctx, 0, &Answer::Text("abc".to_string())),
        Ok(Progress::Retry("Digits only.".to_string()))
    );
    assert!(ctx.collected.is_empty());
    assert_eq!(
        finish_step(&r, &mut ctx, 0, &Answer::Text("42".to_string())),
        Ok(Progress::Next(1))
    );
    assert_eq!(ctx.collected.get("K"), Some(&"42".to_string()));
    assert_eq!(advance(&r, &mut ctx, 1), None);
}

#[test]
fn input_default_mismatch_warning() {
    let r = recipe(vec![input("i", "K", Some("^x$"))], vec!["K"]);
    let mut ctx = interactive(1);
    assert_eq!(
        finish_step(&r, &mut ctx, 0, &Answer::Text("y".to_string())),
        Ok(Progress::Retry(
            "Input doesn't match the expected format. Please try again.".to_string()
        ))
    );
}

#[test]
fn bad_validation_pattern_fails_before_asking() {
    let r = recipe(vec![input("i", "K", Some("("))], vec!["K"]);
    let mut ctx = interactive(1);
    let err = run(&r, &mut ctx, &vec![Answer::Text("x".to_string())]).unwrap_err();
    match err {
        GetapiError::InvalidRecipe(m) => assert!(m.starts_with("Bad validation regex: ")),
        other => panic!("unexpected error {:?}", other),
    }
    assert!(ctx.completed_steps.is_empty());
    assert_eq!(ctx.current_step_index, 0);
}

#[test]
fn run_stands_at_the_question_that_found_no_answer() {
    let r = recipe(vec![info("a", "one"), input("i", "K", None), info("b", "two")], vec!["K"]);
    let mut ctx = interactive(3);
    let report = run(&r, &mut ctx, &vec![]).unwrap();
    assert_eq!(report.state, RunState::Running(1));
    assert_eq!(report.trace, vec![0, 1]);
    assert_eq!(ctx.completed_steps, vec!["a".to_string()]);
}

#[test]
fn declined_confirmation_cancels_the_run() {
    let r = recipe(
        vec![
            Step::PromptConfirm { id: "c".to_string(), message: "Ready?".to_string() },
            info("a", "one"),
        ],
        vec![],
    );
    let mut ctx = interactive(2);
    let err = run(&r, &mut ctx, &vec![Answer::Confirmed(false)]).unwrap_err();
    assert_eq!(err, GetapiError::UserCancelled);
    assert_eq!(err.message(), "User cancelled the operation.");
    assert!(ctx.completed_steps.is_empty());

    let mut ctx = interactive(2);
    let report = run(&r, &mut ctx, &vec![Answer::Confirmed(true)]).unwrap();
    assert_eq!(report.state, RunState::Completed);

    let mut ctx = interactive(2);
    assert_eq!(run(&r, &mut ctx, &vec![Answer::Cancelled]), Err(GetapiError::UserCancelled));
}

#[test]
fn aborted_prompts_cancel_the_run() {
    let r = recipe(
        vec![Step::OpenUrl {
            id: "o".to_string(),
            url: "https://example.com".to_string(),
            message: "Open".to_string(),
        }],
        vec![],
    );
    let mut ctx = interactive(1);
    assert_eq!(run(&r, &mut ctx, &vec![Answer::Cancelled]), Err(GetapiError::UserCancelled));
    let mut ctx = interactive(1);
    assert_eq!(run(&r, &mut ctx, &vec![Answer::Confirmed(false)]).unwrap().state, RunState::Completed);

    let r = recipe(
        vec![Step::PromptChoice {
            id: "p".to_string(),
            message: "Pick".to_string(),
            choices: vec![choice("Only", None, vec![])],
        }],
        vec![],
    );
    let mut ctx = interactive(1);
    assert_eq!(run(&r, &mut ctx, &vec![Answer::Picked(5)]), Err(GetapiError::UserCancelled));
    assert!(ctx.choices_made.is_empty());
}

#[test]
fn command_that_could_not_start_fails_the_run() {
    let r = recipe(
        vec![Step::RunCommand {
            id: "r".to_string(),
            command: "echo {{x}}".to_string(),
            message: "Running".to_string(),
        }],
        vec![],
    );
    let mut ctx = interactive(1);
    ctx.set_var("x".to_string(), "hi".to_string());
    let action = execute_step(&r.steps[0], &ctx).unwrap();
    assert_eq!(
        action,
        Action::RunCommand {
            message: "Running".to_string(),
            command: "echo hi".to_string(),
            run: true
        }
    );
    let failed = Answer::Failed(GetapiError::Io("no shell".to_string()));
    assert_eq!(
        finish_step(&r, &mut ctx, 0, &failed),
        Err(GetapiError::Io("no shell".to_string()))
    );
    assert_eq!(finish_step(&r, &mut ctx, 0, &Answer::Done), Ok(Progress::Next(1)));
}

#[test]
fn unresolved_variable_is_fatal_in_an_interactive_run() {
    let r = recipe(vec![info("a", "Hello {{who}}")], vec![]);
    let mut ctx = interactive(1);
    let err = run(&r, &mut ctx, &vec![]).unwrap_err();
    assert_eq!(err, GetapiError::TemplateVarNotFound("who".to_string()));
    assert_eq!(
        err.message(),
        "Template variable 'who' not set. This step depends on a previous choice or input."
    );
    assert!(ctx.completed_steps.is_empty());
}

#[test]
fn non_interactive_info_is_lenient() {
    let r = recipe(vec![info("a", "Hello {{who}}")], vec![]);
    let ctx = RunContext::new(OutputFormat::Env, ".env".to_string(), true, 1);
    assert_eq!(
        execute_step(&r.steps[0], &ctx),
        Ok(Action::Info { message: "Hello <who>".to_string() })
    );
}

#[test]
fn failed_validation_does_not_stop_the_run() {
    let r = recipe(
        vec![input("i", "API_KEY", None), validate_step("v"), info("after", "done")],
        vec!["API_KEY"],
    );
    let mut ctx = interactive(3);
    assert_eq!(advance(&r, &mut ctx, 0), Some(0));
    assert_eq!(
        finish_step(&r, &mut ctx, 0, &Answer::Text("secret".to_string())),
        Ok(Progress::Next(1))
    );
    assert_eq!(advance(&r, &mut ctx, 1), Some(1));
    assert!(needs_answer(&r.steps[1], &ctx));
    let request = match execute_step(&r.steps[1], &ctx).unwrap() {
        Action::Validate { message, method, check: Check::Send(request) } => {
            assert_eq!(message, "Checking");
            assert_eq!(method, "http_get");
            request
        }
        other => panic!("unexpected action {:?}", other),
    };
    assert_eq!(request.url, "https://api.example.com/me");
    assert_eq!(
        request.headers,
        vec![("Authorization".to_string(), "Bearer secret".to_string())]
    );
    let outcome =
        validators::judge("http_get", &request.url, 500, "500 Internal Server Error", "");
    assert_eq!(
        outcome,
        Err(Refusal::Failed(GetapiError::ValidationFailed(
            "HTTP GET https://api.example.com/me returned 500 Internal Server Error".to_string()
        )))
    );
    let conclusion = conclude(None, None, &outcome);
    assert_eq!(
        conclusion,
        Conclusion::Tell(Notice::Warning(
            "Validation failed. (Validation failed: HTTP GET https://api.example.com/me returned 500 Internal Server Error)"
                .to_string()
        ))
    );
    assert_eq!(conclusion.answer(), Answer::Done);
    assert_eq!(finish_step(&r, &mut ctx, 1, &conclusion.answer()), Ok(Progress::Next(2)));
    assert_eq!(advance(&r, &mut ctx, 2), Some(2));
    assert_eq!(finish_step(&r, &mut ctx, 2, &Answer::Done), Ok(Progress::Next(3)));
    assert_eq!(advance(&r, &mut ctx, 3), None);
    assert_eq!(
        ctx.completed_steps,
        vec!["i".to_string(), "v".to_string(), "after".to_string()]
    );
}

#[test]
fn conclusions_of_a_check() {
    assert_eq!(
        conclude(None, None, &Ok(())),
        Conclusion::Tell(Notice::Success("Credentials validated successfully.".to_string()))
    );
    assert_eq!(
        conclude(Some("All good"), Some("Nope"), &Ok(())),
        Conclusion::Tell(Notice::Success("All good".to_string()))
    );
    assert_eq!(
        conclude(Some("All good"), Some("Nope"), &Err(validators::unsent("timed out"))),
        Conclusion::Tell(Notice::Warning("Nope (HTTP error: timed out)".to_string()))
    );
    let fatal = GetapiError::ValidatorNotFound("x".to_string(), "a, b".to_string());
    let conclusion = conclude(Some("All good"), Some("Nope"), &Err(Refusal::Fatal(fatal.clone())));
    assert_eq!(conclusion, Conclusion::Abort(fatal.clone()));
    assert_eq!(conclusion.answer(), Answer::Failed(fatal));
}

#[test]
fn whole_run_with_validation_reaches_completed() {
    let r = recipe(
        vec![input("i", "API_KEY", None), validate_step("v"), info("after", "done")],
        vec!["API_KEY"],
    );
    let mut ctx = interactive(3);
    let script = vec![Answer::Text("k".to_string()), Answer::Done];
    let report = run(&r, &mut ctx, &script).unwrap();
    assert_eq!(report.state, RunState::Completed);
    assert_eq!(report.trace, vec![0, 1, 2]);
}

fn validation(method: &str, config: Vec<(&str, &str)>) -> Step {
    let mut map = StrMap::new();
    for (k, v) in config {
        map.insert(k.to_string(), v.to_string());
    }
    Step::Validate {
        id: "v".to_string(),
        method: method.to_string(),
        message: "Checking".to_string(),
        depends_on: vec![],
        on_success: None,
        on_failure: None,
        config: map,
    }
}

#[test]
fn unknown_validator_fails_the_run() {
    let r = recipe(vec![validation("nope", vec![]), info("after", "done")], vec![]);
    let mut ctx = interactive(2);
    let err = run(&r, &mut ctx, &vec![Answer::Done]).unwrap_err();
    assert_eq!(
        err,
        GetapiError::ValidatorNotFound(
            "nope".to_string(),
            "http_get, oauth2_client_credentials".to_string()
        )
    );
    assert!(ctx.completed_steps.is_empty());
    assert_eq!(ctx.current_step_index, 0);
}

#[test]
fn missing_required_config_key_fails_the_run() {
    let r = recipe(vec![validation("http_get", vec![]), info("after", "done")], vec![]);
    let mut ctx = interactive(2);
    assert_eq!(
        run(&r, &mut ctx, &vec![Answer::Done]),
        Err(GetapiError::ValidationFailed(
            "http_get validator requires 'url' in config".to_string()
        ))
    );
    assert!(ctx.completed_steps.is_empty());

    for missing in ["token_url", "client_id_field", "client_secret_field"] {
        let all = vec![
            ("token_url", "https://auth.example.com/token"),
            ("client_id_field", "ID"),
            ("client_secret_field", "SECRET"),
        ];
        let config: Vec<(&str, &str)> = all.into_iter().filter(|(k, _)| *k != missing).collect();
        let r = recipe(vec![validation("oauth2_client_credentials", config)], vec![]);
        let mut ctx = interactive(1);
        ctx.set_collected("ID".to_string(), "id".to_string());
        ctx.set_collected("SECRET".to_string(), "secret".to_string());
        assert_eq!(
            execute_step(&r.steps[0], &ctx),
            Err(GetapiError::ValidationFailed(format!(
                "oauth2_client_credentials requires '{}' in config",
                missing
            )))
        );
    }
}

#[test]
fn unresolved_validator_template_fails_the_run() {
    let r = recipe(vec![validation("http_get", vec![("url", "https://{{HOST}}/me")])], vec![]);
    let mut ctx = interactive(1);
    assert_eq!(
        run(&r, &mut ctx, &vec![Answer::Done]),
        Err(GetapiError::TemplateVarNotFound("HOST".to_string()))
    );
}

#[test]
fn missing_credential_leaves_the_check_unmade() {
    let r = recipe(
        vec![
            validation("http_get", vec![("url", "https://h"), ("api_key_field", "API_KEY")]),
            info("after", "done"),
        ],
        vec![],
    );
    let mut ctx = interactive(2);
    let failure = GetapiError::ValidationFailed("API_KEY not found".to_string());
    assert_eq!(
        execute_step(&r.steps[0], &ctx),
        Ok(Action::Validate {
            message: "Checking".to_string(),
            method: "http_get".to_string(),
            check: Check::Unmade(failure.clone()),
        })
    );
    assert_eq!(
        outcome_unmade(&Check::Unmade(failure.clone())),
        Some(Refusal::Failed(failure.clone()))
    );
    assert_eq!(outcome_unmade(&Check::Skip), None);
    assert_eq!(
        conclude(None, Some("Could not check"), &Err(Refusal::Failed(failure))),
        Conclusion::Tell(Notice::Warning(
            "Could not check (Validation failed: API_KEY not found)".to_string()
        ))
    );
    let report = run(&r, &mut ctx, &vec![Answer::Done]).unwrap();
    assert_eq!(report.state, RunState::Completed);
    assert_eq!(report.trace, vec![0, 1]);
}

#[test]
fn fatal_failure_reported_for_a_validation_step_fails_the_run() {
    let r = recipe(
        vec![validation("http_get", vec![("url", "https://h")]), info("after", "done")],
        vec![],
    );
    let fatal = GetapiError::ValidatorNotFound("gone".to_string(), "a".to_string());
    let mut ctx = interactive(2);
    assert_eq!(run(&r, &mut ctx, &vec![Answer::Failed(fatal.clone())]), Err(fatal.clone()));
    assert!(ctx.completed_steps.is_empty());

    let mut dry = RunContext::new(OutputFormat::Env, ".env".to_string(), true, 2);
    assert_eq!(
        execute_step(&r.steps[0], &dry),
        Ok(Action::Validate {
            message: "Checking".to_string(),
            method: "http_get".to_string(),
            check: Check::Skip,
        })
    );
    assert_eq!(run(&r, &mut dry, &vec![]).unwrap().state, RunState::Completed);
}

#[test]
fn validation_stands_at_its_question_without_an_answer() {
    let r = recipe(vec![validation("http_get", vec![("url", "https://h")])], vec![]);
    let mut ctx = interactive(1);
    assert_eq!(run(&r, &mut ctx, &vec![]).unwrap().state, RunState::Running(0));
}

#[test]
fn later_choices_override_earlier_variables() {
    let r = recipe(
        vec![
            Step::PromptChoice {
                id: "one".to_string(),
                message: "1".to_string(),
                choices: vec![choice("A", None, vec![("x", "1"), ("y", "1")])],
            },
            Step::PromptChoice {
                id: "two".to_string(),
                message: "2".to_string(),
                choices: vec![choice("B", None, vec![("x", "2")])],
            },
        ],
        vec![],
    );
    let mut ctx = interactive(2);
    run(&r, &mut ctx, &vec![Answer::Picked(0), Answer::Picked(0)]).unwrap();
    assert_eq!(ctx.vars.get("x"), Some(&"2".to_string()));
    assert_eq!(ctx.vars.get("y"), Some(&"1".to_string()));
}

#[test]
fn context_bookkeeping() {
    let mut ctx = RunContext::new(OutputFormat::Json, "out.json".to_string(), false, 7);
    assert_eq!(ctx.total_steps, 7);
    assert_eq!(ctx.current_step_index, 0);
    assert!(!ctx.is_completed("a"));
    ctx.mark_completed("a");
    ctx.mark_completed("b");
    ctx.mark_completed("a");
    assert!(ctx.is_completed("a"));
    assert_eq!(ctx.completed_steps, vec!["a".to_string(), "b".to_string()]);
    ctx.set_var("k".to_string(), "v".to_string());
    ctx.set_collected("K".to_string(), "V".to_string());
    assert_eq!(ctx.vars.get("k"), Some(&"v".to_string()));
    assert_eq!(ctx.collected.get("K"), Some(&"V".to_string()));
}

#[test]
fn step_ids_and_lookup() {
    let r = recipe(vec![info("a", "1"), wait("b"), info("a", "2")], vec![]);
    assert_eq!(r.steps[1].id(), "b");
    assert_eq!(r.find_step_index("a"), Some(0));
    assert_eq!(r.find_step_index("b"), Some(1));
    assert_eq!(r.find_step_index("zzz"), None);
}

#[test]
fn run_in_two_parts_equals_run_in_one() {
    let steps = vec![
        info("a", "one"),
        input("i", "FIRST", None),
        Step::PromptChoice {
            id: "p".to_string(),
            message: "Which?".to_string(),
            choices: vec![choice("Skip", Some("z"), vec![("mode", "fast")])],
        },
        input("j", "SECOND", None),
        info("z", "mode {{mode}}"),
    ];
    let r = recipe(steps, vec!["FIRST", "SECOND"]);
    let first = vec![Answer::Text("one".to_string())];
    let second = vec![Answer::Picked(0)];
    let mut all = first.clone();
    all.extend(second.clone());

    let mut whole = interactive(5);
    let whole_report = run(&r, &mut whole, &all).unwrap();
    assert_eq!(whole_report.state, RunState::Completed);
    assert_eq!(whole_report.trace, vec![0, 1, 2, 4]);

    let mut parts = interactive(5);
    let stopped = run(&r, &mut parts, &first).unwrap();
    assert_eq!(stopped.state, RunState::Running(2));
    assert_eq!(stopped.trace, vec![0, 1, 2]);
    let went_on = run(&r, &mut parts, &second).unwrap();
    assert_eq!(went_on.state, RunState::Completed);
    assert_eq!(went_on.trace, vec![2, 4]);
    assert_eq!(parts, whole);
}

#[test]
fn answers_left_over_are_not_used() {
    let r = recipe(vec![info("a", "one")], vec![]);
    let mut ctx = interactive(1);
    let report = run(&r, &mut ctx, &vec![Answer::Cancelled, Answer::Picked(3)]).unwrap();
    assert_eq!(report.state, RunState::Completed);
}

#[test]
fn run_cut_between_steps_collects_the_same() {
    let steps = || {
        vec![
            input("i", "FIRST", None),
            info("a", "one"),
            info("b", "two"),
            Step::PromptChoice {
                id: "p".to_string(),
                message: "Which?".to_string(),
                choices: vec![choice("Go", None, vec![("mode", "fast")])],
            },
            input("j", "SECOND", None),
            info("z", "mode {{mode}}"),
        ]
    };
    let r = recipe(steps(), vec!["FIRST", "SECOND"]);
    let answers = vec![
        Answer::Text("one".to_string()),
        Answer::Picked(0),
        Answer::Text("two".to_string()),
    ];
    let mut whole = interactive(6);
    assert_eq!(run(&r, &mut whole, &answers).unwrap().state, RunState::Completed);

    // cut after each number of finished steps, also where no step asks
    for cut in 0..=6usize {
        let mut ctx = interactive(6);
        let mut used = 0;
        let mut position = 0;
        for _ in 0..cut {
            let index = advance(&r, &mut ctx, position).unwrap();
            execute_step(&r.steps[index], &ctx).unwrap();
            let answer = if needs_answer(&r.steps[index], &ctx) {
                used += 1;
                answers[used - 1].clone()
            } else {
                Answer::Done
            };
            position = match finish_step(&r, &mut ctx, index, &answer).unwrap() {
                Progress::Next(next) => next,
                other => panic!("unexpected progress {:?}", other),
            };
        }
        let mut taken_up = ctx.clone();
        taken_up.current_step_index = position;
        let rest: Vec<Answer> = answers[used..].to_vec();
        assert_eq!(run(&r, &mut taken_up, &rest).unwrap().state, RunState::Completed);
        assert_eq!(taken_up.collected, whole.collected);
        assert_eq!(taken_up.vars, whole.vars);
        assert_eq!(taken_up.choices_made, whole.choices_made);
        assert_eq!(taken_up.completed_steps, whole.completed_steps);
        assert!(!taken_up.paused);
    }
}

#[test]
fn input_decision_from_a_given_match() {
    let mut ctx = interactive(1);
    assert_eq!(
        accept("K", String::new(), Some(Ok(true)), None, &mut ctx),
        Ok(Some("Value cannot be empty. Please try again.".to_string()))
    );
    assert_eq!(
        accept("K", "v".to_string(), Some(Ok(false)), Some("Digits only."), &mut ctx),
        Ok(Some("Digits only.".to_string()))
    );
    assert_eq!(
        accept("K", "v".to_string(), Some(Ok(false)), None, &mut ctx),
        Ok(Some("Input doesn't match the expected format. Please try again.".to_string()))
    );
    assert_eq!(
        accept("K", "v".to_string(), Some(Err("unclosed group".to_string())), None, &mut ctx),
        Err(GetapiError::InvalidRecipe("Bad validation regex: unclosed group".to_string()))
    );
    assert!(ctx.collected.is_empty());
    assert_eq!(accept("K", "v".to_string(), Some(Ok(true)), None, &mut ctx), Ok(None));
    assert_eq!(ctx.collected.get("K"), Some(&"v".to_string()));
    assert_eq!(accept("J", "w".to_string(), None, Some("unused"), &mut ctx), Ok(None));
    assert_eq!(ctx.collected.get("J"), Some(&"w".to_string()));
}
