//! The step that asks for a value and stores it as a credential.

use crate::error::{Failure, GetapiError};
use crate::pattern::{is_match, regex_is_match, regex_syntax_error, syntax_error};
use crate::recipe::template::{expand, expanded};
use crate::runner::action::{planned, Action, ActionModel, Answer, AnswerModel, Effect};
use crate::runner::context::{ContextState, RunContext};
use crate::strmap::put;
use crate::text::{chars_of, concat, string_of, trim, trimmed};
use vstd::prelude::*;

verus! {

/// The warning for a value that is empty once its white space is trimmed.
pub const EMPTY_VALUE: &'static str = "Value cannot be empty. Please try again.";

/// The warning for a value that does not match, where the step has none of
/// its own.
pub const FORMAT_MISMATCH: &'static str =
    "Input doesn't match the expected format. Please try again.";

/// The error for a validation pattern that the regular expression engine
/// refuses with the message `why`.
pub open spec fn bad_pattern(why: Seq<char>) -> Failure {
    Failure::InvalidRecipe("Bad validation regex: "@ + why)
}

/// What the step asks: its message, expanded strictly in either mode. An
/// interactive run fails here already where the validation pattern is no
/// regular expression.
pub open spec fn plan(
    message: Seq<char>,
    output_key: Seq<char>,
    validation: Option<Seq<char>>,
    c: ContextState,
) -> Result<ActionModel, Failure> {
    match expanded(message, c.vars) {
        Err(e) => Err(e),
        Ok(m) => if !c.non_interactive && validation is Some && regex_syntax_error(
            validation->0,
        ) is Some {
            Err(bad_pattern(regex_syntax_error(validation->0)->0))
        } else {
            Ok(ActionModel::Input { message: m, output_key, ask: !c.non_interactive })
        },
    }
}

/// The state after the value `value` has been accepted.
pub open spec fn stored(output_key: Seq<char>, value: Seq<char>, c: ContextState) -> ContextState {
    ContextState { collected: put(c.collected, output_key, value), ..c }
}

/// What becomes of the value `value`, trimmed already, where `matched` is
/// what the validation pattern made of it, if there is a pattern. An empty
/// value is asked for again, whatever the pattern says; so is a value that
/// the pattern does not match, with the warning of the step or the default
/// one; a pattern that is no regular expression fails the run; any other
/// value is stored under the output key.
pub open spec fn decided(
    output_key: Seq<char>,
    value: Seq<char>,
    matched: Option<Result<bool, Seq<char>>>,
    validation_error: Option<Seq<char>>,
    c: ContextState,
) -> Effect {
    if value.len() == 0 {
        Effect::Retry(EMPTY_VALUE@)
    } else {
        match matched {
            None => Effect::Done(stored(output_key, value, c)),
            Some(Ok(found)) => if found {
                Effect::Done(stored(output_key, value, c))
            } else {
                Effect::Retry(
                    match validation_error {
                        Some(w) => w,
                        None => FORMAT_MISMATCH@,
                    },
                )
            },
            Some(Err(why)) => Effect::Failed(bad_pattern(why)),
        }
    }
}

/// What the validation pattern makes of a value: nothing where there is no
/// pattern or the value is empty.
pub open spec fn matching(validation: Option<Seq<char>>, value: Seq<char>) -> Option<
    Result<bool, Seq<char>>,
> {
    match validation {
        Some(pattern) => if value.len() == 0 {
            None
        } else {
            Some(regex_is_match(pattern, value))
        },
        None => None,
    }
}

/// What a typed line does. The line is trimmed; an empty value, or one that
/// the validation pattern does not match, is asked for again; any other is
/// stored under the output key. An aborted prompt cancels the run.
pub open spec fn effect(
    output_key: Seq<char>,
    validation: Option<Seq<char>>,
    validation_error: Option<Seq<char>>,
    c: ContextState,
    answer: AnswerModel,
) -> Effect {
    if c.non_interactive {
        Effect::Done(c)
    } else {
        match answer {
            AnswerModel::Text(line) => decided(
                output_key,
                trim(line),
                matching(validation, trim(line)),
                validation_error,
                c,
            ),
            _ => Effect::Failed(Failure::UserCancelled),
        }
    }
}

/// Expands the question of the step and, in an interactive run, checks the
/// validation pattern.
pub fn handle(message: &str, output_key: &str, validation: Option<&str>, ctx: &RunContext) -> (r:
    Result<Action, GetapiError>)
    ensures
        planned(r) == plan(
            message@,
            output_key@,
            match validation {
                Some(p) => Some(p@),
                None => None,
            },
            ctx@,
        ),
{
    let m = match expand(message, &ctx.vars) {
        Ok(m) => m,
        Err(e) => { return Err(e); },
    };
    if !ctx.non_interactive {
        if let Some(pattern) = validation {
            if let Some(why) = syntax_error(pattern) {
                return Err(
                    GetapiError::InvalidRecipe(concat("Bad validation regex: ", why.as_str())),
                );
            }
        }
    }
    Ok(Action::Input { message: m, output_key: output_key.to_owned(), ask: !ctx.non_interactive })
}

/// Decides what becomes of the value `value`, trimmed already, where
/// `matched` is what the validation pattern made of it, if there is a
/// pattern. `Ok(None)` says that the value was stored, `Ok(Some(warning))`
/// that the caller is to show the warning and ask again.
pub fn accept(
    output_key: &str,
    value: String,
    matched: Option<Result<bool, String>>,
    validation_error: Option<&str>,
    ctx: &mut RunContext,
) -> (r: Result<Option<String>, GetapiError>)
    ensures
        match r {
            Ok(None) => decided(
                output_key@,
                value@,
                outcome_of(matched),
                optional(validation_error),
                old(ctx)@,
            ) == Effect::Done(final(ctx)@),
            Ok(Some(warning)) => final(ctx)@ == old(ctx)@ && decided(
                output_key@,
                value@,
                outcome_of(matched),
                optional(validation_error),
                old(ctx)@,
            ) == Effect::Retry(warning@),
            Err(e) => final(ctx)@ == old(ctx)@ && decided(
                output_key@,
                value@,
                outcome_of(matched),
                optional(validation_error),
                old(ctx)@,
            ) == Effect::Failed(e@),
        },
{
    if value.as_str().unicode_len() == 0 {
        return Ok(Some(EMPTY_VALUE.to_owned()));
    }
    match matched {
        Some(Ok(found)) => {
            if !found {
                let warning = match validation_error {
                    Some(w) => w.to_owned(),
                    None => FORMAT_MISMATCH.to_owned(),
                };
                return Ok(Some(warning));
            }
        },
        Some(Err(why)) => {
            return Err(GetapiError::InvalidRecipe(concat("Bad validation regex: ", why.as_str())));
        },
        None => {},
    }
    ctx.set_collected(output_key.to_owned(), value);
    Ok(None)
}

/// The view of an optional text.
pub open spec fn optional(o: Option<&str>) -> Option<Seq<char>> {
    match o {
        Some(s) => Some(s@),
        None => None,
    }
}

/// The view of what a pattern made of a value.
pub open spec fn outcome_of(matched: Option<Result<bool, String>>) -> Option<
    Result<bool, Seq<char>>,
> {
    match matched {
        Some(Ok(found)) => Some(Ok(found)),
        Some(Err(why)) => Some(Err(why@)),
        None => None,
    }
}

/// Takes a typed line. `Ok(None)` says that the value was stored,
/// `Ok(Some(warning))` that the caller is to show the warning and ask again.
pub fn finish(
    output_key: &str,
    validation: Option<&str>,
    validation_error: Option<&str>,
    answer: &Answer,
    ctx: &mut RunContext,
) -> (r: Result<Option<String>, GetapiError>)
    ensures
        match r {
            Ok(None) => effect(
                output_key@,
                optional(validation),
                optional(validation_error),
                old(ctx)@,
                answer@,
            ) == Effect::Done(final(ctx)@),
            Ok(Some(warning)) => final(ctx)@ == old(ctx)@ && effect(
                output_key@,
                optional(validation),
                optional(validation_error),
                old(ctx)@,
                answer@,
            ) == Effect::Retry(warning@),
            Err(e) => final(ctx)@ == old(ctx)@ && effect(
                output_key@,
                optional(validation),
                optional(validation_error),
                old(ctx)@,
                answer@,
            ) == Effect::Failed(e@),
        },
{
    if ctx.non_interactive {
        return Ok(None);
    }
    let line = match answer {
        Answer::Text(line) => line,
        _ => { return Err(GetapiError::UserCancelled); },
    };
    let kept = trimmed(&chars_of(line.as_str()));
    let value = string_of(&kept);
    let matched = match validation {
        Some(pattern) => if kept.len() == 0 {
            None
        } else {
            Some(is_match(pattern, value.as_str()))
        },
        None => None,
    };
    accept(output_key, value, matched, validation_error, ctx)
}

} // verus!
