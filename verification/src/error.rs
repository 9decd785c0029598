//! The errors of the library and their messages.

use crate::text::{concat, concat3};
use vstd::prelude::*;

verus! {

/// What can go wrong while a recipe is loaded, run or validated.
#[derive(Debug, Clone, PartialEq, Eq)]
pub enum GetapiError {
    ProviderNotFound(String),
    RecipeFileNotFound(String),
    InvalidRecipe(String),
    StepNotFound(String),
    TemplateVarNotFound(String),
    ValidationFailed(String),
    ValidatorNotFound(String, String),
    SessionError(String),
    UserCancelled,
    Io(String),
    Json(String),
    Http(String),
    RemoteFetch(String),
}

/// The mathematical model of an error: the same cases over texts.
pub enum Failure {
    ProviderNotFound(Seq<char>),
    RecipeFileNotFound(Seq<char>),
    InvalidRecipe(Seq<char>),
    StepNotFound(Seq<char>),
    TemplateVarNotFound(Seq<char>),
    ValidationFailed(Seq<char>),
    ValidatorNotFound(Seq<char>, Seq<char>),
    SessionError(Seq<char>),
    UserCancelled,
    Io(Seq<char>),
    Json(Seq<char>),
    Http(Seq<char>),
    RemoteFetch(Seq<char>),
}

impl Failure {
    /// The message shown to the user.
    pub open spec fn message(self) -> Seq<char> {
        match self {
            Failure::ProviderNotFound(name) => "Provider '"@ + name
                + "' not found. Run `getapi list` to see available providers."@,
            Failure::RecipeFileNotFound(path) => "Recipe file not found: "@ + path,
            Failure::InvalidRecipe(why) => "Invalid recipe: "@ + why,
            Failure::StepNotFound(id) => "Step '"@ + id + "' not found in recipe"@,
            Failure::TemplateVarNotFound(names) => "Template variable '"@ + names
                + "' not set. This step depends on a previous choice or input."@,
            Failure::ValidationFailed(why) => "Validation failed: "@ + why,
            Failure::ValidatorNotFound(name, known) => "Validator '"@ + name
                + "' not found. Available validators: "@ + known,
            Failure::SessionError(why) => "Session error: "@ + why,
            Failure::UserCancelled => "User cancelled the operation."@,
            Failure::Io(why) => "IO error: "@ + why,
            Failure::Json(why) => "JSON error: "@ + why,
            Failure::Http(why) => "HTTP error: "@ + why,
            Failure::RemoteFetch(why) => "Failed to fetch remote recipes: "@ + why,
        }
    }
}

impl View for GetapiError {
    type V = Failure;

    open spec fn view(&self) -> Failure {
        match self {
            GetapiError::ProviderNotFound(name) => Failure::ProviderNotFound(name@),
            GetapiError::RecipeFileNotFound(path) => Failure::RecipeFileNotFound(path@),
            GetapiError::InvalidRecipe(why) => Failure::InvalidRecipe(why@),
            GetapiError::StepNotFound(id) => Failure::StepNotFound(id@),
            GetapiError::TemplateVarNotFound(names) => Failure::TemplateVarNotFound(names@),
            GetapiError::ValidationFailed(why) => Failure::ValidationFailed(why@),
            GetapiError::ValidatorNotFound(name, known) => Failure::ValidatorNotFound(
                name@,
                known@,
            ),
            GetapiError::SessionError(why) => Failure::SessionError(why@),
            GetapiError::UserCancelled => Failure::UserCancelled,
            GetapiError::Io(why) => Failure::Io(why@),
            GetapiError::Json(why) => Failure::Json(why@),
            GetapiError::Http(why) => Failure::Http(why@),
            GetapiError::RemoteFetch(why) => Failure::RemoteFetch(why@),
        }
    }
}

impl GetapiError {
    /// The message shown to the user.
    pub fn message(&self) -> (out: String)
        ensures
            out@ == self@.message(),
    {
        match self {
            GetapiError::ProviderNotFound(name) => concat3(
                "Provider '",
                name.as_str(),
                "' not found. Run `getapi list` to see available providers.",
            ),
            GetapiError::RecipeFileNotFound(path) => concat(
                "Recipe file not found: ",
                path.as_str(),
            ),
            GetapiError::InvalidRecipe(why) => concat("Invalid recipe: ", why.as_str()),
            GetapiError::StepNotFound(id) => concat3(
                "Step '",
                id.as_str(),
                "' not found in recipe",
            ),
            GetapiError::TemplateVarNotFound(names) => concat3(
                "Template variable '",
                names.as_str(),
                "' not set. This step depends on a previous choice or input.",
            ),
            GetapiError::ValidationFailed(why) => concat("Validation failed: ", why.as_str()),
            GetapiError::ValidatorNotFound(name, known) => {
                let head = concat3(
                    "Validator '",
                    name.as_str(),
                    "' not found. Available validators: ",
                );
                concat(head.as_str(), known.as_str())
            },
            GetapiError::SessionError(why) => concat("Session error: ", why.as_str()),
            GetapiError::UserCancelled => "User cancelled the operation.".to_owned(),
            GetapiError::Io(why) => concat("IO error: ", why.as_str()),
            GetapiError::Json(why) => concat("JSON error: ", why.as_str()),
            GetapiError::Http(why) => concat("HTTP error: ", why.as_str()),
            GetapiError::RemoteFetch(why) => concat(
                "Failed to fetch remote recipes: ",
                why.as_str(),
            ),
        }
    }

    /// A copy of the error.
    pub fn copy(&self) -> (out: GetapiError)
        ensures
            out@ == self@,
    {
        match self {
            GetapiError::ProviderNotFound(name) => GetapiError::ProviderNotFound(name.clone()),
            GetapiError::RecipeFileNotFound(path) => GetapiError::RecipeFileNotFound(
                path.clone(),
            ),
            GetapiError::InvalidRecipe(why) => GetapiError::InvalidRecipe(why.clone()),
            GetapiError::StepNotFound(id) => GetapiError::StepNotFound(id.clone()),
            GetapiError::TemplateVarNotFound(names) => GetapiError::TemplateVarNotFound(
                names.clone(),
            ),
            GetapiError::ValidationFailed(why) => GetapiError::ValidationFailed(why.clone()),
            GetapiError::ValidatorNotFound(name, known) => GetapiError::ValidatorNotFound(
                name.clone(),
                known.clone(),
            ),
            GetapiError::SessionError(why) => GetapiError::SessionError(why.clone()),
            GetapiError::UserCancelled => GetapiError::UserCancelled,
            GetapiError::Io(why) => GetapiError::Io(why.clone()),
            GetapiError::Json(why) => GetapiError::Json(why.clone()),
            GetapiError::Http(why) => GetapiError::Http(why.clone()),
            GetapiError::RemoteFetch(why) => GetapiError::RemoteFetch(why.clone()),
        }
    }
}

} // verus!
