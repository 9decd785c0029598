//! Guided setup of developer API credentials.
//!
//! A recipe is an ordered list of steps: show a message, open a URL, ask for
//! a value, let the user choose, validate a credential, pause. The
//! interpreter in `runner` walks the steps of a recipe, keeps the state of
//! the run, follows the jumps that choices ask for, and stops where a step
//! pauses the run; `session` records the progress of a run and takes it up
//! again. The library decides and computes. Whatever touches the terminal,
//! the network or the file system is left to the caller, who is handed what
//! to show, ask, send or write and hands the answers back.
//!
//! `guarantees` holds what is proved of every run.

pub mod cli;
pub mod clock;
pub mod error;
pub mod guarantees;
pub mod manifest;
pub mod output;
pub mod pattern;
pub mod recipe;
pub mod runner;
pub mod session;
pub mod setup;
pub mod strmap;
pub mod text;
pub mod validators;
