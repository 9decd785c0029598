pub mod copy_clipboard;
pub mod info;
pub mod open_url;
pub mod output;
pub mod prompt_choice;
pub mod prompt_confirm;
pub mod prompt_input;
pub mod run_command;
pub mod validate;
pub mod wait;
