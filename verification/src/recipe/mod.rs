pub mod registry;
pub mod remote;
pub mod template;
pub mod types;
