pub mod reconcile;
pub mod types;
