pub mod account;
pub mod args;
pub mod engine;
pub mod types;
