//! Commit Wizard: a conventional commits assistant library.
pub mod command;
pub mod commit;
pub mod config;
pub mod constants;
pub mod git;
pub mod text;
pub mod textmap;
pub mod utils;
