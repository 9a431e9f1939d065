//! The decisions behind the command-line subcommands.
pub mod add;
pub mod bump;
pub mod changelog;
pub mod check;
pub mod commit;
pub mod fix;
