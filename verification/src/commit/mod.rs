pub mod changelog;
pub mod fix;
pub mod rebase;
