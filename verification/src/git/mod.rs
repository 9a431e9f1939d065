pub mod check;
pub mod cmd;
pub mod commit;
pub mod repo;
pub mod stage;
pub mod tag;
pub mod version;
