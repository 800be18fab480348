//! Reconciles the project directories on a shared filesystem with the projects
//! that the database says should exist, and plans the seeding of the missing ones.

pub mod config;
pub mod guarantees;
pub mod name;
pub mod path;
pub mod path_set;
pub mod provision;
pub mod reconcile;
pub mod resolve;
pub mod status;
pub mod text;

pub use config::Cli;
pub use resolve::{get_db_projects, get_fs_projects};
