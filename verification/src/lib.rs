//! Keep track of all your git repositories: the verified core of git-global.

pub mod text;
pub mod order;
pub mod pieces;
pub mod paint;
pub mod cli;
pub mod macros;
pub mod models;
pub mod subcommands;
