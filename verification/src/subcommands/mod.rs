//! The git-global subcommands: what each of them computes from the repos,
//! tags and settings that it is given.

pub mod actions;
pub mod clean;
pub mod filter;
pub mod info;
pub mod list;
pub mod list_tags;
pub mod prompt;
pub mod prompt_iced;
pub mod scan;
pub mod status;
pub mod tag;
pub mod tag_projects;
pub mod utilities;
