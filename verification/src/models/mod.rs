//! Primary data structures
pub mod action;
pub mod action_set;
pub mod config;
pub mod errors;
pub mod light_table;
pub mod repo;
pub mod repowrap;
pub mod result;
pub mod settings;
pub mod utils;
pub mod repo_tag;

pub use self::repo::{Filterable, Repo, RepoV};
pub use self::repo_tag::{all_tags, does_this_work, RepoTag};
pub use self::result::GitGlobalResult;
pub use self::action::{Action, ActionError, Commander};
pub use self::config::{CurrentState, GitGlobalConfig, Updatable};
pub use self::light_table::LightTable;
