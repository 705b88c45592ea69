//! The `scan` subcommand: what it says of the repos that a scan of the file
//! system found.

use crate::models::errors::Result;
use crate::models::repo::Repo;
use crate::models::result::{empty_messages_for, GitGlobalResult};
use crate::order::views;
use crate::pieces::{decimal, push_decimal};
use vstd::prelude::*;
use vstd::string::StringExecFns;

verus! {

/// Says how many repos the scan found.
pub fn get_results(repos: Vec<Repo>) -> (r: Result<GitGlobalResult>)
    ensures
        r matches Ok(res) && res@.messages == seq![
            "Found "@ + decimal(repos@.len()) + " repos. Use `git global list` to show them."@,
        ] && res@.repos == views(repos@) && res@.repo_messages == empty_messages_for(views(repos@))
            && !res@.pad_repo_output,
{
    let mut result = GitGlobalResult::new(&repos);
    let mut message = String::from_str("Found ");
    push_decimal(&mut message, repos.len() as u64);
    message.append(" repos. Use `git global list` to show them.");
    result.add_message(message);
    Ok(result)
}

} // verus!
