//! The `tag` subcommand: lists the known repos that carry some tags.

use crate::models::config::GitGlobalConfig;
use crate::models::errors::Result;
use crate::models::repo::{Repo, RepoV};
use crate::models::result::{empty_messages_for, with_repo_lines, GitGlobalResult};
use crate::order::views;
use crate::subcommands::filter::selected_by_tag_args;
use crate::subcommands::utilities::parse_tag_args;
use vstd::prelude::*;
use vstd::string::StringExecFns;

verus! {

/// The line that shows a tagged repo.
pub open spec fn tagged_line(r: RepoV) -> (RepoV, Seq<char>) {
    (r, "Tagged repo "@ + r.path)
}

/// Shows each repo of `known` (the repos git-global knows of) that carries one
/// of the tags named in `tags`, or each of them where none is named.
pub fn get_results(tags: Vec<&str>, known: Vec<Repo>) -> (r: Result<GitGlobalResult>)
    ensures
        r matches Ok(res) && ({
            let repos = selected_by_tag_args(views(known@), tags@.map_values(|a: &str| a@));
            &&& res@.messages == Seq::<Seq<char>>::empty()
            &&& res@.repos == repos
            &&& !res@.pad_repo_output
            &&& res@.repo_messages == with_repo_lines(
                empty_messages_for(repos),
                repos.map_values(|rv: RepoV| tagged_line(rv)),
            )
        }),
{
    let tag_conv = parse_tag_args(&tags);
    let repos = GitGlobalConfig::select_tagged(known, &tag_conv);
    let ghost rv = views(repos@);
    let mut result = GitGlobalResult::new(&repos);
    let mut i: usize = 0;
    while i < repos.len()
        invariant
            i <= repos.len(),
            rv == views(repos@),
            result@.messages == Seq::<Seq<char>>::empty(),
            result@.repos == rv,
            !result@.pad_repo_output,
            result@.repo_messages == with_repo_lines(
                empty_messages_for(rv),
                rv.take(i as int).map_values(|x: RepoV| tagged_line(x)),
            ),
        decreases repos.len() - i,
    {
        let mut line = String::from_str("Tagged repo ");
        line.append(repos[i].path.as_str());
        result.add_repo_message(&repos[i], line);
        proof {
            let a = rv.take(i + 1).map_values(|x: RepoV| tagged_line(x));
            assert(a.drop_last() =~= rv.take(i as int).map_values(|x: RepoV| tagged_line(x)));
            assert(a.last() == (repos@[i as int]@, line@));
        }
        i += 1;
    }
    proof {
        assert(rv.take(i as int) =~= rv);
        if crate::subcommands::utilities::tag_args(tags@.map_values(|a: &str| a@)).len() == 0 {
            assert(views(repos@) == views(known@));
        }
    }
    Ok(result)
}

} // verus!
