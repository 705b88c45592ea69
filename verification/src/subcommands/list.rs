//! The `list` subcommand: lists the known repos, or those whose path contains
//! a filter, with the filter picked out.

use crate::models::errors::Result;
use crate::models::repo::{path_matches, Repo, RepoV};
use crate::models::result::{empty_messages_for, with_repo_lines, GitGlobalResult};
use crate::order::views;
use crate::subcommands::utilities::{pattern_shown, print_str_pat};
use crate::text::str_contains;
use vstd::prelude::*;

verus! {

/// Shows each of the repos: with no filter, by its path (an empty message
/// makes the result show it); with a filter, only those whose path contains
/// it, each as an overall message with the filter picked out.
pub fn get_results(path_filter: Option<&str>, repos: Vec<Repo>) -> (r: Result<GitGlobalResult>)
    ensures
        r matches Ok(res) && res@.repos == views(repos@) && !res@.pad_repo_output && match path_filter {
            None => res@.messages == Seq::<Seq<char>>::empty() && res@.repo_messages
                == with_repo_lines(
                empty_messages_for(views(repos@)),
                views(repos@).map_values(|rv: RepoV| (rv, Seq::<char>::empty())),
            ),
            Some(pf) => res@.repo_messages == empty_messages_for(views(repos@)) && ({
                let shown = views(repos@).filter(path_matches(pf@));
                &&& res@.messages.len() == shown.len()
                &&& forall|k: int|
                    0 <= k < shown.len() ==> pattern_shown(
                        #[trigger] res@.messages[k],
                        shown[k].path,
                        pf@,
                    )
            }),
        },
{
    let ghost rv = views(repos@);
    let mut result = GitGlobalResult::new(&repos);
    let mut i: usize = 0;
    while i < repos.len()
        invariant
            i <= repos.len(),
            rv == views(repos@),
            result@.repos == rv,
            !result@.pad_repo_output,
            match path_filter {
                None => result@.messages == Seq::<Seq<char>>::empty() && result@.repo_messages
                    == with_repo_lines(
                    empty_messages_for(rv),
                    rv.take(i as int).map_values(|x: RepoV| (x, Seq::<char>::empty())),
                ),
                Some(pf) => result@.repo_messages == empty_messages_for(rv) && ({
                    let shown = rv.take(i as int).filter(path_matches(pf@));
                    &&& result@.messages.len() == shown.len()
                    &&& forall|k: int|
                        0 <= k < shown.len() ==> pattern_shown(
                            #[trigger] result@.messages[k],
                            shown[k].path,
                            pf@,
                        )
                }),
            },
        decreases repos.len() - i,
    {
        proof {
            assert(rv.take(i + 1) =~= rv.take(i as int).push(rv[i as int]));
        }
        match path_filter {
            Some(pf) => {
                proof {
                    rv.take(i as int).lemma_filter_push(rv[i as int], path_matches(pf@));
                }
                if str_contains(repos[i].path(), pf) {
                    let line = print_str_pat(repos[i].path(), Some(pf));
                    result.add_message(line);
                }
            },
            None => {
                result.add_repo_message(&repos[i], String::new());
                proof {
                    let a = rv.take(i + 1).map_values(|x: RepoV| (x, Seq::<char>::empty()));
                    assert(a.drop_last() =~= rv.take(i as int).map_values(
                        |x: RepoV| (x, Seq::<char>::empty()),
                    ));
                }
            },
        }
        i += 1;
    }
    assert(rv.take(i as int) =~= rv);
    Ok(result)
}

} // verus!
