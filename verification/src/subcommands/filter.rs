//! The `filter` subcommand: lists the known repos whose path contains a
//! pattern, with the pattern picked out.

use crate::models::config::GitGlobalConfig;
use crate::models::errors::Result;
use crate::models::repo::{path_matches, tagged_with_any, Repo, RepoV};
use crate::models::result::{empty_messages_for, with_repo_lines, GitGlobalResult};
use crate::order::views;
use crate::subcommands::utilities::{parse_tag_args, pattern_shown, print_str_pat, tag_args};
use crate::text::str_contains;
use vstd::prelude::*;

verus! {

/// The known repos that carry one of the tags named in `tags`, or all of them
/// where no tag is named.
pub open spec fn selected_by_tag_args(known: Seq<RepoV>, tags: Seq<Seq<char>>) -> Seq<RepoV> {
    if tag_args(tags).len() == 0 {
        known
    } else {
        known.filter(tagged_with_any(tag_args(tags)))
    }
}

/// Shows each repo whose path contains `pat`, with the pattern picked out;
/// the repos are those of `known` (the repos git-global knows of) that carry
/// one of the tags named in `tags`, or all of them where none is named.
pub fn get_results(pat: &str, tags: Vec<&str>, known: Vec<Repo>) -> (r: Result<GitGlobalResult>)
    ensures
        r matches Ok(res) && ({
            let repos = selected_by_tag_args(views(known@), tags@.map_values(|a: &str| a@));
            &&& res@.messages == Seq::<Seq<char>>::empty()
            &&& res@.repos == repos
            &&& !res@.pad_repo_output
            &&& exists|adds: Seq<(RepoV, Seq<char>)>|
                #![trigger with_repo_lines(empty_messages_for(repos), adds)]
                adds.map_values(|a: (RepoV, Seq<char>)| a.0) == repos.filter(path_matches(pat@))
                    && (forall|k: int|
                    0 <= k < adds.len() ==> pattern_shown(
                        (#[trigger] adds[k]).1,
                        adds[k].0.path,
                        pat@,
                    )) && res@.repo_messages == with_repo_lines(empty_messages_for(repos), adds)
        }),
{
    let tag_conv = parse_tag_args(&tags);
    let repos = GitGlobalConfig::select_tagged(known, &tag_conv);
    let ghost rv = views(repos@);
    let mut result = GitGlobalResult::new(&repos);
    let ghost mut adds: Seq<(RepoV, Seq<char>)> = Seq::empty();
    let mut i: usize = 0;
    while i < repos.len()
        invariant
            i <= repos.len(),
            rv == views(repos@),
            result@.messages == Seq::<Seq<char>>::empty(),
            result@.repos == rv,
            !result@.pad_repo_output,
            adds.map_values(|a: (RepoV, Seq<char>)| a.0) == rv.take(i as int).filter(
                path_matches(pat@),
            ),
            forall|k: int|
                0 <= k < adds.len() ==> pattern_shown((#[trigger] adds[k]).1, adds[k].0.path, pat@),
            result@.repo_messages == with_repo_lines(empty_messages_for(rv), adds),
        decreases repos.len() - i,
    {
        proof {
            assert(rv.take(i + 1) =~= rv.take(i as int).push(rv[i as int]));
            rv.take(i as int).lemma_filter_push(rv[i as int], path_matches(pat@));
        }
        if str_contains(repos[i].path(), pat) {
            let line = print_str_pat(repos[i].path(), Some(pat));
            let ghost prev = adds;
            result.add_repo_message(&repos[i], line);
            proof {
                adds = adds.push((repos@[i as int]@, line@));
                assert(adds.drop_last() == prev);
                assert(adds.map_values(|a: (RepoV, Seq<char>)| a.0) =~= prev.map_values(
                    |a: (RepoV, Seq<char>)| a.0,
                ).push(rv[i as int]));
            }
        }
        i += 1;
    }
    proof {
        assert(rv.take(i as int) =~= rv);
        let ta = tags@.map_values(|a: &str| a@);
        if tag_args(ta).len() == 0 {
            assert(views(repos@) == views(known@));
        }
        assert(rv == selected_by_tag_args(views(known@), ta));
        assert(result@.repo_messages == with_repo_lines(empty_messages_for(rv), adds));
    }
    Ok(result)
}

} // verus!
