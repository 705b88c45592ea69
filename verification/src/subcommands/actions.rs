//! The `action` subcommand: which actions to perform in which repos, and how
//! their outcome is shown.

use crate::models::action::{Action, ActionV};
use crate::models::repo::{path_matches, tagged_with_any, Filterable, Repo, RepoV};
use crate::models::repo_tag::RepoTag;
use crate::models::result::strs;
use crate::order::views;
use crate::paint::{blue, blue_code, green, green_code, green_underline, green_underline_code, shown_as};
use crate::pieces::{join_with, split_at_pat, split_str};
use crate::text::chars_contain;
use vstd::prelude::*;
use vstd::string::StringExecFns;

verus! {

/// The repos to act on: those of `known` carrying one of the tags named in
/// `tags` (split at commas), where tags are given, and then those whose path
/// contains `path`, where a path is given.
pub open spec fn perform_repos(
    known: Seq<RepoV>,
    tags: Option<Seq<char>>,
    path: Option<Seq<char>>,
) -> Seq<RepoV> {
    let by_tags = match tags {
        Some(t) => known.filter(tagged_with_any(split_at_pat(t, seq![',']))),
        None => known,
    };
    match path {
        Some(p) => by_tags.filter(path_matches(p)),
        None => by_tags,
    }
}

/// The position of the first action called `name`, if any.
pub open spec fn first_named(actions: Seq<ActionV>, name: Seq<char>) -> Option<int>
    decreases actions.len(),
{
    if actions.len() == 0 {
        None
    } else {
        match first_named(actions.drop_last(), name) {
            Some(i) => Some(i),
            None => if actions.last().command_of().name == name {
                Some(actions.len() - 1)
            } else {
                None
            },
        }
    }
}

/// `action perform` with a path and no tags acts on exactly the known repos
/// whose path contains the given path, in their order; with neither, on all
/// known repos.
pub proof fn law_perform_path_selects_containing(known: Seq<RepoV>, p: Seq<char>)
    ensures
        forall|k: int|
            0 <= k < known.len() && chars_contain((#[trigger] known[k]).path, p) ==> perform_repos(
                known,
                None,
                Some(p),
            ).contains(known[k]),
        forall|x: RepoV|
            #[trigger] perform_repos(known, None, Some(p)).contains(x) ==> known.contains(x)
                && chars_contain(x.path, p),
        perform_repos(known, None, None) == known,
{
    let chosen = perform_repos(known, None, Some(p));
    let pred = path_matches(p);
    assert(chosen == known.filter(pred));
    assert forall|k: int|
        0 <= k < known.len() && chars_contain((#[trigger] known[k]).path, p) implies chosen.contains(
        known[k],
    ) by {
        assert(pred(known[k]));
        known.lemma_filter_contains(pred, k);
    }
    assert forall|x: RepoV| #[trigger] chosen.contains(x) implies known.contains(x) && chars_contain(
        x.path,
        p,
    ) by {
        let m = choose|m: int| 0 <= m < chosen.len() && chosen[m] == x;
        known.lemma_filter_pred(pred, m);
        known.lemma_filter_contains_rev(pred, x);
    }
}

/// The action chosen by name is the first one with that name, and none is
/// chosen exactly when no action has it.
pub proof fn law_first_named_is_first(actions: Seq<ActionV>, name: Seq<char>)
    ensures
        first_named(actions, name) matches Some(i) ==> 0 <= i < actions.len()
            && actions[i].command_of().name == name && forall|j: int|
            0 <= j < i ==> (#[trigger] actions[j]).command_of().name != name,
        first_named(actions, name) is None ==> forall|j: int|
            0 <= j < actions.len() ==> (#[trigger] actions[j]).command_of().name != name,
    decreases actions.len(),
{
    if actions.len() > 0 {
        let init = actions.drop_last();
        law_first_named_is_first(init, name);
        assert forall|j: int| 0 <= j < init.len() implies init[j] == actions[j] by {}
    }
}

/// What to do for `action perform`: the repos selected, the action chosen by
/// name (if one has that name), and, where the chosen action needs a path, the
/// action bound to the path of each selected repo.
pub struct PerformPlan {
    pub repos: Vec<Repo>,
    pub chosen: Option<Action>,
    pub bound: Vec<Action>,
}

/// The action bound to the path of each repo.
pub open spec fn bound_to(cmd: crate::models::action::CommanderV, repos: Seq<RepoV>) -> Seq<ActionV> {
    repos.map_values(|r: RepoV| ActionV::PathAction { path: r.path, cmd })
}

/// What performing the action named `action` asks for, over the repos `known`
/// (the cached ones) and the configured `actions`.
pub fn perform_plan(
    known: Vec<Repo>,
    actions: &Vec<Action>,
    tags: Option<String>,
    path: Option<String>,
    action: Option<String>,
) -> (r: PerformPlan)
    requires
        action is Some,
    ensures
        views(r.repos@) == perform_repos(
            views(known@),
            crate::cli::opt_view(tags),
            crate::cli::opt_view(path),
        ),
        match first_named(views(actions@), action.unwrap()@) {
            Some(i) => r.chosen matches Some(c) && c@ == actions@[i]@ && (if c@ is NeedsAPathAction {
                views(r.bound@) == bound_to(c@.command_of(), views(r.repos@))
            } else {
                r.bound@.len() == 0
            }),
            None => r.chosen is None && r.bound@.len() == 0,
        },
{
    let ghost tv = crate::cli::opt_view(tags);
    let ghost pv = crate::cli::opt_view(path);
    let ghost av = crate::cli::opt_view(action);
    let mut repos = known;
    if let Some(t) = tags {
        let names = split_str(t.as_str(), ",");
        proof {
            reveal_strlit(",");
            assert(","@ =~= seq![',']);
        }
        let mut wanted: Vec<RepoTag> = Vec::new();
        let mut i: usize = 0;
        while i < names.len()
            invariant
                i <= names.len(),
                views(wanted@) == strs(names).take(i as int),
            decreases names.len() - i,
        {
            let ghost prev = wanted@;
            let tag = RepoTag::new(names[i].as_str());
            wanted.push(tag);
            assert(wanted@ =~= prev.push(tag));
            assert(views(wanted@) =~= views(prev).push(tag@));
            assert(strs(names).take(i + 1) =~= strs(names).take(i as int).push(names@[i as int]@));
            i += 1;
        }
        assert(strs(names).take(i as int) =~= strs(names));
        repos = repos.filter_tags(wanted);
    }
    if let Some(p) = path {
        repos = repos.filter_paths(p);
    }
    let name = match action {
        Some(a) => a,
        None => {
            assert(false);
            String::new()
        },
    };
    let mut i: usize = 0;
    assert(views(repos@) == perform_repos(views(known@), tv, pv));
    while i < actions.len()
        invariant
            i <= actions.len(),
            views(repos@) == perform_repos(views(known@), tv, pv),
            tv == crate::cli::opt_view(tags),
            pv == crate::cli::opt_view(path),
            av == crate::cli::opt_view(action),
            av == Some(name@),
            first_named(views(actions@.take(i as int)), name@) is None,
        decreases actions.len() - i,
    {
        proof {
            assert(views(actions@.take(i + 1)).drop_last() =~= views(actions@.take(i as int)));
            assert(views(actions@.take(i + 1)).last() == actions@[i as int]@);
        }
        if actions[i].name_match(name.as_str()).is_some() {
            proof {
                assert(views(actions@).take(i as int) =~= views(actions@.take(i as int)));
                lemma_first_named_prefix(views(actions@), name@, i as int);
            }
            let chosen = actions[i].duplicate();
            let mut bound: Vec<Action> = Vec::new();
            if chosen.needs_path() {
                let mut k: usize = 0;
                while k < repos.len()
                    invariant
                        k <= repos.len(),
                        chosen@ is NeedsAPathAction,
                        views(bound@) == bound_to(chosen@.command_of(), views(repos@.take(k as int))),
                    decreases repos.len() - k,
                {
                    let ghost prev = bound@;
                    let a = match chosen.path_bind(repos[k].path.clone()) {
                        Ok(a) => a,
                        Err(_) => {
                            assert(false);
                            chosen.duplicate()
                        },
                    };
                    bound.push(a);
                    proof {
                        assert(bound@ =~= prev.push(a));
                        assert(views(bound@) =~= views(prev).push(a@));
                        assert(views(repos@.take(k + 1)) =~= views(repos@.take(k as int)).push(
                            repos@[k as int]@,
                        ));
                    }
                    k += 1;
                }
                assert(repos@.take(k as int) =~= repos@);
            }
            return PerformPlan { repos, chosen: Some(chosen), bound };
        }
        i += 1;
    }
    assert(actions@.take(i as int) =~= actions@);
    assert(views(actions@.take(i as int)) =~= views(actions@));
    PerformPlan { repos, chosen: None, bound: Vec::new() }
}

/// `action perform` splits its tags at commas: with tags written as names
/// joined by commas (no name holding a comma) and no path, every known repo
/// that carries one of the names is acted on, and every repo acted on is a
/// known one that carries one of the names.
pub proof fn law_perform_tags_split_at_commas(known: Seq<RepoV>, names: Seq<Seq<char>>)
    requires
        names.len() > 0,
        forall|i: int| 0 <= i < names.len() ==> !(#[trigger] names[i]).contains(','),
    ensures
        forall|k: int, i: int|
            0 <= k < known.len() && 0 <= i < names.len() && (#[trigger] known[k]).tags.contains(
                #[trigger] names[i],
            ) ==> perform_repos(known, Some(join_with(names, seq![','])), None).contains(known[k]),
        forall|x: RepoV|
            #[trigger] perform_repos(known, Some(join_with(names, seq![','])), None).contains(x)
                ==> known.contains(x) && exists|i: int|
                0 <= i < names.len() && x.tags.contains(#[trigger] names[i]),
{
    crate::pieces::law_split_undoes_join(names, ',');
    let chosen = perform_repos(known, Some(join_with(names, seq![','])), None);
    let pred = tagged_with_any(names);
    assert(chosen == known.filter(pred));
    assert forall|k: int, i: int|
        0 <= k < known.len() && 0 <= i < names.len() && (#[trigger] known[k]).tags.contains(
            #[trigger] names[i],
        ) implies chosen.contains(known[k]) by {
        let j = choose|j: int| 0 <= j < known[k].tags.len() && known[k].tags[j] == names[i];
        assert(names.contains(known[k].tags[j]));
        assert(pred(known[k]));
        known.lemma_filter_contains(pred, k);
    }
    assert forall|x: RepoV| #[trigger] chosen.contains(x) implies known.contains(x) && exists|i: int|
        0 <= i < names.len() && x.tags.contains(#[trigger] names[i]) by {
        let m = choose|m: int| 0 <= m < chosen.len() && chosen[m] == x;
        known.lemma_filter_pred(pred, m);
        known.lemma_filter_contains_rev(pred, x);
        let j = choose|j: int| 0 <= j < x.tags.len() && names.contains(x.tags[j]);
        let i = choose|i: int| 0 <= i < names.len() && names[i] == x.tags[j];
        assert(x.tags.contains(names[i]));
    }
}

/// Where no earlier action has the name and the one at `i` has it, it is the
/// first with that name.
proof fn lemma_first_named_prefix(actions: Seq<ActionV>, name: Seq<char>, i: int)
    requires
        0 <= i < actions.len(),
        first_named(actions.take(i), name) is None,
        actions[i].command_of().name == name,
    ensures
        first_named(actions, name) == Some(i),
    decreases actions.len(),
{
    if i == actions.len() - 1 {
        assert(actions.drop_last() =~= actions.take(i));
    } else {
        assert(actions.drop_last().take(i) =~= actions.take(i));
        lemma_first_named_prefix(actions.drop_last(), name, i);
    }
}

/// Four parts with a space between each two.
pub open spec fn spaced4(a: Seq<char>, b: Seq<char>, c: Seq<char>, d: Seq<char>) -> Seq<char> {
    a + " "@ + b + " "@ + c + " "@ + d
}

/// The header shown above the outcome of an action in a repo.
pub fn action_header(action_name: &str, path: &str) -> (r: String)
    ensures
        exists|a: Seq<char>, b: Seq<char>, c: Seq<char>, d: Seq<char>|
            #![trigger spaced4(a, b, c, d)]
            shown_as(a, "Result of action"@, blue_code()) && shown_as(
                b,
                action_name@,
                green_underline_code(),
            ) && shown_as(c, "for"@, blue_code()) && shown_as(d, path@, green_underline_code())
                && r@ == spaced4(a, b, c, d),
{
    let a = blue("Result of action");
    let b = green_underline(action_name);
    let c = blue("for");
    let d = green_underline(path);
    let mut r = String::new();
    r.append(a.as_str());
    r.append(" ");
    r.append(b.as_str());
    r.append(" ");
    r.append(c.as_str());
    r.append(" ");
    r.append(d.as_str());
    assert(shown_as(a@, "Result of action"@, blue_code()) && shown_as(c@, "for"@, blue_code()));
    assert(r@ =~= spaced4(a@, b@, c@, d@));
    r
}

/// The lines of the output of an action, each shown green.
pub fn output_lines(output: &str) -> (r: Vec<String>)
    ensures
        r@.len() == split_at_pat(output@, seq!['\n']).len(),
        forall|i: int|
            0 <= i < r@.len() ==> shown_as(
                (#[trigger] r@[i])@,
                split_at_pat(output@, seq!['\n'])[i],
                green_code(),
            ),
{
    let pieces = split_str(output, "\n");
    proof {
        reveal_strlit("\n");
        assert("\n"@ =~= seq!['\n']);
    }
    let mut r: Vec<String> = Vec::new();
    let mut i: usize = 0;
    while i < pieces.len()
        invariant
            i <= pieces.len(),
            r@.len() == i,
            strs(pieces) == split_at_pat(output@, seq!['\n']),
            forall|k: int| 0 <= k < i ==> shown_as((#[trigger] r@[k])@, strs(pieces)[k], green_code()),
        decreases pieces.len() - i,
    {
        r.push(green(pieces[i].as_str()));
        i += 1;
    }
    r
}

} // verus!
