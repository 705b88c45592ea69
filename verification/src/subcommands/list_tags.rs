//! The `list-tags` subcommand: the lines that list the known tags, each with
//! the repos that carry it where asked.

use crate::models::repo::{Repo, RepoV};
use crate::models::repo_tag::RepoTag;
use crate::order::views;
use crate::paint::{green_underline, green_underline_code, shown_as, yellow, yellow_code};
use vstd::prelude::*;
use vstd::string::StringExecFns;

verus! {

/// A line of the listing.
pub enum TagLine {
    /// The name of a tag.
    Tag(Seq<char>),
    /// The heading above the repos of a tag.
    ReposHeading,
    /// The path of a repo.
    Path(Seq<char>),
}

/// The paths of the repos that carry the tag.
pub open spec fn carriers(t: Seq<char>, repos: Seq<RepoV>) -> Seq<TagLine> {
    repos.filter(|r: RepoV| r.tags.contains(t)).map_values(|r: RepoV| TagLine::Path(r.path))
}

/// Listed under a tag are the paths of exactly the repos that carry it, in
/// their order; without the repos, the listing is the tags' names, one line
/// each.
pub proof fn law_carriers_carry_the_tag(t: Seq<char>, repos: Seq<RepoV>, p: Seq<char>, tags: Seq<Seq<char>>)
    ensures
        carriers(t, repos).contains(TagLine::Path(p)) <==> exists|k: int|
            0 <= k < repos.len() && (#[trigger] repos[k]).path == p && repos[k].tags.contains(t),
        tag_listing(tags, repos, false) == tags.map_values(|n: Seq<char>| TagLine::Tag(n)),
    decreases tags.len(),
{
    let pred = |r: RepoV| r.tags.contains(t);
    let f = repos.filter(pred);
    let c = carriers(t, repos);
    if c.contains(TagLine::Path(p)) {
        let i = choose|i: int| 0 <= i < c.len() && c[i] == TagLine::Path(p);
        repos.lemma_filter_pred(pred, i);
        repos.lemma_filter_contains_rev(pred, f[i]);
        let k = choose|k: int| 0 <= k < repos.len() && repos[k] == f[i];
        assert(repos[k].path == p);
    }
    if exists|k: int| 0 <= k < repos.len() && (#[trigger] repos[k]).path == p && repos[k].tags.contains(t) {
        let k = choose|k: int| 0 <= k < repos.len() && (#[trigger] repos[k]).path == p && repos[k].tags.contains(t);
        repos.lemma_filter_contains(pred, k);
        let i = choose|i: int| 0 <= i < f.len() && f[i] == repos[k];
        assert(c[i] == TagLine::Path(p));
    }
    if tags.len() > 0 {
        law_carriers_carry_the_tag(t, repos, p, tags.drop_last());
        assert(tag_listing(tags, repos, false) =~= tags.map_values(|n: Seq<char>| TagLine::Tag(n)));
    } else {
        assert(tag_listing(tags, repos, false) =~= tags.map_values(|n: Seq<char>| TagLine::Tag(n)));
    }
}

/// The lines for one tag.
pub open spec fn tag_block(t: Seq<char>, repos: Seq<RepoV>, with_repos: bool) -> Seq<TagLine> {
    if with_repos {
        seq![TagLine::Tag(t), TagLine::ReposHeading] + carriers(t, repos)
    } else {
        seq![TagLine::Tag(t)]
    }
}

/// The lines of the listing, tag by tag.
pub open spec fn tag_listing(tags: Seq<Seq<char>>, repos: Seq<RepoV>, with_repos: bool) -> Seq<
    TagLine,
>
    decreases tags.len(),
{
    if tags.len() == 0 {
        Seq::empty()
    } else {
        tag_listing(tags.drop_last(), repos, with_repos) + tag_block(tags.last(), repos, with_repos)
    }
}

/// `out` is how the line is shown: `Tag:` in yellow and the name green and
/// underlined; `Repos:` in yellow; the path green and underlined.
pub open spec fn line_shown(out: Seq<char>, line: TagLine) -> bool {
    match line {
        TagLine::Tag(t) => exists|a: Seq<char>, b: Seq<char>|
            #![trigger a + " "@ + b]
            shown_as(a, "Tag:"@, yellow_code()) && shown_as(b, t, green_underline_code()) && out
                == a + " "@ + b,
        TagLine::ReposHeading => shown_as(out, "Repos:"@, yellow_code()),
        TagLine::Path(p) => shown_as(out, p, green_underline_code()),
    }
}

/// Whether the repo carries the tag.
fn carries(r: &Repo, t: &RepoTag) -> (b: bool)
    ensures
        b == r@.tags.contains(t@),
{
    let mut i: usize = 0;
    while i < r.tags.len()
        invariant
            i <= r.tags.len(),
            forall|j: int| 0 <= j < i ==> r@.tags[j] != t@,
        decreases r.tags.len() - i,
    {
        if r.tags[i].name == t.name {
            assert(r@.tags[i as int] == t@);
            return true;
        }
        i += 1;
    }
    false
}

/// The lines that list the tags, each followed, where asked, by the repos
/// that carry it.
pub fn tag_lines(tags: &Vec<RepoTag>, repos: &Vec<Repo>, with_repos: bool) -> (r: Vec<String>)
    ensures
        r@.len() == tag_listing(views(tags@), views(repos@), with_repos).len(),
        forall|i: int|
            0 <= i < r@.len() ==> line_shown(
                (#[trigger] r@[i])@,
                tag_listing(views(tags@), views(repos@), with_repos)[i],
            ),
{
    let ghost rv = views(repos@);
    let mut out: Vec<String> = Vec::new();
    let mut i: usize = 0;
    while i < tags.len()
        invariant
            i <= tags.len(),
            rv == views(repos@),
            out@.len() == tag_listing(views(tags@.take(i as int)), rv, with_repos).len(),
            forall|k: int|
                0 <= k < out@.len() ==> line_shown(
                    (#[trigger] out@[k])@,
                    tag_listing(views(tags@.take(i as int)), rv, with_repos)[k],
                ),
        decreases tags.len() - i,
    {
        let ghost before = tag_listing(views(tags@.take(i as int)), rv, with_repos);
        let ghost t = tags@[i as int]@;
        let ghost block = tag_block(t, rv, with_repos);
        let ghost n0 = out@.len();
        let a = yellow("Tag:");
        let b = green_underline(tags[i].name.as_str());
        let mut line = String::new();
        line.append(a.as_str());
        line.append(" ");
        line.append(b.as_str());
        assert(line@ =~= a@ + " "@ + b@);
        assert(line_shown(line@, TagLine::Tag(t)));
        out.push(line);
        assert(out@[n0 as int]@ == line@);
        let mut done: usize = 1;
        if with_repos {
            out.push(yellow("Repos:"));
            done = 2;
            let mut k: usize = 0;
            while k < repos.len()
                invariant
                    k <= repos.len(),
                    rv == views(repos@),
                    with_repos,
                    i < tags.len(),
                    t == tags@[i as int]@,
                    block == tag_block(t, rv, with_repos),
                    out@.len() == n0 + 2 + rv.take(k as int).filter(|r: RepoV| r.tags.contains(t)).len(),
                    forall|j: int|
                        0 <= j < n0 ==> line_shown((#[trigger] out@[j])@, before[j]),
                    line_shown(out@[n0 as int]@, TagLine::Tag(t)),
                    line_shown(out@[n0 + 1int]@, TagLine::ReposHeading),
                    forall|j: int|
                        0 <= j < rv.take(k as int).filter(|r: RepoV| r.tags.contains(t)).len()
                            ==> line_shown(
                            (#[trigger] out@[n0 + 2 + j])@,
                            TagLine::Path(
                                rv.take(k as int).filter(|r: RepoV| r.tags.contains(t))[j].path,
                            ),
                        ),
                decreases repos.len() - k,
            {
                proof {
                    assert(rv.take(k + 1) =~= rv.take(k as int).push(rv[k as int]));
                    rv.take(k as int).lemma_filter_push(rv[k as int], |r: RepoV| r.tags.contains(t));
                }
                if carries(&repos[k], &tags[i]) {
                    out.push(green_underline(repos[k].path.as_str()));
                }
                k += 1;
            }
            assert(rv.take(k as int) =~= rv);
        }
        proof {
            let tk = views(tags@.take(i + 1));
            assert(tk.drop_last() =~= views(tags@.take(i as int)));
            assert(tk.last() == t);
            let now = tag_listing(tk, rv, with_repos);
            assert(now == before + block);
            assert forall|k: int| 0 <= k < out@.len() implies line_shown(
                (#[trigger] out@[k])@,
                now[k],
            ) by {
                if k < n0 {
                    assert(now[k] == before[k]);
                } else {
                    assert(now[k] == block[k - n0]);
                    if with_repos && k >= n0 + 2 {
                        let c = rv.filter(|r: RepoV| r.tags.contains(t));
                        let j = k - n0 - 2;
                        assert(block[k - n0] == TagLine::Path(c[j].path));
                        assert(out@[n0 + 2 + j] == out@[k]);
                    }
                }
            }
        }
        i += 1;
    }
    assert(tags@.take(i as int) =~= tags@);
    out
}

} // verus!
