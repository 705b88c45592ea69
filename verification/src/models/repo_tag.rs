use crate::models::repo::{Repo, RepoV};
use crate::order::views;
use crate::order::Ranked;
use crate::text::{chars_lt, chars_of, compare_chars, copy_str};
use vstd::prelude::*;
use vstd::string::StringExecFns;

verus! {

/// All tags from a Vec of repos, repo by repo, in order.
pub fn all_tags(reps: &Vec<Repo>) -> (v: Vec<RepoTag>)
    ensures
        v@.map_values(|t: RepoTag| t@) == tags_of_repos(views(reps@)),
{
    let mut v: Vec<RepoTag> = Vec::new();
    let mut i: usize = 0;
    while i < reps.len()
        invariant
            i <= reps.len(),
            v@.map_values(|t: RepoTag| t@) == tags_of_repos(views(reps@.take(i as int))),
        decreases reps.len() - i,
    {
        let ghost before = v@;
        let tags = &reps[i].tags;
        let mut j: usize = 0;
        while j < tags.len()
            invariant
                j <= tags.len(),
                tags == reps@[i as int].tags,
                v@.map_values(|t: RepoTag| t@) == before.map_values(|t: RepoTag| t@) + tags@.take(
                    j as int,
                ).map_values(|t: RepoTag| t@),
            decreases tags.len() - j,
        {
            let ghost prev = v@;
            let d = tags[j].duplicate();
            v.push(d);
            assert(v@ =~= prev.push(d));
            assert(v@.map_values(|t: RepoTag| t@) =~= prev.map_values(|t: RepoTag| t@).push(d@));
            assert(tags@.take(j + 1).map_values(|t: RepoTag| t@) =~= tags@.take(j as int).map_values(
                |t: RepoTag| t@,
            ).push(tags@[j as int]@));
            assert(v@.map_values(|t: RepoTag| t@) =~= before.map_values(|t: RepoTag| t@)
                + tags@.take(j + 1).map_values(|t: RepoTag| t@));
            j += 1;
        }
        assert(tags@.take(tags.len() as int) =~= tags@);
        assert(views(reps@.take(i + 1)).drop_last() =~= views(reps@.take(i as int)));
        i += 1;
    }
    assert(reps@.take(reps.len() as int) =~= reps@);
    v
}

/// The tags of a sequence of repos, concatenated in order.
pub open spec fn tags_of_repos(reps: Seq<RepoV>) -> Seq<Seq<char>>
    decreases reps.len(),
{
    if reps.len() == 0 {
        Seq::empty()
    } else {
        tags_of_repos(reps.drop_last()) + reps.last().tags
    }
}

/// A tag, basically a wrapper around a string.
#[derive(PartialEq, Eq, PartialOrd, Ord, Hash, Clone, Debug)]
pub struct RepoTag {
    pub name: String,
}

impl View for RepoTag {
    type V = Seq<char>;

    open spec fn view(&self) -> Seq<char> {
        self.name@
    }
}

impl RepoTag {
    pub fn new(name: &str) -> (r: RepoTag)
        ensures
            r@ == name@,
    {
        RepoTag { name: copy_str(name) }
    }

    /// The tag as it is written out for the user: `RepoTag: ` and its name.
    pub fn to_string(&self) -> (r: String)
        ensures
            r@ == "RepoTag: "@ + self@,
    {
        let mut r = String::from_str("RepoTag: ");
        r.append(self.name.as_str());
        r
    }
}

impl Ranked for RepoTag {
    open spec fn precedes(a: Seq<char>, b: Seq<char>) -> bool {
        chars_lt(a, b)
    }

    proof fn lemma_precedes_irreflexive(a: Seq<char>) {
        crate::text::lemma_chars_lt_irreflexive(a);
    }

    proof fn lemma_precedes_transitive(a: Seq<char>, b: Seq<char>, c: Seq<char>) {
        crate::text::lemma_chars_lt_transitive(a, b, c);
    }

    proof fn lemma_precedes_total(a: Seq<char>, b: Seq<char>) {
        crate::text::lemma_chars_lt_total(a, b);
    }

    fn compare(&self, other: &Self) -> (r: i8) {
        let a = chars_of(self.name.as_str());
        let b = chars_of(other.name.as_str());
        compare_chars(&a, &b)
    }

    fn duplicate(&self) -> (r: Self) {
        RepoTag { name: self.name.clone() }
    }
}

/// RepoTag is basically a wrapper around a string
impl From<String> for RepoTag {
    fn from(name: String) -> (r: RepoTag) {
        RepoTag { name }
    }
}

impl vstd::std_specs::convert::FromSpecImpl<String> for RepoTag {
    open spec fn obeys_from_spec() -> bool {
        true
    }

    open spec fn from_spec(v: String) -> RepoTag {
        RepoTag { name: v }
    }
}

impl From<RepoTag> for String {
    fn from(repo: RepoTag) -> (r: String) {
        repo.name
    }
}

impl vstd::std_specs::convert::FromSpecImpl<RepoTag> for String {
    open spec fn obeys_from_spec() -> bool {
        true
    }

    open spec fn from_spec(v: RepoTag) -> String {
        v.name
    }
}

/// Turning a string into a tag and the tag back into a string gives the
/// same string, and the other way round.
pub proof fn law_tag_string_round_trip(s: String, t: RepoTag)
    ensures
        <String as vstd::std_specs::convert::FromSpec<RepoTag>>::from_spec(
            <RepoTag as vstd::std_specs::convert::FromSpec<String>>::from_spec(s),
        ) == s,
        <RepoTag as vstd::std_specs::convert::FromSpec<String>>::from_spec(
            <String as vstd::std_specs::convert::FromSpec<RepoTag>>::from_spec(t),
        ) == t,
{
}

/// The names of the given tags, in order.
pub fn does_this_work(reps: Vec<RepoTag>) -> (r: Vec<String>)
    ensures
        r@.map_values(|s: String| s@) == reps@.map_values(|t: RepoTag| t@),
{
    let mut r: Vec<String> = Vec::new();
    let mut i: usize = 0;
    while i < reps.len()
        invariant
            i <= reps.len(),
            r@.map_values(|s: String| s@) == reps@.take(i as int).map_values(|t: RepoTag| t@),
        decreases reps.len() - i,
    {
        r.push(reps[i].name.clone());
        assert(reps@.take(i + 1).map_values(|t: RepoTag| t@) =~= reps@.take(i as int).map_values(
            |t: RepoTag| t@,
        ).push(reps@[i as int]@));
        assert(r@.map_values(|s: String| s@) =~= reps@.take(i + 1).map_values(|t: RepoTag| t@));
        i += 1;
    }
    assert(reps@.take(reps.len() as int) =~= reps@);
    r
}

} // verus!
