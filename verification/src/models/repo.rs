use crate::models::repo_tag::RepoTag;
use crate::order::{views, Ranked};
use crate::text::{
    chars_contain, chars_lt, chars_of, compare_chars, compare_strs, file_name_of,
    file_name_range, str_contains, strs_lt,
};
use vstd::prelude::*;
use vstd::string::StrSliceExecFns;

pub use crate::models::repo_tag::all_tags;

verus! {

/// What a [`Repo`] stands for: its path and the names of its tags, in order.
pub struct RepoV {
    pub path: Seq<char>,
    pub tags: Seq<Seq<char>>,
}

/// A git repository, represented by the full path to its base directory.
#[derive(Debug, PartialOrd, Ord, PartialEq, Eq, Hash, Clone)]
pub struct Repo {
    pub path: String,
    pub tags: Vec<RepoTag>,
}

impl View for Repo {
    type V = RepoV;

    open spec fn view(&self) -> RepoV {
        RepoV { path: self.path@, tags: self.tags@.map_values(|t: RepoTag| t@) }
    }
}

/// The names of a list of tags.
pub fn tag_chars(tags: &Vec<RepoTag>) -> (r: Vec<Vec<char>>)
    ensures
        r@.map_values(|v: Vec<char>| v@) == tags@.map_values(|t: RepoTag| t@),
{
    let mut r: Vec<Vec<char>> = Vec::new();
    let mut i: usize = 0;
    while i < tags.len()
        invariant
            i <= tags.len(),
            r@.map_values(|v: Vec<char>| v@) == tags@.take(i as int).map_values(|t: RepoTag| t@),
        decreases tags.len() - i,
    {
        r.push(chars_of(tags[i].name.as_str()));
        assert(tags@.take(i + 1).map_values(|t: RepoTag| t@) =~= tags@.take(i as int).map_values(
            |t: RepoTag| t@,
        ).push(tags@[i as int]@));
        assert(r@.map_values(|v: Vec<char>| v@) =~= tags@.take(i + 1).map_values(|t: RepoTag| t@));
        i += 1;
    }
    assert(tags@.take(tags.len() as int) =~= tags@);
    r
}

/// A copy of a list of tags.
pub fn copy_tags(tags: &Vec<RepoTag>) -> (r: Vec<RepoTag>)
    ensures
        r@.map_values(|t: RepoTag| t@) == tags@.map_values(|t: RepoTag| t@),
{
    let mut r: Vec<RepoTag> = Vec::new();
    let mut i: usize = 0;
    while i < tags.len()
        invariant
            i <= tags.len(),
            r@.map_values(|t: RepoTag| t@) == tags@.take(i as int).map_values(|t: RepoTag| t@),
        decreases tags.len() - i,
    {
        r.push(tags[i].duplicate());
        assert(tags@.take(i + 1).map_values(|t: RepoTag| t@) =~= tags@.take(i as int).map_values(
            |t: RepoTag| t@,
        ).push(tags@[i as int]@));
        assert(r@.map_values(|t: RepoTag| t@) =~= tags@.take(i + 1).map_values(|t: RepoTag| t@));
        i += 1;
    }
    assert(tags@.take(tags.len() as int) =~= tags@);
    r
}

impl Repo {
    pub fn new(path: String) -> (r: Repo)
        ensures
            r@ == (RepoV { path: path@, tags: Seq::empty() }),
    {
        let r = Repo { path: path, tags: Vec::new() };
        assert(r@.tags =~= Seq::<Seq<char>>::empty());
        r
    }

    /// The repo as it is written out for the user: its path.
    pub fn to_string(&self) -> (r: String)
        ensures
            r@ == self@.path,
    {
        self.path.clone()
    }

    /// Returns the full path to the repo.
    pub fn path(&self) -> (r: &str)
        ensures
            r@ == self.path@,
    {
        self.path.as_str()
    }

    /// Returns the name of the repo: the final component of its path.
    pub fn name(&self) -> (r: &str)
        requires
            file_name_of(self.path@) is Some,
        ensures
            file_name_of(self.path@) == Some(r@),
    {
        let p = chars_of(self.path.as_str());
        match file_name_range(&p) {
            Some((a, b)) => self.path.as_str().substring_char(a, b),
            None => {
                assert(false);
                self.path.as_str()
            },
        }
    }

    // =====================================================
    //  TAGS
    // =====================================================
    /// Adds a tag at the end of the repo's tags.
    pub fn tag(&mut self, tag: &str)
        ensures
            final(self)@ == tagged(old(self)@, tag@),
    {
        self.tags.push(RepoTag::new(tag));
        assert(self@.tags =~= old(self)@.tags.push(tag@));
    }

    /// Whether the repo has a tag of that name.
    pub fn has_tag(&mut self, tag: &str) -> (r: bool)
        ensures
            *final(self) == *old(self),
            r == old(self)@.tags.contains(tag@),
    {
        let t = chars_of(tag);
        let mut i: usize = 0;
        while i < self.tags.len()
            invariant
                i <= self.tags.len(),
                t@ == tag@,
                forall|j: int| 0 <= j < i ==> self@.tags[j] != tag@,
            decreases self.tags.len() - i,
        {
            let n = chars_of(self.tags[i].name.as_str());
            if compare_chars(&n, &t) == 0 {
                assert(self@.tags[i as int] == tag@);
                return true;
            }
            i += 1;
        }
        false
    }

    /// Removes the first tag of that name, if there is one.
    pub fn untag(&mut self, tag: &str)
        ensures
            final(self)@ == untagged(old(self)@, tag@),
    {
        let t = chars_of(tag);
        let mut i: usize = 0;
        while i < self.tags.len()
            invariant
                i <= self.tags.len(),
                t@ == tag@,
                *self == *old(self),
                forall|j: int| 0 <= j < i ==> self@.tags[j] != tag@,
            decreases self.tags.len() - i,
        {
            let n = chars_of(self.tags[i].name.as_str());
            if compare_chars(&n, &t) == 0 {
                proof {
                    lemma_remove_first_at(old(self)@.tags, tag@, i as int);
                }
                self.tags.remove(i);
                assert(self@.tags =~= old(self)@.tags.remove(i as int));
                return;
            }
            i += 1;
        }
        proof {
            lemma_remove_first_absent(old(self)@.tags, tag@);
        }
    }

    /// The names of the repo's tags.
    pub fn get_tags(&self) -> (r: Vec<String>)
        ensures
            r@.map_values(|s: String| s@) == self@.tags,
    {
        let mut r: Vec<String> = Vec::new();
        let mut i: usize = 0;
        while i < self.tags.len()
            invariant
                i <= self.tags.len(),
                r@.len() == i,
                r@.map_values(|s: String| s@) == self@.tags.take(i as int),
            decreases self.tags.len() - i,
        {
            let ghost prev = r@;
            r.push(self.tags[i].name.clone());
            assert(r@ =~= prev.push(r@[i as int]));
            assert(r@[i as int]@ == self@.tags[i as int]);
            assert(r@.map_values(|s: String| s@) =~= prev.map_values(|s: String| s@).push(
                self@.tags[i as int],
            ));
            assert(r@.map_values(|s: String| s@) =~= self@.tags.take(i + 1));
            i += 1;
        }
        assert(self@.tags.take(self.tags.len() as int) =~= self@.tags);
        r
    }
}

/// The repo with one more tag, at the end.
pub open spec fn tagged(r: RepoV, t: Seq<char>) -> RepoV {
    RepoV { path: r.path, tags: r.tags.push(t) }
}

/// `s` without the first element equal to `t` (`s` itself if there is none).
pub open spec fn remove_first(s: Seq<Seq<char>>, t: Seq<char>) -> Seq<Seq<char>>
    decreases s.len(),
{
    if s.len() == 0 {
        s
    } else if s[0] == t {
        s.drop_first()
    } else {
        seq![s[0]] + remove_first(s.drop_first(), t)
    }
}

/// The repo without its first tag of that name.
pub open spec fn untagged(r: RepoV, t: Seq<char>) -> RepoV {
    RepoV { path: r.path, tags: remove_first(r.tags, t) }
}

/// Where `t` first occurs at `i`, removing its first occurrence removes `s[i]`.
pub proof fn lemma_remove_first_at(s: Seq<Seq<char>>, t: Seq<char>, i: int)
    requires
        0 <= i < s.len(),
        s[i] == t,
        forall|j: int| 0 <= j < i ==> s[j] != t,
    ensures
        remove_first(s, t) == s.remove(i),
    decreases i,
{
    if i == 0 {
        assert(s.drop_first() =~= s.remove(0));
    } else {
        let d = s.drop_first();
        assert forall|j: int| 0 <= j < i - 1 implies d[j] != t by {
            assert(d[j] == s[j + 1]);
        }
        lemma_remove_first_at(d, t, i - 1);
        assert(seq![s[0]] + d.remove(i - 1) =~= s.remove(i));
    }
}

/// Removing what does not occur changes nothing.
pub proof fn lemma_remove_first_absent(s: Seq<Seq<char>>, t: Seq<char>)
    requires
        !s.contains(t),
    ensures
        remove_first(s, t) == s,
    decreases s.len(),
{
    if s.len() > 0 {
        assert(s[0] != t);
        let d = s.drop_first();
        assert(!d.contains(t)) by {
            if d.contains(t) {
                let k = choose|k: int| 0 <= k < d.len() && d[k] == t;
                assert(s[k + 1] == t);
            }
        }
        lemma_remove_first_absent(d, t);
        assert(seq![s[0]] + d =~= s);
    }
}

/// After a repo is tagged, it has the tag, and every tag it had before.
pub proof fn law_tag_adds(r: RepoV, t: Seq<char>)
    ensures
        tagged(r, t).tags.contains(t),
        forall|u: Seq<char>| r.tags.contains(u) ==> tagged(r, t).tags.contains(u),
        tagged(r, t).path == r.path,
{
    assert(tagged(r, t).tags[r.tags.len() as int] == t);
    assert forall|u: Seq<char>| r.tags.contains(u) implies tagged(r, t).tags.contains(u) by {
        let k = choose|k: int| 0 <= k < r.tags.len() && r.tags[k] == u;
        assert(tagged(r, t).tags[k] == u);
    }
}

/// Untagging a repo of a tag that it did not have before it was tagged with it
/// gives back the repo as it was.
pub proof fn law_untag_undoes_tag(r: RepoV, t: Seq<char>)
    requires
        !r.tags.contains(t),
    ensures
        untagged(tagged(r, t), t) == r,
{
    let s = r.tags.push(t);
    assert forall|j: int| 0 <= j < r.tags.len() implies s[j] != t by {
        assert(s[j] == r.tags[j]);
    }
    lemma_remove_first_at(s, t, r.tags.len() as int);
    assert(s.remove(r.tags.len() as int) =~= r.tags);
}

/// Untagging a repo of a tag that it does not have changes nothing.
pub proof fn law_untag_absent(r: RepoV, t: Seq<char>)
    requires
        !r.tags.contains(t),
    ensures
        untagged(r, t) == r,
{
    lemma_remove_first_absent(r.tags, t);
}

impl Ranked for Repo {
    /// The order of the derived `Ord`: by path, then by tags.
    open spec fn precedes(a: RepoV, b: RepoV) -> bool {
        chars_lt(a.path, b.path) || (a.path == b.path && strs_lt(a.tags, b.tags))
    }

    proof fn lemma_precedes_irreflexive(a: RepoV) {
        crate::text::lemma_chars_lt_irreflexive(a.path);
        crate::text::lemma_strs_lt_irreflexive(a.tags);
    }

    proof fn lemma_precedes_transitive(a: RepoV, b: RepoV, c: RepoV) {
        if chars_lt(a.path, b.path) && chars_lt(b.path, c.path) {
            crate::text::lemma_chars_lt_transitive(a.path, b.path, c.path);
        } else if a.path == b.path && b.path == c.path {
            crate::text::lemma_strs_lt_transitive(a.tags, b.tags, c.tags);
        }
    }

    proof fn lemma_precedes_total(a: RepoV, b: RepoV) {
        crate::text::lemma_chars_lt_total(a.path, b.path);
        crate::text::lemma_strs_lt_total(a.tags, b.tags);
    }

    fn compare(&self, other: &Self) -> (r: i8) {
        let a = chars_of(self.path.as_str());
        let b = chars_of(other.path.as_str());
        let c = compare_chars(&a, &b);
        if c != 0 {
            proof {
                if c < 0 {
                    crate::text::lemma_chars_lt_asymmetric(a@, b@);
                } else {
                    crate::text::lemma_chars_lt_asymmetric(b@, a@);
                }
            }
            return c;
        }
        let ta = tag_chars(&self.tags);
        let tb = tag_chars(&other.tags);
        compare_strs(&ta, &tb)
    }

    fn duplicate(&self) -> (r: Self) {
        Repo { path: self.path.clone(), tags: copy_tags(&self.tags) }
    }
}

/// Whether a repo carries at least one of the given tags.
pub open spec fn has_any_tag(r: RepoV, tags: Seq<Seq<char>>) -> bool {
    exists|i: int| 0 <= i < r.tags.len() && tags.contains(r.tags[i])
}

/// Holds of the repos whose path contains `path`.
pub open spec fn path_matches(path: Seq<char>) -> spec_fn(RepoV) -> bool {
    |rv: RepoV| chars_contain(rv.path, path)
}

/// Holds of the repos that carry at least one of `tags`.
pub open spec fn tagged_with_any(tags: Seq<Seq<char>>) -> spec_fn(RepoV) -> bool {
    |rv: RepoV| has_any_tag(rv, tags)
}

/// Ways to filter a list of repos.
pub trait Filterable: Sized {
    fn filter_tags(&self, tags: Vec<RepoTag>) -> Vec<Repo>;

    fn filter_paths(&self, path: String) -> Vec<Repo>;
}

impl Filterable for Vec<Repo> {
    /// The repos, in order, that carry at least one of `tags`.
    fn filter_tags(&self, tags: Vec<RepoTag>) -> (r: Vec<Repo>)
        ensures
            views(r@) == views(self@).filter(tagged_with_any(tags@.map_values(|t: RepoTag| t@))),
    {
        let ghost tv = tags@.map_values(|t: RepoTag| t@);
        let ghost pred = tagged_with_any(tv);
        let wanted = tag_chars(&tags);
        let mut r: Vec<Repo> = Vec::new();
        let mut i: usize = 0;
        while i < self.len()
            invariant
                i <= self.len(),
                wanted@.map_values(|v: Vec<char>| v@) == tv,
                tv == tags@.map_values(|t: RepoTag| t@),
                pred == tagged_with_any(tv),
                views(r@) == views(self@.take(i as int)).filter(pred),
            decreases self.len() - i,
        {
            let repo = &self[i];
            let mut found = false;
            let mut j: usize = 0;
            while j < repo.tags.len() && !found
                invariant
                    j <= repo.tags.len(),
                    repo == self@[i as int],
                    wanted@.map_values(|v: Vec<char>| v@) == tv,
                    found ==> has_any_tag(repo@, tv),
                    !found ==> forall|k: int| 0 <= k < j ==> !tv.contains(#[trigger] repo@.tags[k]),
                decreases repo.tags.len() - j + (if found { 0int } else { 1int }),
            {
                let name = chars_of(repo.tags[j].name.as_str());
                let mut k: usize = 0;
                while k < wanted.len() && !found
                    invariant
                        k <= wanted.len(),
                        j < repo.tags.len(),
                        name@ == repo@.tags[j as int],
                        wanted@.map_values(|v: Vec<char>| v@) == tv,
                        found ==> has_any_tag(repo@, tv),
                        !found ==> forall|m: int| 0 <= m < k ==> tv[m] != name@,
                    decreases wanted.len() - k + (if found { 0int } else { 1int }),
                {
                    if compare_chars(&wanted[k], &name) == 0 {
                        assert(tv[k as int] == name@);
                        assert(tv.contains(repo@.tags[j as int]));
                        found = true;
                    } else {
                        k += 1;
                    }
                }
                if !found {
                    assert(!tv.contains(repo@.tags[j as int]));
                    j += 1;
                }
            }
            proof {
                if !found {
                    assert(!has_any_tag(repo@, tv));
                }
                assert(views(self@.take(i + 1)) =~= views(self@.take(i as int)).push(self@[i as int]@));
                views(self@.take(i as int)).lemma_filter_push(self@[i as int]@, pred);
            }
            let ghost prev = r@;
            if found {
                let d = repo.duplicate();
                r.push(d);
                assert(r@ =~= prev.push(d));
                assert(views(r@) =~= views(prev).push(self@[i as int]@));
                assert(pred(self@[i as int]@));
            } else {
                assert(!pred(self@[i as int]@));
            }
            assert(views(r@) =~= views(self@.take(i + 1)).filter(pred));
            i += 1;
        }
        assert(self@.take(self.len() as int) =~= self@);
        r
    }

    /// The repos, in order, whose path contains `path`.
    fn filter_paths(&self, path: String) -> (r: Vec<Repo>)
        ensures
            views(r@) == views(self@).filter(path_matches(path@)),
    {
        let ghost pred = path_matches(path@);
        let mut r: Vec<Repo> = Vec::new();
        let mut i: usize = 0;
        while i < self.len()
            invariant
                i <= self.len(),
                pred == path_matches(path@),
                views(r@) == views(self@.take(i as int)).filter(pred),
            decreases self.len() - i,
        {
            let keep = str_contains(self[i].path.as_str(), path.as_str());
            proof {
                assert(views(self@.take(i + 1)) =~= views(self@.take(i as int)).push(self@[i as int]@));
                views(self@.take(i as int)).lemma_filter_push(self@[i as int]@, pred);
            }
            let ghost prev = r@;
            if keep {
                let d = self[i].duplicate();
                r.push(d);
                assert(r@ =~= prev.push(d));
                assert(views(r@) =~= views(prev).push(self@[i as int]@));
                assert(pred(self@[i as int]@));
            } else {
                assert(!pred(self@[i as int]@));
            }
            assert(views(r@) =~= views(self@.take(i + 1)).filter(pred));
            i += 1;
        }
        assert(self@.take(self.len() as int) =~= self@);
        r
    }
}

} // verus!
