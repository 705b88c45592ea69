//! A Useful struct when dealing with UI callbacks and select views
use crate::models::config::GitGlobalConfig;
use crate::models::repo::{Filterable, Repo, RepoV, path_matches};
use crate::models::repo_tag::{tags_of_repos, RepoTag};
use crate::models::repowrap::{merged_by_path, repo_views, Mergeable, MyFrom, MyInto, RepoWrap};
use crate::models::result::strs;
use crate::order::{lemma_strictly_sorted_no_duplicates, sort_unique, sorted_set, strictly_sorted, views, Ranked};
use crate::text::{chars_contain, chars_lt, chars_of, compare_chars};
use std::cell::RefCell;
use std::rc::Rc;
use vstd::prelude::*;

verus! {

/// A value that is shared and changed in place by the callbacks of a terminal
/// user interface.
#[verifier::external_type_specification]
#[verifier::external_body]
#[verifier::reject_recursive_types(T)]
pub struct ExRefCell<T: ?Sized>(RefCell<T>);

/// The table that a cell of a table was made with. A cell is made once, with
/// one value, so this depends on the cell alone; what the cell holds after a
/// borrow has changed it is not said by this.
pub uninterp spec fn table_cell_made_with(cell: RefCell<LightTable>) -> LightTable;

/// `RefCell::new` on a table: a new cell made with (and so holding) `value`,
/// as std documents it.
#[verifier::external_body]
pub(crate) fn new_table_cell(value: LightTable) -> (r: RefCell<LightTable>)
    ensures
        table_cell_made_with(r) == value,
{
    RefCell::new(value)
}

/// What a filter keeps was there before.
proof fn lemma_filter_keeps_members(s: Seq<RepoV>, pred: spec_fn(RepoV) -> bool)
    ensures
        forall|x: RepoV| #[trigger] s.filter(pred).contains(x) ==> s.contains(x),
    decreases s.len(),
{
    reveal(Seq::filter);
    if s.len() > 0 {
        let d = s.drop_last();
        lemma_filter_keeps_members(d, pred);
        assert forall|x: RepoV| #[trigger] s.filter(pred).contains(x) implies s.contains(x) by {
            if x == s.last() {
                assert(s[s.len() - 1] == x);
            } else {
                assert(d.filter(pred).contains(x));
                let i = choose|i: int| 0 <= i < d.len() && d[i] == x;
                assert(s[i] == x);
            }
        }
    }
}

/// The repos that a filter shows are among the repos, and every repo whose
/// path contains the filter is shown.
pub proof fn law_shown_repos_are_known(repos: Seq<RepoV>, filter: Seq<char>)
    ensures
        forall|r: RepoV| #[trigger] repos.filter(path_matches(filter)).contains(r) ==> repos.contains(r),
        forall|r: RepoV|
            repos.contains(r) && chars_contain(r.path, filter) ==> #[trigger] repos.filter(
                path_matches(filter),
            ).contains(r),
{
    lemma_filter_keeps_members(repos, path_matches(filter));
    assert forall|r: RepoV| repos.contains(r) && chars_contain(r.path, filter) implies #[trigger] repos.filter(
        path_matches(filter),
    ).contains(r) by {
        let i = choose|i: int| 0 <= i < repos.len() && repos[i] == r;
        repos.lemma_filter_contains(path_matches(filter), i);
    }
}

/// Used to pass around info in the tagging UI, where a shared struct models
/// the UI state
#[derive(PartialEq, Eq, Clone, Debug)]
pub struct LightTable {
    pub repos: Vec<Repo>,
    // TODO: - Should this just be a reference?
    pub filtered_repos: Vec<Repo>,
    pub repo_index: usize,
    pub tag_index: usize,
    pub tags: Vec<RepoTag>,
    pub default_tags: Vec<RepoTag>,
    pub repo_filter: String,
}

/// A (label, index) pair is ordered by label, then by index.
impl Ranked for (String, usize) {
    open spec fn precedes(a: (Seq<char>, usize), b: (Seq<char>, usize)) -> bool {
        chars_lt(a.0, b.0) || (a.0 == b.0 && a.1 < b.1)
    }

    proof fn lemma_precedes_irreflexive(a: (Seq<char>, usize)) {
        crate::text::lemma_chars_lt_irreflexive(a.0);
    }

    proof fn lemma_precedes_transitive(
        a: (Seq<char>, usize),
        b: (Seq<char>, usize),
        c: (Seq<char>, usize),
    ) {
        if chars_lt(a.0, b.0) && chars_lt(b.0, c.0) {
            crate::text::lemma_chars_lt_transitive(a.0, b.0, c.0);
        }
    }

    proof fn lemma_precedes_total(a: (Seq<char>, usize), b: (Seq<char>, usize)) {
        crate::text::lemma_chars_lt_total(a.0, b.0);
    }

    fn compare(&self, other: &Self) -> (r: i8) {
        let a = chars_of(self.0.as_str());
        let b = chars_of(other.0.as_str());
        let c = compare_chars(&a, &b);
        if c != 0 {
            proof {
                if c < 0 {
                    crate::text::lemma_chars_lt_asymmetric(a@, b@);
                } else {
                    crate::text::lemma_chars_lt_asymmetric(b@, a@);
                }
            }
            c
        } else if self.1 < other.1 {
            -1
        } else if self.1 == other.1 {
            0
        } else {
            1
        }
    }

    fn duplicate(&self) -> (r: Self) {
        (self.0.clone(), self.1)
    }
}

/// The names of all the tags on offer: those of the repos, the default
/// ones, and those of the filtered repos, in that order.
pub open spec fn tag_pool(lt: LightTable) -> Seq<Seq<char>> {
    tags_of_repos(views(lt.repos@)) + views(lt.default_tags@) + tags_of_repos(views(lt.filtered_repos@))
}

/// `s` with every element after its first occurrence left out.
pub open spec fn first_occurrences(s: Seq<Seq<char>>) -> Seq<Seq<char>>
    decreases s.len(),
{
    if s.len() == 0 {
        s
    } else {
        let d = first_occurrences(s.drop_last());
        if d.contains(s.last()) {
            d
        } else {
            d.push(s.last())
        }
    }
}

/// What is left of a sequence after later repeats are left out has no repeats.
pub proof fn lemma_first_occurrences_unique(s: Seq<Seq<char>>)
    ensures
        first_occurrences(s).no_duplicates(),
    decreases s.len(),
{
    if s.len() > 0 {
        lemma_first_occurrences_unique(s.drop_last());
        let d = first_occurrences(s.drop_last());
        if !d.contains(s.last()) {
            assert forall|i: int, j: int|
                0 <= i < d.len() + 1 && 0 <= j < d.len() + 1 && i != j implies d.push(s.last())[i]
                != d.push(s.last())[j] by {
                if i == d.len() {
                    assert(d.push(s.last())[j] == d[j]);
                } else if j == d.len() {
                    assert(d.push(s.last())[i] == d[i]);
                }
            }
        }
    }
}

/// Leaving out later repeats keeps every element once: exactly the elements
/// of `s` remain, each once, the first one first.
pub proof fn law_first_occurrences(s: Seq<Seq<char>>, x: Seq<char>)
    ensures
        first_occurrences(s).contains(x) <==> s.contains(x),
        first_occurrences(s).no_duplicates(),
        s.len() > 0 ==> first_occurrences(s).len() > 0 && first_occurrences(s)[0] == s[0],
    decreases s.len(),
{
    lemma_first_occurrences_unique(s);
    if s.len() > 0 {
        let init = s.drop_last();
        law_first_occurrences(init, x);
        let d = first_occurrences(init);
        let r = first_occurrences(s);
        if s.contains(x) {
            let k = choose|k: int| 0 <= k < s.len() && s[k] == x;
            if k < s.len() - 1 {
                assert(init[k] == x);
                assert(d.contains(x));
                let i = choose|i: int| 0 <= i < d.len() && d[i] == x;
                if !d.contains(s.last()) {
                    assert(r[i] == x);
                }
            } else if !d.contains(s.last()) {
                assert(r[d.len() as int] == x);
            }
        }
        if r.contains(x) {
            let i = choose|i: int| 0 <= i < r.len() && r[i] == x;
            if i < d.len() {
                assert(r[i] == d[i]);
                assert(d.contains(x));
                let k = choose|k: int| 0 <= k < init.len() && init[k] == x;
                assert(s[k] == x);
            } else {
                assert(s[s.len() - 1] == x);
            }
        }
        if init.len() > 0 {
            assert(s[0] == init[0]);
            if !d.contains(s.last()) {
                assert(r[0] == d[0]);
            }
        } else {
            assert(d.len() == 0);
            assert(r[0] == s[0]);
        }
    }
}

/// Each element paired with its position.
pub open spec fn enumerated(s: Seq<Seq<char>>) -> Seq<(Seq<char>, usize)> {
    Seq::new(s.len(), |i: int| (s[i], i as usize))
}

/// Appends the names of the tags of `repos`, repo by repo.
fn push_tag_names(out: &mut Vec<String>, repos: &Vec<Repo>)
    ensures
        strs(*final(out)) == strs(*old(out)) + tags_of_repos(views(repos@)),
{
    let mut i: usize = 0;
    assert(strs(*out) =~= strs(*old(out)) + tags_of_repos(views(repos@.take(0))));
    while i < repos.len()
        invariant
            i <= repos.len(),
            strs(*out) == strs(*old(out)) + tags_of_repos(views(repos@.take(i as int))),
        decreases repos.len() - i,
    {
        let ghost before = strs(*out);
        let tags = &repos[i].tags;
        let mut j: usize = 0;
        while j < tags.len()
            invariant
                j <= tags.len(),
                i < repos.len(),
                tags == repos@[i as int].tags,
                strs(*out) == before + views(tags@.take(j as int)),
            decreases tags.len() - j,
        {
            let ghost prev = out@;
            let ghost prev_s = strs(*out);
            let s = tags[j].name.clone();
            out.push(s);
            assert(out@ =~= prev.push(s));
            assert(strs(*out) =~= prev_s.push(s@));
            assert(views(tags@.take(j + 1)) =~= views(tags@.take(j as int)).push(tags@[j as int]@));
            assert(strs(*out) =~= before + views(tags@.take(j + 1)));
            j += 1;
        }
        assert(tags@.take(j as int) =~= tags@);
        assert(views(repos@.take(i + 1)).drop_last() =~= views(repos@.take(i as int)));
        assert(views(repos@.take(i + 1)).last() == repos@[i as int]@);
        assert(repos@[i as int]@.tags == views(tags@));
        assert(strs(*out) =~= strs(*old(out)) + tags_of_repos(views(repos@.take(i + 1))));
        i += 1;
    }
    assert(repos@.take(i as int) =~= repos@);
}

/// Appends the names of the given tags.
fn push_names(out: &mut Vec<String>, tags: &Vec<RepoTag>)
    ensures
        strs(*final(out)) == strs(*old(out)) + views(tags@),
{
    let mut j: usize = 0;
    assert(strs(*out) =~= strs(*old(out)) + views(tags@.take(0)));
    while j < tags.len()
        invariant
            j <= tags.len(),
            strs(*out) == strs(*old(out)) + views(tags@.take(j as int)),
        decreases tags.len() - j,
    {
        let ghost prev = out@;
        let ghost prev_s = strs(*out);
        let s = tags[j].name.clone();
        out.push(s);
        assert(out@ =~= prev.push(s));
        assert(strs(*out) =~= prev_s.push(s@));
        assert(views(tags@.take(j + 1)) =~= views(tags@.take(j as int)).push(tags@[j as int]@));
        assert(strs(*out) =~= strs(*old(out)) + views(tags@.take(j + 1)));
        j += 1;
    }
    assert(tags@.take(j as int) =~= tags@);
}

/// Whether `v` holds a string equal to `s`.
fn holds_string(v: &Vec<String>, s: &String) -> (r: bool)
    ensures
        r == strs(*v).contains(s@),
{
    let mut i: usize = 0;
    while i < v.len()
        invariant
            i <= v.len(),
            forall|j: int| 0 <= j < i ==> strs(*v)[j] != s@,
        decreases v.len() - i,
    {
        if v[i] == *s {
            assert(strs(*v)[i as int] == s@);
            return true;
        }
        i += 1;
    }
    false
}

/// The strings of `v`, each only where it first occurs.
fn first_occurrences_exec(v: &Vec<String>) -> (r: Vec<String>)
    ensures
        strs(r) == first_occurrences(strs(*v)),
{
    let mut r: Vec<String> = Vec::new();
    let mut i: usize = 0;
    while i < v.len()
        invariant
            i <= v.len(),
            strs(r) == first_occurrences(strs(*v).take(i as int)),
        decreases v.len() - i,
    {
        let ghost t = strs(*v).take(i + 1);
        assert(t.drop_last() =~= strs(*v).take(i as int));
        assert(t.last() == v@[i as int]@);
        if !holds_string(&r, &v[i]) {
            let ghost prev = r@;
            let s = v[i].clone();
            r.push(s);
            assert(r@ =~= prev.push(s));
            assert(strs(r) =~= strs(r).drop_last().push(s@));
        }
        i += 1;
    }
    assert(strs(*v).take(i as int) =~= strs(*v));
    r
}

/// Each string paired with its position.
fn enumerate_strings(v: &Vec<String>) -> (r: Vec<(String, usize)>)
    ensures
        views(r@) == enumerated(strs(*v)),
{
    let mut r: Vec<(String, usize)> = Vec::new();
    let mut i: usize = 0;
    while i < v.len()
        invariant
            i <= v.len(),
            views(r@) == enumerated(strs(*v).take(i as int)),
        decreases v.len() - i,
    {
        let ghost prev = r@;
        let p = (v[i].clone(), i);
        r.push(p);
        assert(r@ =~= prev.push(p));
        assert(views(r@) =~= views(prev).push(p@));
        assert(views(r@) =~= enumerated(strs(*v).take(i + 1)));
        i += 1;
    }
    assert(strs(*v).take(i as int) =~= strs(*v));
    r
}

/// Each string paired with its position, as (&str, index).
fn label_repos<'a>(repos: &'a Vec<Repo>) -> (r: Vec<(&'a str, usize)>)
    ensures
        r@.len() == repos@.len(),
        forall|i: int| 0 <= i < r@.len() ==> (#[trigger] r@[i]).0@ == repos@[i]@.path && r@[i].1 == i,
{
    let mut r: Vec<(&str, usize)> = Vec::new();
    let mut i: usize = 0;
    while i < repos.len()
        invariant
            i <= repos.len(),
            r@.len() == i,
            forall|k: int| 0 <= k < i ==> (#[trigger] r@[k]).0@ == repos@[k]@.path && r@[k].1 == k,
        decreases repos.len() - i,
    {
        r.push((repos[i].path.as_str(), i));
        i += 1;
    }
    r
}

impl LightTable {
    /// Standard init function
    pub fn new(
        repos: Vec<Repo>,
        filtered_repos: Vec<Repo>,
        repo_index: usize,
        tag_index: usize,
        tags: Vec<RepoTag>,
        default_tags: Vec<RepoTag>,
        repo_filter: String,
    ) -> (r: LightTable)
        ensures
            r == (LightTable {
                repos,
                filtered_repos,
                repo_index,
                tag_index,
                tags,
                default_tags,
                repo_filter,
            }),
    {
        LightTable { repos, filtered_repos, repo_index, tag_index, tags, default_tags, repo_filter }
    }

    /// The same table as [`LightTable::new`] builds, in a new shared cell, as
    /// the callbacks of a terminal user interface need it.
    pub fn new_from_rc(
        repos: Vec<Repo>,
        filtered_repos: Vec<Repo>,
        repo_index: usize,
        tag_index: usize,
        tags: Vec<RepoTag>,
        default_tags: Vec<RepoTag>,
        repo_filter: String,
    ) -> (r: Rc<RefCell<LightTable>>)
        ensures
            table_cell_made_with(*r) == (LightTable {
                repos,
                filtered_repos,
                repo_index,
                tag_index,
                tags,
                default_tags,
                repo_filter,
            }),
    {
        Rc::new(
            new_table_cell(
                Self::new(
                    repos,
                    filtered_repos,
                    repo_index,
                    tag_index,
                    tags,
                    default_tags,
                    repo_filter,
                ),
            ),
        )
    }

    /// A [`LightTable`] over the cached repos, or only those whose path
    /// contains `path_filter` where there is one, with no tags and no filter
    /// yet.
    pub fn from_cached(
        cached: Vec<Repo>,
        path_filter: Option<String>,
        default_tags: Vec<RepoTag>,
    ) -> (r: LightTable)
        ensures
            path_filter is None ==> views(r.repos@) == views(cached@),
            path_filter matches Some(pf) ==> views(r.repos@) == views(cached@).filter(
                path_matches(pf@),
            ),
            views(r.filtered_repos@) == views(r.repos@),
            r.repo_index == 0,
            r.tag_index == 0,
            r.tags@ == Seq::<RepoTag>::empty(),
            r.default_tags == default_tags,
            r.repo_filter@ == Seq::<char>::empty(),
    {
        let reps: Vec<Repo> = match path_filter {
            Some(pf) => cached.filter_paths(pf),
            None => cached,
        };
        let mut copy: Vec<Repo> = Vec::new();
        let mut i: usize = 0;
        while i < reps.len()
            invariant
                i <= reps.len(),
                views(copy@) == views(reps@.take(i as int)),
            decreases reps.len() - i,
        {
            let ghost prev = copy@;
            let d = reps[i].duplicate();
            copy.push(d);
            assert(copy@ =~= prev.push(d));
            assert(views(copy@) =~= views(prev).push(d@));
            assert(reps@.take(i + 1) =~= reps@.take(i as int).push(reps@[i as int]));
            assert(views(copy@) =~= views(reps@.take(i + 1)));
            i += 1;
        }
        assert(reps@.take(i as int) =~= reps@);
        Self::new(copy, reps, 0, 0, Vec::new(), default_tags, String::new())
    }

    /// The table over the cached repos (all of them shown) with the
    /// configuration's tags and default tags, and no filter.
    pub fn from_config(gc: GitGlobalConfig, cached: Vec<Repo>) -> (r: LightTable)
        ensures
            views(r.repos@) == views(cached@),
            views(r.filtered_repos@) == views(cached@),
            r.repo_index == 0,
            r.tag_index == 0,
            r.tags == gc.tags,
            r.default_tags == gc.default_tags,
            r.repo_filter@ == Seq::<char>::empty(),
    {
        let mut copy: Vec<Repo> = Vec::new();
        let mut i: usize = 0;
        while i < cached.len()
            invariant
                i <= cached.len(),
                views(copy@) == views(cached@.take(i as int)),
            decreases cached.len() - i,
        {
            let ghost prev = copy@;
            let d = cached[i].duplicate();
            copy.push(d);
            assert(copy@ =~= prev.push(d));
            assert(views(copy@) =~= views(prev).push(d@));
            assert(cached@.take(i + 1) =~= cached@.take(i as int).push(cached@[i as int]));
            assert(views(copy@) =~= views(cached@.take(i + 1)));
            i += 1;
        }
        assert(cached@.take(i as int) =~= cached@);
        Self::new(copy, cached, 0, 0, gc.tags, gc.default_tags, String::new())
    }

    /// We want to find the new Vec of filtered_repos but also have to assume that there is an old set that has information we need to add to our complete set of repos (the first time the function is called this should just be an empty set)
    /// This should also be called before we save tags in order to merge any changes from the filtered_list into the repo list that will be saved
    pub fn repo_filter_update(&mut self)
        ensures
            merged_by_path(
                views(final(self).repos@),
                views(old(self).repos@),
                views(old(self).filtered_repos@),
            ),
            views(final(self).filtered_repos@) == views(final(self).repos@).filter(
                path_matches(old(self).repo_filter@),
            ),
            final(self).repo_index == old(self).repo_index,
            final(self).tag_index == old(self).tag_index,
            final(self).tags == old(self).tags,
            final(self).default_tags == old(self).default_tags,
            final(self).repo_filter == old(self).repo_filter,
    {
        let mut all: Vec<Repo> = Vec::new();
        std::mem::swap(&mut all, &mut self.repos);
        let mut shown: Vec<Repo> = Vec::new();
        std::mem::swap(&mut shown, &mut self.filtered_repos);
        let mut old_repos: Vec<RepoWrap> = MyFrom::from(all);
        let old_filtered_repos: Vec<RepoWrap> = MyFrom::from(shown);
        let merged = old_repos.merge_other(old_filtered_repos);
        let repos: Vec<Repo> = MyInto::into(merged);
        proof {
            assert(views(repos@) == repo_views(repos@));
        }
        self.filtered_repos = repos.filter_paths(self.repo_filter.clone());
        self.repos = repos;
    }

    /// chainable function to apply a simple filter to
    /// the [`Repo`] paths so that the `filtered_repos` field
    /// now contains only those repos matching the filter
    pub fn filter_repos(&mut self, path_filter: &str) -> (r: &mut Self)
        ensures
            views(r.filtered_repos@) == views(old(self).repos@).filter(path_matches(path_filter@)),
            *r == (LightTable { filtered_repos: r.filtered_repos, ..*old(self) }),
            *final(self) == *final(r),
    {
        self.filtered_repos = self.repos.filter_paths(path_filter.to_owned());
        self
    }

    /// Helper for the UI select views.
    ///
    /// Return the `filtered_repos` field as a [`Vec`] of label, index tuples
    /// NOTE We use filtered_repos as it is the UI version of repo state
    pub fn selectify_repos(&self) -> (r: Vec<(&str, usize)>)
        ensures
            r@.len() == self.filtered_repos@.len(),
            forall|i: int|
                0 <= i < r@.len() ==> (#[trigger] r@[i]).0@ == self.filtered_repos@[i]@.path
                    && r@[i].1 == i,
    {
        label_repos(&self.filtered_repos)
    }

    /// Helper for the UI select views.
    ///
    /// Return a `Vec` of (label, index) pairs from the tags associated with the currently selected [`Repo`]
    /// NOTE We use filtered_repos as it is the UI version of repo state
    pub fn selectify_tags(&self, index: usize) -> (r: Vec<(&str, usize)>)
        requires
            index < self.filtered_repos@.len(),
        ensures
            r@.len() == self.filtered_repos@[index as int].tags@.len(),
            forall|i: int|
                0 <= i < r@.len() ==> (#[trigger] r@[i]).0@
                    == self.filtered_repos@[index as int].tags@[i]@ && r@[i].1 == i,
    {
        let tags = &self.filtered_repos[index].tags;
        let mut r: Vec<(&str, usize)> = Vec::new();
        let mut i: usize = 0;
        while i < tags.len()
            invariant
                i <= tags.len(),
                tags == self.filtered_repos@[index as int].tags,
                r@.len() == i,
                forall|k: int| 0 <= k < i ==> (#[trigger] r@[k]).0@ == tags@[k]@ && r@[k].1 == k,
            decreases tags.len() - i,
        {
            r.push((tags[i].name.as_str(), i));
            i += 1;
        }
        r
    }

    /// Helper for the UI select view.
    ///
    /// Returns a [`Vec`] of (label, index) pairs from all the tags currently assigned to one or more Repos *plus* the set of `default_tags` that are globally assigned by [`GitGlobalConfig`]: each name is paired with the place where it first occurs, and the pairs come in order.
    /// NOTE We use repos as well as filtered_repos in order to ensure we display all tags
    pub fn all_the_tags(&self) -> (r: Vec<(String, usize)>)
        ensures
            views(r@) == sorted_set::<(String, usize)>(
                enumerated(first_occurrences(tag_pool(*self))).to_set(),
            ),
            forall|i: int, j: int|
                0 <= i < j < r@.len() ==> (#[trigger] r@[i]).0@ != (#[trigger] r@[j]).0@,
    {
        let mut names: Vec<String> = Vec::new();
        push_tag_names(&mut names, &self.repos);
        push_names(&mut names, &self.default_tags);
        push_tag_names(&mut names, &self.filtered_repos);
        assert(strs(names) =~= tag_pool(*self));
        let unique = first_occurrences_exec(&names);
        let pairs = enumerate_strings(&unique);
        let r = sort_unique(&pairs);
        proof {
            let fo = first_occurrences(tag_pool(*self));
            let e = enumerated(fo);
            lemma_first_occurrences_unique(tag_pool(*self));
            lemma_strictly_sorted_no_duplicates::<(String, usize)>(views(r@));
            assert forall|i: int, j: int| 0 <= i < j < r@.len() implies (#[trigger] r@[i]).0@ != (
            #[trigger] r@[j]).0@ by {
                let vi = views(r@)[i];
                let vj = views(r@)[j];
                assert(views(r@).to_set().contains(vi));
                assert(views(r@).to_set().contains(vj));
                assert(e.to_set().contains(vi));
                assert(e.to_set().contains(vj));
                let a = choose|a: int| 0 <= a < e.len() && e[a] == vi;
                let b = choose|b: int| 0 <= b < e.len() && e[b] == vj;
                assert(vi != vj);
                if vi.0 == vj.0 {
                    assert(fo[a] == fo[b]);
                    assert(a == b);
                }
            }
        }
        r
    }

    /// Running this will both "refresh/recalculate" the list of
    /// tags and return them in a form you can use with a select view
    pub fn retags(&mut self) -> (r: Vec<(String, usize)>)
        ensures
            views(final(self).tags@) == sorted_set::<RepoTag>(tag_pool(*old(self)).to_set()),
            *final(self) == (LightTable { tags: final(self).tags, ..*old(self) }),
            views(r@) == enumerated(views(final(self).tags@)),
    {
        self.reset_all_tags();
        self.tags_as_list()
    }

    /// Merges the filtered repos back in, starts again from the first repo,
    /// and returns the filtered repos' paths as (label, index) pairs.
    pub fn rerepos(&mut self) -> (r: Vec<(String, usize)>)
        ensures
            merged_by_path(
                views(final(self).repos@),
                views(old(self).repos@),
                views(old(self).filtered_repos@),
            ),
            views(final(self).filtered_repos@) == views(final(self).repos@).filter(
                path_matches(old(self).repo_filter@),
            ),
            final(self).repo_index == 0,
            final(self).tag_index == old(self).tag_index,
            final(self).tags == old(self).tags,
            final(self).default_tags == old(self).default_tags,
            final(self).repo_filter == old(self).repo_filter,
            r@.len() == final(self).filtered_repos@.len(),
            forall|i: int|
                0 <= i < r@.len() ==> (#[trigger] r@[i]).0@ == final(self).filtered_repos@[i]@.path
                    && r@[i].1 == i,
    {
        self.repo_filter_update();
        self.repo_index = 0;
        let mut r: Vec<(String, usize)> = Vec::new();
        let mut i: usize = 0;
        while i < self.filtered_repos.len()
            invariant
                i <= self.filtered_repos.len(),
                r@.len() == i,
                forall|k: int|
                    0 <= k < i ==> (#[trigger] r@[k]).0@ == self.filtered_repos@[k]@.path && r@[k].1
                        == k,
            decreases self.filtered_repos.len() - i,
        {
            r.push((self.filtered_repos[i].path.clone(), i));
            i += 1;
        }
        r
    }

    /// Take our current list of tags and put them into the form of a `Vec` of (tag name, index) pairs.
    pub fn tags_as_list(&self) -> (r: Vec<(String, usize)>)
        ensures
            views(r@) == enumerated(views(self.tags@)),
    {
        let mut names: Vec<String> = Vec::new();
        push_names(&mut names, &self.tags);
        assert(strs(names) =~= views(self.tags@));
        enumerate_strings(&names)
    }

    /// Recalculate the list of tags available to choose from based on the list of `repos` and the prepopulated `default_tags`: every name once, in order.
    /// NOTE We use repos as well as filtered_repos in order to ensure we display all tags
    pub fn reset_all_tags(&mut self)
        ensures
            views(final(self).tags@) == sorted_set::<RepoTag>(tag_pool(*old(self)).to_set()),
            strictly_sorted::<RepoTag>(views(final(self).tags@)),
            *final(self) == (LightTable { tags: final(self).tags, ..*old(self) }),
    {
        let mut pool: Vec<RepoTag> = Vec::new();
        let mut names: Vec<String> = Vec::new();
        push_tag_names(&mut names, &self.repos);
        push_names(&mut names, &self.default_tags);
        push_tag_names(&mut names, &self.filtered_repos);
        let mut i: usize = 0;
        while i < names.len()
            invariant
                i <= names.len(),
                views(pool@) == strs(names).take(i as int),
            decreases names.len() - i,
        {
            let ghost prev = pool@;
            let t = RepoTag::new(names[i].as_str());
            pool.push(t);
            assert(pool@ =~= prev.push(t));
            assert(views(pool@) =~= views(prev).push(t@));
            assert(views(pool@) =~= strs(names).take(i + 1));
            i += 1;
        }
        assert(strs(names).take(i as int) =~= tag_pool(*self));
        self.tags = sort_unique(&pool);
    }

    /// The tags offered before any are known: a fixed list of common ones,
    /// each with its position.
    pub fn all_tags(&self) -> (r: Vec<(String, usize)>)
        ensures
            views(r@) == enumerated(
                seq!["haskell"@, "ml"@, "rust"@, "apple"@, "web dev"@],
            ),
    {
        let mut names: Vec<String> = Vec::new();
        names.push(String::from_str("haskell"));
        names.push(String::from_str("ml"));
        names.push(String::from_str("rust"));
        names.push(String::from_str("apple"));
        names.push(String::from_str("web dev"));
        assert(strs(names) =~= seq!["haskell"@, "ml"@, "rust"@, "apple"@, "web dev"@]);
        enumerate_strings(&names)
    }

    /// Will add a tag to the current_repo *only if it is not already there*, and will recalculate the total tag list.
    pub fn add_tag(&mut self, rt: &RepoTag) -> (added: bool)
        requires
            old(self).repo_index < old(self).filtered_repos@.len(),
        ensures
            added == !old(self).filtered_repos@[old(self).repo_index as int]@.tags.contains(rt@),
            !added ==> *final(self) == *old(self),
            added ==> ({
                let i = old(self).repo_index as int;
                let shown = views(old(self).filtered_repos@).update(
                    i,
                    RepoV {
                        path: old(self).filtered_repos@[i]@.path,
                        tags: old(self).filtered_repos@[i]@.tags.push(rt@),
                    },
                );
                &&& views(final(self).filtered_repos@) == shown
                &&& views(final(self).repos@) == views(old(self).repos@)
                &&& views(final(self).tags@) == sorted_set::<RepoTag>(
                    (tags_of_repos(views(old(self).repos@)) + views(old(self).default_tags@)
                        + tags_of_repos(shown)).to_set(),
                )
                &&& final(self).repo_index == old(self).repo_index
                &&& final(self).tag_index == old(self).tag_index
                &&& final(self).default_tags == old(self).default_tags
                &&& final(self).repo_filter == old(self).repo_filter
            }),
    {
        let i = self.repo_index;
        let mut current = self.filtered_repos[i].duplicate();
        if current.has_tag(rt.name.as_str()) {
            return false;
        }
        current.tag(rt.name.as_str());
        self.filtered_repos.set(i, current);
        self.retags();
        true
    }
}

} // verus!
