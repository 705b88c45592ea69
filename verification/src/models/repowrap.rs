use crate::models::repo::{Repo, RepoV};
use crate::order::Ranked;
use crate::text::{chars_lt, chars_of, compare_chars};
use vstd::prelude::*;

verus! {

/// A repo whose identity, for merging, is its path alone.
#[derive(Debug, PartialOrd, Ord, Clone)]
pub struct RepoWrap(Repo);

/// Two wrapped repos are equal when their paths are.
impl PartialEq for RepoWrap {
    fn eq(&self, other: &Self) -> (r: bool) {
        let a = chars_of(self.0.path.as_str());
        let b = chars_of(other.0.path.as_str());
        compare_chars(&a, &b) == 0
    }
}

impl vstd::std_specs::cmp::PartialEqSpecImpl for RepoWrap {
    open spec fn obeys_eq_spec() -> bool {
        true
    }

    open spec fn eq_spec(&self, other: &Self) -> bool {
        self@.path == other@.path
    }
}

impl Eq for RepoWrap {

}

impl View for RepoWrap {
    type V = RepoV;

    closed spec fn view(&self) -> RepoV {
        self.0@
    }
}

impl RepoWrap {
    /// The wrapped repo.
    pub fn repo(&self) -> (r: &Repo)
        ensures
            r@ == self@,
    {
        &self.0
    }
}

impl From<Repo> for RepoWrap {
    fn from(r: Repo) -> (w: Self) {
        RepoWrap(r)
    }
}

impl vstd::std_specs::convert::FromSpecImpl<Repo> for RepoWrap {
    open spec fn obeys_from_spec() -> bool {
        true
    }

    closed spec fn from_spec(v: Repo) -> RepoWrap {
        RepoWrap(v)
    }
}

/// The repos of a sequence of wrapped repos, as views.
pub open spec fn wrap_views(s: Seq<RepoWrap>) -> Seq<RepoV> {
    s.map_values(|w: RepoWrap| w@)
}

/// The repos of a sequence, as views.
pub open spec fn repo_views(s: Seq<Repo>) -> Seq<RepoV> {
    s.map_values(|r: Repo| r@)
}

/// Conversion from a collection of repos.
pub trait MyFrom<T>: Sized {
    /// `r` is what converting `t` gives.
    spec fn converts_from(t: T, r: Self) -> bool;

    fn from(t: T) -> (r: Self)
        ensures
            Self::converts_from(t, r),
    ;
}

impl MyFrom<Vec<Repo>> for Vec<RepoWrap> {
    open spec fn converts_from(t: Vec<Repo>, r: Self) -> bool {
        wrap_views(r@) == repo_views(t@)
    }

    fn from(repos: Vec<Repo>) -> (r: Self) {
        let mut repos = repos;
        let mut r: Vec<RepoWrap> = Vec::new();
        let ghost all = repos@;
        // take the repos out from the back, then reverse
        while repos.len() > 0
            invariant
                repos@ == all.take(all.len() - r.len()),
                r.len() <= all.len(),
                forall|k: int| 0 <= k < r.len() ==> #[trigger] r@[k]@ == all[all.len() - 1 - k]@,
            decreases repos.len(),
        {
            let x = repos.pop().unwrap();
            r.push(RepoWrap(x));
        }
        let mut out: Vec<RepoWrap> = Vec::new();
        while r.len() > 0
            invariant
                r.len() + out.len() == all.len(),
                forall|k: int| 0 <= k < r.len() ==> #[trigger] r@[k]@ == all[all.len() - 1 - k]@,
                forall|k: int| 0 <= k < out.len() ==> #[trigger] out@[k]@ == all[k]@,
            decreases r.len(),
        {
            let x = r.pop().unwrap();
            out.push(x);
        }
        assert(wrap_views(out@) =~= repo_views(all));
        out
    }
}

/// Conversion into a collection of repos.
pub trait MyInto<T>: Sized {
    /// `r` is what converting `s` gives.
    spec fn converts_into(s: Self, r: T) -> bool;

    fn into(self) -> (r: T)
        ensures
            Self::converts_into(self, r),
    ;
}

impl MyInto<Vec<Repo>> for Vec<RepoWrap> {
    open spec fn converts_into(s: Self, r: Vec<Repo>) -> bool {
        repo_views(r@) == wrap_views(s@)
    }

    fn into(self) -> (r: Vec<Repo>) {
        let mut ws = self;
        let ghost all = ws@;
        let mut rev: Vec<Repo> = Vec::new();
        while ws.len() > 0
            invariant
                ws@ == all.take(all.len() - rev.len()),
                rev.len() <= all.len(),
                forall|k: int| 0 <= k < rev.len() ==> #[trigger] rev@[k]@ == all[all.len() - 1 - k]@,
            decreases ws.len(),
        {
            let w = ws.pop().unwrap();
            let RepoWrap(x) = w;
            rev.push(x);
        }
        let mut out: Vec<Repo> = Vec::new();
        while rev.len() > 0
            invariant
                rev.len() + out.len() == all.len(),
                forall|k: int| 0 <= k < rev.len() ==> #[trigger] rev@[k]@ == all[all.len() - 1 - k]@,
                forall|k: int| 0 <= k < out.len() ==> #[trigger] out@[k]@ == all[k]@,
            decreases rev.len(),
        {
            let x = rev.pop().unwrap();
            out.push(x);
        }
        assert(repo_views(out@) =~= wrap_views(all));
        out
    }
}

/// `s[i]` is the first repo in `s` with the path `p`.
pub open spec fn first_with_path(s: Seq<RepoV>, p: Seq<char>, i: int) -> bool {
    0 <= i < s.len() && s[i].path == p && forall|j: int| 0 <= j < i ==> s[j].path != p
}

/// `x` is the first repo in `s` with its path.
pub open spec fn first_of_its_path(s: Seq<RepoV>, x: RepoV) -> bool {
    exists|i: int| first_with_path(s, x.path, i) && s[i] == x
}

/// Some repo in `s` has the path `p`.
pub open spec fn has_path(s: Seq<RepoV>, p: Seq<char>) -> bool {
    exists|i: int| 0 <= i < s.len() && s[i].path == p
}

/// The paths strictly increase along `s`.
pub open spec fn sorted_by_path(s: Seq<RepoV>) -> bool {
    forall|i: int, j: int| 0 <= i < j < s.len() ==> chars_lt(#[trigger] s[i].path, #[trigger] s[j].path)
}

/// What merging `mine` with `theirs` gives: one repo per path found in either,
/// ordered by path; where both have a path, the first repo of `theirs` with it,
/// else the first of `mine`.
pub open spec fn merged_by_path(r: Seq<RepoV>, mine: Seq<RepoV>, theirs: Seq<RepoV>) -> bool {
    &&& sorted_by_path(r)
    &&& forall|p: Seq<char>| has_path(r, p) <==> (has_path(mine, p) || has_path(theirs, p))
    &&& forall|k: int|
        0 <= k < r.len() ==> if has_path(theirs, #[trigger] r[k].path) {
            first_of_its_path(theirs, r[k])
        } else {
            first_of_its_path(mine, r[k])
        }
}

/// Puts `x` in the vector sorted by path, unless its path is already there.
fn insert_by_path(v: &mut Vec<RepoWrap>, x: RepoWrap) -> (added: bool)
    requires
        sorted_by_path(wrap_views(old(v)@)),
    ensures
        sorted_by_path(wrap_views(final(v)@)),
        added == !has_path(wrap_views(old(v)@), x@.path),
        added ==> exists|i: int|
            0 <= i <= old(v)@.len() && wrap_views(final(v)@) == wrap_views(old(v)@).insert(i, x@),
        !added ==> final(v)@ == old(v)@,
{
    let ghost old_views = wrap_views(v@);
    let xp = chars_of(x.0.path.as_str());
    let mut i: usize = 0;
    loop
        invariant
            i <= v.len(),
            v@ == old(v)@,
            old_views == wrap_views(v@),
            xp@ == x@.path,
            sorted_by_path(old_views),
            forall|k: int| 0 <= k < i ==> chars_lt(#[trigger] old_views[k].path, x@.path),
        ensures
            i <= v.len(),
            v@ == old(v)@,
            forall|k: int| 0 <= k < i ==> chars_lt(#[trigger] old_views[k].path, x@.path),
            i < v.len() ==> chars_lt(x@.path, old_views[i as int].path),
        decreases v.len() - i,
    {
        if i == v.len() {
            break;
        }
        let p = chars_of(v[i].0.path.as_str());
        let c = compare_chars(&p, &xp);
        if c == 0 {
            assert(old_views[i as int].path == x@.path);
            return false;
        }
        if c > 0 {
            break;
        }
        i += 1;
    }
    proof {
        if i < v.len() {
            assert forall|k: int| i <= k < old_views.len() implies chars_lt(
                x@.path,
                #[trigger] old_views[k].path,
            ) by {
                if k > i {
                    assert(chars_lt(old_views[i as int].path, old_views[k].path));
                    crate::text::lemma_chars_lt_transitive(
                        x@.path,
                        old_views[i as int].path,
                        old_views[k].path,
                    );
                }
            }
        }
        assert(!has_path(old_views, x@.path)) by {
            if has_path(old_views, x@.path) {
                let k = choose|k: int| 0 <= k < old_views.len() && old_views[k].path == x@.path;
                crate::text::lemma_chars_lt_irreflexive(x@.path);
                if k < i {
                    assert(chars_lt(old_views[k].path, x@.path));
                } else {
                    assert(chars_lt(x@.path, old_views[k].path));
                }
            }
        }
    }
    v.insert(i, x);
    proof {
        let nv = wrap_views(v@);
        assert(nv =~= old_views.insert(i as int, x@));
        assert forall|a: int, b: int| 0 <= a < b < nv.len() implies chars_lt(
            #[trigger] nv[a].path,
            #[trigger] nv[b].path,
        ) by {
            if b < i {
                assert(chars_lt(old_views[a].path, old_views[b].path));
            } else if b == i {
                assert(chars_lt(old_views[a].path, x@.path));
            } else if a < i {
                assert(chars_lt(old_views[a].path, old_views[b - 1].path));
            } else if a == i {
                assert(chars_lt(x@.path, old_views[b - 1].path));
            } else {
                assert(chars_lt(old_views[a - 1].path, old_views[b - 1].path));
            }
        }
    }
    true
}

/// Merging two lists of repos, where repos are the same if their paths are.
pub trait Mergeable: Sized {
    fn merge_other(&mut self, other: Self) -> Self;
}

impl Mergeable for Vec<RepoWrap> {
    /// One repo per path of `self` or `other`, ordered by path; a path in
    /// `other` keeps the first repo of `other` with it, any other path the
    /// first repo of `self` with it. `self` itself is left as it was.
    fn merge_other(&mut self, other: Self) -> (r: Self)
        ensures
            *final(self) == *old(self),
            merged_by_path(wrap_views(r@), wrap_views(old(self)@), wrap_views(other@)),
    {
        let ghost mine = wrap_views(self@);
        let ghost theirs = wrap_views(other@);
        let mut r: Vec<RepoWrap> = Vec::new();
        let mut i: usize = 0;
        // first the repos of `other`
        while i < other.len()
            invariant
                i <= other.len(),
                theirs == wrap_views(other@),
                sorted_by_path(wrap_views(r@)),
                forall|p: Seq<char>|
                    has_path(wrap_views(r@), p) <==> has_path(theirs.take(i as int), p),
                forall|k: int|
                    0 <= k < r.len() ==> first_of_its_path(theirs, #[trigger] wrap_views(r@)[k]),
            decreases other.len() - i,
        {
            let ghost prev = wrap_views(r@);
            assert(forall|p: Seq<char>| has_path(prev, p) <==> has_path(theirs.take(i as int), p));

            let x = RepoWrap(other[i].0.duplicate());
            let added = insert_by_path(&mut r, x);
            proof {
                let nv = wrap_views(r@);
                let t1 = theirs.take(i + 1);
                assert forall|p: Seq<char>| has_path(nv, p) <==> has_path(t1, p) by {
                    if has_path(t1, p) {
                        let k = choose|k: int| 0 <= k < t1.len() && t1[k].path == p;
                        if k < i {
                            assert(theirs.take(i as int)[k].path == p);
                            assert(has_path(prev, p));
                            let m = choose|m: int| 0 <= m < prev.len() && prev[m].path == p;
                            if added {
                                let ins = choose|ins: int|
                                    0 <= ins <= prev.len() && nv == prev.insert(ins, x@);
                                if m < ins {
                                    assert(nv[m].path == p);
                                } else {
                                    assert(nv[m + 1].path == p);
                                }
                            } else {
                                assert(nv[m].path == p);
                            }
                        } else {
                            assert(x@ == theirs[i as int]);
                            if added {
                                let ins = choose|ins: int|
                                    0 <= ins <= prev.len() && nv == prev.insert(ins, x@);
                                assert(nv[ins].path == p);
                            } else {
                                assert(has_path(prev, x@.path));
                            }
                        }
                    }
                    if has_path(nv, p) {
                        let k = choose|k: int| 0 <= k < nv.len() && nv[k].path == p;
                        if added {
                            let ins = choose|ins: int|
                                0 <= ins <= prev.len() && nv == prev.insert(ins, x@);
                            if k == ins {
                                assert(t1[i as int] == x@);
                            } else if k < ins {
                                assert(prev[k].path == p);
                                assert(has_path(prev, p));
                                let m = choose|m: int|
                                    0 <= m < theirs.take(i as int).len() && theirs.take(i as int)[m].path == p;
                                assert(t1[m].path == p);
                            } else {
                                assert(prev[k - 1].path == p);
                                assert(has_path(prev, p));
                                let m = choose|m: int|
                                    0 <= m < theirs.take(i as int).len() && theirs.take(i as int)[m].path == p;
                                assert(t1[m].path == p);
                            }
                        } else {
                            assert(prev[k].path == p);
                            assert(has_path(prev, p));
                            let m = choose|m: int|
                                0 <= m < theirs.take(i as int).len() && theirs.take(i as int)[m].path == p;
                            assert(t1[m].path == p);
                        }
                    }
                }
                assert forall|k: int| 0 <= k < r.len() implies first_of_its_path(
                    theirs,
                    #[trigger] wrap_views(r@)[k],
                ) by {
                    if added {
                        let ins = choose|ins: int| 0 <= ins <= prev.len() && nv == prev.insert(ins, x@);
                        if k == ins {
                            assert(first_with_path(theirs, x@.path, i as int)) by {
                                assert forall|j: int| 0 <= j < i implies theirs[j].path != x@.path by {
                                    if theirs[j].path == x@.path {
                                        assert(theirs.take(i as int)[j].path == x@.path);
                                        assert(has_path(prev, x@.path));
                                    }
                                }
                            }
                            assert(nv[k] == x@);
                            assert(theirs[i as int] == x@);
                            assert(first_with_path(theirs, nv[k].path, i as int) && theirs[i as int] == nv[k]);
                            assert(first_of_its_path(theirs, nv[k]));
                        } else if k < ins {
                            assert(nv[k] == prev[k]);
                            assert(first_of_its_path(theirs, prev[k]));
                        } else {
                            assert(nv[k] == prev[k - 1]);
                            assert(first_of_its_path(theirs, prev[k - 1]));
                        }
                    } else {
                        assert(nv[k] == prev[k]);
                        assert(first_of_its_path(theirs, prev[k]));
                    }
                }
            }
            i += 1;
        }
        assert(theirs.take(other.len() as int) =~= theirs);
        // then the repos of `self` whose paths `other` lacks
        let mut i: usize = 0;
        while i < self.len()
            invariant
                i <= self.len(),
                *self == *old(self),
                mine == wrap_views(self@),
                sorted_by_path(wrap_views(r@)),
                forall|p: Seq<char>|
                    has_path(wrap_views(r@), p) <==> (has_path(theirs, p) || has_path(
                        mine.take(i as int),
                        p,
                    )),
                forall|k: int|
                    0 <= k < r.len() ==> if has_path(theirs, #[trigger] wrap_views(r@)[k].path) {
                        first_of_its_path(theirs, wrap_views(r@)[k])
                    } else {
                        first_of_its_path(mine, wrap_views(r@)[k])
                    },
            decreases self.len() - i,
        {
            let ghost prev = wrap_views(r@);
            assert(forall|p: Seq<char>|
                has_path(prev, p) <==> (has_path(theirs, p) || has_path(mine.take(i as int), p)));
            let x = RepoWrap(self[i].0.duplicate());
            let added = insert_by_path(&mut r, x);
            proof {
                let nv = wrap_views(r@);
                let m1 = mine.take(i + 1);
                assert(x@ == mine[i as int]);
                assert forall|p: Seq<char>|
                    has_path(nv, p) <==> (has_path(theirs, p) || has_path(m1, p)) by {
                    if has_path(theirs, p) || has_path(m1, p) {
                        let in_prev = has_path(theirs, p) || has_path(mine.take(i as int), p);
                        if !in_prev {
                            let k = choose|k: int| 0 <= k < m1.len() && m1[k].path == p;
                            if k < i {
                                assert(mine.take(i as int)[k].path == p);
                            }
                            assert(p == x@.path);
                        }
                        if in_prev {
                            assert(has_path(prev, p));
                            let m = choose|m: int| 0 <= m < prev.len() && prev[m].path == p;
                            if added {
                                let ins = choose|ins: int|
                                    0 <= ins <= prev.len() && nv == prev.insert(ins, x@);
                                if m < ins {
                                    assert(nv[m].path == p);
                                } else {
                                    assert(nv[m + 1].path == p);
                                }
                            } else {
                                assert(nv[m].path == p);
                            }
                        } else {
                            if added {
                                let ins = choose|ins: int|
                                    0 <= ins <= prev.len() && nv == prev.insert(ins, x@);
                                assert(nv[ins].path == p);
                            } else {
                                assert(has_path(prev, x@.path));
                            }
                        }
                    }
                    if has_path(nv, p) {
                        let k = choose|k: int| 0 <= k < nv.len() && nv[k].path == p;
                        let mut q: int = k;
                        if added {
                            let ins = choose|ins: int|
                                0 <= ins <= prev.len() && nv == prev.insert(ins, x@);
                            if k == ins {
                                assert(m1[i as int] == x@);
                            } else {
                                let kk = if k < ins { k } else { k - 1 };
                                assert(prev[kk].path == p);
                                if has_path(mine.take(i as int), p) {
                                    let m = choose|m: int|
                                        0 <= m < mine.take(i as int).len() && mine.take(i as int)[m].path == p;
                                    assert(m1[m].path == p);
                                }
                            }
                        } else {
                            assert(prev[k].path == p);
                            if has_path(mine.take(i as int), p) {
                                let m = choose|m: int|
                                    0 <= m < mine.take(i as int).len() && mine.take(i as int)[m].path == p;
                                assert(m1[m].path == p);
                            }
                        }
                    }
                }
                assert forall|k: int| 0 <= k < r.len() implies (if has_path(
                    theirs,
                    #[trigger] wrap_views(r@)[k].path,
                ) {
                    first_of_its_path(theirs, wrap_views(r@)[k])
                } else {
                    first_of_its_path(mine, wrap_views(r@)[k])
                }) by {
                    if added {
                        let ins = choose|ins: int| 0 <= ins <= prev.len() && nv == prev.insert(ins, x@);
                        if k == ins {
                            assert(!has_path(theirs, x@.path)) by {
                                if has_path(theirs, x@.path) {
                                    assert(has_path(prev, x@.path));
                                }
                            }
                            assert(first_with_path(mine, x@.path, i as int)) by {
                                assert forall|j: int| 0 <= j < i implies mine[j].path != x@.path by {
                                    if mine[j].path == x@.path {
                                        assert(mine.take(i as int)[j].path == x@.path);
                                        assert(has_path(prev, x@.path));
                                    }
                                }
                            }
                            assert(nv[k] == x@);
                            assert(first_with_path(mine, nv[k].path, i as int) && mine[i as int] == nv[k]);
                            assert(first_of_its_path(mine, nv[k]));
                        } else if k < ins {
                            assert(nv[k] == prev[k]);
                        } else {
                            assert(nv[k] == prev[k - 1]);
                        }
                    } else {
                        assert(nv[k] == prev[k]);
                    }
                }
            }
            i += 1;
        }
        assert(mine.take(i as int) =~= mine);
        assert(wrap_views(old(self)@) == mine);
        assert(sorted_by_path(wrap_views(r@)));
        assert forall|p: Seq<char>|
            has_path(wrap_views(r@), p) <==> (has_path(mine, p) || has_path(theirs, p)) by {
            assert(has_path(wrap_views(r@), p) <==> (has_path(theirs, p) || has_path(
                mine.take(i as int),
                p,
            )));
        }
        r
    }
}

} // verus!
