//! The list of repos that a scan of the file system finds.

use crate::models::repo::{Repo, RepoV};
use crate::models::result::strs;
use crate::order::views;
use crate::text::{
    chars_lt, chars_of, compare_chars, lemma_chars_lt_asymmetric, lemma_chars_lt_total,
    lemma_chars_lt_transitive,
};
use vstd::prelude::*;

verus! {

broadcast use vstd::seq_lib::group_to_multiset_ensures;

/// No path comes after a later one.
pub open spec fn paths_sorted(s: Seq<Seq<char>>) -> bool {
    forall|i: int, j: int| 0 <= i < j < s.len() ==> !chars_lt(#[trigger] s[j], #[trigger] s[i])
}

/// The paths of some repos.
pub open spec fn paths_of(repos: Seq<RepoV>) -> Seq<Seq<char>> {
    repos.map_values(|r: RepoV| r.path)
}

/// Puts `x` into the sorted `v`, after every path that does not come after it.
fn insert_path(v: &mut Vec<String>, x: String)
    requires
        paths_sorted(strs(*old(v))),
    ensures
        paths_sorted(strs(*final(v))),
        strs(*final(v)).to_multiset() == strs(*old(v)).to_multiset().insert(x@),
{
    let xc = chars_of(x.as_str());
    let mut pos: usize = 0;
    while pos < v.len()
        invariant
            pos <= v.len(),
            xc@ == x@,
            forall|k: int| 0 <= k < pos ==> !chars_lt(x@, #[trigger] strs(*v)[k]),
        ensures
            pos <= v.len(),
            forall|k: int| 0 <= k < pos ==> !chars_lt(x@, #[trigger] strs(*v)[k]),
            pos < v.len() ==> chars_lt(x@, strs(*v)[pos as int]),
        decreases v.len() - pos,
    {
        let c = chars_of(v[pos].as_str());
        if compare_chars(&xc, &c) < 0 {
            break;
        }
        pos += 1;
    }
    let ghost s = strs(*v);
    proof {
        assert(forall|k: int| 0 <= k < s.len() ==> s[k] == v@[k]@);
    }
    v.insert(pos, x);
    proof {
        let t = strs(*v);
        assert(t =~= s.insert(pos as int, x@));
        vstd::seq_lib::to_multiset_insert(s, pos as int, x@);
        assert forall|i: int, j: int| 0 <= i < j < t.len() implies !chars_lt(
            #[trigger] t[j],
            #[trigger] t[i],
        ) by {
            if j < pos {
                assert(t[i] == s[i] && t[j] == s[j]);
            } else if j == pos {
                assert(t[i] == s[i]);
            } else if i == pos {
                // x comes before the path that was at pos, which does not come
                // after the one now at j
                assert(t[j] == s[j - 1]);
                assert(chars_lt(x@, s[pos as int]));
                if j - 1 > pos {
                    assert(!chars_lt(s[j - 1], s[pos as int]));
                    lemma_chars_lt_total(s[j - 1], s[pos as int]);
                    if chars_lt(s[pos as int], s[j - 1]) {
                        lemma_chars_lt_transitive(x@, s[pos as int], s[j - 1]);
                    }
                }
                lemma_chars_lt_asymmetric(x@, s[j - 1]);
            } else if i < pos {
                assert(t[i] == s[i] && t[j] == s[j - 1]);
            } else {
                assert(t[i] == s[i - 1] && t[j] == s[j - 1]);
            }
        }
    }
}

/// Repos at the given paths, with no tags, ordered by path, as a scan lists
/// them.
pub fn repos_from_paths(paths: Vec<String>) -> (r: Vec<Repo>)
    ensures
        paths_sorted(paths_of(views(r@))),
        paths_of(views(r@)).to_multiset() == strs(paths).to_multiset(),
        forall|i: int| 0 <= i < r@.len() ==> (#[trigger] r@[i])@.tags.len() == 0,
{
    let mut sorted: Vec<String> = Vec::new();
    let mut i: usize = 0;
    while i < paths.len()
        invariant
            i <= paths.len(),
            paths_sorted(strs(sorted)),
            strs(sorted).to_multiset() == strs(paths).take(i as int).to_multiset(),
        decreases paths.len() - i,
    {
        insert_path(&mut sorted, paths[i].clone());
        proof {
            assert(strs(paths).take(i + 1) =~= strs(paths).take(i as int).push(paths@[i as int]@));
        }
        i += 1;
    }
    assert(strs(paths).take(i as int) =~= strs(paths));
    let mut r: Vec<Repo> = Vec::new();
    let mut k: usize = 0;
    while k < sorted.len()
        invariant
            k <= sorted.len(),
            r@.len() == k,
            paths_of(views(r@)) == strs(sorted).take(k as int),
            forall|j: int| 0 <= j < r@.len() ==> (#[trigger] r@[j])@.tags.len() == 0,
        decreases sorted.len() - k,
    {
        let ghost prev = r@;
        let repo = Repo::new(sorted[k].clone());
        r.push(repo);
        proof {
            assert(r@ =~= prev.push(repo));
            assert(paths_of(views(r@)) =~= paths_of(views(prev)).push(repo@.path));
            assert(strs(sorted).take(k + 1) =~= strs(sorted).take(k as int).push(sorted@[k as int]@));
        }
        k += 1;
    }
    assert(strs(sorted).take(k as int) =~= strs(sorted));
    r
}

} // verus!
