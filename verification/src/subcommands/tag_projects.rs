//! What the tagging prompt computes.

use crate::models::repo::Repo;
use crate::models::repo_tag::RepoTag;
use crate::text::{after_last_slash, after_last_slash_exec, chars_of};
use std::cell::RefCell;
use std::rc::Rc;
use vstd::prelude::*;
use vstd::string::StrSliceExecFns;

verus! {

/// The part of a path after its last `/` (the whole path where there is none).
pub open spec fn tail_after_last_slash(p: Seq<char>) -> Seq<char> {
    p.skip(after_last_slash(p))
}

/// The name taken from a path is what follows its last `/`: a name holding no
/// `/` after a directory and a `/`, or the whole of a path with no `/`.
pub proof fn law_name_follows_last_slash(dir: Seq<char>, n: Seq<char>)
    requires
        forall|i: int| 0 <= i < n.len() ==> n[i] != '/',
    ensures
        tail_after_last_slash(dir + seq!['/'] + n) == n,
        tail_after_last_slash(n) == n,
{
    crate::text::lemma_after_last_slash_of_name(dir, n);
    crate::text::lemma_after_last_slash_of_name_alone(n);
    assert((dir + seq!['/'] + n).skip(dir.len() + 1int) =~= n);
    assert(n.skip(0) =~= n);
}

/// The name of a repo given its path: the part after the last `/`, which is
/// the first piece that splitting the path at `/` from the right gives.
pub fn repo_2_name<'a>(s: &'a str) -> (r: &'a str)
    ensures
        r@ == tail_after_last_slash(s@),
{
    let v = chars_of(s);
    let a = after_last_slash_exec(&v, v.len());
    proof {
        assert(v@.take(v.len() as int) =~= s@);
        crate::text::lemma_after_last_slash(s@);
    }
    let r = s.substring_char(a, v.len());
    assert(r@ =~= s@.skip(a as int));
    r
}

/// The state of the tagging prompt, shared with its callbacks: the repos, the
/// one selected, and the tags on offer.
pub struct TagStatus {
    pub repos: Rc<RefCell<Vec<Repo>>>,
    pub current_repo: Rc<RefCell<Repo>>,
    pub current_tags: Rc<RefCell<Vec<RepoTag>>>,
}

impl TagStatus {
    /// A state over the given shared values.
    pub fn new(
        repos: Rc<RefCell<Vec<Repo>>>,
        repo: Rc<RefCell<Repo>>,
        tags: Rc<RefCell<Vec<RepoTag>>>,
    ) -> (r: TagStatus)
        ensures
            r.repos == repos,
            r.current_repo == repo,
            r.current_tags == tags,
    {
        TagStatus { repos: repos, current_repo: repo, current_tags: tags }
    }

    /// A state over the given shared values.
    pub fn new_from_rc(
        repos: Rc<RefCell<Vec<Repo>>>,
        repo: Rc<RefCell<Repo>>,
        tags: Rc<RefCell<Vec<RepoTag>>>,
    ) -> (r: TagStatus)
        ensures
            r.repos == repos,
            r.current_repo == repo,
            r.current_tags == tags,
    {
        Self::new(repos, repo, tags)
    }

    /// Selecting a repo leaves the state as it is, and hands it back.
    pub fn select_repo(&mut self, repo: Repo) -> (r: &mut TagStatus)
        ensures
            *r == *old(self),
            *final(self) == *final(r),
    {
        self
    }
}

/// Asking whether to delete the tag at `index` of a list.
pub struct DeleteTagPrompt {
    pub index: usize,
    pub message: String,
}

/// Where a tag of the list is selected, the question to ask before deleting
/// it; nothing where none is.
pub fn delete_tag(selected: Option<usize>, values: &Vec<String>) -> (r: Option<DeleteTagPrompt>)
    requires
        selected matches Some(i) ==> i < values@.len(),
    ensures
        selected is None ==> r is None,
        selected matches Some(i) ==> (r matches Some(p) && p.index == i && p.message@ == "Delete tag: "@
            + values@[i as int]@ + "?"@),
{
    match selected {
        Some(id) => {
            let mut message = String::from_str("Delete tag: ");
            message.append(values[id].as_str());
            message.append("?");
            Some(DeleteTagPrompt { index: id, message })
        },
        None => None,
    }
}

} // verus!
