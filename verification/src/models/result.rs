//! The [`GitGlobalResult`] struct: the result of a git-global subcommand.
//!
//! It holds a list of repos, messages about the operation as a whole, and
//! messages for each repo.
use crate::models::repo::{Filterable, Repo, RepoV};
use crate::models::repo_tag::{tags_of_repos, RepoTag};
use crate::order::{views, Ranked};
use vstd::prelude::*;

verus! {

/// The views of a list of strings.
pub open spec fn strs(v: Vec<String>) -> Seq<Seq<char>> {
    v@.map_values(|s: String| s@)
}

/// The map that a list of (repo, messages) entries stands for; where a repo
/// occurs more than once, the last entry counts.
pub open spec fn entries_map(s: Seq<(Repo, Vec<String>)>) -> Map<RepoV, Seq<Seq<char>>>
    decreases s.len(),
{
    if s.len() == 0 {
        Map::empty()
    } else {
        entries_map(s.drop_last()).insert(s.last().0@, strs(s.last().1))
    }
}

pub proof fn lemma_entries_map_dom(s: Seq<(Repo, Vec<String>)>, k: RepoV)
    ensures
        entries_map(s).dom().contains(k) <==> exists|i: int| 0 <= i < s.len() && s[i].0@ == k,
    decreases s.len(),
{
    if s.len() > 0 {
        lemma_entries_map_dom(s.drop_last(), k);
        if exists|i: int| 0 <= i < s.len() && s[i].0@ == k {
            let i = choose|i: int| 0 <= i < s.len() && s[i].0@ == k;
            if i < s.len() - 1 {
                assert(s.drop_last()[i].0@ == k);
            }
        }
        if exists|i: int| 0 <= i < s.drop_last().len() && s.drop_last()[i].0@ == k {
            let i = choose|i: int| 0 <= i < s.drop_last().len() && s.drop_last()[i].0@ == k;
            assert(s[i].0@ == k);
        }
    }
}

pub proof fn lemma_entries_map_last(s: Seq<(Repo, Vec<String>)>, i: int)
    requires
        0 <= i < s.len(),
        forall|j: int| i < j < s.len() ==> s[j].0@ != s[i].0@,
    ensures
        entries_map(s).dom().contains(s[i].0@),
        entries_map(s)[s[i].0@] == strs(s[i].1),
    decreases s.len(),
{
    if i < s.len() - 1 {
        lemma_entries_map_last(s.drop_last(), i);
    }
}

pub proof fn lemma_entries_map_update(s: Seq<(Repo, Vec<String>)>, i: int, v: Vec<String>)
    requires
        0 <= i < s.len(),
        forall|j: int| i < j < s.len() ==> s[j].0@ != s[i].0@,
    ensures
        entries_map(s.update(i, (s[i].0, v))) == entries_map(s).insert(s[i].0@, strs(v)),
    decreases s.len(),
{
    let t = s.update(i, (s[i].0, v));
    if i == s.len() - 1 {
        assert(t.drop_last() =~= s.drop_last());
        assert(entries_map(t) =~= entries_map(s).insert(s[i].0@, strs(v)));
    } else {
        assert(t.drop_last() =~= s.drop_last().update(i, (s[i].0, v)));
        lemma_entries_map_update(s.drop_last(), i, v);
        assert(entries_map(t) =~= entries_map(s).insert(s[i].0@, strs(v)));
    }
}

pub proof fn lemma_entries_map_append(s: Seq<(Repo, Vec<String>)>, t: Seq<(Repo, Vec<String>)>)
    ensures
        entries_map(s + t) == entries_map(s).union_prefer_right(entries_map(t)),
    decreases t.len(),
{
    if t.len() == 0 {
        assert(s + t =~= s);
        assert(entries_map(s).union_prefer_right(entries_map(t)) =~= entries_map(s));
    } else {
        assert((s + t).drop_last() =~= s + t.drop_last());
        lemma_entries_map_append(s, t.drop_last());
        assert(entries_map(s + t) =~= entries_map(s).union_prefer_right(entries_map(t)));
    }
}

/// The views of (repo, messages) entries.
pub open spec fn entry_views(s: Seq<(Repo, Vec<String>)>) -> Seq<(RepoV, Seq<Seq<char>>)> {
    s.map_values(|e: (Repo, Vec<String>)| (e.0@, strs(e.1)))
}

/// The map that a list of (repo, messages) views stands for; where a repo
/// occurs more than once, the last entry counts.
pub open spec fn view_entries_map(s: Seq<(RepoV, Seq<Seq<char>>)>) -> Map<RepoV, Seq<Seq<char>>>
    decreases s.len(),
{
    if s.len() == 0 {
        Map::empty()
    } else {
        view_entries_map(s.drop_last()).insert(s.last().0, s.last().1)
    }
}

pub proof fn lemma_entry_views_map(s: Seq<(Repo, Vec<String>)>)
    ensures
        entries_map(s) == view_entries_map(entry_views(s)),
    decreases s.len(),
{
    if s.len() > 0 {
        assert(entry_views(s.drop_last()) =~= entry_views(s).drop_last());
        lemma_entry_views_map(s.drop_last());
    }
}

/// The lines printed for one repo: its path, then its non-empty messages, then
/// a blank line if output is padded; nothing if it has no messages.
pub open spec fn repo_block(pad: bool, path: Seq<char>, msgs: Seq<Seq<char>>) -> Seq<Seq<char>> {
    if msgs.len() > 0 {
        seq![path] + msgs.filter(|l: Seq<char>| l.len() > 0) + (if pad {
            seq![Seq::<char>::empty()]
        } else {
            Seq::empty()
        })
    } else {
        Seq::empty()
    }
}

/// The lines printed for the repos in `repos`, in order.
pub open spec fn repo_blocks(
    repos: Seq<RepoV>,
    m: Map<RepoV, Seq<Seq<char>>>,
    pad: bool,
) -> Seq<Seq<char>>
    decreases repos.len(),
{
    if repos.len() == 0 {
        Seq::empty()
    } else {
        repo_blocks(repos.drop_last(), m, pad) + repo_block(pad, repos.last().path, m[repos.last()])
    }
}

/// The first repo in `repos` whose path is `path`, if there is one.
pub open spec fn repo_with_path(repos: Seq<RepoV>, path: Seq<char>) -> Option<RepoV>
    decreases repos.len(),
{
    if repos.len() == 0 {
        None
    } else if repos[0].path == path {
        Some(repos[0])
    } else {
        repo_with_path(repos.drop_first(), path)
    }
}

/// What a [`GitGlobalResult`] holds.
pub struct GitGlobalResultV {
    pub messages: Seq<Seq<char>>,
    pub repos: Seq<RepoV>,
    pub repo_messages: Map<RepoV, Seq<Seq<char>>>,
    pub pad_repo_output: bool,
}

/// The result of a git-global subcommand.
///
/// Contains overall messages, per-repo messages, and a list of repos.
#[derive(Clone, Debug)]
pub struct GitGlobalResult {
    messages: Vec<String>,
    pub repos: Vec<Repo>,
    repo_messages: Vec<(Repo, Vec<String>)>,
    flag_pad_repo_output: bool,
}

impl View for GitGlobalResult {
    type V = GitGlobalResultV;

    closed spec fn view(&self) -> GitGlobalResultV {
        GitGlobalResultV {
            messages: strs(self.messages),
            repos: views(self.repos@),
            repo_messages: entries_map(self.repo_messages@),
            pad_repo_output: self.flag_pad_repo_output,
        }
    }
}

/// The map that gives every repo in `repos` an empty list of messages.
pub open spec fn empty_messages_for(repos: Seq<RepoV>) -> Map<RepoV, Seq<Seq<char>>> {
    Map::new(|r: RepoV| repos.contains(r), |r: RepoV| Seq::empty())
}

/// The per-repo messages after each (repo, line) pair in turn is added to
/// them: a line for a repo that has no entry is dropped.
pub open spec fn with_repo_lines(
    m: Map<RepoV, Seq<Seq<char>>>,
    adds: Seq<(RepoV, Seq<char>)>,
) -> Map<RepoV, Seq<Seq<char>>>
    decreases adds.len(),
{
    if adds.len() == 0 {
        m
    } else {
        let prev = with_repo_lines(m, adds.drop_last());
        let (k, l) = adds.last();
        if prev.dom().contains(k) {
            prev.insert(k, prev[k].push(l))
        } else {
            prev
        }
    }
}

/// A repo with any message, even an empty one, is shown by its path, and the
/// empty messages are not shown: an empty message is how a repo is listed
/// with nothing more.
pub proof fn law_empty_message_shows_repo(pad: bool, path: Seq<char>, msgs: Seq<Seq<char>>)
    ensures
        repo_block(pad, path, msgs.push(Seq::empty())).len() > 0,
        repo_block(pad, path, msgs.push(Seq::empty()))[0] == path,
        msgs.push(Seq::empty()).filter(|l: Seq<char>| l.len() > 0) == msgs.filter(
            |l: Seq<char>| l.len() > 0,
        ),
{
    msgs.lemma_filter_push(Seq::<char>::empty(), |l: Seq<char>| l.len() > 0);
}

/// Every repo of the result has an entry for its messages, as printing needs.
pub open spec fn printable(v: GitGlobalResultV) -> bool {
    forall|k: int| 0 <= k < v.repos.len() ==> v.repo_messages.dom().contains(#[trigger] v.repos[k])
}

/// A fresh result is printable.
pub proof fn law_new_is_printable(repos: Seq<RepoV>)
    ensures
        printable(
            GitGlobalResultV {
                messages: Seq::empty(),
                repos,
                repo_messages: empty_messages_for(repos),
                pad_repo_output: false,
            },
        ),
{
    assert forall|k: int| 0 <= k < repos.len() implies empty_messages_for(repos).dom().contains(
        #[trigger] repos[k],
    ) by {
        assert(repos.contains(repos[k]));
    }
}

/// Adding a message, adding a message to a repo that the result knows, and
/// padding keep a result printable.
pub proof fn law_adding_keeps_printable(
    v: GitGlobalResultV,
    message: Seq<char>,
    repo: RepoV,
    line: Seq<char>,
)
    requires
        printable(v),
    ensures
        printable(GitGlobalResultV { messages: v.messages.push(message), ..v }),
        printable(GitGlobalResultV { pad_repo_output: true, ..v }),
        v.repo_messages.dom().contains(repo) ==> printable(
            GitGlobalResultV {
                repo_messages: v.repo_messages.insert(repo, v.repo_messages[repo].push(line)),
                ..v
            },
        ),
{
}

/// Merging two printable results gives a printable result.
pub proof fn law_merge_keeps_printable(a: GitGlobalResultV, b: GitGlobalResultV)
    requires
        printable(a),
        printable(b),
    ensures
        printable(
            GitGlobalResultV {
                messages: a.messages + b.messages,
                repos: a.repos + b.repos,
                repo_messages: a.repo_messages.union_prefer_right(b.repo_messages),
                pad_repo_output: a.pad_repo_output,
            },
        ),
{
    let rs = a.repos + b.repos;
    assert forall|k: int| 0 <= k < rs.len() implies a.repo_messages.union_prefer_right(
        b.repo_messages,
    ).dom().contains(#[trigger] rs[k]) by {
        if k < a.repos.len() {
            assert(rs[k] == a.repos[k]);
        } else {
            assert(rs[k] == b.repos[k - a.repos.len()]);
        }
    }
}

impl GitGlobalResult {
    pub fn new(repos: &Vec<Repo>) -> (r: GitGlobalResult)
        ensures
            r@.messages == Seq::<Seq<char>>::empty(),
            r@.repos == views(repos@),
            r@.repo_messages == empty_messages_for(views(repos@)),
            !r@.pad_repo_output,
    {
        let mut entries: Vec<(Repo, Vec<String>)> = Vec::new();
        let mut copies: Vec<Repo> = Vec::new();
        let mut i: usize = 0;
        while i < repos.len()
            invariant
                i <= repos.len(),
                views(copies@) == views(repos@.take(i as int)),
                entries_map(entries@) == empty_messages_for(views(repos@.take(i as int))),
            decreases repos.len() - i,
        {
            let ghost prev = entries@;
            let ghost prev_copies = copies@;
            let k = repos[i].duplicate();
            let e: Vec<String> = Vec::new();
            entries.push((k, e));
            copies.push(repos[i].duplicate());
            proof {
                assert(entries@.drop_last() == prev);
                assert(strs(e) =~= Seq::<Seq<char>>::empty());
                let tk = views(repos@.take(i + 1));
                assert(tk =~= views(repos@.take(i as int)).push(repos@[i as int]@));
                assert(views(copies@) =~= views(prev_copies).push(repos@[i as int]@));
                assert(entries_map(entries@) =~= empty_messages_for(tk)) by {
                    assert forall|r: RepoV| tk.contains(r) <==> (views(repos@.take(i as int)).contains(r)
                        || r == repos@[i as int]@) by {
                        if tk.contains(r) {
                            let j = choose|j: int| 0 <= j < tk.len() && tk[j] == r;
                            if j < i {
                                assert(views(repos@.take(i as int))[j] == r);
                            }
                        }
                        if views(repos@.take(i as int)).contains(r) {
                            let j = choose|j: int|
                                0 <= j < views(repos@.take(i as int)).len() && views(
                                    repos@.take(i as int),
                                )[j] == r;
                            assert(tk[j] == r);
                        }
                        if r == repos@[i as int]@ {
                            assert(tk[i as int] == r);
                        }
                    }
                }
            }
            i += 1;
        }
        assert(repos@.take(repos.len() as int) =~= repos@);
        GitGlobalResult {
            messages: Vec::new(),
            repos: copies,
            repo_messages: entries,
            flag_pad_repo_output: false,
        }
    }

    pub fn blank() -> (r: GitGlobalResult)
        ensures
            r@.messages == Seq::<Seq<char>>::empty(),
            r@.repos == Seq::<RepoV>::empty(),
            r@.repo_messages == Map::<RepoV, Seq<Seq<char>>>::empty(),
            !r@.pad_repo_output,
    {
        let r = GitGlobalResult {
            messages: Vec::new(),
            repos: Vec::new(),
            repo_messages: Vec::new(),
            flag_pad_repo_output: false,
        };
        assert(r@.messages =~= Seq::<Seq<char>>::empty());
        assert(r@.repos =~= Seq::<RepoV>::empty());
        r
    }

    /// Declares desire to separate output when showing per-repo messages.
    ///
    /// Sets flag that indicates a blank line should be inserted between
    /// messages for each repo when showing results output.
    pub fn pad_repo_output(&mut self)
        ensures
            final(self)@ == (GitGlobalResultV { pad_repo_output: true, ..old(self)@ }),
    {
        self.flag_pad_repo_output = true;
    }

    /// Adds a message that applies to the overall operation.
    pub fn add_message(&mut self, message: String)
        ensures
            final(self)@ == (GitGlobalResultV {
                messages: old(self)@.messages.push(message@),
                ..old(self)@
            }),
    {
        self.messages.push(message);
        assert(self@.messages =~= old(self)@.messages.push(message@));
    }

    /// Adds a message that applies to a particular repo; a repo that the
    /// result does not know is ignored.
    pub fn add_repo_message(&mut self, repo: &Repo, data_line: String)
        ensures
            old(self)@.repo_messages.dom().contains(repo@) ==> final(self)@ == (GitGlobalResultV {
                repo_messages: old(self)@.repo_messages.insert(
                    repo@,
                    old(self)@.repo_messages[repo@].push(data_line@),
                ),
                ..old(self)@
            }),
            !old(self)@.repo_messages.dom().contains(repo@) ==> final(self)@ == old(self)@,
    {
        proof {
            lemma_entries_map_dom(self.repo_messages@, repo@);
        }
        let mut i = self.repo_messages.len();
        while i > 0
            invariant
                i <= self.repo_messages.len(),
                *self == *old(self),
                forall|j: int| i <= j < self.repo_messages@.len() ==> self.repo_messages@[j].0@ != repo@,
            decreases i,
        {
            if self.repo_messages[i - 1].0.compare(repo) == 0 {
                let ghost s = self.repo_messages@;
                proof {
                    lemma_entries_map_last(s, i - 1);
                }
                let (k, mut lines) = self.repo_messages.remove(i - 1);
                let ghost old_lines = lines;
                lines.push(data_line);
                self.repo_messages.insert(i - 1, (k, lines));
                proof {
                    assert(self.repo_messages@ =~= s.update(i - 1, (s[i - 1].0, lines)));
                    lemma_entries_map_update(s, i - 1, lines);
                    assert(strs(lines) =~= strs(old_lines).push(data_line@));
                }
                return;
            }
            i -= 1;
        }
    }

    /// The index of the entry that holds the messages of `repo`, if any.
    fn entry_of(&self, repo: &Repo) -> (r: Option<usize>)
        ensures
            match r {
                Some(i) => i < self.repo_messages@.len() && self.repo_messages@[i as int].0@ == repo@
                    && entries_map(self.repo_messages@).dom().contains(repo@) && entries_map(
                    self.repo_messages@,
                )[repo@] == strs(self.repo_messages@[i as int].1),
                None => !entries_map(self.repo_messages@).dom().contains(repo@),
            },
    {
        proof {
            lemma_entries_map_dom(self.repo_messages@, repo@);
        }
        let mut i = self.repo_messages.len();
        while i > 0
            invariant
                i <= self.repo_messages.len(),
                forall|j: int| i <= j < self.repo_messages@.len() ==> self.repo_messages@[j].0@ != repo@,
            decreases i,
        {
            if self.repo_messages[i - 1].0.compare(repo) == 0 {
                proof {
                    lemma_entries_map_last(self.repo_messages@, i - 1);
                }
                return Some(i - 1);
            }
            i -= 1;
        }
        None
    }

    /// The lines that printing the result as text writes: the overall
    /// messages, then for each repo with messages its path and its non-empty
    /// messages (and a blank line if output is padded).
    pub fn print_lines(&self) -> (r: Vec<String>)
        requires
            printable(self@),
        ensures
            strs(r) == self@.messages + repo_blocks(
                self@.repos,
                self@.repo_messages,
                self@.pad_repo_output,
            ),
    {
        let mut out: Vec<String> = Vec::new();
        let mut i: usize = 0;
        while i < self.messages.len()
            invariant
                i <= self.messages.len(),
                out@.len() == i,
                strs(out) == strs(self.messages).take(i as int),
            decreases self.messages.len() - i,
        {
            let ghost prev = out@;
            out.push(self.messages[i].clone());
            assert(out@ =~= prev.push(out@[i as int]));
            assert(strs(out) =~= strs(self.messages).take(i + 1));
            i += 1;
        }
        assert(strs(self.messages).take(i as int) =~= self@.messages);
        let mut k: usize = 0;
        while k < self.repos.len()
            invariant
                k <= self.repos.len(),
                forall|j: int| 0 <= j < self@.repos.len() ==> self@.repo_messages.dom().contains(
                    #[trigger] self@.repos[j],
                ),
                strs(out) == self@.messages + repo_blocks(
                    self@.repos.take(k as int),
                    self@.repo_messages,
                    self@.pad_repo_output,
                ),
            decreases self.repos.len() - k,
        {
            let ghost before = strs(out);
            let repo = &self.repos[k];
            assert(self@.repos[k as int] == repo@);
            let e = self.entry_of(repo);
            let idx = match e {
                Some(idx) => idx,
                None => {
                    assert(false);
                    0
                },
            };
            let lines = &self.repo_messages[idx].1;
            let ghost msgs = strs(*lines);
            if lines.len() > 0 {
                out.push(repo.path.clone());
                let mut j: usize = 0;
                while j < lines.len()
                    invariant
                        j <= lines.len(),
                        msgs == strs(*lines),
                        strs(out) == before + seq![repo@.path] + msgs.take(j as int).filter(
                            |l: Seq<char>| l.len() > 0,
                        ),
                    decreases lines.len() - j,
                {
                    let ghost prev = strs(out);
                    assert(msgs.take(j + 1) =~= msgs.take(j as int).push(msgs[j as int]));
                    proof { msgs.take(j as int).lemma_filter_push(msgs[j as int], |l: Seq<char>| l.len() > 0); }
                    if !lines[j].as_str().is_empty() {
                        assert(msgs[j as int].len() > 0) by {
                            assert(msgs[j as int] == lines@[j as int]@);
                        }
                        out.push(lines[j].clone());
                        assert(strs(out) =~= prev.push(msgs[j as int]));
                    } else {
                        assert(msgs[j as int].len() == 0) by {
                            assert(msgs[j as int] == lines@[j as int]@);
                        }
                    }
                    j += 1;
                }
                assert(msgs.take(j as int) =~= msgs);
                if self.flag_pad_repo_output {
                    let ghost prev = strs(out);
                    out.push(String::new());
                    assert(strs(out) =~= prev.push(Seq::<char>::empty()));
                }
            }
            proof {
                let tk = self@.repos.take(k + 1);
                assert(tk.drop_last() =~= self@.repos.take(k as int));
                assert(tk.last() == repo@);
                assert(self@.repo_messages[repo@] == msgs);
                let blk = repo_block(self@.pad_repo_output, repo@.path, msgs);
                assert(strs(out) =~= before + blk);
            }
            k += 1;
        }
        assert(self@.repos.take(k as int) =~= self@.repos);
        out
    }

    /// Whether every known repo has an entry among the per-repo messages, so
    /// that the result can be printed.
    pub fn is_printable(&self) -> (r: bool)
        ensures
            r == printable(self@),
    {
        let mut k: usize = 0;
        while k < self.repos.len()
            invariant
                k <= self.repos.len(),
                self@.repos == views(self.repos@),
                forall|j: int| 0 <= j < k ==> self@.repo_messages.dom().contains(
                    #[trigger] self@.repos[j],
                ),
            decreases self.repos.len() - k,
        {
            assert(self@.repos[k as int] == self.repos@[k as int]@);
            if self.entry_of(&self.repos[k]).is_none() {
                return false;
            }
            k += 1;
        }
        true
    }

    /// A copy of the first known repo whose path is `path`, if there is one.
    pub fn known_repo_at(&self, path: &str) -> (r: Option<Repo>)
        ensures
            match r {
                Some(x) => repo_with_path(self@.repos, path@) == Some(x@),
                None => repo_with_path(self@.repos, path@) is None,
            },
    {
        let mut i: usize = 0;
        assert(self@.repos.skip(0) =~= self@.repos);
        while i < self.repos.len()
            invariant
                i <= self.repos.len(),
                self@.repos == views(self.repos@),
                repo_with_path(self@.repos, path@) == repo_with_path(
                    self@.repos.skip(i as int),
                    path@,
                ),
            decreases self.repos.len() - i,
        {
            let ghost rest = self@.repos.skip(i as int);
            assert(rest[0] == self.repos@[i as int]@);
            if self.repos[i].path().to_owned() == path.to_owned() {
                return Some(self.repos[i].duplicate());
            }
            assert(rest.drop_first() =~= self@.repos.skip(i + 1));
            i += 1;
        }
        None
    }

    /// The overall messages.
    pub fn messages(&self) -> (r: &Vec<String>)
        ensures
            strs(*r) == self@.messages,
    {
        &self.messages
    }

    /// The per-repo messages, as (repo, messages) entries; where a repo occurs
    /// twice, the last entry counts.
    pub fn repo_message_entries(&self) -> (r: &Vec<(Repo, Vec<String>)>)
        ensures
            entries_map(r@) == self@.repo_messages,
            entry_views(r@) == self.message_entries(),
    {
        &self.repo_messages
    }

    /// The per-repo messages, entry by entry, in the order the entries were
    /// made.
    pub closed spec fn message_entries(self) -> Seq<(RepoV, Seq<Seq<char>>)> {
        entry_views(self.repo_messages@)
    }

    /// The per-repo messages are what the entries say, the last entry of a
    /// repo counting.
    pub proof fn lemma_message_entries(self)
        ensures
            self@.repo_messages == view_entries_map(self.message_entries()),
    {
        lemma_entry_views_map(self.repo_messages@);
    }

    /// What the JSON output holds of each per-repo entry, in order: the repo's
    /// path and its non-empty messages.
    pub fn json_repo_lines(&self) -> (r: Vec<(String, Vec<String>)>)
        ensures
            r@.len() == self.message_entries().len(),
            forall|i: int|
                0 <= i < r@.len() ==> (#[trigger] r@[i]).0@ == self.message_entries()[i].0.path
                    && strs(r@[i].1) == self.message_entries()[i].1.filter(
                    |l: Seq<char>| l.len() > 0,
                ),
    {
        let ghost es = self.message_entries();
        let ghost keep = |l: Seq<char>| l.len() > 0;
        let mut r: Vec<(String, Vec<String>)> = Vec::new();
        let mut k: usize = 0;
        while k < self.repo_messages.len()
            invariant
                k <= self.repo_messages.len(),
                es == entry_views(self.repo_messages@),
                keep == (|l: Seq<char>| l.len() > 0),
                r@.len() == k,
                forall|i: int|
                    0 <= i < k ==> (#[trigger] r@[i]).0@ == es[i].0.path && strs(r@[i].1)
                        == es[i].1.filter(keep),
            decreases self.repo_messages.len() - k,
        {
            let msgs = &self.repo_messages[k].1;
            let ghost all = strs(*msgs);
            let mut lines: Vec<String> = Vec::new();
            let mut j: usize = 0;
            while j < msgs.len()
                invariant
                    j <= msgs.len(),
                    all == strs(*msgs),
                    keep == (|l: Seq<char>| l.len() > 0),
                    strs(lines) == all.take(j as int).filter(keep),
                decreases msgs.len() - j,
            {
                let ghost prev = strs(lines);
                proof {
                    assert(all.take(j + 1) =~= all.take(j as int).push(all[j as int]));
                    all.take(j as int).lemma_filter_push(all[j as int], keep);
                }
                if !msgs[j].as_str().is_empty() {
                    assert(all[j as int].len() > 0);
                    lines.push(msgs[j].clone());
                    assert(strs(lines) =~= prev.push(all[j as int]));
                } else {
                    assert(all[j as int].len() == 0);
                }
                j += 1;
            }
            assert(all.take(j as int) =~= all);
            assert(es[k as int] == (self.repo_messages@[k as int].0@, all));
            r.push((self.repo_messages[k].0.path.clone(), lines));
            k += 1;
        }
        r
    }

    /// When we need to get all the tags from the current tags
    pub fn all_tags(&self) -> (r: Vec<&RepoTag>)
        ensures
            r@.map_values(|t: &RepoTag| t@) == tags_of_repos(self@.repos),
    {
        let mut v: Vec<&RepoTag> = Vec::new();
        let mut i: usize = 0;
        while i < self.repos.len()
            invariant
                i <= self.repos.len(),
                v@.map_values(|t: &RepoTag| t@) == tags_of_repos(views(self.repos@.take(i as int))),
            decreases self.repos.len() - i,
        {
            let ghost before = v@;
            let tags = &self.repos[i].tags;
            let mut j: usize = 0;
            while j < tags.len()
                invariant
                    j <= tags.len(),
                    tags == self.repos@[i as int].tags,
                    v@.map_values(|t: &RepoTag| t@) == before.map_values(|t: &RepoTag| t@)
                        + tags@.take(j as int).map_values(|t: RepoTag| t@),
                decreases tags.len() - j,
            {
                let ghost prev = v@;
                v.push(&tags[j]);
                assert(v@ =~= prev.push(&tags@[j as int]));
                assert(v@.map_values(|t: &RepoTag| t@) =~= prev.map_values(|t: &RepoTag| t@).push(
                    tags@[j as int]@,
                ));
                assert(tags@.take(j + 1).map_values(|t: RepoTag| t@) =~= tags@.take(
                    j as int,
                ).map_values(|t: RepoTag| t@).push(tags@[j as int]@));
                j += 1;
            }
            assert(tags@.take(tags.len() as int) =~= tags@);
            assert(views(self.repos@.take(i + 1)).drop_last() =~= views(self.repos@.take(i as int)));
            i += 1;
        }
        assert(self.repos@.take(self.repos.len() as int) =~= self.repos@);
        v
    }

    /// Return the list of repos filtered by those that include one of a set of tags
    pub fn filter_repos_by_tags(&self, tags: Vec<RepoTag>) -> (r: Vec<Repo>)
        ensures
            views(r@) == self@.repos.filter(
                crate::models::repo::tagged_with_any(tags@.map_values(|t: RepoTag| t@)),
            ),
    {
        self.repos.filter_tags(tags)
    }

    /// prob a bad idea but want to be able to merge results for purposes of threads and results
    pub fn merge_ggr(&mut self, ggr: GitGlobalResult)
        ensures
            final(self)@ == (GitGlobalResultV {
                messages: old(self)@.messages + ggr@.messages,
                repos: old(self)@.repos + ggr@.repos,
                repo_messages: old(self)@.repo_messages.union_prefer_right(ggr@.repo_messages),
                pad_repo_output: old(self)@.pad_repo_output,
            }),
    {
        let ghost g = ggr@;
        let mut ggr = ggr;
        let ghost gm = ggr.repo_messages@;
        let ghost gmsg = ggr.messages@;
        let ghost grepos = ggr.repos@;
        self.messages.append(&mut ggr.messages);
        self.repos.append(&mut ggr.repos);
        let ghost sm = self.repo_messages@;
        self.repo_messages.append(&mut ggr.repo_messages);
        proof {
            lemma_entries_map_append(sm, gm);
            assert(strs(self.messages) =~= old(self)@.messages + gmsg.map_values(|s: String| s@));
            assert(views(self.repos@) =~= old(self)@.repos + views(grepos));
        }
    }
}

} // verus!
