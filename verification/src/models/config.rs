//! Defines the [`GitGlobalConfig`] struct
//! At the moment this data structure contains
//!     - a basedir
//!     - a list of basedirs
//!     - a list of tags
//!     - a list of default_tags
//!     - a list of actions
use crate::models::action::Action;
use crate::models::repo::{copy_tags, tagged_with_any, Filterable, Repo, RepoV};
use crate::models::repo_tag::{all_tags, tags_of_repos, RepoTag};
use crate::models::result::strs;
use crate::models::settings::Settings;
use crate::pieces::{split_at_pat, split_str, trim_str, trimmed};
use crate::order::{lemma_sorted_set, lemma_sorted_set_exists, merge_sorted, sorted_set, strictly_sorted, views, Ranked};
use crate::text::{chars_contain, eq_ignore_ascii_case, eq_ignore_ascii_case_exec, str_contains};
use std::path::PathBuf;
use vstd::prelude::*;
use vstd::seq_lib::seq_to_set_is_finite;

verus! {

/// A path on the file system, carried as it is.
#[verifier::external_type_specification]
#[verifier::external_body]
pub struct ExPathBuf(PathBuf);

/// What is currently being worked on.
#[derive(Debug, Clone)]
pub struct CurrentState {
    pub tags: Vec<RepoTag>,
    pub repos: Vec<Repo>,
    pub actions: Vec<Repo>,
}

// NOTE: Get rid of this if it isnt used soon
impl CurrentState {
    pub fn new() -> (r: Self)
        ensures
            r.tags@ == Seq::<RepoTag>::empty(),
            r.repos@ == Seq::<Repo>::empty(),
            r.actions@ == Seq::<Repo>::empty(),
    {
        CurrentState { tags: Vec::new(), repos: Vec::new(), actions: Vec::new() }
    }
}

/// A container for git-global configuration options.
/// By Default these options are gathered from the global `.gitconfig`
/// file and cached repos/tags are retrieved/stored on disk
#[derive(Debug)]
pub struct GitGlobalConfig {
    pub basedir: String,
    pub basedirs: Vec<String>,
    pub repos: Vec<Repo>,
    pub current: CurrentState,
    pub ignored_patterns: Vec<String>,
    // TODO: This should probably not be here - or it should not be relied upon as a source of truth.
    // Instead tags should
    // be derived from those associated with repos and the default tags
    pub tags: Vec<RepoTag>,
    pub default_tags: Vec<RepoTag>,
    pub ignored_repos: Vec<Repo>,
    pub ignored_paths: Vec<String>,
    pub default_repos: Vec<Repo>,
    pub actions: Vec<Action>,
    pub cache_file: PathBuf,
}

/// `s` with every element dropped that equals, ignoring ASCII case, the
/// element kept just before it: what `Vec::dedup_by` with
/// `eq_ignore_ascii_case` leaves.
pub open spec fn dedup_ignore_case(s: Seq<Seq<char>>) -> Seq<Seq<char>>
    decreases s.len(),
{
    if s.len() == 0 {
        s
    } else {
        let d = dedup_ignore_case(s.drop_last());
        if d.len() > 0 && eq_ignore_ascii_case(d.last(), s.last()) {
            d
        } else {
            d.push(s.last())
        }
    }
}

proof fn lemma_dedup_members(s: Seq<Seq<char>>)
    ensures
        forall|i: int| 0 <= i < dedup_ignore_case(s).len() ==> s.contains(#[trigger] dedup_ignore_case(s)[i]),
    decreases s.len(),
{
    if s.len() > 0 {
        let init = s.drop_last();
        lemma_dedup_members(init);
        let d = dedup_ignore_case(init);
        let r = dedup_ignore_case(s);
        assert forall|i: int| 0 <= i < r.len() implies s.contains(#[trigger] r[i]) by {
            if i < d.len() {
                assert(r[i] == d[i]);
                let k = choose|k: int| 0 <= k < init.len() && init[k] == d[i];
                assert(s[k] == d[i]);
            } else {
                assert(r[i] == s[s.len() - 1]);
            }
        }
    }
}

proof fn lemma_dedup_neighbours(s: Seq<Seq<char>>)
    ensures
        forall|i: int|
            0 <= i < dedup_ignore_case(s).len() - 1 ==> !eq_ignore_ascii_case(
                #[trigger] dedup_ignore_case(s)[i],
                dedup_ignore_case(s)[i + 1],
            ),
    decreases s.len(),
{
    if s.len() > 0 {
        let init = s.drop_last();
        lemma_dedup_neighbours(init);
        let d = dedup_ignore_case(init);
        let r = dedup_ignore_case(s);
        if !(d.len() > 0 && eq_ignore_ascii_case(d.last(), s.last())) {
            assert forall|i: int| 0 <= i < r.len() - 1 implies !eq_ignore_ascii_case(
                #[trigger] r[i],
                r[i + 1],
            ) by {
                assert(r[i] == d[i]);
                if i + 1 < d.len() {
                    assert(r[i + 1] == d[i + 1]);
                }
            }
        }
    }
}

proof fn lemma_dedup_first(s: Seq<Seq<char>>)
    ensures
        s.len() > 0 ==> dedup_ignore_case(s).len() > 0 && dedup_ignore_case(s)[0] == s[0],
    decreases s.len(),
{
    if s.len() > 0 {
        let init = s.drop_last();
        lemma_dedup_first(init);
        if init.len() > 0 {
            assert(s[0] == init[0]);
        }
    }
}

proof fn lemma_dedup_covers(s: Seq<Seq<char>>)
    ensures
        forall|j: int|
            0 <= j < s.len() ==> exists|i: int|
                0 <= i < dedup_ignore_case(s).len() && eq_ignore_ascii_case(
                    #[trigger] dedup_ignore_case(s)[i],
                    #[trigger] s[j],
                ),
    decreases s.len(),
{
    if s.len() > 0 {
        let init = s.drop_last();
        lemma_dedup_covers(init);
        let d = dedup_ignore_case(init);
        let r = dedup_ignore_case(s);
        assert forall|j: int| 0 <= j < s.len() implies exists|i: int|
            0 <= i < r.len() && eq_ignore_ascii_case(#[trigger] r[i], #[trigger] s[j]) by {
            if j < s.len() - 1 {
                assert(init[j] == s[j]);
                let i = choose|i: int| 0 <= i < d.len() && eq_ignore_ascii_case(#[trigger] d[i], #[trigger] init[j]);
                assert(r[i] == d[i]);
            } else if d.len() > 0 && eq_ignore_ascii_case(d.last(), s.last()) {
                assert(r[d.len() - 1] == d.last());
            } else {
                assert(r[d.len() as int] == s[j]);
                assert(eq_ignore_ascii_case(s[j], s[j]));
            }
        }
    }
}

/// Dropping repeats up to ASCII case leaves no two neighbours equal up to
/// case, keeps only strings of the input, keeps the first one, and leaves for
/// every input string one equal to it up to case.
pub proof fn law_dedup_ignore_case(s: Seq<Seq<char>>)
    ensures
        forall|i: int|
            0 <= i < dedup_ignore_case(s).len() - 1 ==> !eq_ignore_ascii_case(
                #[trigger] dedup_ignore_case(s)[i],
                dedup_ignore_case(s)[i + 1],
            ),
        forall|i: int| 0 <= i < dedup_ignore_case(s).len() ==> s.contains(#[trigger] dedup_ignore_case(s)[i]),
        s.len() > 0 ==> dedup_ignore_case(s).len() > 0 && dedup_ignore_case(s)[0] == s[0],
        forall|j: int|
            0 <= j < s.len() ==> exists|i: int|
                0 <= i < dedup_ignore_case(s).len() && eq_ignore_ascii_case(
                    #[trigger] dedup_ignore_case(s)[i],
                    #[trigger] s[j],
                ),
{
    lemma_dedup_members(s);
    lemma_dedup_neighbours(s);
    lemma_dedup_first(s);
    lemma_dedup_covers(s);
}

/// Tags named by the given strings.
fn tags_from_strings(tags: Vec<String>) -> (r: Vec<RepoTag>)
    ensures
        views(r@) == strs(tags),
{
    let mut tags = tags;
    let ghost all = tags@;
    let mut rev: Vec<RepoTag> = Vec::new();
    while tags.len() > 0
        invariant
            tags@ == all.take(all.len() - rev.len()),
            rev.len() <= all.len(),
            forall|k: int| 0 <= k < rev.len() ==> #[trigger] rev@[k]@ == all[all.len() - 1 - k]@,
        decreases tags.len(),
    {
        let t = tags.pop().unwrap();
        rev.push(RepoTag::from(t));
    }
    let mut out: Vec<RepoTag> = Vec::new();
    while rev.len() > 0
        invariant
            rev.len() + out.len() == all.len(),
            forall|k: int| 0 <= k < rev.len() ==> #[trigger] rev@[k]@ == all[all.len() - 1 - k]@,
            forall|k: int| 0 <= k < out.len() ==> #[trigger] out@[k]@ == all[k]@,
        decreases rev.len(),
    {
        let t = rev.pop().unwrap();
        out.push(t);
    }
    assert(views(out@) =~= all.map_values(|s: String| s@));
    out
}

/// Whether a scan includes the path `path`, given the ignored patterns: when
/// the only pattern is empty, or when the path contains none of them.
pub open spec fn included_in_scans(patterns: Seq<Seq<char>>, path: Seq<char>) -> bool {
    (patterns.len() == 1 && patterns[0].len() == 0) || !(exists|i: int|
        0 <= i < patterns.len() && chars_contain(path, #[trigger] patterns[i]))
}

/// [`included_in_scans`] for the given patterns, as a predicate on paths.
pub open spec fn scan_keeps(patterns: Seq<Seq<char>>) -> spec_fn(Seq<char>) -> bool {
    |path: Seq<char>| included_in_scans(patterns, path)
}

/// A scan leaves out every path that contains an ignored pattern, unless the
/// only pattern is empty, and keeps every other path it walked.
pub proof fn law_scan_leaves_out_ignored(
    patterns: Seq<Seq<char>>,
    paths: Seq<Seq<char>>,
    path: Seq<char>,
)
    ensures
        (!(patterns.len() == 1 && patterns[0].len() == 0) && exists|i: int|
            0 <= i < patterns.len() && chars_contain(path, #[trigger] patterns[i])) ==> !paths.filter(
            scan_keeps(patterns),
        ).contains(path),
        (paths.contains(path) && included_in_scans(patterns, path)) ==> paths.filter(
            scan_keeps(patterns),
        ).contains(path),
{
    let kept = paths.filter(scan_keeps(patterns));
    if kept.contains(path) {
        let k = choose|k: int| 0 <= k < kept.len() && kept[k] == path;
        paths.lemma_filter_pred(scan_keeps(patterns), k);
    }
    if paths.contains(path) && included_in_scans(patterns, path) {
        let k = choose|k: int| 0 <= k < paths.len() && paths[k] == path;
        paths.lemma_filter_contains(scan_keeps(patterns), k);
    }
}

/// A scan leaves a path out only if it contains an ignored pattern: a walked
/// path that contains none of them (so every path, where there are no
/// patterns) is kept, and where the only pattern is empty every walked path
/// is kept, in its order.
pub proof fn law_scan_keeps_unmatched(patterns: Seq<Seq<char>>, paths: Seq<Seq<char>>, path: Seq<char>)
    ensures
        (paths.contains(path) && forall|i: int|
            0 <= i < patterns.len() ==> !chars_contain(path, #[trigger] patterns[i]))
            ==> paths.filter(scan_keeps(patterns)).contains(path),
        patterns.len() == 0 ==> paths.filter(scan_keeps(patterns)) == paths,
        patterns == seq![Seq::<char>::empty()] ==> paths.filter(scan_keeps(patterns)) == paths,
{
    if paths.contains(path) && forall|i: int|
        0 <= i < patterns.len() ==> !chars_contain(path, #[trigger] patterns[i]) {
        let k = choose|k: int| 0 <= k < paths.len() && paths[k] == path;
        paths.lemma_filter_contains(scan_keeps(patterns), k);
    }
    if patterns.len() == 0 || patterns == seq![Seq::<char>::empty()] {
        lemma_filter_all_kept(paths, scan_keeps(patterns));
    }
}

/// Filtering by a predicate that holds of every element keeps them all.
proof fn lemma_filter_all_kept(s: Seq<Seq<char>>, keep: spec_fn(Seq<char>) -> bool)
    requires
        forall|x: Seq<char>| #[trigger] keep(x),
    ensures
        s.filter(keep) == s,
    decreases s.len(),
{
    reveal(Seq::filter);
    if s.len() > 0 {
        lemma_filter_all_kept(s.drop_last(), keep);
        assert(s =~= s.drop_last().push(s.last()));
    }
}

/// The patterns of a comma-separated ignore setting, each without leading
/// and trailing white space.
pub open spec fn patterns_of(setting: Seq<char>) -> Seq<Seq<char>> {
    split_at_pat(setting, ","@).map_values(|p: Seq<char>| trimmed(p))
}

/// The patterns to leave out of scans, read from a comma-separated setting
/// such as `.cargo,.vim,Library`.
pub fn ignored_patterns_from(setting: &str) -> (r: Vec<String>)
    ensures
        strs(r) == patterns_of(setting@),
{
    let pieces = split_str(setting, ",");
    let mut out: Vec<String> = Vec::new();
    let mut i: usize = 0;
    while i < pieces.len()
        invariant
            i <= pieces.len(),
            strs(out) == strs(pieces).take(i as int).map_values(|p: Seq<char>| trimmed(p)),
        decreases pieces.len() - i,
    {
        let t = trim_str(pieces[i].as_str());
        let ghost prev = strs(out);
        out.push(t);
        assert(strs(out) =~= prev.push(t@));
        assert(strs(pieces).take(i + 1) =~= strs(pieces).take(i as int).push(pieces@[i as int]@));
        assert(strs(pieces).take(i + 1).map_values(|p: Seq<char>| trimmed(p)) =~= strs(pieces).take(
            i as int,
        ).map_values(|p: Seq<char>| trimmed(p)).push(trimmed(pieces@[i as int]@)));
        i += 1;
    }
    assert(strs(pieces).take(i as int) =~= strs(pieces));
    out
}

/// The settings, with what the global git configuration gives where they
/// give nothing: its `global.basedir` as the base directory, and the patterns
/// of its `global.ignore` as the ignored patterns.
pub fn settings_with_git_config(
    settings: Settings,
    git_basedir: Option<String>,
    git_ignore: Option<String>,
) -> (r: Settings)
    ensures
        r.basedir == (if settings.basedir is Some {
            settings.basedir
        } else {
            git_basedir
        }),
        (settings.ignored_patterns@.len() == 0 && git_ignore is Some) ==> strs(r.ignored_patterns)
            == patterns_of(git_ignore.unwrap()@),
        !(settings.ignored_patterns@.len() == 0 && git_ignore is Some) ==> r.ignored_patterns
            == settings.ignored_patterns,
        r.basedirs == settings.basedirs,
        r.ignored_paths == settings.ignored_paths,
        r.path_shortcuts == settings.path_shortcuts,
        r.ignored_repos == settings.ignored_repos,
        r.default_repos == settings.default_repos,
        r.default_tags == settings.default_tags,
        r.actions == settings.actions,
{
    let mut settings = settings;
    if settings.basedir.is_none() {
        settings.basedir = git_basedir;
    }
    if settings.ignored_patterns.len() == 0 {
        if let Some(ignore) = git_ignore {
            settings.ignored_patterns = ignored_patterns_from(ignore.as_str());
        }
    }
    settings
}

impl GitGlobalConfig {
    /// A configuration from the settings, with no repos or tags yet; the base
    /// directory is the home directory `home` where the settings give none,
    /// and the cache lives in `cache_file`.
    pub fn new_from_settings(settings: Settings, home: String, cache_file: PathBuf) -> (r:
        GitGlobalConfig)
        ensures
            r.basedir@ == match settings.basedir {
                Some(b) => b@,
                None => home@,
            },
            r.basedirs == settings.basedirs,
            r.repos@ == Seq::<Repo>::empty(),
            r.current.tags@ == Seq::<RepoTag>::empty(),
            r.current.repos@ == Seq::<Repo>::empty(),
            r.current.actions@ == Seq::<Repo>::empty(),
            r.ignored_patterns == settings.ignored_patterns,
            r.tags@ == Seq::<RepoTag>::empty(),
            r.default_tags == settings.default_tags,
            r.ignored_repos == settings.ignored_repos,
            r.ignored_paths == settings.ignored_paths,
            r.default_repos == settings.default_repos,
            r.actions == settings.actions,
            r.cache_file == cache_file,
    {
        let basedir = match settings.basedir {
            Some(b) => b,
            None => home,
        };
        GitGlobalConfig {
            basedir,
            basedirs: settings.basedirs,
            current: CurrentState::new(),
            repos: Vec::new(),
            tags: Vec::new(),
            default_tags: settings.default_tags,
            default_repos: settings.default_repos,
            ignored_repos: settings.ignored_repos,
            ignored_paths: settings.ignored_paths,
            actions: settings.actions,
            ignored_patterns: settings.ignored_patterns,
            cache_file,
        }
    }

    /// Add tags to the [`GitGlobalConfig`] object - Chainable
    pub fn with_tags(&mut self, tags: Vec<RepoTag>) -> (r: &mut Self)
        ensures
            *r == (GitGlobalConfig { tags: tags, ..*old(self) }),
            *final(self) == *final(r),
    {
        self.tags = tags;
        self
    }

    /// set actions field as true - Chainable
    pub fn with_actions(&mut self, actions: Vec<Action>) -> (r: &mut Self)
        ensures
            *r == (GitGlobalConfig { actions: actions, ..*old(self) }),
            *final(self) == *final(r),
    {
        self.actions = actions;
        self
    }

    /// Returns `true` if this directory entry, given by its path, should be
    /// included in scans: when the only ignored pattern is empty, or when the
    /// path contains none of the ignored patterns.
    pub fn filter(&self, entry_path: &str) -> (r: bool)
        ensures
            r == included_in_scans(strs(self.ignored_patterns), entry_path@),
    {
        let ghost pats = strs(self.ignored_patterns);
        if self.ignored_patterns.len() == 1 && self.ignored_patterns[0].as_str().is_empty() {
            assert(pats[0] == self.ignored_patterns@[0]@);
            return true;
        }
        assert(!(pats.len() == 1 && pats[0].len() == 0)) by {
            if pats.len() == 1 {
                assert(pats[0] == self.ignored_patterns@[0]@);
            }
        }
        let mut i: usize = 0;
        while i < self.ignored_patterns.len()
            invariant
                i <= self.ignored_patterns.len(),
                pats == strs(self.ignored_patterns),
                !(pats.len() == 1 && pats[0].len() == 0),
                forall|j: int| 0 <= j < i ==> !chars_contain(entry_path@, #[trigger] pats[j]),
            decreases self.ignored_patterns.len() - i,
        {
            assert(pats[i as int] == self.ignored_patterns@[i as int]@);
            if str_contains(entry_path, self.ignored_patterns[i].as_str()) {
                assert(chars_contain(entry_path@, pats[i as int]));
                return false;
            }
            i += 1;
        }
        true
    }

    /// The paths that a scan keeps, in their order: those that `filter`
    /// includes.
    pub fn prune_ignored(&self, paths: Vec<String>) -> (r: Vec<String>)
        ensures
            strs(r) == strs(paths).filter(scan_keeps(strs(self.ignored_patterns))),
    {
        let ghost keep = scan_keeps(strs(self.ignored_patterns));
        let mut r: Vec<String> = Vec::new();
        let mut i: usize = 0;
        while i < paths.len()
            invariant
                i <= paths.len(),
                keep == scan_keeps(strs(self.ignored_patterns)),
                strs(r) == strs(paths).take(i as int).filter(keep),
            decreases paths.len() - i,
        {
            let ghost prev = strs(r);
            proof {
                assert(strs(paths).take(i + 1) =~= strs(paths).take(i as int).push(paths@[i as int]@));
                strs(paths).take(i as int).lemma_filter_push(paths@[i as int]@, keep);
            }
            if self.filter(paths[i].as_str()) {
                r.push(paths[i].clone());
                assert(strs(r) =~= prev.push(paths@[i as int]@));
            }
            i += 1;
        }
        assert(strs(paths).take(i as int) =~= strs(paths));
        r
    }

    /// Append Vec of Strings as tags, then drop each tag that repeats, up to
    /// ASCII case, the one kept just before it.
    pub fn append_tags(&mut self, tags: Vec<String>)
        ensures
            views(final(self).tags@) == dedup_ignore_case(views(old(self).tags@) + strs(tags)),
            *final(self) == (GitGlobalConfig { tags: final(self).tags, ..*old(self) }),
    {
        let mut new_tags = tags_from_strings(tags);
        let ghost added = new_tags@;
        self.tags.append(&mut new_tags);
        proof {
            crate::order::lemma_views_add(old(self).tags@, added);
            assert(self.tags@ == old(self).tags@ + added);
        }
        let ghost all = views(self.tags@);
        let mut kept: Vec<RepoTag> = Vec::new();
        let mut rest: Vec<RepoTag> = Vec::new();
        std::mem::swap(&mut rest, &mut self.tags);
        let ghost rest_all = rest@;
        assert(views(rest_all) == all);
        assert(rest_all.len() == rest.len());
        // walk the tags in order; keep one unless it matches the last kept
        let mut src: Vec<RepoTag> = Vec::new();
        while rest.len() > 0
            invariant
                rest_all.len() <= usize::MAX,
                rest@ == rest_all.take(rest_all.len() - src.len()),
                src.len() <= rest_all.len(),
                forall|k: int| 0 <= k < src.len() ==> #[trigger] src@[k]@ == rest_all[rest_all.len() - 1 - k]@,
            decreases rest.len(),
        {
            let t = rest.pop().unwrap();
            src.push(t);
        }
        let mut n: usize = 0;
        while src.len() > 0
            invariant
                src.len() + n == rest_all.len(),
                rest_all.len() <= usize::MAX,
                forall|k: int| 0 <= k < src.len() ==> #[trigger] src@[k]@ == rest_all[rest_all.len() - 1 - k]@,
                views(kept@) == dedup_ignore_case(all.take(n as int)),
                all == views(rest_all),
            decreases src.len(),
        {
            let t = src.pop().unwrap();
            assert(t@ == all[n as int]);
            assert(all.take(n + 1).drop_last() =~= all.take(n as int));
            let drop = if kept.len() > 0 {
                eq_ignore_ascii_case_exec(kept[kept.len() - 1].name.as_str(), t.name.as_str())
            } else {
                false
            };
            if !drop {
                let ghost prev = kept@;
                kept.push(t);
                assert(kept@ =~= prev.push(t));
                assert(views(kept@) =~= views(prev).push(t@));
            }
            n += 1;
        }
        assert(all.take(n as int) =~= all);
        self.tags = kept;
    }

    /// Replace current tags with [`Vec<RepoTag>`] given a [`Vec`] of [`String`]s as input
    pub fn replace_tags(&mut self, tags: Vec<String>)
        ensures
            views(final(self).tags@) == strs(tags),
            *final(self) == (GitGlobalConfig { tags: final(self).tags, ..*old(self) }),
    {
        self.tags = tags_from_strings(tags);
    }

    #[allow(dead_code)]
    fn tags(&self) -> (r: &Vec<RepoTag>)
        ensures
            r == &self.tags,
    {
        &self.tags
    }

    /// Return tags as a [`Vec`] of [`String`]s
    pub fn tag_names(&self) -> (r: Vec<&str>)
        ensures
            r@.map_values(|s: &str| s@) == views(self.tags@),
    {
        let mut r: Vec<&str> = Vec::new();
        let mut i: usize = 0;
        while i < self.tags.len()
            invariant
                i <= self.tags.len(),
                r@.map_values(|s: &str| s@) == views(self.tags@.take(i as int)),
            decreases self.tags.len() - i,
        {
            let ghost prev = r@;
            let s = self.tags[i].name.as_str();
            r.push(s);
            assert(r@ =~= prev.push(s));
            assert(r@.map_values(|s: &str| s@) =~= prev.map_values(|s: &str| s@).push(s@));
            assert(views(self.tags@.take(i + 1)) =~= views(self.tags@.take(i as int)).push(
                self.tags@[i as int]@,
            ));
            i += 1;
        }
        assert(self.tags@.take(i as int) =~= self.tags@);
        r
    }

    /// The repos that carry at least one of `tags`, or all of them if `tags`
    /// is empty.
    pub fn select_tagged(repos: Vec<Repo>, tags: &Vec<RepoTag>) -> (r: Vec<Repo>)
        ensures
            tags@.len() == 0 ==> r == repos,
            tags@.len() > 0 ==> views(r@) == views(repos@).filter(
                tagged_with_any(views(tags@)),
            ),
    {
        if tags.len() == 0 {
            repos
        } else {
            repos.filter_tags(copy_tags(tags))
        }
    }

    /// The repos with all their tags taken off.
    pub fn strip_tags(repos: Vec<Repo>) -> (r: Vec<Repo>)
        ensures
            views(r@) == views(repos@).map_values(
                |rv: RepoV| RepoV { path: rv.path, tags: Seq::empty() },
            ),
    {
        let mut r: Vec<Repo> = Vec::new();
        let mut i: usize = 0;
        while i < repos.len()
            invariant
                i <= repos.len(),
                views(r@) == views(repos@.take(i as int)).map_values(
                    |rv: RepoV| RepoV { path: rv.path, tags: Seq::empty() },
                ),
            decreases repos.len() - i,
        {
            let ghost prev = r@;
            let bare = Repo::new(repos[i].path.clone());
            r.push(bare);
            assert(r@ =~= prev.push(bare));
            assert(views(r@) =~= views(prev).push(bare@));
            assert(views(repos@.take(i + 1)) =~= views(repos@.take(i as int)).push(repos@[i as int]@));
            assert(views(r@) =~= views(repos@.take(i + 1)).map_values(
                |rv: RepoV| RepoV { path: rv.path, tags: Seq::empty() },
            ));
            i += 1;
        }
        assert(repos@.take(i as int) =~= repos@);
        r
    }
}

/// Merging does not depend on which list comes first.
pub proof fn law_merge_commutes<T: Ranked>(a: Seq<T::V>, b: Seq<T::V>)
    ensures
        sorted_set::<T>(a.to_set() + b.to_set()) == sorted_set::<T>(b.to_set() + a.to_set()),
{
    assert(a.to_set() + b.to_set() =~= b.to_set() + a.to_set());
}

/// Merging does not depend on the order of the items in either list, nor on
/// how often an item occurs in it: lists with the same items merge alike.
pub proof fn law_merge_ignores_order<T: Ranked>(
    a1: Seq<T::V>,
    a2: Seq<T::V>,
    b1: Seq<T::V>,
    b2: Seq<T::V>,
)
    requires
        a1.to_set() == a2.to_set(),
        b1.to_set() == b2.to_set(),
    ensures
        sorted_set::<T>(a1.to_set() + b1.to_set()) == sorted_set::<T>(a2.to_set() + b2.to_set()),
{
}

/// Merging a sorted list without repeats with items that it already holds
/// gives the list back; in particular, merging such a list with itself.
pub proof fn law_merge_idempotent<T: Ranked>(r: Seq<T::V>, b: Seq<T::V>)
    requires
        strictly_sorted::<T>(r),
        b.to_set().subset_of(r.to_set()),
    ensures
        sorted_set::<T>(r.to_set() + b.to_set()) == r,
{
    assert(r.to_set() + b.to_set() =~= r.to_set());
    lemma_sorted_set::<T>(r);
}

/// Merging repos and tags into the configuration.
pub trait Updatable {
    fn tags_from_repos(&self, repos: Vec<Repo>) -> Vec<RepoTag>;

    fn recalculate_tags(&self) -> Vec<RepoTag>;

    fn update_tags(&mut self);

    fn merge_things<T: Ranked>(&self, things_one: Vec<T>, things_two: Vec<T>) -> Vec<T>;

    fn merge_repos(&self, repos: Vec<Repo>) -> Vec<Repo>;

    fn merge_tags(&self, tags: Vec<RepoTag>) -> Vec<RepoTag>;

    fn merge_repos_and_tags(&self, repos: Vec<Repo>, tags: Vec<RepoTag>) -> (Vec<Repo>, Vec<RepoTag>);

    fn update_merge_repos_and_tags(&mut self, repos: Vec<Repo>, tags: Vec<RepoTag>);
}

/// The tags the configuration would have from its repos and default tags:
/// every one once, in order.
pub open spec fn recalculated_tags(gc: GitGlobalConfig) -> Seq<Seq<char>> {
    sorted_set::<RepoTag>(
        views(gc.default_tags@).to_set() + tags_of_repos(views(gc.repos@)).to_set(),
    )
}

/// A tag is among the tags of some repos exactly when one of the repos
/// carries it.
proof fn lemma_tags_of_repos_contains(rs: Seq<RepoV>, t: Seq<char>)
    ensures
        tags_of_repos(rs).contains(t) <==> exists|k: int, j: int|
            0 <= k < rs.len() && 0 <= j < rs[k].tags.len() && #[trigger] rs[k].tags[j] == t,
    decreases rs.len(),
{
    if rs.len() > 0 {
        let init = rs.drop_last();
        lemma_tags_of_repos_contains(init, t);
        let a = tags_of_repos(init);
        let b = rs.last().tags;
        assert(tags_of_repos(rs) == a + b);
        if tags_of_repos(rs).contains(t) {
            let i = choose|i: int| 0 <= i < (a + b).len() && (a + b)[i] == t;
            if i < a.len() {
                assert(a[i] == t);
                assert(a.contains(t));
                let (k, j) = choose|k: int, j: int|
                    0 <= k < init.len() && 0 <= j < init[k].tags.len() && #[trigger] init[k].tags[j]
                        == t;
                assert(rs[k] == init[k]);
                assert(rs[k].tags[j] == t);
            } else {
                assert(b[i - a.len()] == t);
                assert(rs[rs.len() - 1].tags[i - a.len()] == t);
            }
        }
        if exists|k: int, j: int|
            0 <= k < rs.len() && 0 <= j < rs[k].tags.len() && #[trigger] rs[k].tags[j] == t {
            let (k, j) = choose|k: int, j: int|
                0 <= k < rs.len() && 0 <= j < rs[k].tags.len() && #[trigger] rs[k].tags[j] == t;
            if k < rs.len() - 1 {
                assert(init[k] == rs[k]);
                assert(init[k].tags[j] == t);
                assert(a.contains(t));
                let i = choose|i: int| 0 <= i < a.len() && a[i] == t;
                assert((a + b)[i] == t);
            } else {
                assert((a + b)[a.len() + j] == t);
            }
        }
    }
}

/// The recalculated tags are strictly sorted and hold exactly the default
/// tags and every tag carried by a repo of the configuration; merging in more
/// tags gives exactly those and the given ones.
pub proof fn law_recalculated_tags(gc: GitGlobalConfig, tags: Seq<Seq<char>>, t: Seq<char>)
    ensures
        strictly_sorted::<RepoTag>(recalculated_tags(gc)),
        recalculated_tags(gc).contains(t) <==> ((exists|d: int|
            0 <= d < gc.default_tags@.len() && #[trigger] gc.default_tags@[d]@ == t) || exists|
            k: int,
            j: int,
        |
            0 <= k < gc.repos@.len() && 0 <= j < gc.repos@[k]@.tags.len() && #[trigger] gc.repos@[k]@.tags[j]
                == t),
        sorted_set::<RepoTag>(recalculated_tags(gc).to_set() + tags.to_set()).contains(t) <==> (
        recalculated_tags(gc).contains(t) || tags.contains(t)),
{
    let dv = views(gc.default_tags@);
    let rv = views(gc.repos@);
    let all = dv.to_set() + tags_of_repos(rv).to_set();
    seq_to_set_is_finite(dv);
    seq_to_set_is_finite(tags_of_repos(rv));
    lemma_sorted_set_exists::<RepoTag>(all);
    let r = recalculated_tags(gc);
    assert(r.to_set() == all);
    assert(r.contains(t) <==> r.to_set().contains(t));
    lemma_tags_of_repos_contains(rv, t);
    if dv.contains(t) {
        let d = choose|d: int| 0 <= d < dv.len() && dv[d] == t;
        assert(gc.default_tags@[d]@ == t);
    }
    if exists|d: int| 0 <= d < gc.default_tags@.len() && #[trigger] gc.default_tags@[d]@ == t {
        let d = choose|d: int| 0 <= d < gc.default_tags@.len() && #[trigger] gc.default_tags@[d]@ == t;
        assert(dv[d] == t);
    }
    if exists|k: int, j: int|
        0 <= k < rv.len() && 0 <= j < rv[k].tags.len() && #[trigger] rv[k].tags[j] == t {
        let (k, j) = choose|k: int, j: int|
            0 <= k < rv.len() && 0 <= j < rv[k].tags.len() && #[trigger] rv[k].tags[j] == t;
        assert(gc.repos@[k]@.tags[j] == t);
    }
    if exists|k: int, j: int|
        0 <= k < gc.repos@.len() && 0 <= j < gc.repos@[k]@.tags.len() && #[trigger] gc.repos@[k]@.tags[j]
            == t {
        let (k, j) = choose|k: int, j: int|
            0 <= k < gc.repos@.len() && 0 <= j < gc.repos@[k]@.tags.len() && #[trigger] gc.repos@[k]@.tags[j]
                == t;
        assert(rv[k].tags[j] == t);
    }
    let both = r.to_set() + tags.to_set();
    seq_to_set_is_finite(r);
    seq_to_set_is_finite(tags);
    lemma_sorted_set_exists::<RepoTag>(both);
    let m = sorted_set::<RepoTag>(both);
    assert(m.contains(t) <==> m.to_set().contains(t));
    assert(tags.contains(t) <==> tags.to_set().contains(t));
}

impl Updatable for GitGlobalConfig {
    /// functional version to extract tags from a given Vec of repos
    fn tags_from_repos(&self, repos: Vec<Repo>) -> (r: Vec<RepoTag>)
        ensures
            views(r@) == tags_of_repos(views(repos@)),
    {
        all_tags(&repos)
    }

    /// Get tags for existing list of Repos and merge with default tags
    /// Returns tags but DOES NOT update self.tags
    fn recalculate_tags(&self) -> (r: Vec<RepoTag>)
        ensures
            views(r@) == recalculated_tags(*self),
            strictly_sorted::<RepoTag>(views(r@)),
    {
        let existing = all_tags(&self.repos);
        merge_sorted(&self.default_tags, &existing)
    }

    fn update_tags(&mut self)
        ensures
            views(final(self).tags@) == recalculated_tags(*old(self)),
            *final(self) == (GitGlobalConfig { tags: final(self).tags, ..*old(self) }),
    {
        self.tags = self.recalculate_tags();
    }

    /// Every thing of either list once, in increasing order.
    fn merge_things<T: Ranked>(&self, things_one: Vec<T>, things_two: Vec<T>) -> (r: Vec<T>)
        ensures
            strictly_sorted::<T>(views(r@)),
            views(r@).to_set() == views(things_one@).to_set() + views(things_two@).to_set(),
            views(r@) == sorted_set::<T>(
                views(things_one@).to_set() + views(things_two@).to_set(),
            ),
    {
        merge_sorted(&things_one, &things_two)
    }

    fn merge_repos(&self, repos: Vec<Repo>) -> (r: Vec<Repo>)
        ensures
            views(r@) == sorted_set::<Repo>(views(self.repos@).to_set() + views(repos@).to_set()),
    {
        merge_sorted(&self.repos, &repos)
    }

    fn merge_tags(&self, tags: Vec<RepoTag>) -> (r: Vec<RepoTag>)
        ensures
            views(r@) == sorted_set::<RepoTag>(
                recalculated_tags(*self).to_set() + views(tags@).to_set(),
            ),
    {
        let current = self.recalculate_tags();
        merge_sorted(&current, &tags)
    }

    fn merge_repos_and_tags(&self, repos: Vec<Repo>, tags: Vec<RepoTag>) -> (r: (
        Vec<Repo>,
        Vec<RepoTag>,
    ))
        ensures
            views(r.0@) == sorted_set::<Repo>(views(self.repos@).to_set() + views(repos@).to_set()),
            views(r.1@) == sorted_set::<RepoTag>(
                recalculated_tags(*self).to_set() + views(tags@).to_set(),
            ),
    {
        let new_repos = self.merge_repos(repos);
        let new_tag_total = self.merge_tags(tags);
        (new_repos, new_tag_total)
    }

    fn update_merge_repos_and_tags(&mut self, repos: Vec<Repo>, tags: Vec<RepoTag>)
        ensures
            views(final(self).repos@) == sorted_set::<Repo>(
                views(old(self).repos@).to_set() + views(repos@).to_set(),
            ),
            views(final(self).tags@) == sorted_set::<RepoTag>(
                recalculated_tags(GitGlobalConfig { repos: final(self).repos, ..*old(self) }).to_set()
                    + views(tags@).to_set(),
            ),
            *final(self) == (GitGlobalConfig {
                repos: final(self).repos,
                tags: final(self).tags,
                ..*old(self)
            }),
    {
        self.repos = self.merge_repos(repos);
        // Need to do this after merge_repos and before merge_tags
        // so that we have all tags (and default tags) to update from
        self.update_tags();
        self.tags = self.merge_tags(tags);
    }
}

} // verus!
