//! Settings as read from the configuration file.
use crate::models::action::Action;
use crate::models::result::strs;
use crate::order::views;
use crate::paint::{green_underline_code, yellow_code, yellow_underline_code, written_as, Painter, Part};
use crate::models::repo::Repo;
use crate::models::repo_tag::RepoTag;
use std::collections::HashMap;
use vstd::prelude::*;
use vstd::string::StringExecFns;

verus! {

/// The settings as the configuration file gives them: any may be missing.
#[derive(Debug)]
pub struct SettingsRaw {
    pub basedir: Option<String>,
    pub basedirs: Option<Vec<String>>,
    pub ignored_paths: Option<Vec<String>>,
    pub ignored_patterns: Option<Vec<String>>,
    pub path_shortcuts: Option<HashMap<String, String>>,
    pub ignored_repos: Option<Vec<Repo>>,
    pub default_repos: Option<Vec<Repo>>,
    pub default_tags: Option<Vec<RepoTag>>,
    pub actions: Option<Vec<Action>>,
}

/// The settings, with empty lists where the configuration gave none.
#[derive(Debug)]
pub struct Settings {
    /// NOTE: Basedir shouldnt be defaulted to an empty string as we need at least one place to scan? This might change if we wish to override at CLI
    pub basedir: Option<String>,
    pub basedirs: Vec<String>,
    pub ignored_paths: Vec<String>,
    pub ignored_patterns: Vec<String>,
    pub path_shortcuts: HashMap<String, String>,
    pub ignored_repos: Vec<Repo>,
    pub default_repos: Vec<Repo>,
    pub default_tags: Vec<RepoTag>,
    pub actions: Vec<Action>,
}

/// The given list, or an empty one.
fn or_empty<T>(o: Option<Vec<T>>) -> (r: Vec<T>)
    ensures
        o matches Some(v) ==> r == v,
        o is None ==> r@ == Seq::<T>::empty(),
{
    match o {
        Some(v) => v,
        None => Vec::new(),
    }
}

impl Settings {
    /// Fills in what the configuration left out.
    pub fn from_raw(sr: SettingsRaw) -> (s: Settings)
        ensures
            s.basedir == sr.basedir,
            sr.basedirs matches Some(v) ==> s.basedirs == v,
            sr.basedirs is None ==> s.basedirs@ == Seq::<String>::empty(),
            sr.ignored_paths matches Some(v) ==> s.ignored_paths == v,
            sr.ignored_paths is None ==> s.ignored_paths@ == Seq::<String>::empty(),
            sr.ignored_patterns matches Some(v) ==> s.ignored_patterns == v,
            sr.ignored_patterns is None ==> s.ignored_patterns@ == Seq::<String>::empty(),
            sr.path_shortcuts matches Some(m) ==> s.path_shortcuts == m,
            sr.path_shortcuts is None ==> s.path_shortcuts@ == Map::<String, String>::empty(),
            sr.ignored_repos matches Some(v) ==> s.ignored_repos == v,
            sr.ignored_repos is None ==> s.ignored_repos@ == Seq::<Repo>::empty(),
            sr.default_repos matches Some(v) ==> s.default_repos == v,
            sr.default_repos is None ==> s.default_repos@ == Seq::<Repo>::empty(),
            sr.default_tags matches Some(v) ==> s.default_tags == v,
            sr.default_tags is None ==> s.default_tags@ == Seq::<RepoTag>::empty(),
            sr.actions matches Some(v) ==> s.actions == v,
            sr.actions is None ==> s.actions@ == Seq::<Action>::empty(),
    {
        let path_shortcuts = match sr.path_shortcuts {
            Some(m) => m,
            None => HashMap::new(),
        };
        Settings {
            basedir: sr.basedir,
            basedirs: or_empty(sr.basedirs),
            ignored_paths: or_empty(sr.ignored_paths),
            ignored_patterns: or_empty(sr.ignored_patterns),
            path_shortcuts,
            ignored_repos: or_empty(sr.ignored_repos),
            default_repos: or_empty(sr.default_repos),
            default_tags: or_empty(sr.default_tags),
            actions: or_empty(sr.actions),
        }
    }
}

/// The pieces that list some items, one per line, each after a tab and in
/// yellow.
pub open spec fn item_parts(items: Seq<Seq<char>>) -> Seq<Part>
    decreases items.len(),
{
    if items.len() == 0 {
        Seq::empty()
    } else {
        item_parts(items.drop_last()) + seq![
            Part::Plain("\t"@),
            Part::Painted(items.last(), yellow_code()),
            Part::Plain("\n"@),
        ]
    }
}

/// The pieces that list some items under a heading.
pub open spec fn list_parts(name: Seq<char>, items: Seq<Seq<char>>) -> Seq<Part> {
    seq![Part::Painted(name + ":\n"@, green_underline_code())] + item_parts(items)
}

/// The pieces that list path shortcuts: each on a line, the name underlined
/// in yellow, then the path in yellow.
pub open spec fn shortcut_parts(pairs: Seq<(Seq<char>, Seq<char>)>) -> Seq<Part>
    decreases pairs.len(),
{
    if pairs.len() == 0 {
        Seq::empty()
    } else {
        shortcut_parts(pairs.drop_last()) + seq![
            Part::Plain("\t"@),
            Part::Painted(pairs.last().0, yellow_underline_code()),
            Part::Plain("\t"@),
            Part::Painted(pairs.last().1, yellow_code()),
            Part::Plain("\n"@),
        ]
    }
}

/// How the settings are written out, with the path shortcuts in the given
/// order.
pub open spec fn settings_parts(s: Settings, shortcuts: Seq<(Seq<char>, Seq<char>)>) -> Seq<Part> {
    seq![
        Part::Painted("Settings:\n"@, green_underline_code()),
        Part::Painted("basedir"@, green_underline_code()),
        Part::Plain(":\n\t"@),
        Part::Painted(
            match s.basedir {
                Some(b) => b@,
                None => "Nothing Provided"@,
            },
            yellow_code(),
        ),
        Part::Plain("\n"@),
    ] + list_parts("basedirs"@, strs(s.basedirs)) + list_parts(
        "ignored_paths"@,
        strs(s.ignored_paths),
    ) + list_parts("ignored_patterns"@, strs(s.ignored_patterns)) + seq![
        Part::Painted("path_shortcuts:\n"@, green_underline_code()),
    ] + shortcut_parts(shortcuts) + list_parts(
        "ignored_repos"@,
        views(s.ignored_repos@).map_values(|r: crate::models::repo::RepoV| r.path),
    ) + list_parts(
        "default_repos"@,
        views(s.default_repos@).map_values(|r: crate::models::repo::RepoV| r.path),
    ) + list_parts(
        "default_tags"@,
        views(s.default_tags@).map_values(|t: Seq<char>| "RepoTag: "@ + t),
    )
}

/// The views of (name, path) pairs.
pub open spec fn pair_views(v: Seq<(String, String)>) -> Seq<(Seq<char>, Seq<char>)> {
    v.map_values(|p: (String, String)| (p.0@, p.1@))
}

/// Writes some items under a heading.
fn write_list(p: &mut Painter, name: &str, items: &Vec<String>)
    requires
        old(p).wf(),
    ensures
        final(p).wf(),
        final(p).parts@ == old(p).parts@ + list_parts(name@, strs(*items)),
{
    let mut heading = String::from_str(name);
    heading.append(":\n");
    p.green_underline(heading.as_str());
    let ghost start = p.parts@;
    let mut i: usize = 0;
    assert(item_parts(strs(*items).take(0)) =~= Seq::<Part>::empty());
    while i < items.len()
        invariant
            i <= items.len(),
            p.wf(),
            p.parts@ == start + item_parts(strs(*items).take(i as int)),
        decreases items.len() - i,
    {
        let ghost prevp = p.parts@;
        p.plain("\t");
        p.yellow(items[i].as_str());
        p.plain("\n");
        proof {
            let t = strs(*items).take(i + 1);
            assert(t.drop_last() =~= strs(*items).take(i as int));
            assert(t.last() == items@[i as int]@);
            let three = seq![
                Part::Plain("\t"@),
                Part::Painted(items@[i as int]@, yellow_code()),
                Part::Plain("\n"@),
            ];
            assert(item_parts(t) == item_parts(strs(*items).take(i as int)) + three);
            assert(p.parts@ =~= prevp + three);
            assert(p.parts@ =~= start + item_parts(t));
        }
        i += 1;
    }
    assert(strs(*items).take(i as int) =~= strs(*items));
    assert(heading@ == name@ + ":\n"@);
    assert(p.parts@ =~= old(p).parts@ + list_parts(name@, strs(*items)));
}

impl Settings {
    /// The settings written out for the user: the base directory (or that
    /// none is given), each list of settings under its heading, and the path
    /// shortcuts in the order given.
    pub fn describe(&self, shortcuts: &Vec<(String, String)>) -> (r: String)
        ensures
            written_as(r@, settings_parts(*self, pair_views(shortcuts@))),
    {
        let mut p = Painter::new();
        p.green_underline("Settings:\n");
        p.green_underline("basedir");
        p.plain(":\n\t");
        match &self.basedir {
            Some(b) => p.yellow(b.as_str()),
            None => p.yellow("Nothing Provided"),
        }
        p.plain("\n");
        write_list(&mut p, "basedirs", &self.basedirs);
        write_list(&mut p, "ignored_paths", &self.ignored_paths);
        write_list(&mut p, "ignored_patterns", &self.ignored_patterns);
        p.green_underline("path_shortcuts:\n");
        let ghost before = p.parts@;
        let mut i: usize = 0;
        assert(shortcut_parts(pair_views(shortcuts@).take(0)) =~= Seq::<Part>::empty());
        while i < shortcuts.len()
            invariant
                i <= shortcuts.len(),
                p.wf(),
                p.parts@ == before + shortcut_parts(pair_views(shortcuts@).take(i as int)),
            decreases shortcuts.len() - i,
        {
            let ghost prevp = p.parts@;
            p.plain("\t");
            p.yellow_underline(shortcuts[i].0.as_str());
            p.plain("\t");
            p.yellow(shortcuts[i].1.as_str());
            p.plain("\n");
            proof {
                let t = pair_views(shortcuts@).take(i + 1);
                assert(t.drop_last() =~= pair_views(shortcuts@).take(i as int));
                assert(t.last() == (shortcuts@[i as int].0@, shortcuts@[i as int].1@));
                let five = seq![
                    Part::Plain("\t"@),
                    Part::Painted(shortcuts@[i as int].0@, yellow_underline_code()),
                    Part::Plain("\t"@),
                    Part::Painted(shortcuts@[i as int].1@, yellow_code()),
                    Part::Plain("\n"@),
                ];
                assert(shortcut_parts(t) == shortcut_parts(pair_views(shortcuts@).take(i as int))
                    + five);
                assert(p.parts@ =~= prevp + five);
                assert(p.parts@ =~= before + shortcut_parts(t));
            }
            i += 1;
        }
        assert(pair_views(shortcuts@).take(i as int) =~= pair_views(shortcuts@));
        let mut paths: Vec<String> = Vec::new();
        let mut k: usize = 0;
        while k < self.ignored_repos.len()
            invariant
                k <= self.ignored_repos.len(),
                strs(paths) == views(self.ignored_repos@.take(k as int)).map_values(
                    |r: crate::models::repo::RepoV| r.path,
                ),
            decreases self.ignored_repos.len() - k,
        {
            let ghost prev = strs(paths);
            let x = self.ignored_repos[k].to_string();
            paths.push(x);
            assert(strs(paths) =~= prev.push(x@));
            assert(views(self.ignored_repos@.take(k + 1)).map_values(
                |r: crate::models::repo::RepoV| r.path,
            ) =~= views(self.ignored_repos@.take(k as int)).map_values(
                |r: crate::models::repo::RepoV| r.path,
            ).push(self.ignored_repos@[k as int]@.path));
            k += 1;
        }
        assert(self.ignored_repos@.take(k as int) =~= self.ignored_repos@);
        write_list(&mut p, "ignored_repos", &paths);
        let mut paths2: Vec<String> = Vec::new();
        let mut k: usize = 0;
        while k < self.default_repos.len()
            invariant
                k <= self.default_repos.len(),
                strs(paths2) == views(self.default_repos@.take(k as int)).map_values(
                    |r: crate::models::repo::RepoV| r.path,
                ),
            decreases self.default_repos.len() - k,
        {
            let ghost prev = strs(paths2);
            let x = self.default_repos[k].to_string();
            paths2.push(x);
            assert(strs(paths2) =~= prev.push(x@));
            assert(views(self.default_repos@.take(k + 1)).map_values(
                |r: crate::models::repo::RepoV| r.path,
            ) =~= views(self.default_repos@.take(k as int)).map_values(
                |r: crate::models::repo::RepoV| r.path,
            ).push(self.default_repos@[k as int]@.path));
            k += 1;
        }
        assert(self.default_repos@.take(k as int) =~= self.default_repos@);
        write_list(&mut p, "default_repos", &paths2);
        let mut names: Vec<String> = Vec::new();
        let mut k: usize = 0;
        while k < self.default_tags.len()
            invariant
                k <= self.default_tags.len(),
                strs(names) == views(self.default_tags@.take(k as int)).map_values(
                    |t: Seq<char>| "RepoTag: "@ + t,
                ),
            decreases self.default_tags.len() - k,
        {
            let ghost prev = strs(names);
            let x = self.default_tags[k].to_string();
            names.push(x);
            assert(strs(names) =~= prev.push(x@));
            assert(views(self.default_tags@.take(k + 1)).map_values(|t: Seq<char>| "RepoTag: "@ + t)
                =~= views(self.default_tags@.take(k as int)).map_values(
                |t: Seq<char>| "RepoTag: "@ + t,
            ).push("RepoTag: "@ + self.default_tags@[k as int]@));
            k += 1;
        }
        assert(self.default_tags@.take(k as int) =~= self.default_tags@);
        write_list(&mut p, "default_tags", &names);
        proof {
            assert(p.parts@ =~= settings_parts(*self, pair_views(shortcuts@)));
        }
        p.finish()
    }
}

} // verus!
