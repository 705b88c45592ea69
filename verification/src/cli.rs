//! The command line interface for git-global: which subcommand a parsed
//! command line asks for, and what is shown of its outcome.

use crate::models::errors::{error_message, ErrorV, GitGlobalError, Result};
use crate::models::result::{printable, repo_blocks, strs, GitGlobalResult};
use vstd::prelude::*;
use vstd::string::StringExecFns;

verus! {

/// A parsed command line, as the argument parser hands it over: each argument
/// given, by name, with its values (none for a flag), and the subcommand given,
/// if any, with its own arguments.
pub struct Matches {
    pub args: Vec<(String, Vec<String>)>,
    pub subcommand: Option<Box<SubMatches>>,
}

/// A subcommand given on the command line.
pub struct SubMatches {
    pub name: String,
    pub matches: Matches,
}

/// The values of the first argument called `name`, if there is one.
pub open spec fn first_entry(args: Seq<(String, Vec<String>)>, name: Seq<char>) -> Option<
    Vec<String>,
>
    decreases args.len(),
{
    if args.len() == 0 {
        None
    } else if args[0].0@ == name {
        Some(args[0].1)
    } else {
        first_entry(args.drop_first(), name)
    }
}

impl Matches {
    /// The values given for the argument `name`, if it was given.
    pub open spec fn entry(self, name: Seq<char>) -> Option<Vec<String>> {
        first_entry(self.args@, name)
    }

    /// The name of the subcommand given, if any.
    pub open spec fn sub_name(self) -> Option<Seq<char>> {
        match self.subcommand {
            Some(b) => Some(b.name@),
            None => None,
        }
    }

    /// The arguments of the subcommand `name`, if that is the one given.
    pub open spec fn sub(self, name: Seq<char>) -> Option<Matches> {
        match self.subcommand {
            Some(b) => if b.name@ == name {
                Some(b.matches)
            } else {
                None
            },
            None => None,
        }
    }

    /// Whether `name` was given, as an argument or as the subcommand.
    pub open spec fn present(self, name: Seq<char>) -> bool {
        self.sub_name() == Some(name) || self.entry(name) is Some
    }

    /// The first value given for the argument `name`, if any.
    pub open spec fn value(self, name: Seq<char>) -> Option<Seq<char>> {
        match self.entry(name) {
            Some(v) => if v@.len() > 0 {
                Some(v@[0]@)
            } else {
                None
            },
            None => None,
        }
    }

    fn find_entry(&self, name: &str) -> (r: Option<&Vec<String>>)
        ensures
            match r {
                Some(v) => self.entry(name@) == Some(*v),
                None => self.entry(name@) is None,
            },
    {
        let mut i: usize = 0;
        assert(self.args@.skip(0) =~= self.args@);
        while i < self.args.len()
            invariant
                i <= self.args.len(),
                first_entry(self.args@, name@) == first_entry(self.args@.skip(i as int), name@),
            decreases self.args.len() - i,
        {
            let ghost rest = self.args@.skip(i as int);
            assert(rest[0] == self.args@[i as int]);
            if self.args[i].0 == name.to_owned() {
                return Some(&self.args[i].1);
            }
            assert(rest.drop_first() =~= self.args@.skip(i + 1));
            i += 1;
        }
        None
    }

    /// Whether `name` was given, as an argument or as the subcommand.
    pub fn is_present(&self, name: &str) -> (r: bool)
        ensures
            r == self.present(name@),
    {
        if let Some(sc) = &self.subcommand {
            if sc.name == name.to_owned() {
                return true;
            }
        }
        self.find_entry(name).is_some()
    }

    /// The first value given for the argument `name`, if any.
    pub fn value_of(&self, name: &str) -> (r: Option<&str>)
        ensures
            match r {
                Some(v) => self.value(name@) == Some(v@),
                None => self.value(name@) is None,
            },
    {
        match self.find_entry(name) {
            Some(vals) => if vals.len() > 0 {
                Some(vals[0].as_str())
            } else {
                None
            },
            None => None,
        }
    }

    /// The values given for the argument `name`, if it was given.
    pub fn values_of(&self, name: &str) -> (r: Option<&Vec<String>>)
        ensures
            match r {
                Some(v) => self.entry(name@) == Some(*v),
                None => self.entry(name@) is None,
            },
    {
        self.find_entry(name)
    }

    /// The name of the subcommand given, if any.
    pub fn subcommand_name(&self) -> (r: Option<&str>)
        ensures
            match r {
                Some(n) => self.sub_name() == Some(n@),
                None => self.sub_name() is None,
            },
    {
        match &self.subcommand {
            Some(sc) => Some(sc.name.as_str()),
            None => None,
        }
    }

    /// The arguments of the subcommand `name`, if that is the one given.
    pub fn subcommand_matches(&self, name: &str) -> (r: Option<&Matches>)
        ensures
            match r {
                Some(m) => self.sub(name@) == Some(*m),
                None => self.sub(name@) is None,
            },
    {
        match &self.subcommand {
            Some(sc) => if sc.name == name.to_owned() {
                Some(&sc.matches)
            } else {
                None
            },
            None => None,
        }
    }
}

/// The values of an argument of a subcommand.
pub open spec fn sub_value(m: Matches, subcommand: Seq<char>, value: Seq<char>) -> Option<
    Seq<char>,
> {
    match m.sub(subcommand) {
        Some(s) => s.value(value),
        None => None,
    }
}

/// Get the value of an argument for a given subcommand, if both were given.
pub fn get_subcommand_value(m: &Matches, subcommand: &str, value: &str) -> (r: Option<String>)
    ensures
        match r {
            Some(s) => sub_value(*m, subcommand@, value@) == Some(s@),
            None => sub_value(*m, subcommand@, value@) is None,
        },
{
    match m.subcommand_matches(subcommand) {
        Some(s) => match s.value_of(value) {
            Some(v) => Some(String::from_str(v)),
            None => None,
        },
        None => None,
    }
}

/// The strings one after the other.
pub open spec fn concat_all(parts: Seq<Seq<char>>) -> Seq<char>
    decreases parts.len(),
{
    if parts.len() == 0 {
        Seq::empty()
    } else {
        concat_all(parts.drop_last()) + parts.last()
    }
}

/// Get all the values of an argument for a given subcommand, written one
/// after the other; the subcommand and the argument must have been given.
pub fn get_subcommand_values(m: &Matches, subcommand: &str, value: &str) -> (r: Option<String>)
    requires
        m.sub(subcommand@) matches Some(s) && s.entry(value@) is Some,
    ensures
        m.sub(subcommand@) matches Some(s) && s.entry(value@) matches Some(vals) && r matches Some(
            joined,
        ) && joined@ == concat_all(strs(vals)),
{
    let s = match m.subcommand_matches(subcommand) {
        Some(s) => s,
        None => {
            assert(false);
            return None;
        },
    };
    let vals = match s.values_of(value) {
        Some(v) => v,
        None => {
            assert(false);
            return None;
        },
    };
    let mut result = String::new();
    let mut i: usize = 0;
    while i < vals.len()
        invariant
            i <= vals.len(),
            result@ == concat_all(strs(*vals).take(i as int)),
        decreases vals.len() - i,
    {
        result.append(vals[i].as_str());
        assert(strs(*vals).take(i + 1).drop_last() =~= strs(*vals).take(i as int));
        i += 1;
    }
    assert(strs(*vals).take(i as int) =~= strs(*vals));
    Some(result)
}

/// The path filter given to a subcommand, if any.
pub fn get_path_filter(m: &Matches, subcommand: &str) -> (r: Option<String>)
    ensures
        match r {
            Some(s) => sub_value(*m, subcommand@, "path_filter"@) == Some(s@),
            None => sub_value(*m, subcommand@, "path_filter"@) is None,
        },
{
    get_subcommand_value(m, subcommand, "path_filter")
}

/// A subcommand to run, with what it was given.
pub enum Command {
    Github,
    Info { raw: bool },
    ConfigPrint,
    ReposList { path_filter: Option<String> },
    ReposSelect { path_filter: Option<String> },
    ReposFilter { pattern: String, tags: Vec<String> },
    ReposScan,
    TagsList { with_repos: bool },
    TagsAdd,
    TagProjects { path_filter: Option<String> },
    ActionsPerform { tags: Option<String>, path: Option<String>, action: Option<String> },
    ActionsList,
    CacheClean { which: String },
    CachePrint,
    PromptTui,
    PromptCursive,
    PromptIced,
    Status { modified: bool, ignore_untracked: bool, path_filter: Option<String> },
    NewStatus { modified: bool, ignore_untracked: bool, path_filter: Option<String> },
    Completions,
}

/// What a [`Command`] holds.
pub enum CommandV {
    Github,
    Info { raw: bool },
    ConfigPrint,
    ReposList { path_filter: Option<Seq<char>> },
    ReposSelect { path_filter: Option<Seq<char>> },
    ReposFilter { pattern: Seq<char>, tags: Seq<Seq<char>> },
    ReposScan,
    TagsList { with_repos: bool },
    TagsAdd,
    TagProjects { path_filter: Option<Seq<char>> },
    ActionsPerform {
        tags: Option<Seq<char>>,
        path: Option<Seq<char>>,
        action: Option<Seq<char>>,
    },
    ActionsList,
    CacheClean { which: Seq<char> },
    CachePrint,
    PromptTui,
    PromptCursive,
    PromptIced,
    Status { modified: bool, ignore_untracked: bool, path_filter: Option<Seq<char>> },
    NewStatus { modified: bool, ignore_untracked: bool, path_filter: Option<Seq<char>> },
    Completions,
}

/// The view of an optional string.
pub open spec fn opt_view(o: Option<String>) -> Option<Seq<char>> {
    match o {
        Some(s) => Some(s@),
        None => None,
    }
}

impl View for Command {
    type V = CommandV;

    open spec fn view(&self) -> CommandV {
        match self {
            Command::Github => CommandV::Github,
            Command::Info { raw } => CommandV::Info { raw: *raw },
            Command::ConfigPrint => CommandV::ConfigPrint,
            Command::ReposList { path_filter } => CommandV::ReposList {
                path_filter: opt_view(*path_filter),
            },
            Command::ReposSelect { path_filter } => CommandV::ReposSelect {
                path_filter: opt_view(*path_filter),
            },
            Command::ReposFilter { pattern, tags } => CommandV::ReposFilter {
                pattern: pattern@,
                tags: strs(*tags),
            },
            Command::ReposScan => CommandV::ReposScan,
            Command::TagsList { with_repos } => CommandV::TagsList { with_repos: *with_repos },
            Command::TagsAdd => CommandV::TagsAdd,
            Command::TagProjects { path_filter } => CommandV::TagProjects {
                path_filter: opt_view(*path_filter),
            },
            Command::ActionsPerform { tags, path, action } => CommandV::ActionsPerform {
                tags: opt_view(*tags),
                path: opt_view(*path),
                action: opt_view(*action),
            },
            Command::ActionsList => CommandV::ActionsList,
            Command::CacheClean { which } => CommandV::CacheClean { which: which@ },
            Command::CachePrint => CommandV::CachePrint,
            Command::PromptTui => CommandV::PromptTui,
            Command::PromptCursive => CommandV::PromptCursive,
            Command::PromptIced => CommandV::PromptIced,
            Command::Status { modified, ignore_untracked, path_filter } => CommandV::Status {
                modified: *modified,
                ignore_untracked: *ignore_untracked,
                path_filter: opt_view(*path_filter),
            },
            Command::NewStatus { modified, ignore_untracked, path_filter } => CommandV::NewStatus {
                modified: *modified,
                ignore_untracked: *ignore_untracked,
                path_filter: opt_view(*path_filter),
            },
            Command::Completions => CommandV::Completions,
        }
    }
}

/// Whether the subcommand `sub` was given, with the flag `flag` among its own
/// arguments.
pub open spec fn flag_with(m: Matches, sub: Seq<char>, flag: Seq<char>) -> bool {
    m.sub(sub) is Some && m.sub(sub).unwrap().present(flag)
}

/// The status subcommands, read from the arguments of the subcommand `sub`
/// of `m`.
pub open spec fn status_command(m: Matches, sub: Seq<char>, newer: bool) -> CommandV {
    if newer {
        CommandV::NewStatus {
            modified: flag_with(m, sub, "modified"@),
            ignore_untracked: flag_with(m, sub, "ignore_untracked"@),
            path_filter: sub_value(m, sub, "path_filter"@),
        }
    } else {
        CommandV::Status {
            modified: flag_with(m, sub, "modified"@),
            ignore_untracked: flag_with(m, sub, "ignore_untracked"@),
            path_filter: sub_value(m, sub, "path_filter"@),
        }
    }
}

/// The subcommand that the command line asks for below `group`, where the
/// group has no handling of its own for `name`.
pub open spec fn unknown_in_group(name: Option<Seq<char>>, group: Seq<char>) -> std::result::Result<
    CommandV,
    ErrorV,
> {
    match name {
        Some(sc) => Err(ErrorV::BadSubcommand(sc)),
        None => Err(ErrorV::MissingSubcommand(seq![group])),
    }
}

/// The subcommand that a command line asks for.
pub open spec fn interpretation(m: Matches) -> std::result::Result<CommandV, ErrorV> {
    match m.sub_name() {
        Some(n) => if n == "github"@ {
            Ok(CommandV::Github)
        } else if n == "info"@ {
            Ok(CommandV::Info { raw: m.sub("info"@).unwrap().present("raw"@) })
        } else if n == "config"@ {
            let c = m.sub("config"@).unwrap();
            if c.sub_name() == Some("print"@) {
                Ok(CommandV::ConfigPrint)
            } else {
                unknown_in_group(c.sub_name(), "config"@)
            }
        } else if n == "repos"@ {
            let c = m.sub("repos"@).unwrap();
            if c.sub_name() == Some("list"@) {
                Ok(CommandV::ReposList { path_filter: c.sub("list"@).unwrap().value("path_filter"@) })
            } else if c.sub_name() == Some("select"@) {
                Ok(CommandV::ReposSelect { path_filter: sub_value(c, "select"@, "path_filter"@) })
            } else if c.sub_name() == Some("filter"@) {
                let f = c.sub("filter"@).unwrap();
                Ok(
                    CommandV::ReposFilter {
                        pattern: f.value("pattern"@).unwrap(),
                        tags: match f.entry("tags"@) {
                            Some(v) => strs(v),
                            None => Seq::empty(),
                        },
                    },
                )
            } else if c.sub_name() == Some("scan"@) {
                Ok(CommandV::ReposScan)
            } else {
                unknown_in_group(c.sub_name(), "repos"@)
            }
        } else if n == "tags"@ {
            let c = m.sub("tags"@).unwrap();
            if c.sub_name() == Some("list"@) {
                Ok(CommandV::TagsList { with_repos: c.sub("list"@).unwrap().present("with_repos"@) })
            } else if c.sub_name() == Some("add"@) {
                Ok(CommandV::TagsAdd)
            } else if c.sub_name() == Some("tag-projects"@) {
                Ok(CommandV::TagProjects { path_filter: sub_value(c, "tag-projects"@, "path_filter"@) })
            } else {
                unknown_in_group(c.sub_name(), "tags"@)
            }
        } else if n == "actions"@ {
            let c = m.sub("actions"@).unwrap();
            if c.sub_name() == Some("perform"@) {
                Ok(
                    CommandV::ActionsPerform {
                        tags: sub_value(c, "perform"@, "tags"@),
                        path: sub_value(c, "perform"@, "path"@),
                        action: Some(
                            concat_all(strs(c.sub("perform"@).unwrap().entry("action"@).unwrap())),
                        ),
                    },
                )
            } else if c.sub_name() == Some("list"@) {
                Ok(CommandV::ActionsList)
            } else {
                Err(ErrorV::BadSubcommand("bad action subcommand"@))
            }
        } else if n == "cache"@ {
            let c = m.sub("cache"@).unwrap();
            if c.sub_name() == Some("clean"@) {
                match c.sub("clean"@).unwrap().sub_name() {
                    Some(which) => Ok(CommandV::CacheClean { which }),
                    None => Err(ErrorV::MissingSubcommand(seq!["tags"@, "all"@])),
                }
            } else if c.sub_name() == Some("print"@) {
                Ok(CommandV::CachePrint)
            } else {
                unknown_in_group(c.sub_name(), "cache"@)
            }
        } else if n == "prompt"@ {
            let c = m.sub("prompt"@).unwrap();
            if c.sub_name() == Some("prompt-tui"@) {
                Ok(CommandV::PromptTui)
            } else if c.sub_name() == Some("prompt-cursive"@) {
                Ok(CommandV::PromptCursive)
            } else if c.sub_name() == Some("prompt-iced"@) {
                Ok(CommandV::PromptIced)
            } else {
                unknown_in_group(c.sub_name(), "prompt"@)
            }
        } else if n == "status"@ {
            let c = m.sub("status"@).unwrap();
            if c.sub_name() == Some("status"@) {
                Ok(status_command(c, "status"@, false))
            } else if c.sub_name() == Some("new-status"@) {
                Ok(status_command(c, "new-status"@, true))
            } else if c.sub_name() is None {
                Ok(status_command(m, "status"@, false))
            } else {
                unknown_in_group(c.sub_name(), "status"@)
            }
        } else if n == "completions"@ {
            Ok(CommandV::Completions)
        } else {
            Ok(status_command(m, "status"@, false))
        },
        None => Ok(status_command(m, "status"@, false)),
    }
}

/// What the interpretation needs of a command line: a pattern for `repos
/// filter`, and values of `action` for `actions perform`.
pub open spec fn interpretable(m: Matches) -> bool {
    &&& (m.sub("repos"@) is Some && m.sub("repos"@).unwrap().sub("filter"@) is Some) ==> m.sub(
        "repos"@,
    ).unwrap().sub("filter"@).unwrap().value("pattern"@) is Some
    &&& (m.sub("actions"@) is Some && m.sub("actions"@).unwrap().sub("perform"@) is Some) ==> m.sub(
        "actions"@,
    ).unwrap().sub("perform"@).unwrap().entry("action"@) is Some
}

/// Whether two strings are equal.
fn same(a: &str, b: &str) -> (r: bool)
    ensures
        r == (a@ == b@),
{
    a.to_owned() == b.to_owned()
}

/// Whether the subcommand given is `name`.
fn sub_is(m: &Matches, name: &str) -> (r: bool)
    ensures
        r == (m.sub_name() == Some(name@)),
{
    match m.subcommand_name() {
        Some(n) => same(n, name),
        None => false,
    }
}

/// A list of one string.
fn one_string(s: &str) -> (r: Vec<String>)
    ensures
        strs(r) == seq![s@],
{
    let mut v: Vec<String> = Vec::new();
    v.push(String::from_str(s));
    assert(strs(v) =~= seq![s@]);
    v
}

/// The error for a group of subcommands given with an unknown subcommand, or
/// with none.
fn unknown_in(m: &Matches, group: &str) -> (r: Result<Command>)
    ensures
        r matches Err(e) && std::result::Result::<CommandV, ErrorV>::Err(e@) == unknown_in_group(m.sub_name(), group@),
{
    match m.subcommand_name() {
        Some(sc) => Err(GitGlobalError::BadSubcommand(String::from_str(sc))),
        None => Err(GitGlobalError::MissingSubcommand(one_string(group))),
    }
}

/// The status subcommands, read from the arguments of the subcommand `sub`
/// of `m`.
fn status_from(m: &Matches, sub: &str, newer: bool) -> (r: Command)
    ensures
        r@ == status_command(*m, sub@, newer),
{
    let (modified, ignore_untracked) = match m.subcommand_matches(sub) {
        Some(s) => (s.is_present("modified"), s.is_present("ignore_untracked")),
        None => (false, false),
    };
    let path_filter = get_path_filter(m, sub);
    if newer {
        Command::NewStatus { modified, ignore_untracked, path_filter }
    } else {
        Command::Status { modified, ignore_untracked, path_filter }
    }
}

/// The subcommand that a parsed command line asks for, with what it was given.
pub fn interpret(m: &Matches) -> (r: Result<Command>)
    requires
        interpretable(*m),
    ensures
        match r {
            Ok(c) => interpretation(*m) == std::result::Result::<CommandV, ErrorV>::Ok(c@),
            Err(e) => interpretation(*m) == std::result::Result::<CommandV, ErrorV>::Err(e@),
        },
{
    let name = match m.subcommand_name() {
        Some(n) => n,
        None => return Ok(status_from(m, "status", false)),
    };
    if same(name, "github") {
        Ok(Command::Github)
    } else if same(name, "info") {
        let c = m.subcommand_matches("info").unwrap();
        Ok(Command::Info { raw: c.is_present("raw") })
    } else if same(name, "config") {
        let c = m.subcommand_matches("config").unwrap();
        if sub_is(c, "print") {
            Ok(Command::ConfigPrint)
        } else {
            unknown_in(c, "config")
        }
    } else if same(name, "repos") {
        let c = m.subcommand_matches("repos").unwrap();
        if sub_is(c, "list") {
            let l = c.subcommand_matches("list").unwrap();
            let path_filter = match l.value_of("path_filter") {
                Some(v) => Some(String::from_str(v)),
                None => None,
            };
            Ok(Command::ReposList { path_filter })
        } else if sub_is(c, "select") {
            Ok(Command::ReposSelect { path_filter: get_path_filter(c, "select") })
        } else if sub_is(c, "filter") {
            let f = c.subcommand_matches("filter").unwrap();
            let pattern = String::from_str(f.value_of("pattern").unwrap());
            let tags = match f.values_of("tags") {
                Some(v) => crate::models::action::copy_strings(v),
                None => {
                    let none: Vec<String> = Vec::new();
                    assert(strs(none) =~= Seq::<Seq<char>>::empty());
                    none
                },
            };
            Ok(Command::ReposFilter { pattern, tags })
        } else if sub_is(c, "scan") {
            Ok(Command::ReposScan)
        } else {
            unknown_in(c, "repos")
        }
    } else if same(name, "tags") {
        let c = m.subcommand_matches("tags").unwrap();
        if sub_is(c, "list") {
            let l = c.subcommand_matches("list").unwrap();
            Ok(Command::TagsList { with_repos: l.is_present("with_repos") })
        } else if sub_is(c, "add") {
            Ok(Command::TagsAdd)
        } else if sub_is(c, "tag-projects") {
            Ok(Command::TagProjects { path_filter: get_path_filter(c, "tag-projects") })
        } else {
            unknown_in(c, "tags")
        }
    } else if same(name, "actions") {
        let c = m.subcommand_matches("actions").unwrap();
        if sub_is(c, "perform") {
            let tags = get_subcommand_value(c, "perform", "tags");
            let path = get_subcommand_value(c, "perform", "path");
            let action = get_subcommand_values(c, "perform", "action");
            Ok(Command::ActionsPerform { tags, path, action })
        } else if sub_is(c, "list") {
            Ok(Command::ActionsList)
        } else {
            Err(GitGlobalError::BadSubcommand(String::from_str("bad action subcommand")))
        }
    } else if same(name, "cache") {
        let c = m.subcommand_matches("cache").unwrap();
        if sub_is(c, "clean") {
            let k = c.subcommand_matches("clean").unwrap();
            match k.subcommand_name() {
                Some(which) => Ok(Command::CacheClean { which: String::from_str(which) }),
                None => {
                    let mut v: Vec<String> = Vec::new();
                    v.push(String::from_str("tags"));
                    v.push(String::from_str("all"));
                    assert(strs(v) =~= seq!["tags"@, "all"@]);
                    Err(GitGlobalError::MissingSubcommand(v))
                },
            }
        } else if sub_is(c, "print") {
            Ok(Command::CachePrint)
        } else {
            unknown_in(c, "cache")
        }
    } else if same(name, "prompt") {
        let c = m.subcommand_matches("prompt").unwrap();
        if sub_is(c, "prompt-tui") {
            Ok(Command::PromptTui)
        } else if sub_is(c, "prompt-cursive") {
            Ok(Command::PromptCursive)
        } else if sub_is(c, "prompt-iced") {
            Ok(Command::PromptIced)
        } else {
            unknown_in(c, "prompt")
        }
    } else if same(name, "status") {
        let c = m.subcommand_matches("status").unwrap();
        if sub_is(c, "status") {
            Ok(status_from(c, "status", false))
        } else if sub_is(c, "new-status") {
            Ok(status_from(c, "new-status", true))
        } else if c.subcommand_name().is_none() {
            Ok(status_from(m, "status", false))
        } else {
            unknown_in(c, "status")
        }
    } else if same(name, "completions") {
        Ok(Command::Completions)
    } else {
        Ok(status_from(m, "status", false))
    }
}

/// The subcommand that a command line of the flat layout asks for, where every
/// subcommand stands at the top level; status is the default.
pub open spec fn flat_interpretation(m: Matches) -> std::result::Result<CommandV, ErrorV> {
    match m.sub_name() {
        Some(n) => if n == "github"@ {
            Ok(CommandV::Github)
        } else if n == "info"@ {
            Ok(CommandV::Info { raw: m.sub("info"@).unwrap().present("raw"@) })
        } else if n == "list"@ {
            Ok(CommandV::ReposList { path_filter: m.sub("list"@).unwrap().value("path_filter"@) })
        } else if n == "list-tags"@ {
            Ok(CommandV::TagsList { with_repos: m.sub("list-tags"@).unwrap().present("with_repos"@) })
        } else if n == "action"@ {
            let c = m.sub("action"@).unwrap();
            if c.sub_name() == Some("perform"@) {
                Ok(
                    CommandV::ActionsPerform {
                        tags: sub_value(c, "perform"@, "tags"@),
                        path: sub_value(c, "perform"@, "path"@),
                        action: Some(
                            concat_all(strs(c.sub("perform"@).unwrap().entry("action"@).unwrap())),
                        ),
                    },
                )
            } else if c.sub_name() == Some("list"@) {
                Ok(CommandV::ActionsList)
            } else {
                Err(ErrorV::BadSubcommand("bad action subcommand"@))
            }
        } else if n == "add-tags"@ {
            Ok(CommandV::TagsAdd)
        } else if n == "filter"@ {
            let f = m.sub("filter"@).unwrap();
            Ok(
                CommandV::ReposFilter {
                    pattern: f.value("pattern"@).unwrap(),
                    tags: match f.entry("tags"@) {
                        Some(v) => strs(v),
                        None => Seq::empty(),
                    },
                },
            )
        } else if n == "clean"@ {
            match m.sub("clean"@).unwrap().sub_name() {
                Some(which) => Ok(CommandV::CacheClean { which }),
                None => Err(ErrorV::MissingSubcommand(seq!["tags"@, "all"@])),
            }
        } else if n == "scan"@ {
            Ok(CommandV::ReposScan)
        } else if n == "print-cache"@ {
            Ok(CommandV::CachePrint)
        } else if n == "prompt-tui"@ {
            Ok(CommandV::PromptTui)
        } else if n == "prompt-cursive"@ {
            Ok(CommandV::PromptCursive)
        } else if n == "prompt-iced"@ {
            Ok(CommandV::PromptIced)
        } else if n == "tag-projects"@ {
            Ok(CommandV::TagProjects { path_filter: sub_value(m, "tag-projects"@, "path_filter"@) })
        } else if n == "completions"@ {
            Ok(CommandV::Completions)
        } else if n == "new-status"@ {
            Ok(status_command(m, "new-status"@, true))
        } else {
            Ok(status_command(m, "status"@, false))
        },
        None => Ok(status_command(m, "status"@, false)),
    }
}

/// What the flat interpretation needs of a command line: a pattern for
/// `filter`, and values of `action` for `action perform`.
pub open spec fn interpretable_flat(m: Matches) -> bool {
    &&& m.sub("filter"@) is Some ==> m.sub("filter"@).unwrap().value("pattern"@) is Some
    &&& (m.sub("action"@) is Some && m.sub("action"@).unwrap().sub("perform"@) is Some) ==> m.sub(
        "action"@,
    ).unwrap().sub("perform"@).unwrap().entry("action"@) is Some
}

/// The values of `tags` given to `filter`, or none.
fn filter_tags(f: &Matches) -> (r: Vec<String>)
    ensures
        strs(r) == match f.entry("tags"@) {
            Some(v) => strs(v),
            None => Seq::empty(),
        },
{
    match f.values_of("tags") {
        Some(v) => crate::models::action::copy_strings(v),
        None => {
            let none: Vec<String> = Vec::new();
            assert(strs(none) =~= Seq::<Seq<char>>::empty());
            none
        },
    }
}

/// The error for `clean` given without saying what to clean.
fn clean_what() -> (r: Result<Command>)
    ensures
        r matches Err(e) && e@ == ErrorV::MissingSubcommand(seq!["tags"@, "all"@]),
{
    let mut v: Vec<String> = Vec::new();
    v.push(String::from_str("tags"));
    v.push(String::from_str("all"));
    assert(strs(v) =~= seq!["tags"@, "all"@]);
    Err(GitGlobalError::MissingSubcommand(v))
}

/// The subcommand that a parsed command line of the flat layout asks for,
/// with what it was given.
pub fn interpret_flat(m: &Matches) -> (r: Result<Command>)
    requires
        interpretable_flat(*m),
    ensures
        match r {
            Ok(c) => flat_interpretation(*m) == std::result::Result::<CommandV, ErrorV>::Ok(c@),
            Err(e) => flat_interpretation(*m) == std::result::Result::<CommandV, ErrorV>::Err(e@),
        },
{
    let name = match m.subcommand_name() {
        Some(n) => n,
        None => return Ok(status_from(m, "status", false)),
    };
    if same(name, "github") {
        Ok(Command::Github)
    } else if same(name, "info") {
        let c = m.subcommand_matches("info").unwrap();
        Ok(Command::Info { raw: c.is_present("raw") })
    } else if same(name, "list") {
        let l = m.subcommand_matches("list").unwrap();
        let path_filter = match l.value_of("path_filter") {
            Some(v) => Some(String::from_str(v)),
            None => None,
        };
        Ok(Command::ReposList { path_filter })
    } else if same(name, "list-tags") {
        let l = m.subcommand_matches("list-tags").unwrap();
        Ok(Command::TagsList { with_repos: l.is_present("with_repos") })
    } else if same(name, "action") {
        let c = m.subcommand_matches("action").unwrap();
        if sub_is(c, "perform") {
            let tags = get_subcommand_value(c, "perform", "tags");
            let path = get_subcommand_value(c, "perform", "path");
            let action = get_subcommand_values(c, "perform", "action");
            Ok(Command::ActionsPerform { tags, path, action })
        } else if sub_is(c, "list") {
            Ok(Command::ActionsList)
        } else {
            Err(GitGlobalError::BadSubcommand(String::from_str("bad action subcommand")))
        }
    } else if same(name, "add-tags") {
        Ok(Command::TagsAdd)
    } else if same(name, "filter") {
        let f = m.subcommand_matches("filter").unwrap();
        let pattern = String::from_str(f.value_of("pattern").unwrap());
        Ok(Command::ReposFilter { pattern, tags: filter_tags(f) })
    } else if same(name, "clean") {
        let k = m.subcommand_matches("clean").unwrap();
        match k.subcommand_name() {
            Some(which) => Ok(Command::CacheClean { which: String::from_str(which) }),
            None => clean_what(),
        }
    } else if same(name, "scan") {
        Ok(Command::ReposScan)
    } else if same(name, "print-cache") {
        Ok(Command::CachePrint)
    } else if same(name, "prompt-tui") {
        Ok(Command::PromptTui)
    } else if same(name, "prompt-cursive") {
        Ok(Command::PromptCursive)
    } else if same(name, "prompt-iced") {
        Ok(Command::PromptIced)
    } else if same(name, "tag-projects") {
        Ok(Command::TagProjects { path_filter: get_path_filter(m, "tag-projects") })
    } else if same(name, "completions") {
        Ok(Command::Completions)
    } else if same(name, "new-status") {
        Ok(status_from(m, "new-status", true))
    } else {
        Ok(status_from(m, "status", false))
    }
}

/// A command line that gives `status` alone, with no argument and nothing
/// below it.
pub open spec fn status_alone(m: Matches) -> bool {
    m.subcommand matches Some(b) && b.name@ == "status"@ && b.matches.args@.len() == 0
        && b.matches.subcommand is None
}

/// Status is the default subcommand: a command line with no subcommand and
/// one with `status` alone ask for the same command, in the nested layout
/// and in the flat one.
pub proof fn law_status_is_the_default(bare: Matches, status: Matches)
    requires
        bare.subcommand is None,
        status_alone(status),
    ensures
        interpretation(bare) == interpretation(status),
        flat_interpretation(bare) == flat_interpretation(status),
{
    reveal_strlit("github");
    reveal_strlit("info");
    reveal_strlit("config");
    reveal_strlit("repos");
    reveal_strlit("tags");
    reveal_strlit("actions");
    reveal_strlit("cache");
    reveal_strlit("prompt");
    reveal_strlit("status");
    reveal_strlit("list");
    reveal_strlit("list-tags");
    reveal_strlit("action");
    reveal_strlit("add-tags");
    reveal_strlit("filter");
    reveal_strlit("clean");
    reveal_strlit("scan");
    reveal_strlit("print-cache");
    reveal_strlit("prompt-tui");
    reveal_strlit("prompt-cursive");
    reveal_strlit("prompt-iced");
    reveal_strlit("tag-projects");
    reveal_strlit("completions");
    reveal_strlit("new-status");
    let c = status.subcommand.unwrap().matches;
    assert(first_entry(c.args@, "modified"@) is None);
    assert(first_entry(c.args@, "ignore_untracked"@) is None);
    assert(first_entry(c.args@, "path_filter"@) is None);
    // `status` is none of the names tested before it
    assert("status"@[0] != "github"@[0]);
    assert("status"@[0] != "config"@[0]);
    assert("status"@[0] != "prompt"@[0]);
    assert("status"@[0] != "action"@[0]);
    assert("status"@[0] != "filter"@[0]);
    assert("status"@ != "list"@);
    assert("status"@ != "list-tags"@);
    assert("status"@ != "add-tags"@);
    assert("status"@ != "clean"@);
    assert("status"@ != "print-cache"@);
    assert("status"@ != "prompt-tui"@);
    assert("status"@ != "tag-projects"@);
    assert("status"@ != "completions"@);
    assert("status"@ != "new-status"@);
    assert("status"@ != "info"@);
    assert("scan"@.len() == 4);
    assert("status"@ != "scan"@);
    assert("status"@ != "prompt-cursive"@);
    assert("status"@ != "prompt-iced"@);
}

/// What a command line asks for rests on the subcommand given and on its own
/// arguments alone: command lines that differ only in their top-level
/// arguments (such as `--json`) ask for the same command, in both layouts.
pub proof fn law_command_rests_on_the_subcommand(a: Matches, b: Matches)
    requires
        a.subcommand == b.subcommand,
    ensures
        interpretation(a) == interpretation(b),
        flat_interpretation(a) == flat_interpretation(b),
{
    assert(a.sub_name() == b.sub_name());
    assert forall|n: Seq<char>| a.sub(n) == b.sub(n) by {}
}

/// `filter` (flat) and `repos filter` (nested) take their tags from the
/// values of the `tags` argument given to `filter` itself, and have no tags
/// where none is given there.
pub proof fn law_filter_tags_are_its_own(m: Matches, f: Matches)
    ensures
        (m.sub("filter"@) == Some(f) && f.value("pattern"@) is Some) ==> (flat_interpretation(m)
            matches Ok(CommandV::ReposFilter { pattern, tags }) && pattern == f.value(
            "pattern"@,
        ).unwrap() && (f.entry("tags"@) matches Some(v) ==> tags == strs(v)) && (f.entry(
            "tags"@,
        ) is None ==> tags.len() == 0)),
        (m.sub("repos"@) is Some && m.sub("repos"@).unwrap().sub("filter"@) == Some(f) && f.value(
            "pattern"@,
        ) is Some) ==> (interpretation(m) matches Ok(CommandV::ReposFilter { pattern, tags })
            && pattern == f.value("pattern"@).unwrap() && (f.entry("tags"@) matches Some(v) ==> tags
            == strs(v)) && (f.entry("tags"@) is None ==> tags.len() == 0)),
{
    reveal_strlit("github");
    reveal_strlit("info");
    reveal_strlit("list");
    reveal_strlit("list-tags");
    reveal_strlit("action");
    reveal_strlit("add-tags");
    reveal_strlit("filter");
    reveal_strlit("config");
    reveal_strlit("repos");
    reveal_strlit("select");
    assert("filter"@[0] != "github"@[0]);
    assert("filter"@[0] != "action"@[0]);
    assert("filter"@[0] != "select"@[0]);
    assert("filter"@ != "info"@);
    assert("filter"@ != "list"@);
    assert("filter"@ != "list-tags"@);
    assert("filter"@ != "add-tags"@);
    assert("repos"@.len() == 5);
    assert("info"@.len() == 4);
    assert("config"@.len() == 6);
    assert("repos"@ != "github"@);
    assert("repos"@ != "info"@);
    assert("repos"@ != "config"@);
}

/// The status subcommands take their flags and their path filter from their
/// own arguments: `status` and `new-status` in the flat layout, `status
/// status` and `status new-status` in the nested one.
pub proof fn law_status_arguments_are_its_own(m: Matches, s: Matches)
    ensures
        m.sub("status"@) == Some(s) ==> flat_interpretation(m) == Ok::<CommandV, ErrorV>(
            CommandV::Status {
                modified: s.present("modified"@),
                ignore_untracked: s.present("ignore_untracked"@),
                path_filter: s.value("path_filter"@),
            },
        ),
        m.sub("new-status"@) == Some(s) ==> flat_interpretation(m) == Ok::<CommandV, ErrorV>(
            CommandV::NewStatus {
                modified: s.present("modified"@),
                ignore_untracked: s.present("ignore_untracked"@),
                path_filter: s.value("path_filter"@),
            },
        ),
        (m.sub("status"@) is Some && m.sub("status"@).unwrap().sub("status"@) == Some(s))
            ==> interpretation(m) == Ok::<CommandV, ErrorV>(
            CommandV::Status {
                modified: s.present("modified"@),
                ignore_untracked: s.present("ignore_untracked"@),
                path_filter: s.value("path_filter"@),
            },
        ),
        (m.sub("status"@) is Some && m.sub("status"@).unwrap().sub("new-status"@) == Some(s))
            ==> interpretation(m) == Ok::<CommandV, ErrorV>(
            CommandV::NewStatus {
                modified: s.present("modified"@),
                ignore_untracked: s.present("ignore_untracked"@),
                path_filter: s.value("path_filter"@),
            },
        ),
{
    reveal_strlit("github");
    reveal_strlit("info");
    reveal_strlit("config");
    reveal_strlit("repos");
    reveal_strlit("tags");
    reveal_strlit("actions");
    reveal_strlit("cache");
    reveal_strlit("prompt");
    reveal_strlit("status");
    reveal_strlit("list");
    reveal_strlit("list-tags");
    reveal_strlit("action");
    reveal_strlit("add-tags");
    reveal_strlit("filter");
    reveal_strlit("clean");
    reveal_strlit("scan");
    reveal_strlit("print-cache");
    reveal_strlit("prompt-tui");
    reveal_strlit("prompt-cursive");
    reveal_strlit("prompt-iced");
    reveal_strlit("tag-projects");
    reveal_strlit("completions");
    reveal_strlit("new-status");
    assert("status"@.len() == 6);
    assert("new-status"@.len() == 10);
    assert("github"@.len() == 6);
    assert("config"@.len() == 6);
    assert("prompt"@.len() == 6);
    assert("action"@.len() == 6);
    assert("filter"@.len() == 6);
    assert("prompt-tui"@.len() == 10);
    assert("info"@.len() == 4);
    assert("scan"@.len() == 4);
    assert("list"@.len() == 4);
    assert("tags"@.len() == 4);
    assert("repos"@.len() == 5);
    assert("cache"@.len() == 5);
    assert("clean"@.len() == 5);
    assert("actions"@.len() == 7);
    assert("add-tags"@.len() == 8);
    assert("list-tags"@.len() == 9);
    assert("print-cache"@.len() == 11);
    assert("prompt-iced"@.len() == 11);
    assert("completions"@.len() == 11);
    assert("tag-projects"@.len() == 12);
    assert("prompt-cursive"@.len() == 14);
    assert("status"@[0] != "github"@[0]);
    assert("status"@[0] != "config"@[0]);
    assert("status"@[0] != "prompt"@[0]);
    assert("status"@[0] != "action"@[0]);
    assert("status"@[0] != "filter"@[0]);
    assert("new-status"@[0] != "prompt-tui"@[0]);
    assert("new-status"@ != "status"@);
}

/// What is shown of the outcome of a subcommand.
pub enum Report {
    /// The lines of the result, on standard output.
    Text(Vec<String>),
    /// The result as JSON, on standard output.
    Json(GitGlobalResult),
    /// The message of the error, on standard error, as text or in a JSON
    /// object.
    Error { message: String, as_json: bool },
}

/// What to show of the outcome of a subcommand, and what to return: a result
/// is shown (as text or as JSON) and all is well; an error is shown and a
/// plain error is returned in its place.
pub fn print_results(results: Result<GitGlobalResult>, use_json: bool) -> (r: (Report, Result<()>))
    requires
        results matches Ok(res) ==> (use_json || printable(res@)),
    ensures
        match results {
            Ok(res) => r.1 is Ok && (use_json ==> (r.0 matches Report::Json(j) && j@ == res@)) && (
            !use_json ==> (r.0 matches Report::Text(lines) && strs(lines) == res@.messages
                + repo_blocks(res@.repos, res@.repo_messages, res@.pad_repo_output))),
            Err(e) => (r.0 matches Report::Error { message, as_json } && message@ == error_message(e)
                && as_json == use_json) && (r.1 matches Err(GitGlobalError::FromIOError(m)) && m@
                == "something happened..."@),
        },
{
    match results {
        Ok(res) => {
            if use_json {
                (Report::Json(res), Ok(()))
            } else {
                let lines = res.print_lines();
                (Report::Text(lines), Ok(()))
            }
        },
        Err(err) => {
            let message = err.message();
            (
                Report::Error { message, as_json: use_json },
                Err(GitGlobalError::FromIOError(String::from_str("something happened..."))),
            )
        },
    }
}

} // verus!
