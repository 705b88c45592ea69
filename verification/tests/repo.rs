use git_global::models::config::{ignored_patterns_from, settings_with_git_config, GitGlobalConfig};
use git_global::models::repo::Repo;
use git_global::models::repo_tag::RepoTag;
use git_global::models::settings::{Settings, SettingsRaw};
use git_global::models::Updatable;
use std::path::PathBuf;

fn vec_from_vecs<T>(s: Vec<&str>, f: Box<dyn FnMut(&str) -> T>) -> Vec<T> {
    s.into_iter().map(f).collect::<Vec<T>>()
}

fn repos_from_vecs(s: Vec<&str>) -> Vec<Repo> {
    vec_from_vecs(s, Box::new(|s: &str| Repo::new(s.to_owned())))
}

fn repotags_from_vecs(s: Vec<&str>) -> Vec<RepoTag> {
    vec_from_vecs(s, Box::new(|s: &str| RepoTag::new(s)))
}

fn test_config() -> GitGlobalConfig {
    let raw = SettingsRaw {
        basedir: Some("/hal/code".to_owned()),
        basedirs: None,
        ignored_paths: None,
        ignored_patterns: None,
        path_shortcuts: None,
        ignored_repos: None,
        default_repos: None,
        default_tags: None,
        actions: None,
    };
    GitGlobalConfig::new_from_settings(
        Settings::from_raw(raw),
        "/home/hal".to_owned(),
        PathBuf::from("/tmp/cache.json"),
    )
}

#[test]
pub fn test_merge_repos_and_tags() {
    let mut gc = test_config();
    let _tags1: Vec<RepoTag> = repotags_from_vecs(vec!["apple", "os x", "denite"]);
    let tags2: Vec<RepoTag> = vec!["apple", "os windows", "haskell"]
        .into_iter()
        .map(RepoTag::new)
        .collect();
    let repo1: Vec<Repo> = repos_from_vecs(vec!["/hal/code/1", "/hal/code/2", "/hal/code/3"]);
    let repo2: Vec<Repo> = repos_from_vecs(vec!["/hal/code/1", "/hal/code/4"]);
    // PRE-SORTED REPOS
    let repo_final: Vec<Repo> = repos_from_vecs(vec![
        "/hal/code/1",
        "/hal/code/2",
        "/hal/code/3",
        "/hal/code/4",
    ]);
    gc.repos = repo1;
    let (r_out, _t_out) = gc.merge_repos_and_tags(repo2.clone(), tags2.clone());
    assert_eq!(r_out, repo_final, "repo comparison failed!");
    // UNSORTED REPOS
    let repo1: Vec<Repo> = repos_from_vecs(vec!["/hal/code/2", "/hal/code/3", "/hal/code/1"]);
    gc.repos = repo1;
    let (r_out, _t_out) = gc.merge_repos_and_tags(repo2.clone(), tags2.clone());
    assert_eq!(r_out, repo_final, "repo comparison failed for unsorted data!");
    // UNEQUAL REPOS
    let repo1: Vec<Repo> = repos_from_vecs(vec!["/hal/code/2", "/hal/code/8"]);
    gc.repos = repo1;
    let (r_out, _t_out) = gc.merge_repos_and_tags(repo2.clone(), tags2.clone());
    assert_ne!(
        r_out, repo_final,
        "repo comparison succeeded when it should have failed due to not equal inputs!"
    );
}

#[test]
fn merged_tags_are_sorted_and_unique() {
    let mut gc = test_config();
    gc.default_tags = repotags_from_vecs(vec!["web", "apple"]);
    let mut r = Repo::new("/hal/code/1".to_owned());
    r.tag("rust");
    r.tag("apple");
    gc.repos = vec![r];
    let (_repos, tags) = gc.merge_repos_and_tags(vec![], repotags_from_vecs(vec!["zed", "rust"]));
    let names: Vec<&str> = tags.iter().map(|t| t.name.as_str()).collect();
    assert_eq!(names, vec!["apple", "rust", "web", "zed"]);
}

#[test]
fn merge_commutes_on_concrete_lists() {
    let gc = test_config();
    let a = repos_from_vecs(vec!["/b", "/a"]);
    let b = repos_from_vecs(vec!["/c", "/a"]);
    let ab = gc.merge_things(a.clone(), b.clone());
    let ba = gc.merge_things(b, a);
    assert_eq!(ab, ba);
    assert_eq!(ab, repos_from_vecs(vec!["/a", "/b", "/c"]));
}

#[test]
fn merge_with_itself_gives_it_back() {
    let gc = test_config();
    let a = repos_from_vecs(vec!["/a", "/b", "/c"]);
    assert_eq!(gc.merge_things(a.clone(), a.clone()), a);
}

#[test]
fn untag_after_tag_restores_repo() {
    let mut r = Repo::new("/hal/code/1".to_owned());
    r.tag("rust");
    let before = r.clone();
    r.tag("web");
    assert!(r.has_tag("web"));
    r.untag("web");
    assert_eq!(r, before);
}

#[test]
fn untag_removes_only_first_occurrence() {
    let mut r = Repo::new("/x".to_owned());
    r.tag("a");
    r.tag("b");
    r.tag("a");
    r.untag("a");
    assert_eq!(r.get_tags(), vec!["b".to_owned(), "a".to_owned()]);
    r.untag("zzz");
    assert_eq!(r.get_tags(), vec!["b".to_owned(), "a".to_owned()]);
}

#[test]
fn repo_name_is_last_component() {
    let r = Repo::new("/hal/code/project/".to_owned());
    assert_eq!(r.name(), "project");
    assert_eq!(r.path(), "/hal/code/project/");
}

#[test]
fn tag_round_trips_through_string() {
    let t: RepoTag = RepoTag::from("apple".to_owned());
    let s: String = String::from(t);
    assert_eq!(s, "apple");
}

#[test]
fn select_tagged_keeps_repos_with_any_tag() {
    let mut a = Repo::new("/a".to_owned());
    a.tag("rust");
    let mut b = Repo::new("/b".to_owned());
    b.tag("web");
    let c = Repo::new("/c".to_owned());
    let all = vec![a.clone(), b.clone(), c.clone()];
    let picked = GitGlobalConfig::select_tagged(all.clone(), &repotags_from_vecs(vec!["web", "ml"]));
    assert_eq!(picked, vec![b]);
    let everything = GitGlobalConfig::select_tagged(all.clone(), &vec![]);
    assert_eq!(everything, all);
    let stripped = GitGlobalConfig::strip_tags(all);
    assert!(stripped.iter().all(|r| r.tags.is_empty()));
}

#[test]
fn config_filter_ignores_patterns() {
    let mut gc = test_config();
    gc.ignored_patterns = vec![".cargo".to_owned(), "Library".to_owned()];
    assert!(!gc.filter("/home/me/.cargo/registry"));
    assert!(gc.filter("/home/me/code"));
    gc.ignored_patterns = vec!["".to_owned()];
    assert!(gc.filter("/anything"));
}

#[test]
fn append_tags_drops_case_repeats() {
    let mut gc = test_config();
    gc.append_tags(vec!["Rust".to_owned(), "rust".to_owned(), "web".to_owned()]);
    let names: Vec<&str> = gc.tag_names();
    assert_eq!(names, vec!["Rust", "web"]);
    gc.replace_tags(vec!["x".to_owned()]);
    assert_eq!(gc.tag_names(), vec!["x"]);
}

#[test]
fn repo_and_tag_text() {
    assert_eq!(Repo::new("/a/b".to_owned()).to_string(), "/a/b");
    assert_eq!(RepoTag::new("rust").to_string(), "RepoTag: rust");
}

#[test]
fn settings_are_described() {
    colored::control::set_override(false);
    let raw = SettingsRaw {
        basedir: None,
        basedirs: Some(vec!["/a".to_owned()]),
        ignored_paths: None,
        ignored_patterns: None,
        path_shortcuts: None,
        ignored_repos: None,
        default_repos: None,
        default_tags: Some(vec![RepoTag::new("rust")]),
        actions: None,
    };
    let s = Settings::from_raw(raw);
    let text = s.describe(&vec![("c".to_owned(), "/code".to_owned())]);
    assert_eq!(
        text,
        "Settings:\nbasedir:\n\tNothing Provided\nbasedirs:\n\t/a\nignored_paths:\nignored_patterns:\npath_shortcuts:\n\tc\t/code\nignored_repos:\ndefault_repos:\ndefault_tags:\n\tRepoTag: rust\n"
    );
}

#[test]
fn basedir_defaults_to_home() {
    let raw = SettingsRaw {
        basedir: None,
        basedirs: None,
        ignored_paths: None,
        ignored_patterns: None,
        path_shortcuts: None,
        ignored_repos: None,
        default_repos: None,
        default_tags: None,
        actions: None,
    };
    let gc = GitGlobalConfig::new_from_settings(
        Settings::from_raw(raw),
        "/home/hal".to_owned(),
        PathBuf::from("/tmp/cache.json"),
    );
    assert_eq!(gc.basedir, "/home/hal");
    assert_eq!(test_config().basedir, "/hal/code");
}

#[test]
fn ignore_setting_is_split_on_commas() {
    assert_eq!(
        ignored_patterns_from(".cargo,.vim,Library"),
        vec![".cargo".to_owned(), ".vim".to_owned(), "Library".to_owned()]
    );
    assert_eq!(ignored_patterns_from(" a , b,"), vec!["a".to_owned(), "b".to_owned(), "".to_owned()]);
    assert_eq!(ignored_patterns_from(""), vec!["".to_owned()]);
}

fn raw_settings(basedir: Option<&str>, ignored: Option<Vec<&str>>) -> SettingsRaw {
    SettingsRaw {
        basedir: basedir.map(|b| b.to_owned()),
        basedirs: None,
        ignored_paths: None,
        ignored_patterns: ignored.map(|v| v.into_iter().map(|p| p.to_owned()).collect()),
        path_shortcuts: None,
        ignored_repos: None,
        default_repos: None,
        default_tags: None,
        actions: None,
    }
}

#[test]
fn git_config_fills_what_the_settings_leave_out() {
    let s = settings_with_git_config(
        Settings::from_raw(raw_settings(None, None)),
        Some("/git/base".to_owned()),
        Some(".cargo, .vim".to_owned()),
    );
    assert_eq!(s.basedir, Some("/git/base".to_owned()));
    assert_eq!(s.ignored_patterns, vec![".cargo".to_owned(), ".vim".to_owned()]);
    let s = settings_with_git_config(
        Settings::from_raw(raw_settings(Some("/mine"), Some(vec!["target"]))),
        Some("/git/base".to_owned()),
        Some(".cargo".to_owned()),
    );
    assert_eq!(s.basedir, Some("/mine".to_owned()));
    assert_eq!(s.ignored_patterns, vec!["target".to_owned()]);
    let s = settings_with_git_config(Settings::from_raw(raw_settings(None, None)), None, None);
    assert_eq!(s.basedir, None);
    assert!(s.ignored_patterns.is_empty());
}

#[test]
fn scans_leave_out_ignored_paths() {
    let settings = settings_with_git_config(
        Settings::from_raw(raw_settings(Some("/h"), None)),
        None,
        Some(".cargo,.vim,Library".to_owned()),
    );
    let gc = GitGlobalConfig::new_from_settings(settings, "/h".to_owned(), PathBuf::from("/tmp/c"));
    assert!(!gc.filter("/h/.cargo/registry/x"));
    assert!(gc.filter("/h/code/x"));
    let paths = vec![
        "/h/code/a".to_owned(),
        "/h/.vim/bundle/b".to_owned(),
        "/h/Library/c".to_owned(),
        "/h/code/d".to_owned(),
    ];
    assert_eq!(gc.prune_ignored(paths.clone()), vec!["/h/code/a".to_owned(), "/h/code/d".to_owned()]);
    let settings = Settings::from_raw(raw_settings(Some("/h"), Some(vec![""])));
    let keep_all = GitGlobalConfig::new_from_settings(settings, "/h".to_owned(), PathBuf::from("/tmp/c"));
    assert_eq!(keep_all.prune_ignored(paths.clone()), paths);
}
