use git_global::models::light_table::LightTable;
use git_global::models::repo::Repo;
use git_global::models::repo_tag::RepoTag;
use git_global::models::utils::repos_from_paths;
use git_global::models::config::GitGlobalConfig;
use git_global::models::settings::{Settings, SettingsRaw};

fn table() -> LightTable {
    let mut a = Repo::new("/code/a".to_owned());
    a.tag("rust");
    let b = Repo::new("/other/b".to_owned());
    LightTable::from_cached(vec![a, b], None, vec![RepoTag::new("web"), RepoTag::new("apple")])
}

#[test]
fn all_the_tags_lists_each_once() {
    let t = table();
    let all = t.all_the_tags();
    assert_eq!(all, vec![("apple".to_owned(), 2), ("rust".to_owned(), 0), ("web".to_owned(), 1)]);
}

#[test]
fn add_tag_only_once() {
    let mut t = table();
    t.repo_index = 1;
    assert!(t.add_tag(&RepoTag::new("ml")));
    assert!(!t.add_tag(&RepoTag::new("ml")));
    let names: Vec<&str> = t.tags.iter().map(|x| x.name.as_str()).collect();
    assert_eq!(names, vec!["apple", "ml", "rust", "web"]);
}

#[test]
fn filtering_and_merging_back() {
    let mut t = table();
    t.repo_filter = "code".to_owned();
    t.repo_filter_update();
    assert_eq!(t.filtered_repos.len(), 1);
    t.repo_index = 0;
    assert!(t.add_tag(&RepoTag::new("new")));
    let labels = t.rerepos();
    assert_eq!(labels, vec![("/code/a".to_owned(), 0)]);
    let a = t.repos.iter().find(|r| r.path == "/code/a").unwrap();
    assert!(a.tags.iter().any(|x| x.name == "new"));
    assert_eq!(t.tags_as_list().len(), t.tags.len());
    let fixed = t.all_tags();
    assert_eq!(fixed[4], ("web dev".to_owned(), 4));
}

#[test]
fn scanned_repos_come_sorted() {
    let r = repos_from_paths(vec!["/b".to_owned(), "/a".to_owned(), "/c".to_owned(), "/a".to_owned()]);
    let paths: Vec<&str> = r.iter().map(|x| x.path.as_str()).collect();
    assert_eq!(paths, vec!["/a", "/a", "/b", "/c"]);
}

#[test]
fn shared_table_holds_what_it_was_given() {
    let shared = LightTable::new_from_rc(vec![], vec![], 0, 0, vec![RepoTag::new("x")], vec![], "f".to_owned());
    let t = shared.borrow();
    assert_eq!(t.tags, vec![RepoTag::new("x")]);
    assert_eq!(t.repo_filter, "f");
}

#[test]
fn table_from_config_shows_all_cached_repos() {
    let raw = SettingsRaw {
        basedir: Some("/code".to_owned()),
        basedirs: None,
        ignored_paths: None,
        ignored_patterns: None,
        path_shortcuts: None,
        ignored_repos: None,
        default_repos: None,
        default_tags: Some(vec![RepoTag::new("web")]),
        actions: None,
    };
    let mut gc = GitGlobalConfig::new_from_settings(
        Settings::from_raw(raw),
        "/home/hal".to_owned(),
        std::path::PathBuf::from("/tmp/c"),
    );
    gc.tags = vec![RepoTag::new("rust")];
    let cached = vec![Repo::new("/code/a".to_owned())];
    let t = LightTable::from_config(gc, cached.clone());
    assert_eq!(t.repos, cached);
    assert_eq!(t.filtered_repos, cached);
    assert_eq!(t.tags, vec![RepoTag::new("rust")]);
    assert_eq!(t.default_tags, vec![RepoTag::new("web")]);
    assert_eq!(t.repo_filter, "");
}
