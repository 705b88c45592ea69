use git_global::models::repo::Repo;
use git_global::subcommands::clean::cache_clear_message;
use git_global::subcommands::info::{get_age, get_results as info_results};
use git_global::subcommands::list_tags::tag_lines;
use git_global::subcommands::prompt::{choice_message, repo_labels, Selectable};
use git_global::subcommands::tag_projects::{delete_tag, repo_2_name};
use git_global::subcommands::{filter, list, scan, tag};
use git_global::models::repo_tag::RepoTag;

fn repos() -> Vec<Repo> {
    let mut a = Repo::new("/code/alpha".to_owned());
    a.tag("rust");
    let mut b = Repo::new("/code/beta".to_owned());
    b.tag("web");
    let c = Repo::new("/other/gamma".to_owned());
    vec![a, b, c]
}

#[test]
fn filter_shows_matching_repos() {
    colored::control::set_override(false);
    let res = filter::get_results("code", vec![], repos()).unwrap();
    assert_eq!(
        res.print_lines(),
        vec!["/code/alpha".to_owned(), "/code/alpha".to_owned(), "/code/beta".to_owned(), "/code/beta".to_owned()]
    );
    let res = filter::get_results("code", vec!["web, ml"], repos()).unwrap();
    assert_eq!(res.repos.len(), 1);
    assert_eq!(res.print_lines(), vec!["/code/beta".to_owned(), "/code/beta".to_owned()]);
}

#[test]
fn tag_shows_tagged_repos() {
    let res = tag::get_results(vec!["rust"], repos()).unwrap();
    assert_eq!(res.print_lines(), vec!["/code/alpha".to_owned(), "Tagged repo /code/alpha".to_owned()]);
}

#[test]
fn scan_counts_repos() {
    let res = scan::get_results(repos()).unwrap();
    assert_eq!(res.messages(), &vec!["Found 3 repos. Use `git global list` to show them.".to_owned()]);
}

#[test]
fn list_with_and_without_filter() {
    colored::control::set_override(false);
    let res = list::get_results(None, repos()).unwrap();
    assert_eq!(
        res.print_lines(),
        vec!["/code/alpha".to_owned(), "/code/beta".to_owned(), "/other/gamma".to_owned()]
    );
    let res = list::get_results(Some("other"), repos()).unwrap();
    assert_eq!(res.print_lines(), vec!["/other/gamma".to_owned()]);
}

#[test]
fn list_tags_lines() {
    colored::control::set_override(false);
    let tags = vec![RepoTag::new("rust"), RepoTag::new("ml")];
    assert_eq!(tag_lines(&tags, &repos(), false), vec!["Tag: rust".to_owned(), "Tag: ml".to_owned()]);
    assert_eq!(
        tag_lines(&tags, &repos(), true),
        vec!["Tag: rust", "Repos:", "/code/alpha", "Tag: ml", "Repos:"]
            .into_iter()
            .map(String::from)
            .collect::<Vec<String>>()
    );
}

#[test]
fn info_messages() {
    colored::control::set_override(false);
    let res = info_results(
        &repos(),
        "0.1.0",
        "/home/me",
        "/cache/file",
        Some(90061),
        &vec![".cargo".to_owned()],
        None,
    );
    assert_eq!(
        res.messages(),
        &vec![
            "git-global 0.1.0",
            "================",
            "Number of repos: 3",
            "Base directory: /home/me",
            "Cache file: /cache/file",
            "Cache file age: 1d, 1h, 1m, 1s",
            "Ignored patterns:",
            "  .cargo",
            "For contents of cache file pass \"raw\" flag i.e.",
            ">>> git-global info raw",
        ]
        .into_iter()
        .map(String::from)
        .collect::<Vec<String>>()
    );
    assert_eq!(get_age(59), "0d, 0h, 0m, 59s");
}

#[test]
fn clean_messages() {
    assert_eq!(cache_clear_message("all"), "Cache destroyed");
    assert_eq!(cache_clear_message("tags"), "Tags removed");
}

#[test]
fn selectable_moves_within_bounds() {
    let mut sel = Selectable { selections: vec!["Choice 1", "Choice 2", "Choice 3"], selected: 0 };
    assert_eq!(sel.dec(), 0);
    assert_eq!(sel.inc(), 1);
    assert_eq!(sel.inc(), 2);
    assert_eq!(sel.inc(), 2);
    assert_eq!(sel.dec(), 1);
    assert_eq!(sel.inc(), 2);
}

#[test]
fn prompt_labels_and_messages() {
    let rs = repos();
    assert_eq!(repo_labels(&rs), vec!["alpha", "beta", "gamma"]);
    assert_eq!(choice_message("Paris"), "Paris is a great city!");
    assert_eq!(repo_2_name("a/b/c"), "c");
}

#[test]
fn delete_tag_asks_first() {
    let values = vec!["rust".to_owned(), "web".to_owned()];
    assert!(delete_tag(None, &values).is_none());
    let p = delete_tag(Some(1), &values).unwrap();
    assert_eq!(p.index, 1);
    assert_eq!(p.message, "Delete tag: web?");
}
