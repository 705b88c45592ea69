use git_global::models::repo::Repo;
use git_global::models::repo_tag::RepoTag;
use git_global::models::result::GitGlobalResult;
use git_global::subcommands::prompt_iced::{update, Message};

fn tagged(path: &str, tags: &[&str]) -> Repo {
    let mut r = Repo::new(path.to_owned());
    for t in tags {
        r.tag(t);
    }
    r
}

#[test]
fn merged_results_print_both() {
    let a = vec![tagged("/a", &["rust"])];
    let b = vec![tagged("/b", &["web"])];
    let mut ra = GitGlobalResult::new(&a);
    ra.add_message("first".to_owned());
    ra.add_repo_message(&a[0], "in a".to_owned());
    let mut rb = GitGlobalResult::new(&b);
    rb.add_message("second".to_owned());
    rb.add_repo_message(&b[0], "in b".to_owned());
    ra.merge_ggr(rb);
    assert_eq!(
        ra.print_lines(),
        vec!["first", "second", "/a", "in a", "/b", "in b"]
            .into_iter()
            .map(String::from)
            .collect::<Vec<String>>()
    );
    let tags: Vec<&str> = ra.all_tags().into_iter().map(|t| t.name.as_str()).collect();
    assert_eq!(tags, vec!["rust", "web"]);
    let web = ra.filter_repos_by_tags(vec![RepoTag::new("web")]);
    assert_eq!(web, b);
}

#[test]
fn unknown_repo_messages_are_ignored_and_padding_adds_blank_lines() {
    let a = vec![Repo::new("/a".to_owned())];
    let mut r = GitGlobalResult::new(&a);
    r.add_repo_message(&Repo::new("/zzz".to_owned()), "lost".to_owned());
    assert!(r.print_lines().is_empty());
    r.add_repo_message(&a[0], "kept".to_owned());
    r.pad_repo_output();
    assert_eq!(r.print_lines(), vec!["/a".to_owned(), "kept".to_owned(), "".to_owned()]);
    assert!(GitGlobalResult::blank().print_lines().is_empty());
}

#[test]
fn counter_presses_cancel() {
    let up = update(41, Message::IncrementPressed);
    assert_eq!(up, 42);
    assert_eq!(update(up, Message::DecrementPressed), 41);
}

#[test]
fn known_repo_at_finds_the_first_with_that_path() {
    let mut tagged = Repo::new("/code/a".to_owned());
    tagged.tag("web");
    let repos = vec![tagged, Repo::new("/code/b".to_owned()), Repo::new("/code/a".to_owned())];
    let result = GitGlobalResult::new(&repos);
    let found = result.known_repo_at("/code/a").unwrap();
    assert_eq!(found.path, "/code/a");
    assert_eq!(found.get_tags(), vec!["web".to_owned()]);
    assert!(result.known_repo_at("/code/c").is_none());
}

#[test]
fn fresh_results_are_printable() {
    let repos = vec![Repo::new("/code/a".to_owned())];
    assert!(GitGlobalResult::new(&repos).is_printable());
    let mut other = GitGlobalResult::blank();
    other.repos = repos;
    assert!(!other.is_printable());
}

#[test]
fn json_lines_keep_the_non_empty_messages() {
    let repos = vec![Repo::new("/code/a".to_owned()), Repo::new("/code/b".to_owned())];
    let mut result = GitGlobalResult::new(&repos);
    result.add_repo_message(&repos[0], "one".to_owned());
    result.add_repo_message(&repos[0], "".to_owned());
    result.add_repo_message(&repos[0], "two".to_owned());
    assert_eq!(
        result.json_repo_lines(),
        vec![
            ("/code/a".to_owned(), vec!["one".to_owned(), "two".to_owned()]),
            ("/code/b".to_owned(), vec![]),
        ]
    );
}
