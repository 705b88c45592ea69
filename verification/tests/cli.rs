use git_global::cli::{
    get_subcommand_values, interpret, interpret_flat, print_results, Command, Matches, Report,
    SubMatches,
};
use git_global::models::errors::GitGlobalError;
use git_global::models::repo::Repo;
use git_global::models::result::GitGlobalResult;

fn flag(name: &str) -> (String, Vec<String>) {
    (name.to_owned(), vec![])
}

fn value(name: &str, v: &[&str]) -> (String, Vec<String>) {
    (name.to_owned(), v.iter().map(|s| s.to_string()).collect())
}

fn with_sub(args: Vec<(String, Vec<String>)>, name: &str, inner: Matches) -> Matches {
    Matches { args, subcommand: Some(Box::new(SubMatches { name: name.to_owned(), matches: inner })) }
}

fn leaf(args: Vec<(String, Vec<String>)>) -> Matches {
    Matches { args, subcommand: None }
}

#[test]
fn no_subcommand_means_status() {
    match interpret(&leaf(vec![flag("json")])).unwrap() {
        Command::Status { modified, ignore_untracked, path_filter } => {
            assert!(!modified && !ignore_untracked && path_filter.is_none());
        }
        _ => panic!("expected status"),
    }
}

#[test]
fn repos_filter_reads_pattern_and_tags() {
    let filter = leaf(vec![value("pattern", &["code"]), value("tags", &["a,b", "c"])]);
    let m = with_sub(vec![], "repos", with_sub(vec![], "filter", filter));
    match interpret(&m).unwrap() {
        Command::ReposFilter { pattern, tags } => {
            assert_eq!(pattern, "code");
            assert_eq!(tags, vec!["a,b".to_owned(), "c".to_owned()]);
        }
        _ => panic!("expected repos filter"),
    }
}

#[test]
fn nested_status_reads_its_flags() {
    let inner = with_sub(
        vec![],
        "new-status",
        leaf(vec![flag("modified"), value("path_filter", &["src"])]),
    );
    let m = with_sub(vec![], "status", inner);
    match interpret(&m).unwrap() {
        Command::NewStatus { modified, ignore_untracked, path_filter } => {
            assert!(modified);
            assert!(!ignore_untracked);
            assert_eq!(path_filter, Some("src".to_owned()));
        }
        _ => panic!("expected new-status"),
    }
}

#[test]
fn unknown_and_missing_subcommands_are_errors() {
    let m = with_sub(vec![], "config", with_sub(vec![], "frob", leaf(vec![])));
    match interpret(&m) {
        Err(GitGlobalError::BadSubcommand(s)) => assert_eq!(s, "frob"),
        _ => panic!("expected a bad subcommand"),
    }
    let m = with_sub(vec![], "tags", leaf(vec![]));
    match interpret(&m) {
        Err(GitGlobalError::MissingSubcommand(v)) => assert_eq!(v, vec!["tags".to_owned()]),
        _ => panic!("expected a missing subcommand"),
    }
    let m = with_sub(vec![], "cache", with_sub(vec![], "clean", leaf(vec![])));
    match interpret(&m) {
        Err(GitGlobalError::MissingSubcommand(v)) => {
            assert_eq!(v, vec!["tags".to_owned(), "all".to_owned()])
        }
        _ => panic!("expected a missing subcommand"),
    }
    let m = with_sub(vec![], "actions", leaf(vec![]));
    match interpret(&m) {
        Err(e) => assert_eq!(e.message(), "Unknown subcommand, bad action subcommand."),
        _ => panic!("expected an error"),
    }
}

#[test]
fn actions_perform_joins_action_values() {
    let perform = leaf(vec![value("action", &["git ", "pull"]), value("tags", &["rust"])]);
    let m = with_sub(vec![], "actions", with_sub(vec![], "perform", perform));
    match interpret(&m).unwrap() {
        Command::ActionsPerform { tags, path, action } => {
            assert_eq!(tags, Some("rust".to_owned()));
            assert_eq!(path, None);
            assert_eq!(action, Some("git pull".to_owned()));
        }
        _ => panic!("expected actions perform"),
    }
    let outer = with_sub(vec![], "perform", leaf(vec![value("action", &["a", "b", "c"])]));
    assert_eq!(get_subcommand_values(&outer, "perform", "action"), Some("abc".to_owned()));
}

#[test]
fn print_results_shows_lines_or_error() {
    let repos = vec![Repo::new("/r".to_owned())];
    let mut res = GitGlobalResult::new(&repos);
    res.add_message("hello".to_owned());
    res.add_repo_message(&repos[0], "line".to_owned());
    res.add_repo_message(&repos[0], "".to_owned());
    let (report, outcome) = print_results(Ok(res), false);
    assert!(outcome.is_ok());
    match report {
        Report::Text(lines) => assert_eq!(lines, vec!["hello".to_owned(), "/r".to_owned(), "line".to_owned()]),
        _ => panic!("expected text"),
    }
    let (report, outcome) = print_results(Err(GitGlobalError::BadSubcommand("x".to_owned())), true);
    match report {
        Report::Error { message, as_json } => {
            assert_eq!(message, "Unknown subcommand, x.");
            assert!(as_json);
        }
        _ => panic!("expected an error report"),
    }
    match outcome {
        Err(GitGlobalError::FromIOError(m)) => assert_eq!(m, "something happened..."),
        _ => panic!("expected an error"),
    }
}

#[test]
fn error_messages() {
    assert_eq!(GitGlobalError::Generic.message(), "An error occured :(.");
    assert_eq!(
        GitGlobalError::MissingSubcommand(vec!["tags".to_owned(), "all".to_owned()]).message(),
        "Was expecting one of the following subcommands: [\"tags\", \"all\"]"
    );
    let io: GitGlobalError = std::io::Error::new(std::io::ErrorKind::NotFound, "x").into();
    assert_eq!(io.message(), "An error occured :(.");
}

fn status_flags(c: Command) -> (bool, bool, Option<String>) {
    match c {
        Command::Status { modified, ignore_untracked, path_filter } => {
            (modified, ignore_untracked, path_filter)
        }
        _ => panic!("expected status"),
    }
}

#[test]
fn nested_status_status_takes_modified_and_ignore_untracked() {
    let inner = with_sub(vec![], "status", leaf(vec![flag("modified"), flag("ignore_untracked")]));
    let m = with_sub(vec![], "status", inner);
    assert_eq!(status_flags(interpret(&m).unwrap()), (true, true, None));
}

#[test]
fn status_group_alone_is_the_default_status() {
    let bare = status_flags(interpret(&leaf(vec![])).unwrap());
    let alone = status_flags(interpret(&with_sub(vec![], "status", leaf(vec![]))).unwrap());
    assert_eq!(bare, (false, false, None));
    assert_eq!(alone, bare);
    let flat_alone = status_flags(interpret_flat(&with_sub(vec![], "status", leaf(vec![]))).unwrap());
    assert_eq!(flat_alone, bare);
}

#[test]
fn flat_status_takes_its_flags() {
    let m = with_sub(
        vec![flag("json")],
        "status",
        leaf(vec![flag("modified"), flag("ignore_untracked"), value("path_filter", &["work"])]),
    );
    assert_eq!(status_flags(interpret_flat(&m).unwrap()), (true, true, Some("work".to_owned())));
    match interpret_flat(&with_sub(vec![], "new-status", leaf(vec![flag("modified")]))).unwrap() {
        Command::NewStatus { modified, ignore_untracked, path_filter } => {
            assert!(modified && !ignore_untracked && path_filter.is_none());
        }
        _ => panic!("expected new-status"),
    }
}

#[test]
fn flat_top_level_list_scan_and_info() {
    let m = with_sub(vec![], "list", leaf(vec![value("path_filter", &["code"])]));
    match interpret_flat(&m).unwrap() {
        Command::ReposList { path_filter } => assert_eq!(path_filter, Some("code".to_owned())),
        _ => panic!("expected list"),
    }
    assert!(matches!(interpret_flat(&with_sub(vec![], "scan", leaf(vec![]))), Ok(Command::ReposScan)));
    match interpret_flat(&with_sub(vec![], "info", leaf(vec![flag("raw")]))).unwrap() {
        Command::Info { raw } => assert!(raw),
        _ => panic!("expected info"),
    }
    match interpret_flat(&with_sub(vec![], "list-tags", leaf(vec![flag("with_repos")]))).unwrap() {
        Command::TagsList { with_repos } => assert!(with_repos),
        _ => panic!("expected list-tags"),
    }
    assert!(matches!(interpret_flat(&with_sub(vec![], "print-cache", leaf(vec![]))), Ok(Command::CachePrint)));
    assert!(matches!(interpret_flat(&with_sub(vec![], "add-tags", leaf(vec![]))), Ok(Command::TagsAdd)));
}

#[test]
fn flat_filter_clean_and_action() {
    let m = with_sub(vec![], "filter", leaf(vec![value("pattern", &["x"])]));
    match interpret_flat(&m).unwrap() {
        Command::ReposFilter { pattern, tags } => {
            assert_eq!(pattern, "x");
            assert!(tags.is_empty());
        }
        _ => panic!("expected filter"),
    }
    match interpret_flat(&with_sub(vec![], "clean", with_sub(vec![], "tags", leaf(vec![])))).unwrap() {
        Command::CacheClean { which } => assert_eq!(which, "tags"),
        _ => panic!("expected clean"),
    }
    match interpret_flat(&with_sub(vec![], "clean", leaf(vec![]))) {
        Err(GitGlobalError::MissingSubcommand(v)) => {
            assert_eq!(v, vec!["tags".to_owned(), "all".to_owned()])
        }
        _ => panic!("expected a missing subcommand"),
    }
    match interpret_flat(&with_sub(vec![], "action", leaf(vec![]))) {
        Err(GitGlobalError::BadSubcommand(s)) => assert_eq!(s, "bad action subcommand"),
        _ => panic!("expected a bad subcommand"),
    }
    let perform = leaf(vec![value("action", &["ls"]), value("path", &["/a"])]);
    match interpret_flat(&with_sub(vec![], "action", with_sub(vec![], "perform", perform))).unwrap() {
        Command::ActionsPerform { tags, path, action } => {
            assert_eq!(tags, None);
            assert_eq!(path, Some("/a".to_owned()));
            assert_eq!(action, Some("ls".to_owned()));
        }
        _ => panic!("expected perform"),
    }
    match interpret_flat(&with_sub(vec![], "tag-projects", leaf(vec![value("path_filter", &["p"])]))).unwrap() {
        Command::TagProjects { path_filter } => assert_eq!(path_filter, Some("p".to_owned())),
        _ => panic!("expected tag-projects"),
    }
}

#[test]
fn status_group_with_an_unknown_subcommand_is_an_error() {
    let m = with_sub(vec![], "status", with_sub(vec![], "frob", leaf(vec![])));
    match interpret(&m) {
        Err(GitGlobalError::BadSubcommand(s)) => assert_eq!(s, "frob"),
        _ => panic!("expected a bad subcommand"),
    }
}
