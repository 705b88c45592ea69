use git_global::models::repo::Repo;
use git_global::models::repo_tag::RepoTag;
use git_global::models::result::GitGlobalResult;
use git_global::subcommands::list_tags::tag_lines;
use git_global::subcommands::status::add_status;
use git_global::subcommands::utilities::print_str_pat;
use git_global::subcommands::actions::{action_header, output_lines};

#[test]
fn pattern_is_painted_green_between_blue_pieces() {
    colored::control::set_override(true);
    let out = print_str_pat("a/x/b", Some("x"));
    assert_eq!(out, "\u{1b}[34ma/\u{1b}[0m\u{1b}[32mx\u{1b}[0m\u{1b}[34m/b\u{1b}[0m");
    assert_eq!(print_str_pat("ab", None), "\u{1b}[34mab\u{1b}[0m");
}

#[test]
fn action_output_is_painted() {
    colored::control::set_override(true);
    assert_eq!(
        action_header("ls", "/p"),
        "\u{1b}[34mResult of action\u{1b}[0m \u{1b}[4;32mls\u{1b}[0m \u{1b}[34mfor\u{1b}[0m \u{1b}[4;32m/p\u{1b}[0m"
    );
    assert_eq!(output_lines("a\nb"), vec!["\u{1b}[32ma\u{1b}[0m".to_owned(), "\u{1b}[32mb\u{1b}[0m".to_owned()]);
}

#[test]
fn tag_listing_is_painted() {
    colored::control::set_override(true);
    let lines = tag_lines(&vec![RepoTag::new("rust")], &vec![], true);
    assert_eq!(
        lines,
        vec![
            "\u{1b}[33mTag:\u{1b}[0m \u{1b}[4;32mrust\u{1b}[0m".to_owned(),
            "\u{1b}[33mRepos:\u{1b}[0m".to_owned(),
        ]
    );
}

#[test]
fn empty_status_header_is_dimmed() {
    colored::control::set_override(true);
    let repos = vec![Repo::new("/r".to_owned())];
    let mut result = GitGlobalResult::new(&repos);
    add_status(&mut result, "/r".to_owned(), vec![], false, &None);
    let header = "\u{1b}[34mStatus for\u{1b}[0m \u{1b}[4;32m/r\u{1b}[0m";
    let dimmed = format!("\u{1b}[2m{}\u{1b}[0m", header.replace("\u{1b}[0m", "\u{1b}[0m\u{1b}[2m"));
    assert_eq!(result.print_lines(), vec!["/r".to_owned(), dimmed]);
}
