use git_global::pieces::{join_strs, push_decimal, split_str, trim_str};
use git_global::subcommands::tag_projects::repo_2_name;
use git_global::subcommands::utilities::{parse_tag_args, print_str_pat};

#[test]
fn split_matches_std() {
    for (s, p) in [("a,b,,c", ","), ("rust", ""), ("", ""), ("abc", "x"), ("aXXbXX", "XX"), ("", ",")] {
        let mine = split_str(s, p);
        let std: Vec<String> = s.split(p).map(String::from).collect();
        assert_eq!(mine, std, "split of {:?} at {:?}", s, p);
    }
}

#[test]
fn join_undoes_split() {
    for (s, p) in [("a,b,,c", ","), ("rust", ""), ("/hal/code", "code"), ("", "-")] {
        assert_eq!(join_strs(&split_str(s, p), p), s);
    }
    assert_eq!(join_strs(&vec!["a".to_owned(), "b".to_owned()], ", "), "a, b");
    assert_eq!(join_strs(&vec![], ", "), "");
}

#[test]
fn trim_matches_std() {
    for s in ["  a b  ", "\t\n x", "", "   ", "y\u{3000}", "\u{a0}z\u{2009}"] {
        assert_eq!(trim_str(s), s.trim());
    }
}

#[test]
fn decimal_matches_std() {
    for n in [0u64, 7, 10, 99, 100, 12345, u64::MAX] {
        let mut s = String::from("n=");
        push_decimal(&mut s, n);
        assert_eq!(s, format!("n={}", n));
    }
}

#[test]
fn repo_names() {
    assert_eq!(repo_2_name("/hal/code/project"), "project");
    assert_eq!(repo_2_name("project"), "project");
    assert_eq!(repo_2_name("/hal/code/"), "");
}

#[test]
fn tag_arguments_are_split_and_trimmed() {
    let tags = parse_tag_args(&vec!["rust, web", "ml"]);
    let names: Vec<&str> = tags.iter().map(|t| t.name.as_str()).collect();
    assert_eq!(names, vec!["rust", "web", "ml"]);
}

#[test]
fn pattern_plain_gives_string_back() {
    colored::control::set_override(false);
    assert_eq!(print_str_pat("/hal/code/rust", Some("code")), "/hal/code/rust");
    assert_eq!(print_str_pat("/hal/code/rust", None), "/hal/code/rust");
}
