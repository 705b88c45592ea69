use git_global::subcommands::status::{
    add_status, chunks, drop_untracked, get_short_format_status, repo_chunks, status_line,
    CONFLICTED, IGNORED, INDEX_MODIFIED, INDEX_NEW, WT_MODIFIED, WT_NEW,
};
use git_global::models::repo::Repo;
use git_global::models::result::GitGlobalResult;
use itertools::Itertools;

#[test]
pub fn test_range() {
    for i in (0..10).into_iter().take(4) {
        println!("{}", i);
    }
    for i in &(1..=16).into_iter().chunks(16 / 3) {
        let mut row = String::new();
        for ii in i {
            row.push_str(&format!("{} ", ii));
        }
        println!("{}", row);
    }
    let cluk = &(1..=16).into_iter().chunks(16 / 3);
    let mut v = vec![];
    for c in cluk {
        v.push(c.collect::<Vec<i32>>());
    }
    let p: Vec<_> = vec![10, 20, 30, 40];
    for i in &p.clone().into_iter().chunks(2) {
        println!("{:?}", i.collect_vec());
    }
    // the library cuts the same way
    let ones: Vec<i32> = (1..=16).collect();
    assert_eq!(chunks(&ones, 16 / 3), v);
    assert_eq!(chunks(&p, 2), vec![vec![10, 20], vec![30, 40]]);
}

#[test]
fn repo_chunks_cover_every_index_once() {
    let c = repo_chunks(10, 3);
    assert_eq!(c, vec![vec![0, 1, 2], vec![3, 4, 5], vec![6, 7, 8], vec![9]]);
    let flat: Vec<i32> = c.into_iter().flatten().collect();
    assert_eq!(flat, (0..10).collect::<Vec<i32>>());
}

#[test]
fn short_status_letters() {
    assert_eq!(get_short_format_status(INDEX_NEW), "A ");
    assert_eq!(get_short_format_status(WT_MODIFIED), " M");
    assert_eq!(get_short_format_status(INDEX_MODIFIED | WT_MODIFIED), "MM");
    assert_eq!(get_short_format_status(WT_NEW), "??");
    assert_eq!(get_short_format_status(IGNORED), "!!");
    assert_eq!(get_short_format_status(CONFLICTED | INDEX_NEW), "CC");
    assert_eq!(get_short_format_status(0), "  ");
    assert_eq!(status_line(WT_NEW, "src/new.rs"), "?? src/new.rs");
}

#[test]
fn untracked_lines_are_dropped_when_asked() {
    let lines = vec!["?? a".to_owned(), " M b".to_owned(), "?".to_owned()];
    assert_eq!(drop_untracked(lines.clone(), false), lines);
    assert_eq!(drop_untracked(lines, true), vec![" M b".to_owned(), "?".to_owned()]);
}

#[test]
fn status_messages_for_a_repo() {
    colored::control::set_override(false);
    let repos = vec![Repo::new("/code/a".to_owned()), Repo::new("/code/b".to_owned())];
    let mut result = GitGlobalResult::new(&repos);
    result.pad_repo_output();
    add_status(&mut result, "/code/a".to_owned(), vec![" M x".to_owned()], false, &None);
    add_status(&mut result, "/code/b".to_owned(), vec![], true, &None);
    add_status(&mut result, "/code/b".to_owned(), vec![], false, &Some("zzz".to_owned()));
    let lines = result.print_lines();
    assert_eq!(lines, vec!["/code/a".to_owned(), "Status for /code/a".to_owned(), " M x".to_owned(), "".to_owned()]);
    let mut result = GitGlobalResult::new(&repos);
    add_status(&mut result, "/code/b".to_owned(), vec![], false, &None);
    assert_eq!(result.print_lines(), vec!["/code/b".to_owned(), "Status for /code/b".to_owned()]);
}

#[test]
fn status_lines_of_a_tagged_repo_are_kept() {
    colored::control::set_override(false);
    let mut tagged = Repo::new("/code/t".to_owned());
    tagged.tag("rust");
    let repos = vec![tagged, Repo::new("/code/u".to_owned())];
    let mut result = GitGlobalResult::new(&repos);
    add_status(&mut result, "/code/t".to_owned(), vec![" M lib.rs".to_owned(), "?? new".to_owned()], false, &None);
    add_status(&mut result, "/code/elsewhere".to_owned(), vec![" M z".to_owned()], false, &None);
    assert_eq!(
        result.print_lines(),
        vec![
            "/code/t".to_owned(),
            "Status for /code/t".to_owned(),
            " M lib.rs".to_owned(),
            "?? new".to_owned(),
        ]
    );
}
