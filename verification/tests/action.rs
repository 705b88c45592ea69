use git_global::models::action::{Action, ActionError, Commander};
use git_global::models::action_set::ActionSet;
use git_global::models::repo::Repo;
use git_global::subcommands::actions::perform_plan;

fn cmd(name: &str, command: &str, args: &[&str]) -> Commander {
    Commander::new(name.to_owned(), command.to_owned(), args.iter().map(|s| s.to_string()).collect())
}

#[test]
pub fn action_enum_rep() {
    let ga = Action::PathAction { path: "/usr/local".to_owned(), cmd: cmd("nob", "pwd", &[]) };
    let inv = ga.invocation().unwrap();
    assert_eq!(inv.command, "pwd");
    assert_eq!(inv.cwd, Some("/usr/local".to_owned()));
    if let Action::PathAction { path, .. } = ga {
        assert_eq!(path, "/usr/local");
    }
}

#[test]
fn path_bind_and_name_match() {
    let a = Action::NeedsAPathAction { cmd: cmd("list", "ls", &["-la"]) };
    assert!(a.needs_path());
    assert!(a.name_match("list").is_some());
    assert!(a.name_match("lis").is_none());
    match a.path_bind("/code".to_owned()) {
        Ok(Action::PathAction { path, .. }) => assert_eq!(path, "/code"),
        _ => panic!("expected a path action"),
    }
    let b = Action::NonPathAction { cmd: cmd("brew", "brew update", &["update"]) };
    match b.path_bind("/code".to_owned()) {
        Err(ActionError::NotANeedAPath(m)) => {
            assert_eq!(m, "Action brew is not a Action::NeedsAPathAction")
        }
        _ => panic!("expected an error"),
    }
    match a.invocation() {
        Err(ActionError::NeedAPath(m)) => assert_eq!(m, "The command list needs a path to be performed in"),
        _ => panic!("expected an error"),
    }
    assert!(a.check_needs_path_match_name("list", "/x".to_owned()).is_some());
    assert!(b.check_needs_path_match_name("brew", "/x".to_owned()).is_none());
}

#[test]
fn action_text() {
    let a = Action::NonPathAction { cmd: cmd("brew", "brew update", &["update"]) };
    assert_eq!(
        a.to_string(),
        "Action::NonPathAction: `brew`\ncommand: brew update\nargs: [\n    \"update\",\n]"
    );
}

#[test]
fn dangerous_actions() {
    let set = ActionSet {
        actions: vec![],
        danger_list: vec!["rm ".to_owned(), "mv".to_owned()],
        warn_list: vec![],
    };
    assert!(set.is_dangerous(Action::NonPathAction { cmd: cmd("clean", "rm -rf target", &[]) }));
    assert!(!set.is_dangerous(Action::NonPathAction { cmd: cmd("list", "ls", &[]) }));
}

#[test]
fn perform_plan_binds_paths() {
    let mut a = Repo::new("/code/a".to_owned());
    a.tag("rust");
    let b = Repo::new("/code/b".to_owned());
    let actions = vec![
        Action::NonPathAction { cmd: cmd("brew", "brew update", &[]) },
        Action::NeedsAPathAction { cmd: cmd("status", "git status", &[]) },
    ];
    let plan = perform_plan(vec![a.clone(), b.clone()], &actions, None, Some("code".to_owned()), Some("status".to_owned()));
    assert_eq!(plan.repos.len(), 2);
    assert_eq!(plan.bound.len(), 2);
    match &plan.bound[1] {
        Action::PathAction { path, .. } => assert_eq!(path, "/code/b"),
        _ => panic!("expected a path action"),
    }
    let plan = perform_plan(vec![a, b], &actions, Some("rust".to_owned()), None, Some("brew".to_owned()));
    assert_eq!(plan.repos.len(), 1);
    assert!(plan.chosen.is_some());
    assert!(plan.bound.is_empty());
    let plan = perform_plan(vec![], &actions, None, None, Some("nope".to_owned()));
    assert!(plan.chosen.is_none());
}
