//! Actions: commands that can be run, some of them in a repo's directory.
use crate::models::result::strs;
use vstd::prelude::*;
use vstd::string::StringExecFns;

verus! {

/// What a [`Commander`] holds.
pub struct CommanderV {
    pub name: Seq<char>,
    pub command: Seq<char>,
    pub args: Seq<Seq<char>>,
}

/// A named command with its arguments.
#[derive(Clone, Debug)]
pub struct Commander {
    name: String,
    command: String,
    args: Vec<String>,
}

impl View for Commander {
    type V = CommanderV;

    closed spec fn view(&self) -> CommanderV {
        CommanderV { name: self.name@, command: self.command@, args: strs(self.args) }
    }
}

/// A copy of a list of strings.
pub fn copy_strings(v: &Vec<String>) -> (r: Vec<String>)
    ensures
        strs(r) == strs(*v),
{
    let mut r: Vec<String> = Vec::new();
    let mut i: usize = 0;
    while i < v.len()
        invariant
            i <= v.len(),
            r@.len() == i,
            strs(r) == strs(*v).take(i as int),
        decreases v.len() - i,
    {
        let ghost prev = r@;
        r.push(v[i].clone());
        assert(r@ =~= prev.push(r@[i as int]));
        assert(strs(r) =~= strs(*v).take(i + 1));
        i += 1;
    }
    assert(strs(*v).take(i as int) =~= strs(*v));
    r
}

impl Commander {
    pub fn new(name: String, command: String, args: Vec<String>) -> (r: Commander)
        ensures
            r@ == (CommanderV { name: name@, command: command@, args: strs(args) }),
    {
        Commander { name, command, args }
    }

    /// The command's name.
    pub fn name(&self) -> (r: &String)
        ensures
            r@ == self@.name,
    {
        &self.name
    }

    /// The command to run.
    pub fn command(&self) -> (r: &String)
        ensures
            r@ == self@.command,
    {
        &self.command
    }

    /// The arguments to pass to the command.
    pub fn args(&self) -> (r: &Vec<String>)
        ensures
            strs(*r) == self@.args,
    {
        &self.args
    }

    /// A copy with the same contents.
    pub fn duplicate(&self) -> (r: Commander)
        ensures
            r@ == self@,
    {
        Commander {
            name: self.name.clone(),
            command: self.command.clone(),
            args: copy_strings(&self.args),
        }
    }
}

/// What an [`Action`] holds.
pub enum ActionV {
    PathAction { path: Seq<char>, cmd: CommanderV },
    NeedsAPathAction { cmd: CommanderV },
    NonPathAction { cmd: CommanderV },
}

impl ActionV {
    /// The command of any kind of action.
    pub open spec fn command_of(self) -> CommanderV {
        match self {
            ActionV::PathAction { cmd, .. } => cmd,
            ActionV::NeedsAPathAction { cmd } => cmd,
            ActionV::NonPathAction { cmd } => cmd,
        }
    }
}

/// Represents an Action - intended to be used in a repo
/// - possibly should be split into repo/path independent
/// actions and ones that take place in a specific Repo
#[derive(Clone, Debug)]
pub enum Action {
    PathAction { path: String, cmd: Commander },
    NeedsAPathAction { cmd: Commander },
    NonPathAction { cmd: Commander },
}

impl View for Action {
    type V = ActionV;

    open spec fn view(&self) -> ActionV {
        match self {
            Action::PathAction { path, cmd } => ActionV::PathAction { path: path@, cmd: cmd@ },
            Action::NeedsAPathAction { cmd } => ActionV::NeedsAPathAction { cmd: cmd@ },
            Action::NonPathAction { cmd } => ActionV::NonPathAction { cmd: cmd@ },
        }
    }
}

#[derive(Clone, Debug)]
pub enum ActionError {
    ActionFailed,
    NeedAPath(String),
    NotANeedAPath(String),
}

/// How to run an action: the shell command, its arguments, and the directory
/// to run it in (the current one where there is none).
#[derive(Clone, Debug)]
pub struct Invocation {
    pub command: String,
    pub args: Vec<String>,
    pub cwd: Option<String>,
}

impl Action {
    /// A copy with the same contents.
    pub fn duplicate(&self) -> (r: Action)
        ensures
            r@ == self@,
    {
        match self {
            Action::PathAction { path, cmd } => Action::PathAction {
                path: path.clone(),
                cmd: cmd.duplicate(),
            },
            Action::NeedsAPathAction { cmd } => Action::NeedsAPathAction { cmd: cmd.duplicate() },
            Action::NonPathAction { cmd } => Action::NonPathAction { cmd: cmd.duplicate() },
        }
    }

    fn commander(&self) -> (r: &Commander)
        ensures
            r@ == self@.command_of(),
    {
        match self {
            Action::PathAction { cmd, .. } | Action::NeedsAPathAction { cmd, .. }
            | Action::NonPathAction { cmd, .. } => cmd,
        }
    }

    /// Check if
    /// - this is a [`NeedsAPathAction`] variant
    /// - the command name matches
    /// If yes, bind the path and return
    /// Method calls [`name_match`] and [`path_bind`]
    pub fn check_needs_path_match_name(&self, action: &str, path: String) -> (r: Option<Self>)
        ensures
            r is Some <==> (self@ is NeedsAPathAction && self@.command_of().name == action@),
            r matches Some(a) ==> a@ == (ActionV::PathAction {
                path: path@,
                cmd: self@.command_of(),
            }),
    {
        if self.name_match(action).is_none() {
            return None;
        }
        match self.path_bind(path) {
            Ok(bound_action) => Some(bound_action),
            Err(_) => None,
        }
    }

    /// return Action name
    pub fn get_name(&self) -> (r: &str)
        ensures
            r@ == self@.command_of().name,
    {
        self.commander().name.as_str()
    }

    /// return Action command
    pub fn get_command(&self) -> (r: &str)
        ensures
            r@ == self@.command_of().command,
    {
        self.commander().command.as_str()
    }

    /// Indicates whether the action needs to be provided with a path in which to be executed - i.e. is it a [`Action::NeedsAPathAction`]
    pub fn needs_path(&self) -> (r: bool)
        ensures
            r == self@ is NeedsAPathAction,
    {
        match self {
            Action::NeedsAPathAction { .. } => true,
            _ => false,
        }
    }

    /// Check if a given string matches the name of the action
    pub fn name_match(&self, act: &str) -> (r: Option<Self>)
        ensures
            r is Some <==> self@.command_of().name == act@,
            r matches Some(a) ==> a@ == self@,
    {
        let name = self.commander().name.clone();
        let other = act.to_owned();
        if name == other {
            Some(self.duplicate())
        } else {
            None
        }
    }

    /// Turn a [`NeedsAPathAction`] variant into a [`PathAction`]
    pub fn path_bind(&self, path: String) -> (r: Result<Self, ActionError>)
        ensures
            self@ is NeedsAPathAction ==> (r matches Ok(a) && a@ == (ActionV::PathAction {
                path: path@,
                cmd: self@.command_of(),
            })),
            !(self@ is NeedsAPathAction) ==> (r matches Err(ActionError::NotANeedAPath(m)) && m@
                == "Action "@ + self@.command_of().name + " is not a Action::NeedsAPathAction"@),
    {
        match self {
            Action::NeedsAPathAction { cmd } => Ok(Action::PathAction { path, cmd: cmd.duplicate() }),
            Action::NonPathAction { cmd } | Action::PathAction { cmd, .. } => {
                let mut m = String::from_str("Action ");
                m.append(cmd.name.as_str());
                m.append(" is not a Action::NeedsAPathAction");
                Err(ActionError::NotANeedAPath(m))
            },
        }
    }

    /// How to perform the action: a [`Action::PathAction`] runs its command in
    /// its path, a [`Action::NonPathAction`] where it is, and a
    /// [`Action::NeedsAPathAction`] cannot be performed before it has a path.
    pub fn invocation(&self) -> (r: Result<Invocation, ActionError>)
        ensures
            self@ is NeedsAPathAction ==> (r matches Err(ActionError::NeedAPath(m)) && m@
                == "The command "@ + self@.command_of().name + " needs a path to be performed in"@),
            !(self@ is NeedsAPathAction) ==> (r matches Ok(inv) && inv.command@
                == self@.command_of().command && strs(inv.args) == self@.command_of().args && (
            match self@ {
                ActionV::PathAction { path, .. } => (inv.cwd matches Some(c) && c@ == path),
                _ => inv.cwd is None,
            })),
    {
        match self {
            Action::PathAction { path, cmd } => Ok(
                Invocation {
                    command: cmd.command.clone(),
                    args: copy_strings(&cmd.args),
                    cwd: Some(path.clone()),
                },
            ),
            Action::NonPathAction { cmd } => Ok(
                Invocation {
                    command: cmd.command.clone(),
                    args: copy_strings(&cmd.args),
                    cwd: None,
                },
            ),
            Action::NeedsAPathAction { cmd } => {
                let mut m = String::from_str("The command ");
                m.append(cmd.name.as_str());
                m.append(" needs a path to be performed in");
                Err(ActionError::NeedAPath(m))
            },
        }
    }
}

/// What `{:#?}` writes for a list of strings.
pub uninterp spec fn pretty_debug_list(items: Seq<Seq<char>>) -> Seq<char>;

/// `format!("{:#?}", items)`: the pretty debug form of a list of strings,
/// which std writes one quoted, escaped string per line between brackets. Its
/// exact text is left to that name; it depends on the strings alone.
#[verifier::external_body]
fn pretty_debug_format(items: &Vec<String>) -> (r: String)
    ensures
        r@ == pretty_debug_list(strs(*items)),
{
    format!("{:#?}", items)
}

/// How an action is written out for the user.
pub open spec fn action_text(a: ActionV) -> Seq<char> {
    match a {
        ActionV::PathAction { path, cmd } => "Action::PathAction: `"@ + cmd.name + "`\npath: "@ + path
            + "\ncommand: "@ + cmd.command + "\nargs: "@ + pretty_debug_list(cmd.args),
        ActionV::NeedsAPathAction { cmd } => "Action::NeedsAPathAction: `"@ + cmd.name
            + "`\ncommand: "@ + cmd.command + "\nargs: "@ + pretty_debug_list(cmd.args),
        ActionV::NonPathAction { cmd } => "Action::NonPathAction: `"@ + cmd.name + "`\ncommand: "@
            + cmd.command + "\nargs: "@ + pretty_debug_list(cmd.args),
    }
}

impl Action {
    /// The action written out for the user: its kind and name, its path where
    /// it has one, its command and its arguments.
    pub fn to_string(&self) -> (r: String)
        ensures
            r@ == action_text(self@),
    {
        let cmd = self.commander();
        let mut r = match self {
            Action::PathAction { path, .. } => {
                let mut r = String::from_str("Action::PathAction: `");
                r.append(cmd.name.as_str());
                r.append("`\npath: ");
                r.append(path.as_str());
                r
            },
            Action::NeedsAPathAction { .. } => {
                let mut r = String::from_str("Action::NeedsAPathAction: `");
                r.append(cmd.name.as_str());
                r.append("`");
                r
            },
            Action::NonPathAction { .. } => {
                let mut r = String::from_str("Action::NonPathAction: `");
                r.append(cmd.name.as_str());
                r.append("`");
                r
            },
        };
        r.append("\ncommand: ");
        r.append(cmd.command.as_str());
        r.append("\nargs: ");
        let listed = pretty_debug_format(&cmd.args);
        r.append(listed.as_str());
        proof {
            reveal_strlit("`\npath: ");
            reveal_strlit("`");
            reveal_strlit("\ncommand: ");
            reveal_strlit("`\ncommand: ");
            reveal_strlit("\nargs: ");
        }
        r
    }
}

} // verus!
