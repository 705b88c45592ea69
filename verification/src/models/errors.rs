//! Error handling for git-global.

use crate::models::result::strs;
use vstd::prelude::*;
use vstd::string::StringExecFns;

verus! {

/// An error of the operating system, carried as it is.
#[verifier::external_type_specification]
#[verifier::external_body]
pub struct ExIoError(std::io::Error);

/// An error.
#[derive(Debug)]
pub enum GitGlobalError {
    BadSubcommand(String),
    MissingSubcommand(Vec<String>),
    FromIOError(String),
    Generic,
    Io { source: std::io::Error },
}

/// What a [`GitGlobalError`] says, without the operating system's error.
pub enum ErrorV {
    BadSubcommand(Seq<char>),
    MissingSubcommand(Seq<Seq<char>>),
    FromIOError(Seq<char>),
    Generic,
    Io,
}

impl View for GitGlobalError {
    type V = ErrorV;

    open spec fn view(&self) -> ErrorV {
        match self {
            GitGlobalError::BadSubcommand(s) => ErrorV::BadSubcommand(s@),
            GitGlobalError::MissingSubcommand(v) => ErrorV::MissingSubcommand(strs(*v)),
            GitGlobalError::FromIOError(s) => ErrorV::FromIOError(s@),
            GitGlobalError::Generic => ErrorV::Generic,
            GitGlobalError::Io { .. } => ErrorV::Io,
        }
    }
}

/// Our `Result` alias with `GitGlobalError` as the error type.
pub type Result<T> = std::result::Result<T, GitGlobalError>;

/// What `{:?}` writes for a list of strings.
pub uninterp spec fn debug_list(items: Seq<Seq<char>>) -> Seq<char>;

/// `format!("{:?}", items)`: the debug form of a list of strings, which std
/// writes as the quoted, escaped strings between brackets. Its exact text is
/// left to that name; it depends on the strings alone.
#[verifier::external_body]
fn debug_format(items: &Vec<String>) -> (r: String)
    ensures
        r@ == debug_list(strs(*items)),
{
    format!("{:?}", items)
}

/// The message that describes an error.
pub open spec fn error_message(e: GitGlobalError) -> Seq<char> {
    match e {
        GitGlobalError::BadSubcommand(cmd) => "Unknown subcommand, "@ + cmd@ + "."@,
        GitGlobalError::MissingSubcommand(possibles) => "Was expecting one of the following subcommands: "@
            + debug_list(strs(possibles)),
        _ => "An error occured :(."@,
    }
}

impl GitGlobalError {
    /// The message that describes the error, as it is shown to the user.
    pub fn message(&self) -> (r: String)
        ensures
            r@ == error_message(*self),
    {
        match self {
            GitGlobalError::BadSubcommand(cmd) => {
                let mut m = String::from_str("Unknown subcommand, ");
                m.append(cmd.as_str());
                m.append(".");
                m
            },
            GitGlobalError::MissingSubcommand(possibles) => {
                let mut m = String::from_str("Was expecting one of the following subcommands: ");
                let listed = debug_format(possibles);
                m.append(listed.as_str());
                m
            },
            _ => String::from_str("An error occured :(."),
        }
    }
}

impl From<std::io::Error> for GitGlobalError {
    fn from(source: std::io::Error) -> (r: GitGlobalError) {
        GitGlobalError::Io { source }
    }
}

impl vstd::std_specs::convert::FromSpecImpl<std::io::Error> for GitGlobalError {
    open spec fn obeys_from_spec() -> bool {
        true
    }

    open spec fn from_spec(v: std::io::Error) -> GitGlobalError {
        GitGlobalError::Io { source: v }
    }
}

} // verus!
