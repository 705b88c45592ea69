//! A list of choices with one of them selected, moved through with up and down.

use crate::models::repo::Repo;
use crate::subcommands::tag_projects::{repo_2_name, tail_after_last_slash};
use vstd::prelude::*;

verus! {

/// The selection after moving down: one further unless it is on the last
/// choice (or past it).
pub open spec fn next_selection(selected: usize, len: usize) -> usize {
    if selected < len - 1 {
        (selected + 1) as usize
    } else {
        selected
    }
}

/// The selection after moving up: one back unless it is on the first choice.
pub open spec fn prev_selection(selected: usize) -> usize {
    if selected >= 1 {
        (selected - 1) as usize
    } else {
        selected
    }
}

/// Choices and the index of the selected one.
#[derive(Debug)]
pub struct Selectable<'a> {
    pub selections: Vec<&'a str>,
    pub selected: usize,
}

impl<'a> Selectable<'a> {
    /// Moves the selection down, stopping at the last choice, and returns it.
    pub fn inc(&mut self) -> (r: usize)
        requires
            old(self).selections.len() > 0,
        ensures
            final(self).selections == old(self).selections,
            final(self).selected == next_selection(
                old(self).selected,
                old(self).selections.len() as usize,
            ),
            r == final(self).selected,
    {
        if self.selected < (self.selections.len() - 1) {
            self.selected = self.selected + 1;
        }
        self.selected
    }

    /// Moves the selection up, stopping at the first choice, and returns it.
    pub fn dec(&mut self) -> (r: usize)
        ensures
            final(self).selections == old(self).selections,
            final(self).selected == prev_selection(old(self).selected),
            r == final(self).selected,
    {
        if self.selected >= 1 {
            self.selected = self.selected - 1;
        }
        self.selected
    }
}

/// A selection within the choices stays within them when it moves either way.
pub proof fn law_selection_stays_in_range(selected: usize, len: usize)
    requires
        selected < len,
    ensures
        next_selection(selected, len) < len,
        prev_selection(selected) < len,
{
}

/// Moving down and then up comes back, unless the selection was on the last
/// choice; moving up and then down comes back, unless it was on the first.
pub proof fn law_up_undoes_down(selected: usize, len: usize)
    requires
        selected < len,
    ensures
        selected + 1 < len ==> prev_selection(next_selection(selected, len)) == selected,
        0 < selected ==> next_selection(prev_selection(selected), len) == selected,
{
}

/// The names of the repos, as the prompt lists them: the last part of each
/// path.
pub fn repo_labels<'b>(repos: &'b Vec<Repo>) -> (r: Vec<&'b str>)
    ensures
        r@.len() == repos@.len(),
        forall|i: int| 0 <= i < r@.len() ==> (#[trigger] r@[i])@ == tail_after_last_slash(repos@[i]@.path),
{
    let mut r: Vec<&str> = Vec::new();
    let mut i: usize = 0;
    while i < repos.len()
        invariant
            i <= repos.len(),
            r@.len() == i,
            forall|k: int| 0 <= k < i ==> (#[trigger] r@[k])@ == tail_after_last_slash(repos@[k]@.path),
        decreases repos.len() - i,
    {
        r.push(repo_2_name(repos[i].path.as_str()));
        i += 1;
    }
    r
}

/// What the prompt says of the chosen item.
pub fn choice_message(choice: &str) -> (r: String)
    ensures
        r@ == choice@ + " is a great city!"@,
{
    let mut r = String::from_str(choice);
    r.append(" is a great city!");
    r
}

} // verus!
