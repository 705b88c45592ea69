//! Global configuration of actions: which of them call for care.

use crate::models::action::Action;
use crate::text::{chars_contain, str_contains};
use vstd::prelude::*;

verus! {

/// A struct that tracks global configuration related to Actions
/// - particularly which might be considered dangerous or worthy of a prompt for the user before doing them - e.g. `rm`, `mv etc
pub struct ActionSet {
    pub actions: Vec<Action>,
    pub danger_list: Vec<String>,
    pub warn_list: Vec<String>,
}

impl ActionSet {
    /// Check if a particular action is "dangerous": whether its command
    /// contains any of the dangerous strings.
    pub fn is_dangerous(&self, action: Action) -> (r: bool)
        ensures
            r == exists|i: int|
                0 <= i < self.danger_list@.len() && chars_contain(
                    action@.command_of().command,
                    #[trigger] self.danger_list@[i]@,
                ),
    {
        let command = action.get_command();
        let mut i: usize = 0;
        while i < self.danger_list.len()
            invariant
                i <= self.danger_list.len(),
                command@ == action@.command_of().command,
                forall|j: int|
                    0 <= j < i ==> !chars_contain(command@, #[trigger] self.danger_list@[j]@),
            decreases self.danger_list.len() - i,
        {
            if str_contains(command, self.danger_list[i].as_str()) {
                assert(chars_contain(command@, self.danger_list@[i as int]@));
                return true;
            }
            i += 1;
        }
        false
    }
}

} // verus!
