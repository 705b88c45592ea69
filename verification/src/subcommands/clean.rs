//! The `clean` subcommand: what it says after clearing the cache.

use vstd::prelude::*;

verus! {

/// What is said after the cache is cleared for `clear_cmd`, which is `all`
/// or `tags`.
pub fn cache_clear_message(clear_cmd: &str) -> (r: String)
    requires
        clear_cmd@ == "all"@ || clear_cmd@ == "tags"@,
    ensures
        clear_cmd@ == "all"@ ==> r@ == "Cache destroyed"@,
        clear_cmd@ != "all"@ ==> r@ == "Tags removed"@,
{
    if clear_cmd.to_owned() == "all".to_owned() {
        String::from_str("Cache destroyed")
    } else {
        String::from_str("Tags removed")
    }
}

} // verus!
