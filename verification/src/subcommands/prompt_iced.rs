//! The counter of the demo window: its buttons and what they do to it.

use vstd::prelude::*;

verus! {

/// A press on one of the counter's buttons.
#[derive(Debug, Clone, Copy)]
pub enum Message {
    IncrementPressed,
    DecrementPressed,
}

/// The counter after a press.
pub open spec fn counted(value: int, message: Message) -> int {
    match message {
        Message::IncrementPressed => value + 1,
        Message::DecrementPressed => value - 1,
    }
}

/// The counter after a press; it must stay within the range of `i32`.
pub fn update(value: i32, message: Message) -> (r: i32)
    requires
        i32::MIN <= counted(value as int, message) <= i32::MAX,
    ensures
        r == counted(value as int, message),
{
    match message {
        Message::IncrementPressed => value + 1,
        Message::DecrementPressed => value - 1,
    }
}

/// A press on one button, then one on the other, leaves the counter as it was.
pub proof fn law_presses_cancel(value: int)
    ensures
        counted(counted(value, Message::IncrementPressed), Message::DecrementPressed) == value,
        counted(counted(value, Message::DecrementPressed), Message::IncrementPressed) == value,
{
}

} // verus!
