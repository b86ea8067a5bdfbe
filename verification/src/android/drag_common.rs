use vstd::prelude::*;

use crate::decimal::{decimal, decimal_string};
use crate::error::NativeExtensionsError;

verus! {

/// The kinds of `android.view.DragEvent`.
#[derive(Debug, Clone, Copy, PartialEq, Eq, Structural)]
pub enum DragAction {
    DragStarted,
    DragLocation,
    Drop,
    DragEnded,
    DragEntered,
    DragExited,
}

/// The action that an event's code stands for: the codes 1 to 6 of
/// `DragEvent.ACTION_*`.
pub open spec fn action_of_code(code: i32) -> Option<DragAction> {
    if code == 1 {
        Some(DragAction::DragStarted)
    } else if code == 2 {
        Some(DragAction::DragLocation)
    } else if code == 3 {
        Some(DragAction::Drop)
    } else if code == 4 {
        Some(DragAction::DragEnded)
    } else if code == 5 {
        Some(DragAction::DragEntered)
    } else if code == 6 {
        Some(DragAction::DragExited)
    } else {
        None
    }
}

/// The message of the error for an unknown action code.
pub open spec fn unknown_action_message(code: i32) -> Seq<char> {
    "Unknown drag action: "@ + decimal(code as int)
}

/// Reads the action of a drag event from its code.
pub fn drag_action_from_code(code: i32) -> (res: Result<DragAction, NativeExtensionsError>)
    ensures
        match res {
            Ok(action) => action_of_code(code) == Some(action),
            Err(e) => action_of_code(code) is None && (e matches NativeExtensionsError::OtherError(
                m,
            ) && m@ == unknown_action_message(code)),
        },
{
    match code {
        1 => Ok(DragAction::DragStarted),
        2 => Ok(DragAction::DragLocation),
        3 => Ok(DragAction::Drop),
        4 => Ok(DragAction::DragEnded),
        5 => Ok(DragAction::DragEntered),
        6 => Ok(DragAction::DragExited),
        _ => {
            let mut message = String::from_str("Unknown drag action: ");
            let digits = decimal_string(code as i64);
            message.append(digits.as_str());
            Err(NativeExtensionsError::OtherError(message))
        },
    }
}

} // verus!
