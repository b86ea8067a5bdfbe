use vstd::prelude::*;

use crate::keyboard_layout_manager::KeyboardLayout;

verus! {

/// Android reports no keyboard layout, so it needs no delegate to tell of
/// changes.
pub struct PlatformKeyboardLayout {}

impl PlatformKeyboardLayout {
    pub fn new() -> (res: Self) {
        PlatformKeyboardLayout {  }
    }

    /// There is no layout to report.
    pub fn get_current_layout(&self) -> (res: Option<KeyboardLayout>)
        ensures
            res is None,
    {
        None
    }

    /// Nothing refers back to the layout object on Android.
    pub fn assign_weak_self(&self) {
    }
}

} // verus!
