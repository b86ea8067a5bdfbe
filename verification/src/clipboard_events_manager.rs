use vstd::prelude::*;

use crate::drop_manager::IsolateContexts;

verus! {

/// The clipboard event managers of the platform, one per isolate.
pub struct ClipboardEventManager<C> {
    pub platform_managers: IsolateContexts<C>,
}

impl<C> ClipboardEventManager<C> {
    pub fn new() -> (res: Self)
        ensures
            res.platform_managers.wf(),
            res.platform_managers.view_map() == Map::<i64, (i64, C)>::empty(),
    {
        ClipboardEventManager { platform_managers: IsolateContexts::new() }
    }
}

/// Whether the Dart side handled a cut, copy, paste or select all: its answer,
/// or no when the call failed.
pub fn event_handled(answer: Option<bool>) -> (res: bool)
    ensures
        res == (answer == Some(true)),
{
    match answer {
        Some(handled) => handled,
        None => false,
    }
}

} // verus!
