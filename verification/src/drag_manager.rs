use vstd::prelude::*;

use crate::api_model::DataProviderId;
use crate::data_provider_manager::DataProviderHandle;
use crate::drop_manager::IsolateContexts;
use crate::error::NativeExtensionsError;
use crate::ids::next_id;

verus! {

/// Identifies a drag session.
#[derive(Debug, Clone, Copy, PartialEq, Eq, Hash, Structural)]
pub struct DragSessionId(pub i64);

/// A request for the local data of a drag session.
#[derive(Debug, Clone, Copy, PartialEq, Eq, Structural)]
pub struct LocalDataRequest {
    pub session_id: DragSessionId,
}

/// The drag contexts, one per isolate, and the counter of drag sessions, which
/// starts at 0.
pub struct DragManager<C> {
    pub contexts: IsolateContexts<C>,
    pub next_session_id: i64,
}

/// The answer to a request for local data: a session that is not found has
/// none; other errors pass.
pub open spec fn local_data_answer<V>(found: Result<V, NativeExtensionsError>) -> Result<
    Option<V>,
    NativeExtensionsError,
> {
    match found {
        Ok(v) => Ok(Some(v)),
        Err(NativeExtensionsError::DragSessionNotFound) => Ok(None),
        Err(e) => Err(e),
    }
}

impl<C> DragManager<C> {
    pub open spec fn next_session_view(&self) -> int {
        self.next_session_id as int
    }

    pub fn new() -> (res: Self)
        ensures
            res.contexts.wf(),
            res.contexts.view_map() == Map::<i64, (i64, C)>::empty(),
            res.next_session_view() == 0,
    {
        DragManager { contexts: IsolateContexts::new(), next_session_id: 0 }
    }

    /// The release request for a data provider handle of a drag that went
    /// away: none when the isolate is gone in the meanwhile.
    pub fn release_data_provider(&self, handle: DataProviderHandle) -> (res: Option<(i64, DataProviderId)>)
        ensures
            res == (if self.contexts.view_map().contains_key(handle.isolate) {
                Some((handle.isolate, handle.provider_id))
            } else {
                None
            }),
    {
        if self.contexts.has_context(handle.isolate) {
            Some(handle.release())
        } else {
            None
        }
    }

    /// Takes the id of the next drag session.
    pub fn next_session_id(&mut self) -> (id: DragSessionId)
        requires
            old(self).next_session_view() < i64::MAX,
        ensures
            id.0 == old(self).next_session_view(),
            final(self).next_session_view() == old(self).next_session_view() + 1,
            final(self).contexts == old(self).contexts,
    {
        DragSessionId(next_id(&mut self.next_session_id))
    }
}

/// Turns what the drag context found for a session into the answer to a local
/// data request.
pub fn get_local_data<V>(found: Result<V, NativeExtensionsError>) -> (res: Result<
    Option<V>,
    NativeExtensionsError,
>)
    ensures
        res == local_data_answer(found),
{
    match found {
        Ok(v) => Ok(Some(v)),
        Err(NativeExtensionsError::DragSessionNotFound) => Ok(None),
        Err(e) => Err(e),
    }
}

} // verus!
