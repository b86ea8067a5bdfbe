use vstd::prelude::*;

use crate::error::NativeExtensionsError;
use crate::ids::next_id;
use crate::registry::{keys_below, without_isolate, Registry};

verus! {

/// The registered data sources of all isolates, of type `P`, and the virtual
/// file sessions in flight, with their callbacks of type `S` (kept with the
/// isolate that serves the file). Sources and sessions draw their ids from one
/// counter that starts at 1.
pub struct DataSourceManager<P, S> {
    next_id: i64,
    sources: Registry<P>,
    sessions: Registry<S>,
}

impl<P, S> DataSourceManager<P, S> {
    pub closed spec fn next_id_view(&self) -> int {
        self.next_id as int
    }

    pub closed spec fn sources_view(&self) -> Map<i64, (i64, P)> {
        self.sources@
    }

    pub closed spec fn sessions_view(&self) -> Map<i64, (i64, S)> {
        self.sessions@
    }

    pub open spec fn wf(&self) -> bool {
        &&& keys_below(self.next_id_view(), self.sources_view())
        &&& keys_below(self.next_id_view(), self.sessions_view())
    }

    pub fn new() -> (res: Self)
        ensures
            res.wf(),
            res.next_id_view() == 1,
            res.sources_view() == Map::<i64, (i64, P)>::empty(),
            res.sessions_view() == Map::<i64, (i64, S)>::empty(),
    {
        DataSourceManager { next_id: 1, sources: Registry::new(), sessions: Registry::new() }
    }

    /// The source registered under `id`.
    pub fn get_platform_data_source(&self, id: i64) -> (res: Result<&P, NativeExtensionsError>)
        ensures
            self.sources_view().contains_key(id) ==> (res matches Ok(p) && *p
                == self.sources_view()[id].1),
            !self.sources_view().contains_key(id) ==> res == Err::<&P, NativeExtensionsError>(
                NativeExtensionsError::DataSourceNotFound,
            ),
    {
        match self.sources.get(id) {
            Some(e) => Ok(&e.1),
            None => Err(NativeExtensionsError::DataSourceNotFound),
        }
    }

    /// Registers the source of `isolate` under a fresh id.
    pub fn register_source(&mut self, source: P, isolate: i64) -> (res: Result<i64, NativeExtensionsError>)
        requires
            old(self).wf(),
            old(self).next_id_view() < i64::MAX,
        ensures
            final(self).wf(),
            res == Ok::<i64, NativeExtensionsError>(old(self).next_id_view() as i64),
            !old(self).sources_view().contains_key(old(self).next_id_view() as i64),
            final(self).next_id_view() == old(self).next_id_view() + 1,
            final(self).sources_view() == old(self).sources_view().insert(
                old(self).next_id_view() as i64,
                (isolate, source),
            ),
            final(self).sessions_view() == old(self).sessions_view(),
    {
        let id = next_id(&mut self.next_id);
        self.sources.insert(id, isolate, source);
        Ok(id)
    }

    /// Forgets source `id`, if it is registered.
    pub fn unregister_source(&mut self, id: i64) -> (res: Result<(), NativeExtensionsError>)
        requires
            old(self).wf(),
        ensures
            final(self).wf(),
            res is Ok,
            final(self).next_id_view() == old(self).next_id_view(),
            final(self).sources_view() == old(self).sources_view().remove(id),
            final(self).sessions_view() == old(self).sessions_view(),
    {
        let _ = self.sources.remove(id);
        Ok(())
    }

    /// Opens a virtual file session served by `isolate` under a fresh id.
    pub fn get_virtual_file(&mut self, isolate: i64, callbacks: S) -> (id: i64)
        requires
            old(self).wf(),
            old(self).next_id_view() < i64::MAX,
        ensures
            final(self).wf(),
            id == old(self).next_id_view(),
            !old(self).sessions_view().contains_key(id),
            final(self).next_id_view() == old(self).next_id_view() + 1,
            final(self).sessions_view() == old(self).sessions_view().insert(id, (isolate, callbacks)),
            final(self).sources_view() == old(self).sources_view(),
    {
        let id = next_id(&mut self.next_id);
        self.sessions.insert(id, isolate, callbacks);
        id
    }

    /// The receiver cancelled session `id`: it is forgotten, and the isolate
    /// that served it is to be told, if it was still open.
    pub fn cancel_virtual_file(&mut self, id: i64) -> (res: Option<(i64, S)>)
        requires
            old(self).wf(),
        ensures
            final(self).wf(),
            final(self).next_id_view() == old(self).next_id_view(),
            final(self).sessions_view() == old(self).sessions_view().remove(id),
            final(self).sources_view() == old(self).sources_view(),
            res == (if old(self).sessions_view().contains_key(id) {
                Some(old(self).sessions_view()[id])
            } else {
                None
            }),
    {
        self.sessions.remove(id)
    }

    /// The callbacks to tell the progress of session `id` to.
    pub fn virtual_file_update_progress(&self, id: i64) -> (res: Result<&S, NativeExtensionsError>)
        ensures
            self.sessions_view().contains_key(id) ==> (res matches Ok(s) && *s
                == self.sessions_view()[id].1),
            !self.sessions_view().contains_key(id) ==> res == Err::<&S, NativeExtensionsError>(
                NativeExtensionsError::VirtualFileSessionNotFound,
            ),
    {
        match self.sessions.get(id) {
            Some(e) => Ok(&e.1),
            None => Err(NativeExtensionsError::VirtualFileSessionNotFound),
        }
    }

    /// Ends session `id`: the file was received (`Ok`) or not (the message).
    /// Gives the session's callbacks and the outcome to tell them.
    pub fn finish_virtual_file(&mut self, id: i64, outcome: Result<(), String>) -> (res: Result<
        (S, Result<(), String>),
        NativeExtensionsError,
    >)
        requires
            old(self).wf(),
        ensures
            final(self).wf(),
            final(self).next_id_view() == old(self).next_id_view(),
            final(self).sessions_view() == old(self).sessions_view().remove(id),
            final(self).sources_view() == old(self).sources_view(),
            old(self).sessions_view().contains_key(id) ==> (res matches Ok(end) && end.0
                == old(self).sessions_view()[id].1 && end.1 == outcome),
            !old(self).sessions_view().contains_key(id) ==> res == Err::<
                (S, Result<(), String>),
                NativeExtensionsError,
            >(NativeExtensionsError::VirtualFileSessionNotFound),
    {
        match self.sessions.remove(id) {
            Some(e) => Ok((e.1, outcome)),
            None => Err(NativeExtensionsError::VirtualFileSessionNotFound),
        }
    }

    /// Forgets the sources of an isolate that goes away.
    pub fn on_isolate_destroyed(&mut self, isolate: i64)
        requires
            old(self).wf(),
        ensures
            final(self).wf(),
            final(self).next_id_view() == old(self).next_id_view(),
            final(self).sources_view() == without_isolate(old(self).sources_view(), isolate),
            final(self).sessions_view() == old(self).sessions_view(),
    {
        let _ = self.sources.remove_isolate(isolate);
    }
}

} // verus!
