use vstd::prelude::*;

use crate::api_model::DataProviderId;
use crate::error::NativeExtensionsError;
use crate::ids::next_id;
use crate::registry::{without_isolate, Registry};

verus! {

/// How a virtual file session ended.
#[derive(Debug, Clone, PartialEq, Eq)]
pub enum VirtualFileResult {
    Done,
    Error { message: String },
    Cancelled,
}

/// Keeps a virtual file session alive. The Dart side is asked once to cancel
/// the session: when the handle is disposed, or else when it is released.
pub struct VirtualSessionHandle {
    isolate: i64,
    session_id: i64,
    armed: bool,
}

/// The cancel request that a handle still owes: the isolate and the session.
pub open spec fn pending_cancel(h: VirtualSessionHandle) -> Option<(i64, i64)> {
    if h.armed() {
        Some((h.isolate(), h.session_id()))
    } else {
        None
    }
}

impl VirtualSessionHandle {
    pub closed spec fn isolate(&self) -> i64 {
        self.isolate
    }

    pub closed spec fn session_id(&self) -> i64 {
        self.session_id
    }

    /// Whether the cancel request is still to be sent.
    pub closed spec fn armed(&self) -> bool {
        self.armed
    }

    pub fn new(isolate: i64, session_id: i64) -> (res: Self)
        ensures
            res.isolate() == isolate,
            res.session_id() == session_id,
            res.armed(),
    {
        VirtualSessionHandle { isolate, session_id, armed: true }
    }

    /// Asks for the session to be cancelled now. Gives the isolate and the
    /// session to send the cancel request to, the first time only.
    pub fn dispose(&mut self) -> (cancel: Option<(i64, i64)>)
        ensures
            !final(self).armed(),
            final(self).isolate() == old(self).isolate(),
            final(self).session_id() == old(self).session_id(),
            cancel == pending_cancel(*old(self)),
    {
        if self.armed {
            self.armed = false;
            Some((self.isolate, self.session_id))
        } else {
            None
        }
    }

    /// Lets go of the handle. Gives the cancel request if it was not sent yet.
    pub fn release(self) -> (cancel: Option<(i64, i64)>)
        ensures
            cancel == pending_cancel(self),
    {
        if self.armed {
            Some((self.isolate, self.session_id))
        } else {
            None
        }
    }
}

/// Keeps a data provider alive for a drag or the clipboard; when it goes, the
/// isolate that registered the provider is asked to release it.
pub struct DataProviderHandle {
    pub isolate: i64,
    pub provider_id: DataProviderId,
}

impl DataProviderHandle {
    pub fn new(isolate: i64, provider_id: DataProviderId) -> (res: Self)
        ensures
            res.isolate == isolate,
            res.provider_id == provider_id,
    {
        DataProviderHandle { isolate, provider_id }
    }

    /// Lets go of the handle: gives the isolate to ask, and the provider to
    /// release.
    pub fn release(self) -> (res: (i64, DataProviderId))
        ensures
            res == (self.isolate, self.provider_id),
    {
        (self.isolate, self.provider_id)
    }
}

/// What is left to do when a virtual file session ends: the session's
/// callbacks, whether to tell them that the size stays unknown, and the result.
pub struct SessionEnd<S> {
    pub callbacks: S,
    pub report_unknown_size: bool,
    pub result: VirtualFileResult,
}

/// The registered data providers of all isolates, of type `P`, and the virtual
/// file sessions in flight, with their callbacks of type `S`. Providers and
/// sessions draw their ids from one counter that starts at 1.
pub struct DataProviderManager<P, S> {
    next_id: i64,
    providers: Registry<P>,
    sessions: Registry<(bool, S)>,
}

/// The provider registered under `id`, or the error for a missing one.
pub open spec fn provider_lookup<P>(providers: Map<i64, (i64, P)>, id: i64) -> Result<
    P,
    NativeExtensionsError,
> {
    if providers.contains_key(id) {
        Ok(providers[id].1)
    } else {
        Err(NativeExtensionsError::DataSourceNotFound)
    }
}

/// The callbacks of session `id`, or the error for a missing one.
pub open spec fn session_lookup<S>(sessions: Map<i64, (i64, (bool, S))>, id: i64) -> Result<
    S,
    NativeExtensionsError,
> {
    if sessions.contains_key(id) {
        Ok(sessions[id].1.1)
    } else {
        Err(NativeExtensionsError::VirtualFileSessionNotFound)
    }
}

/// Whether the size of session `id` has been reported.
pub open spec fn session_size_known<S>(sessions: Map<i64, (i64, (bool, S))>, id: i64) -> bool {
    sessions[id].1.0
}

/// `ended` holds one cancellation for each session of `isolate` among
/// `sessions`, in the order `order` of their ids, each id once.
pub open spec fn cancels_each_session_once<S>(
    ended: Seq<SessionEnd<S>>,
    order: Seq<i64>,
    sessions: Map<i64, (i64, (bool, S))>,
    isolate: i64,
) -> bool {
    &&& order.len() == ended.len()
    &&& order.no_duplicates()
    &&& forall|id: i64|
        #[trigger] order.contains(id) <==> sessions.contains_key(id) && sessions[id].0 == isolate
    &&& forall|j: int|
        0 <= j < ended.len() ==> (#[trigger] ended[j]).result == VirtualFileResult::Cancelled
            && ended[j].callbacks == sessions[order[j]].1.1 && ended[j].report_unknown_size
            == !sessions[order[j]].1.0
}

/// The ids in use are below the counter, and the counter has not run out.
pub open spec fn ids_below<P, S>(
    next: int,
    providers: Map<i64, (i64, P)>,
    sessions: Map<i64, (i64, (bool, S))>,
) -> bool {
    &&& 1 <= next
    &&& forall|id: i64| providers.contains_key(id) ==> id < next
    &&& forall|id: i64| sessions.contains_key(id) ==> id < next
}

impl<P, S> DataProviderManager<P, S> {
    pub closed spec fn next_id_view(&self) -> int {
        self.next_id as int
    }

    pub closed spec fn providers_view(&self) -> Map<i64, (i64, P)> {
        self.providers@
    }

    pub closed spec fn sessions_view(&self) -> Map<i64, (i64, (bool, S))> {
        self.sessions@
    }

    pub open spec fn wf(&self) -> bool {
        ids_below(self.next_id_view(), self.providers_view(), self.sessions_view())
    }

    /// Whether another id can be handed out.
    pub open spec fn has_ids_left(&self) -> bool {
        self.next_id_view() < i64::MAX
    }

    pub fn new() -> (res: Self)
        ensures
            res.wf(),
            res.next_id_view() == 1,
            res.providers_view() == Map::<i64, (i64, P)>::empty(),
            res.sessions_view() == Map::<i64, (i64, (bool, S))>::empty(),
    {
        DataProviderManager { next_id: 1, providers: Registry::new(), sessions: Registry::new() }
    }

    /// The provider registered under `provider_id`.
    pub fn get_platform_data_provider(&self, provider_id: DataProviderId) -> (res: Result<
        &P,
        NativeExtensionsError,
    >)
        ensures
            res matches Ok(p) ==> provider_lookup(self.providers_view(), provider_id.0) == Ok::<
                P,
                NativeExtensionsError,
            >(*p),
            res is Err ==> provider_lookup(self.providers_view(), provider_id.0) == Err::<
                P,
                NativeExtensionsError,
            >(NativeExtensionsError::DataSourceNotFound),
            res matches Err(e) ==> e == NativeExtensionsError::DataSourceNotFound,
    {
        match self.providers.get(provider_id.0) {
            Some(e) => Ok(&e.1),
            None => Err(NativeExtensionsError::DataSourceNotFound),
        }
    }

    /// The providers registered under `ids`, in the same order, as a write to
    /// the clipboard or the start of a drag needs them; the error of a missing
    /// provider as soon as one of the ids has none.
    pub fn providers_for<'a>(&'a self, ids: &Vec<DataProviderId>) -> (res: Result<
        Vec<&'a P>,
        NativeExtensionsError,
    >)
        ensures
            res is Ok <==> forall|i: int|
                0 <= i < ids.len() ==> #[trigger] self.providers_view().contains_key(ids[i].0),
            res matches Ok(v) ==> v.len() == ids.len() && forall|i: int|
                0 <= i < ids.len() ==> *#[trigger] v[i] == self.providers_view()[ids[i].0].1,
            res matches Err(e) ==> e == NativeExtensionsError::DataSourceNotFound,
    {
        let mut found: Vec<&'a P> = Vec::new();
        let mut i: usize = 0;
        while i < ids.len()
            invariant
                i <= ids.len(),
                found.len() == i,
                forall|j: int| 0 <= j < i ==> #[trigger] self.providers_view().contains_key(ids[j].0),
                forall|j: int| 0 <= j < i ==> *#[trigger] found[j] == self.providers_view()[ids[j].0].1,
            decreases ids.len() - i,
        {
            match self.get_platform_data_provider(ids[i]) {
                Ok(p) => {
                    found.push(p);
                },
                Err(e) => {
                    return Err(e);
                },
            }
            i = i + 1;
        }
        Ok(found)
    }

    /// Registers the provider of `isolate` under a fresh id.
    pub fn register_provider(&mut self, provider: P, isolate: i64) -> (res: Result<
        DataProviderId,
        NativeExtensionsError,
    >)
        requires
            old(self).wf(),
            old(self).has_ids_left(),
        ensures
            final(self).wf(),
            res == Ok::<DataProviderId, NativeExtensionsError>(
                DataProviderId(old(self).next_id_view() as i64),
            ),
            !old(self).providers_view().contains_key(old(self).next_id_view() as i64),
            !old(self).sessions_view().contains_key(old(self).next_id_view() as i64),
            final(self).next_id_view() == old(self).next_id_view() + 1,
            final(self).providers_view() == old(self).providers_view().insert(
                old(self).next_id_view() as i64,
                (isolate, provider),
            ),
            final(self).sessions_view() == old(self).sessions_view(),
    {
        let id = next_id(&mut self.next_id);
        self.providers.insert(id, isolate, provider);
        Ok(DataProviderId(id))
    }

    /// Forgets the provider registered under `provider_id`, if any.
    pub fn unregister_provider(&mut self, provider_id: DataProviderId) -> (res: Result<
        (),
        NativeExtensionsError,
    >)
        requires
            old(self).wf(),
        ensures
            final(self).wf(),
            res is Ok,
            final(self).next_id_view() == old(self).next_id_view(),
            final(self).providers_view() == old(self).providers_view().remove(provider_id.0),
            final(self).sessions_view() == old(self).sessions_view(),
    {
        let _ = self.providers.remove(provider_id.0);
        Ok(())
    }

    /// Opens a virtual file session for `isolate` under a fresh id. Gives the
    /// id, to be sent with the request for the file, and the handle that keeps
    /// the session alive.
    pub fn get_virtual_file(&mut self, isolate: i64, callbacks: S) -> (res: (
        i64,
        VirtualSessionHandle,
    ))
        requires
            old(self).wf(),
            old(self).has_ids_left(),
        ensures
            final(self).wf(),
            res.0 == old(self).next_id_view(),
            !old(self).providers_view().contains_key(res.0),
            !old(self).sessions_view().contains_key(res.0),
            res.1.isolate() == isolate,
            res.1.session_id() == res.0,
            res.1.armed(),
            final(self).next_id_view() == old(self).next_id_view() + 1,
            final(self).sessions_view() == old(self).sessions_view().insert(
                res.0,
                (isolate, (false, callbacks)),
            ),
            final(self).providers_view() == old(self).providers_view(),
    {
        let id = next_id(&mut self.next_id);
        self.sessions.insert(id, isolate, (false, callbacks));
        (id, VirtualSessionHandle::new(isolate, id))
    }

    /// The callbacks to tell the progress of session `session_id` to.
    pub fn virtual_file_update_progress(&self, session_id: i64) -> (res: Result<
        &S,
        NativeExtensionsError,
    >)
        ensures
            res matches Ok(s) ==> session_lookup(self.sessions_view(), session_id) == Ok::<
                S,
                NativeExtensionsError,
            >(*s),
            res is Err ==> session_lookup(self.sessions_view(), session_id) == Err::<
                S,
                NativeExtensionsError,
            >(NativeExtensionsError::VirtualFileSessionNotFound),
    {
        match self.sessions.get(session_id) {
            Some(e) => Ok(&e.1.1),
            None => Err(NativeExtensionsError::VirtualFileSessionNotFound),
        }
    }

    /// Notes that the size of session `session_id` is known, and gives the
    /// callbacks to tell the size to.
    pub fn virtual_file_size_known(&mut self, session_id: i64) -> (res: Result<
        &S,
        NativeExtensionsError,
    >)
        requires
            old(self).wf(),
        ensures
            final(self).wf(),
            final(self).next_id_view() == old(self).next_id_view(),
            final(self).providers_view() == old(self).providers_view(),
            old(self).sessions_view().contains_key(session_id) ==> {
                &&& final(self).sessions_view() == old(self).sessions_view().insert(
                    session_id,
                    (
                        old(self).sessions_view()[session_id].0,
                        (true, old(self).sessions_view()[session_id].1.1),
                    ),
                )
                &&& res matches Ok(s) && *s == old(self).sessions_view()[session_id].1.1
            },
            !old(self).sessions_view().contains_key(session_id) ==> {
                &&& final(self).sessions_view() == old(self).sessions_view()
                &&& res == Err::<&S, NativeExtensionsError>(
                    NativeExtensionsError::VirtualFileSessionNotFound,
                )
            },
    {
        match self.sessions.remove(session_id) {
            Some(entry) => {
                let (isolate, (_, callbacks)) = entry;
                self.sessions.insert(session_id, isolate, (true, callbacks));
                match self.sessions.get(session_id) {
                    Some(e) => Ok(&e.1.1),
                    None => Err(NativeExtensionsError::VirtualFileSessionNotFound),
                }
            },
            None => Err(NativeExtensionsError::VirtualFileSessionNotFound),
        }
    }

    /// Ends session `session_id` with `result`.
    fn finish_session(&mut self, session_id: i64, result: VirtualFileResult) -> (res: Result<
        SessionEnd<S>,
        NativeExtensionsError,
    >)
        requires
            old(self).wf(),
        ensures
            final(self).wf(),
            final(self).next_id_view() == old(self).next_id_view(),
            final(self).providers_view() == old(self).providers_view(),
            final(self).sessions_view() == old(self).sessions_view().remove(session_id),
            old(self).sessions_view().contains_key(session_id) ==> (res matches Ok(end) && {
                &&& end.callbacks == old(self).sessions_view()[session_id].1.1
                &&& end.report_unknown_size == !session_size_known(
                    old(self).sessions_view(),
                    session_id,
                )
                &&& end.result == result
            }),
            !old(self).sessions_view().contains_key(session_id) ==> res == Err::<
                SessionEnd<S>,
                NativeExtensionsError,
            >(NativeExtensionsError::VirtualFileSessionNotFound),
    {
        match self.sessions.remove(session_id) {
            Some(entry) => {
                let (_, (size_known, callbacks)) = entry;
                Ok(SessionEnd { callbacks, report_unknown_size: !size_known, result })
            },
            None => Err(NativeExtensionsError::VirtualFileSessionNotFound),
        }
    }

    /// Ends session `session_id`: the file was received.
    pub fn virtual_file_complete(&mut self, session_id: i64) -> (res: Result<
        SessionEnd<S>,
        NativeExtensionsError,
    >)
        requires
            old(self).wf(),
        ensures
            final(self).wf(),
            final(self).next_id_view() == old(self).next_id_view(),
            final(self).providers_view() == old(self).providers_view(),
            final(self).sessions_view() == old(self).sessions_view().remove(session_id),
            old(self).sessions_view().contains_key(session_id) ==> (res matches Ok(end) && {
                &&& end.callbacks == old(self).sessions_view()[session_id].1.1
                &&& end.report_unknown_size == !session_size_known(
                    old(self).sessions_view(),
                    session_id,
                )
                &&& end.result == VirtualFileResult::Done
            }),
            !old(self).sessions_view().contains_key(session_id) ==> res == Err::<
                SessionEnd<S>,
                NativeExtensionsError,
            >(NativeExtensionsError::VirtualFileSessionNotFound),
    {
        self.finish_session(session_id, VirtualFileResult::Done)
    }

    /// Ends session `session_id`: receiving the file failed with `message`.
    pub fn virtual_file_error(&mut self, session_id: i64, message: String) -> (res: Result<
        SessionEnd<S>,
        NativeExtensionsError,
    >)
        requires
            old(self).wf(),
        ensures
            final(self).wf(),
            final(self).next_id_view() == old(self).next_id_view(),
            final(self).providers_view() == old(self).providers_view(),
            final(self).sessions_view() == old(self).sessions_view().remove(session_id),
            old(self).sessions_view().contains_key(session_id) ==> (res matches Ok(end) && {
                &&& end.callbacks == old(self).sessions_view()[session_id].1.1
                &&& end.report_unknown_size == !session_size_known(
                    old(self).sessions_view(),
                    session_id,
                )
                &&& end.result == VirtualFileResult::Error { message }
            }),
            !old(self).sessions_view().contains_key(session_id) ==> res == Err::<
                SessionEnd<S>,
                NativeExtensionsError,
            >(NativeExtensionsError::VirtualFileSessionNotFound),
    {
        self.finish_session(session_id, VirtualFileResult::Error { message })
    }

    /// Ends session `session_id`: it was cancelled.
    pub fn virtual_file_cancel(&mut self, session_id: i64) -> (res: Result<
        SessionEnd<S>,
        NativeExtensionsError,
    >)
        requires
            old(self).wf(),
        ensures
            final(self).wf(),
            final(self).next_id_view() == old(self).next_id_view(),
            final(self).providers_view() == old(self).providers_view(),
            final(self).sessions_view() == old(self).sessions_view().remove(session_id),
            old(self).sessions_view().contains_key(session_id) ==> (res matches Ok(end) && {
                &&& end.callbacks == old(self).sessions_view()[session_id].1.1
                &&& end.report_unknown_size == !session_size_known(
                    old(self).sessions_view(),
                    session_id,
                )
                &&& end.result == VirtualFileResult::Cancelled
            }),
            !old(self).sessions_view().contains_key(session_id) ==> res == Err::<
                SessionEnd<S>,
                NativeExtensionsError,
            >(NativeExtensionsError::VirtualFileSessionNotFound),
    {
        self.finish_session(session_id, VirtualFileResult::Cancelled)
    }

    /// Forgets the providers of `isolate` and cancels its sessions. Gives the
    /// ends of the cancelled sessions, one per session.
    pub fn on_isolate_destroyed(&mut self, isolate: i64) -> (ended: Vec<SessionEnd<S>>)
        requires
            old(self).wf(),
        ensures
            final(self).wf(),
            final(self).next_id_view() == old(self).next_id_view(),
            final(self).providers_view() == without_isolate(old(self).providers_view(), isolate),
            final(self).sessions_view() == without_isolate(old(self).sessions_view(), isolate),
            ended@.len() == old(self).sessions_view().dom().filter(
                |id: i64| old(self).sessions_view()[id].0 == isolate,
            ).len(),
            exists|order: Seq<i64>|
                cancels_each_session_once(ended@, order, old(self).sessions_view(), isolate),
    {
        let ghost s0 = self.sessions@;
        let _ = self.providers.remove_isolate(isolate);
        let removed = self.sessions.remove_isolate(isolate);
        let mut ended: Vec<SessionEnd<S>> = Vec::new();
        let ghost removed_view = removed@;
        let mut removed = removed;
        let n = removed.len();
        let mut i: usize = 0;
        while i < n
            invariant
                n == removed_view.len(),
                i <= n,
                removed@ == removed_view.take((n - i) as int),
                ended@.len() == i,
                forall|j: int|
                    0 <= j < i ==> (#[trigger] ended@[j]).result == VirtualFileResult::Cancelled
                        && ended@[j].callbacks == removed_view[n - 1 - j].1.1
                        && ended@[j].report_unknown_size == !removed_view[n - 1 - j].1.0,
            decreases n - i,
        {
            let last = removed.pop();
            assert(removed_view.take((n - i) as int).drop_last() == removed_view.take(
                (n - i - 1) as int,
            ));
            match last {
                Some(entry) => {
                    let (_, (size_known, callbacks)) = entry;
                    ended.push(
                        SessionEnd {
                            callbacks,
                            report_unknown_size: !size_known,
                            result: VirtualFileResult::Cancelled,
                        },
                    );
                },
                None => {},
            }
            i = i + 1;
        }
        proof {
            let owned = s0.dom().filter(|id: i64| s0[id].0 == isolate);
            let ids = removed_view.map_values(|e: (i64, (bool, S))| e.0);
            assert(ids.to_set() =~= owned) by {
                assert forall|id: i64| ids.to_set().contains(id) <==> owned.contains(id) by {
                    if owned.contains(id) {
                        let j = choose|j: int| 0 <= j < removed_view.len() && #[trigger] removed_view[j].0 == id;
                        assert(ids[j] == id);
                    }
                    if ids.to_set().contains(id) {
                        let j = choose|j: int| 0 <= j < ids.len() && ids[j] == id;
                        assert(removed_view[j].0 == id);
                    }
                }
            }
            ids.unique_seq_to_set();
            let order = Seq::new(n as nat, |j: int| removed_view[n - 1 - j].0);
            assert(order.no_duplicates()) by {
                assert forall|a: int, b: int| 0 <= a < order.len() && 0 <= b < order.len() && a != b
                    implies order[a] != order[b] by {
                    assert(ids[n - 1 - a] == order[a]);
                    assert(ids[n - 1 - b] == order[b]);
                }
            }
            assert(order.to_set() =~= ids.to_set()) by {
                assert forall|id: i64| order.to_set().contains(id) <==> ids.to_set().contains(id) by {
                    if order.to_set().contains(id) {
                        let j = choose|j: int| 0 <= j < order.len() && order[j] == id;
                        assert(ids[n - 1 - j] == id);
                    }
                    if ids.to_set().contains(id) {
                        let k = choose|k: int| 0 <= k < ids.len() && ids[k] == id;
                        assert(order[n - 1 - k] == id);
                    }
                }
            }
            assert forall|id: i64| #[trigger] order.contains(id) <==> s0.contains_key(id) && s0[id].0
                == isolate by {
                assert(order.contains(id) <==> order.to_set().contains(id));
                assert(owned.contains(id) <==> s0.contains_key(id) && s0[id].0 == isolate);
            }
            assert(cancels_each_session_once(ended@, order, s0, isolate)) by {
                assert forall|j: int| 0 <= j < ended@.len() implies (#[trigger] ended@[j]).result
                    == VirtualFileResult::Cancelled && ended@[j].callbacks == s0[order[j]].1.1
                    && ended@[j].report_unknown_size == !s0[order[j]].1.0 by {
                    let k = n - 1 - j;
                    assert(order[j] == removed_view[k].0);
                    assert(s0[removed_view[k].0] == (isolate, removed_view[k].1));
                }
            }
            assert(s0 == old(self).sessions_view());
        }
        ended
    }
}

/// A handle asks for the cancellation of its session at most once: once it has
/// been disposed, neither disposing it again nor releasing it asks again.
pub proof fn lemma_cancel_is_requested_once(h: VirtualSessionHandle)
    requires
        !h.armed(),
    ensures
        pending_cancel(h) is None,
{
}

/// A provider that was just registered is found under the id it was given.
pub proof fn lemma_registered_provider_is_found<P>(
    providers: Map<i64, (i64, P)>,
    id: i64,
    isolate: i64,
    provider: P,
)
    ensures
        provider_lookup(providers.insert(id, (isolate, provider)), id) == Ok::<
            P,
            NativeExtensionsError,
        >(provider),
{
}

/// A provider that was unregistered is not found any more.
pub proof fn lemma_unregistered_provider_is_gone<P>(providers: Map<i64, (i64, P)>, id: i64)
    ensures
        provider_lookup(providers.remove(id), id) == Err::<P, NativeExtensionsError>(
            NativeExtensionsError::DataSourceNotFound,
        ),
{
}

/// The id that the counter hands out is in use neither by a provider nor by a
/// session, and taking it keeps every id in use below the counter.
pub proof fn lemma_new_id_is_fresh<P, S>(
    next: int,
    providers: Map<i64, (i64, P)>,
    sessions: Map<i64, (i64, (bool, S))>,
    isolate: i64,
    provider: P,
    callbacks: S,
)
    requires
        ids_below(next, providers, sessions),
        next < i64::MAX,
    ensures
        !providers.contains_key(next as i64),
        !sessions.contains_key(next as i64),
        ids_below(next + 1, providers.insert(next as i64, (isolate, provider)), sessions),
        ids_below(next + 1, providers, sessions.insert(next as i64, (isolate, (false, callbacks)))),
{
}

/// A session that ended, whichever way, is not found any more: a second end,
/// a progress or a size report for it fails.
pub proof fn lemma_ended_session_is_gone<S>(sessions: Map<i64, (i64, (bool, S))>, id: i64)
    ensures
        session_lookup(sessions.remove(id), id) == Err::<S, NativeExtensionsError>(
            NativeExtensionsError::VirtualFileSessionNotFound,
        ),
{
}

/// The callbacks of a session hear that the size stays unknown exactly when
/// no size was reported: a fresh session owes the notice, one whose size was
/// reported does not.
pub proof fn lemma_unknown_size_notice<S>(
    sessions: Map<i64, (i64, (bool, S))>,
    id: i64,
    isolate: i64,
    callbacks: S,
)
    ensures
        !session_size_known(sessions.insert(id, (isolate, (false, callbacks))), id),
        session_size_known(sessions.insert(id, (isolate, (true, callbacks))), id),
{
}

/// When an isolate goes away, nothing of it is left, and the entries of the
/// other isolates stay as they were.
pub proof fn lemma_isolate_cleanup<V>(m: Map<i64, (i64, V)>, isolate: i64)
    ensures
        forall|id: i64| #[trigger]
            without_isolate(m, isolate).contains_key(id) ==> without_isolate(m, isolate)[id].0
                != isolate,
        forall|id: i64|
            m.contains_key(id) && m[id].0 != isolate ==> #[trigger] without_isolate(
                m,
                isolate,
            ).contains_key(id) && without_isolate(m, isolate)[id] == m[id],
{
}

} // verus!
