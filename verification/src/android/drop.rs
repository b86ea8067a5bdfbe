use vstd::prelude::*;

use crate::android::drag_common::DragAction;
use crate::api_model::{accepts_drop, is_accepting, DropOperation};
use crate::drop_manager::{DropItemId, DropSessionId};
use crate::error::NativeExtensionsError;

verus! {

/// The drop session in progress on a view: its id and the operation that the
/// Dart side last accepted for it.
#[derive(Debug, Clone, Copy, PartialEq, Eq, Structural)]
pub struct DropSession {
    pub id: DropSessionId,
    pub last_operation: DropOperation,
}

/// What the drop side sends to the Dart side for one drag event.
#[derive(Debug, Clone, Copy, PartialEq, Eq, Structural)]
pub enum DropStep {
    /// A drop update for the session; its answer goes to `record_update_result`.
    SendUpdate(DropSessionId),
    /// The drag left the view.
    SendLeave(DropSessionId),
    /// Perform the drop with the accepted operation.
    PerformDrop(DropSessionId, DropOperation),
    /// The session ended.
    SendEnded(DropSessionId),
    /// Nothing to send.
    Nothing,
}

/// Follows the drop sessions of one view: a session starts with the first
/// event and ends with `DragEnded`; session ids count from 0.
pub struct DropSessionTracker {
    next_session_id: i64,
    current: Option<DropSession>,
}

/// The session that an event belongs to: the current one, or a new one with
/// the next id that nothing has accepted yet.
pub open spec fn session_for_event(current: Option<DropSession>, next_id: int) -> DropSession {
    match current {
        Some(s) => s,
        None => DropSession {
            id: DropSessionId(next_id as i64),
            last_operation: DropOperation::NoOperation,
        },
    }
}

/// Whether an event is handled, what goes to the Dart side, and the session
/// that is current after it.
pub open spec fn drop_event_outcome(session: DropSession, action: DragAction) -> (
    bool,
    DropStep,
    Option<DropSession>,
) {
    match action {
        DragAction::DragLocation => (true, DropStep::SendUpdate(session.id), Some(session)),
        DragAction::DragExited => (true, DropStep::SendLeave(session.id), Some(session)),
        DragAction::Drop => if accepts_drop(session.last_operation) {
            (true, DropStep::PerformDrop(session.id, session.last_operation), Some(session))
        } else {
            (false, DropStep::Nothing, Some(session))
        },
        DragAction::DragEnded => (true, DropStep::SendEnded(session.id), None),
        _ => (true, DropStep::Nothing, Some(session)),
    }
}

impl DropSessionTracker {
    pub closed spec fn next_id_view(&self) -> int {
        self.next_session_id as int
    }

    pub closed spec fn current_view(&self) -> Option<DropSession> {
        self.current
    }

    pub fn new() -> (res: Self)
        ensures
            res.wf(),
            res.next_id_view() == 0,
            res.current_view() is None,
    {
        DropSessionTracker { next_session_id: 0, current: None }
    }

    /// The session in progress, if any, has an id below the counter, so the
    /// next session gets an id that no earlier session had.
    pub open spec fn wf(&self) -> bool {
        &&& 0 <= self.next_id_view()
        &&& self.current_view() matches Some(s) ==> 0 <= s.id.0 < self.next_id_view()
    }

    /// Handles a drag event on the view. `delegate_alive` tells whether the
    /// Dart side of the view is still there; when it is, the caller has first
    /// handed the event to the view's drag contexts, in order, stopping at the
    /// first error, and `forwarded` is the outcome. Gives whether the event was
    /// handled and what to send to the Dart side after that.
    pub fn on_drag_event(
        &mut self,
        delegate_alive: bool,
        forwarded: Result<(), NativeExtensionsError>,
        action: DragAction,
    ) -> (res: Result<(bool, DropStep), NativeExtensionsError>)
        requires
            old(self).wf(),
            old(self).next_id_view() < i64::MAX,
        ensures
            final(self).wf(),
            !delegate_alive ==> res == Ok::<(bool, DropStep), NativeExtensionsError>(
                (false, DropStep::Nothing),
            ) && *final(self) == *old(self),
            delegate_alive && forwarded is Err ==> res == Err::<(bool, DropStep), NativeExtensionsError>(
                forwarded->Err_0,
            ) && *final(self) == *old(self),
            delegate_alive && forwarded is Ok ==> ({
                let session = session_for_event(
                    old(self).current_view(),
                    old(self).next_id_view(),
                );
                let op = session.last_operation;
                let accepted = op == DropOperation::Copy || op == DropOperation::Move || op == DropOperation::Link;
                res matches Ok((handled, _)) && handled == !(action == DragAction::Drop && !accepted)
            }),
            delegate_alive && forwarded is Ok ==> ({
                let session = session_for_event(
                    old(self).current_view(),
                    old(self).next_id_view(),
                );
                let outcome = drop_event_outcome(session, action);
                &&& res == Ok::<(bool, DropStep), NativeExtensionsError>((outcome.0, outcome.1))
                &&& final(self).current_view() == outcome.2
                &&& final(self).next_id_view() == old(self).next_id_view() + (if old(
                    self,
                ).current_view() is None {
                    1int
                } else {
                    0int
                })
            }),
    {
        proof {
            lemma_drop_event_kinds(session_for_event(self.current, self.next_session_id as int), action);
        }
        if !delegate_alive {
            return Ok((false, DropStep::Nothing));
        }
        if let Err(e) = forwarded {
            return Err(e);
        }
        let session = match self.current {
            Some(s) => s,
            None => {
                let id = self.next_session_id;
                self.next_session_id = id + 1;
                let s = DropSession { id: DropSessionId(id), last_operation: DropOperation::NoOperation };
                self.current = Some(s);
                s
            },
        };
        match action {
            DragAction::DragLocation => Ok((true, DropStep::SendUpdate(session.id))),
            DragAction::DragExited => Ok((true, DropStep::SendLeave(session.id))),
            DragAction::Drop => {
                if is_accepting(session.last_operation) {
                    Ok((true, DropStep::PerformDrop(session.id, session.last_operation)))
                } else {
                    Ok((false, DropStep::Nothing))
                }
            },
            DragAction::DragEnded => {
                self.current = None;
                Ok((true, DropStep::SendEnded(session.id)))
            },
            _ => Ok((true, DropStep::Nothing)),
        }
    }

    /// Records the answer to a drop update of session `session_id`: the
    /// operation the Dart side accepts, or nothing when the call failed. An
    /// answer for a session that has ended changes nothing.
    pub fn record_update_result(
        &mut self,
        session_id: DropSessionId,
        result: Option<DropOperation>,
    )
        requires
            old(self).wf(),
        ensures
            final(self).wf(),
            final(self).next_id_view() == old(self).next_id_view(),
            final(self).current_view() == (match old(self).current_view() {
                Some(s) => if s.id == session_id {
                    Some(
                        DropSession {
                            id: s.id,
                            last_operation: match result {
                                Some(op) => op,
                                None => DropOperation::NoOperation,
                            },
                        },
                    )
                } else {
                    Some(s)
                },
                None => None,
            }),
    {
        match self.current {
            Some(s) => {
                if s.id.0 == session_id.0 {
                    let op = match result {
                        Some(op) => op,
                        None => DropOperation::NoOperation,
                    };
                    self.current = Some(DropSession { id: s.id, last_operation: op });
                }
            },
            None => {},
        }
    }
}

/// What an event does, by its kind: every event is handled, except a drop
/// when the Dart side has not accepted a copy, move or link for the session;
/// a location update asks the Dart side for the operation, leaving the view
/// tells it the drag left, an accepted drop performs the drop with the
/// accepted operation, the end of the drag tells it so and ends the session;
/// the other events send nothing and keep the session.
pub proof fn lemma_drop_event_kinds(session: DropSession, action: DragAction)
    ensures
        ({
            let (handled, step, after) = drop_event_outcome(session, action);
            let op = session.last_operation;
            let accepted = op == DropOperation::Copy || op == DropOperation::Move || op == DropOperation::Link;
            &&& handled == !(action == DragAction::Drop && !accepted)
            &&& action == DragAction::DragLocation ==> step == DropStep::SendUpdate(session.id) && after == Some(session)
            &&& action == DragAction::DragExited ==> step == DropStep::SendLeave(session.id) && after == Some(session)
            &&& action == DragAction::Drop && accepted ==> step == DropStep::PerformDrop(session.id, op) && after == Some(session)
            &&& action == DragAction::Drop && !accepted ==> step == DropStep::Nothing && after == Some(session)
            &&& action == DragAction::DragEnded ==> step == DropStep::SendEnded(session.id) && after is None
            &&& (action == DragAction::DragStarted || action == DragAction::DragEntered) ==> step == DropStep::Nothing
                && after == Some(session)
        }),
{
}

/// Once a session ended, the next handled event starts a session whose id is
/// new: it differs from the ended one's, and from every earlier one's, since
/// all of those are below the counter.
pub proof fn lemma_fresh_session_after_end(t: DropSessionTracker, ended: DropSession)
    requires
        t.wf(),
        t.current_view() == Some(ended),
    ensures
        ({
            let after_end = drop_event_outcome(ended, DragAction::DragEnded).2;
            &&& after_end is None
            &&& session_for_event(after_end, t.next_id_view()).id != ended.id
            &&& session_for_event(after_end, t.next_id_view()).id.0 == t.next_id_view()
        }),
{
}

/// A drop is performed only after the Dart side accepted an operation that
/// hands the data over: with no answer yet, or a refusal, the drop is declined.
pub proof fn lemma_drop_needs_acceptance(session: DropSession)
    ensures
        (drop_event_outcome(session, DragAction::Drop).1 is PerformDrop) == accepts_drop(
            session.last_operation,
        ),
        !drop_event_outcome(
            DropSession { id: session.id, last_operation: DropOperation::NoOperation },
            DragAction::Drop,
        ).0,
{
}

/// The operations that a drop allows: those of the local drag session, or a
/// copy when the drag comes from elsewhere.
pub fn allowed_operations_or_default(session_operations: Option<Vec<DropOperation>>) -> (res: Vec<
    DropOperation,
>)
    ensures
        match session_operations {
            Some(ops) => res@ == ops@,
            None => res@ == seq![DropOperation::Copy],
        },
{
    match session_operations {
        Some(ops) => ops,
        None => {
            let mut res = Vec::new();
            res.push(DropOperation::Copy);
            res
        },
    }
}

/// An item of a drop event: its id within the session, its formats and the
/// local data of the drag that it comes from (`None` for none).
pub struct DropItem<V> {
    pub item_id: DropItemId,
    pub formats: Vec<String>,
    pub local_data: Option<V>,
}

/// A copy of a list of strings.
fn copy_strings(v: &Vec<String>) -> (res: Vec<String>)
    ensures
        res.deep_view() == v.deep_view(),
{
    let mut res: Vec<String> = Vec::new();
    let mut i: usize = 0;
    while i < v.len()
        invariant
            i <= v@.len(),
            res.deep_view() == v.deep_view().take(i as int),
        decreases v@.len() - i,
    {
        let ghost before = res.deep_view();
        let s = v[i].clone();
        res.push(s);
        proof {
            assert(s@ == v.deep_view()[i as int]);
            assert(res.deep_view() =~= before.push(s@));
            assert(v.deep_view().take(i + 1) =~= v.deep_view().take(i as int).push(s@));
            assert(res.deep_view() =~= v.deep_view().take(i + 1));
        }
        i = i + 1;
    }
    proof {
        assert(v.deep_view().take(v@.len() as int) =~= v.deep_view());
    }
    res
}

/// Takes the values of `v`, in order, into `Some`s.
fn into_options<V>(v: Vec<V>) -> (res: Vec<Option<V>>)
    ensures
        res@.len() == v@.len(),
        forall|i: int| 0 <= i < v@.len() ==> #[trigger] res@[i] == Some(v@[i]),
{
    let ghost original = v@;
    let mut v = v;
    let mut reversed: Vec<V> = Vec::new();
    while v.len() > 0
        invariant
            v@.len() + reversed@.len() == original.len(),
            v@ == original.take(v@.len() as int),
            forall|j: int|
                0 <= j < reversed@.len() ==> #[trigger] reversed@[j] == original[original.len() - 1
                    - j],
        decreases v@.len(),
    {
        let ghost before = v@;
        match v.pop() {
            Some(x) => {
                reversed.push(x);
                proof {
                    assert(v@ == original.take(v@.len() as int));
                }
            },
            None => {},
        }
    }
    let mut res: Vec<Option<V>> = Vec::new();
    while reversed.len() > 0
        invariant
            res@.len() + reversed@.len() == original.len(),
            forall|j: int|
                0 <= j < reversed@.len() ==> #[trigger] reversed@[j] == original[original.len() - 1
                    - j],
            forall|j: int| 0 <= j < res@.len() ==> #[trigger] res@[j] == Some(original[j]),
        decreases reversed@.len(),
    {
        match reversed.pop() {
            Some(x) => {
                res.push(Some(x));
            },
            None => {},
        }
    }
    res
}

/// The items of a drop event when only the clip description is known: one per
/// local data item (or a single one without local data), each with the types
/// of the description.
pub fn items_from_description<V>(local_data: Vec<V>, mime_types: &Vec<String>) -> (res: Vec<
    DropItem<V>,
>)
    ensures
        res@.len() == (if local_data@.len() == 0 {
            1
        } else {
            local_data@.len()
        }),
        forall|i: int|
            0 <= i < res@.len() ==> (#[trigger] res@[i]).item_id == DropItemId(i as i64)
                && res@[i].formats.deep_view() == mime_types.deep_view() && res@[i].local_data == (
            if i < local_data@.len() {
                Some(local_data@[i])
            } else {
                None
            }),
{
    let ghost ld = local_data@;
    let mut data = into_options(local_data);
    if data.len() == 0 {
        data.push(None);
    }
    let items = data;
    let ghost opts = items@;
    let n = items.len();
    let mut remaining = items;
    let mut res_rev: Vec<DropItem<V>> = Vec::new();
    while remaining.len() > 0
        invariant
            res_rev@.len() + remaining@.len() == n,
            remaining@ == opts.take(remaining@.len() as int),
            n == opts.len(),
            forall|j: int|
                0 <= j < res_rev@.len() ==> (#[trigger] res_rev@[j]).item_id == DropItemId(
                    (n - 1 - j) as i64,
                ) && res_rev@[j].formats.deep_view() == mime_types.deep_view()
                    && res_rev@[j].local_data == opts[n - 1 - j],
        decreases remaining@.len(),
    {
        let index = remaining.len() - 1;
        match remaining.pop() {
            Some(local) => {
                res_rev.push(
                    DropItem {
                        item_id: DropItemId(index as i64),
                        formats: copy_strings(mime_types),
                        local_data: local,
                    },
                );
                proof {
                    assert(remaining@ == opts.take(remaining@.len() as int));
                }
            },
            None => {},
        }
    }
    let mut res: Vec<DropItem<V>> = Vec::new();
    while res_rev.len() > 0
        invariant
            res@.len() + res_rev@.len() == n,
            n == opts.len(),
            forall|j: int|
                0 <= j < res_rev@.len() ==> (#[trigger] res_rev@[j]).item_id == DropItemId(
                    (n - 1 - j) as i64,
                ) && res_rev@[j].formats.deep_view() == mime_types.deep_view()
                    && res_rev@[j].local_data == opts[n - 1 - j],
            forall|j: int|
                0 <= j < res@.len() ==> (#[trigger] res@[j]).item_id == DropItemId(j as i64)
                    && res@[j].formats.deep_view() == mime_types.deep_view() && res@[j].local_data
                    == opts[j],
        decreases res_rev@.len(),
    {
        match res_rev.pop() {
            Some(item) => {
                res.push(item);
            },
            None => {},
        }
    }
    res
}

/// The items of a drop event when the clip data can be read: one per clip
/// item, with the formats the reader reports for it and the local data of the
/// drag item at the same position, if any.
pub fn items_from_reader<V>(item_formats: Vec<Vec<String>>, local_data: Vec<V>) -> (res: Vec<DropItem<V>>)
    ensures
        res@.len() == item_formats@.len(),
        forall|i: int|
            0 <= i < res@.len() ==> (#[trigger] res@[i]).item_id == DropItemId(i as i64)
                && res@[i].formats == item_formats@[i] && res@[i].local_data == (if i < local_data@.len() {
                Some(local_data@[i])
            } else {
                None
            }),
{
    let ghost ld = local_data@;
    let ghost fm = item_formats@;
    let mut data = into_options(local_data);
    let mut formats = item_formats;
    let n = formats.len();
    while data.len() > n
        invariant
            data@.len() == ld.len() || data@.len() >= n,
            data@.len() <= ld.len(),
            forall|j: int| 0 <= j < data@.len() ==> #[trigger] data@[j] == Some(ld[j]),
        decreases data@.len(),
    {
        data.pop();
    }
    while data.len() < n
        invariant
            data@.len() <= n,
            data@.len() >= ld.len() || data@.len() == n,
            forall|j: int| 0 <= j < data@.len() ==> #[trigger] data@[j] == (if j < ld.len() {
                Some(ld[j])
            } else {
                None
            }),
        decreases n - data@.len(),
    {
        data.push(None);
    }
    let mut res_rev: Vec<DropItem<V>> = Vec::new();
    while formats.len() > 0
        invariant
            formats@.len() == data@.len(),
            res_rev@.len() + formats@.len() == n,
            n == fm.len(),
            formats@ == fm.take(formats@.len() as int),
            forall|j: int| 0 <= j < data@.len() ==> #[trigger] data@[j] == (if j < ld.len() {
                Some(ld[j])
            } else {
                None
            }),
            forall|j: int|
                0 <= j < res_rev@.len() ==> (#[trigger] res_rev@[j]).item_id == DropItemId((n - 1 - j) as i64)
                    && res_rev@[j].formats == fm[n - 1 - j] && res_rev@[j].local_data == (if n - 1 - j < ld.len() {
                    Some(ld[n - 1 - j])
                } else {
                    None
                }),
        decreases formats@.len(),
    {
        let index = formats.len() - 1;
        let f = formats.pop();
        let d = data.pop();
        match (f, d) {
            (Some(f), Some(d)) => {
                res_rev.push(DropItem { item_id: DropItemId(index as i64), formats: f, local_data: d });
                proof {
                    assert(formats@ =~= fm.take(formats@.len() as int));
                }
            },
            _ => {},
        }
    }
    let mut res: Vec<DropItem<V>> = Vec::new();
    while res_rev.len() > 0
        invariant
            res@.len() + res_rev@.len() == n,
            forall|j: int|
                0 <= j < res_rev@.len() ==> (#[trigger] res_rev@[j]).item_id == DropItemId((n - 1 - j) as i64)
                    && res_rev@[j].formats == fm[n - 1 - j] && res_rev@[j].local_data == (if n - 1 - j < ld.len() {
                    Some(ld[n - 1 - j])
                } else {
                    None
                }),
            forall|j: int|
                0 <= j < res@.len() ==> (#[trigger] res@[j]).item_id == DropItemId(j as i64)
                    && res@[j].formats == fm[j] && res@[j].local_data == (if j < ld.len() {
                    Some(ld[j])
                } else {
                    None
                }),
        decreases res_rev@.len(),
    {
        match res_rev.pop() {
            Some(item) => {
                res.push(item);
            },
            None => {},
        }
    }
    res
}

} // verus!
