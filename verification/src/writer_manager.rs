use vstd::prelude::*;

use crate::error::ClipboardError;
use crate::ids::next_id;
use crate::registry::{keys_below, without_isolate, Registry};

verus! {

/// The registered clipboard writers of all isolates, of type `W`, under ids
/// from a counter that starts at 1.
pub struct ClipboardWriterManager<W> {
    next_id: i64,
    writers: Registry<W>,
}

/// The message of the error for a writer that is not registered.
pub open spec fn writer_not_found_message() -> Seq<char> {
    "Clipboard not found"@
}

impl<W> ClipboardWriterManager<W> {
    pub closed spec fn next_id_view(&self) -> int {
        self.next_id as int
    }

    pub closed spec fn writers_view(&self) -> Map<i64, (i64, W)> {
        self.writers@
    }

    pub open spec fn wf(&self) -> bool {
        keys_below(self.next_id_view(), self.writers_view())
    }

    pub fn new() -> (res: Self)
        ensures
            res.wf(),
            res.next_id_view() == 1,
            res.writers_view() == Map::<i64, (i64, W)>::empty(),
    {
        ClipboardWriterManager { next_id: 1, writers: Registry::new() }
    }

    /// Registers the writer of `isolate` under a fresh id.
    pub fn register_writer(&mut self, writer: W, isolate: i64) -> (res: Result<i64, ClipboardError>)
        requires
            old(self).wf(),
            old(self).next_id_view() < i64::MAX,
        ensures
            final(self).wf(),
            res == Ok::<i64, ClipboardError>(old(self).next_id_view() as i64),
            !old(self).writers_view().contains_key(old(self).next_id_view() as i64),
            final(self).next_id_view() == old(self).next_id_view() + 1,
            final(self).writers_view() == old(self).writers_view().insert(
                old(self).next_id_view() as i64,
                (isolate, writer),
            ),
    {
        let id = next_id(&mut self.next_id);
        self.writers.insert(id, isolate, writer);
        Ok(id)
    }

    /// Forgets writer `id`, if it is registered.
    pub fn unregister_writer(&mut self, id: i64) -> (res: Result<(), ClipboardError>)
        requires
            old(self).wf(),
        ensures
            final(self).wf(),
            res is Ok,
            final(self).next_id_view() == old(self).next_id_view(),
            final(self).writers_view() == old(self).writers_view().remove(id),
    {
        let _ = self.writers.remove(id);
        Ok(())
    }

    /// The writer to write clipboard `id` with.
    pub fn writer_for(&self, id: i64) -> (res: Result<&W, ClipboardError>)
        ensures
            self.writers_view().contains_key(id) ==> (res matches Ok(w) && *w
                == self.writers_view()[id].1),
            !self.writers_view().contains_key(id) ==> (res matches Err(ClipboardError::OtherError(m))
                && m@ == writer_not_found_message()),
    {
        match self.writers.get(id) {
            Some(e) => Ok(&e.1),
            None => Err(ClipboardError::OtherError(String::from_str("Clipboard not found"))),
        }
    }

    /// Forgets the writers of an isolate that goes away.
    pub fn on_isolate_destroyed(&mut self, isolate: i64)
        requires
            old(self).wf(),
        ensures
            final(self).wf(),
            final(self).next_id_view() == old(self).next_id_view(),
            final(self).writers_view() == without_isolate(old(self).writers_view(), isolate),
    {
        let _ = self.writers.remove_isolate(isolate);
    }
}

/// How many of the first `i` calls in `calls` are registrations (`true`); the
/// others are unregistrations and isolate teardowns (`false`).
pub open spec fn registrations_before(calls: Seq<bool>, i: int) -> int
    decreases i,
{
    if i <= 0 {
        0
    } else {
        registrations_before(calls, i - 1) + (if calls[i - 1] {
            1int
        } else {
            0int
        })
    }
}

/// Writer ids count up from 1 and are never reused: over any sequence of calls
/// on a new manager, `counters[i]` being the counter before call `i` (a
/// registration hands it out and moves it on by one; an unregistration or an
/// isolate teardown leaves it), the registration at call `i` gets id
/// `1 + registrations_before(calls, i)`, so the registrations get 1, 2, ... in
/// order, and two registrations never get the same id.
pub proof fn lemma_writer_ids_count_up(calls: Seq<bool>, counters: Seq<int>)
    requires
        counters.len() == calls.len() + 1,
        counters[0] == 1,
        forall|i: int|
            0 <= i < calls.len() ==> #[trigger] counters[i + 1] == counters[i] + (if calls[i] {
                1int
            } else {
                0int
            }),
    ensures
        forall|i: int| 0 <= i <= calls.len() ==> #[trigger] counters[i] == 1 + registrations_before(calls, i),
        forall|i: int, j: int|
            0 <= i < j < calls.len() && calls[i] && calls[j] ==> #[trigger] counters[i] < #[trigger] counters[j],
    decreases calls.len(),
{
    if calls.len() > 0 {
        let n = calls.len() - 1;
        lemma_writer_ids_count_up(calls.take(n), counters.take(n + 1));
        assert forall|i: int| 0 <= i <= n implies registrations_before(calls.take(n), i) == registrations_before(calls, i) by {
            lemma_registrations_prefix(calls, n, i);
        }
        assert forall|i: int| 0 <= i <= calls.len() implies #[trigger] counters[i] == 1 + registrations_before(calls, i) by {
            if i <= n {
                assert(counters.take(n + 1)[i] == counters[i]);
                assert(counters.take(n + 1)[i] == 1 + registrations_before(calls.take(n), i));
                assert(registrations_before(calls.take(n), i) == registrations_before(calls, i));
            } else {
                assert(counters.take(n + 1)[n] == 1 + registrations_before(calls.take(n), n));
                assert(registrations_before(calls.take(n), n) == registrations_before(calls, n));
                assert(counters.take(n + 1)[n] == counters[n]);
                assert(counters[n + 1] == counters[n] + (if calls[n] { 1int } else { 0int }));
            }
        }
        assert forall|i: int, j: int|
            0 <= i < j < calls.len() && calls[i] && calls[j] implies #[trigger] counters[i] < #[trigger] counters[j] by {
            lemma_registrations_grow(calls, i + 1, j);
            assert(counters[i + 1] == counters[i] + 1);
        }
    }
}

proof fn lemma_registrations_prefix(calls: Seq<bool>, n: int, i: int)
    requires
        0 <= i <= n <= calls.len(),
    ensures
        registrations_before(calls.take(n), i) == registrations_before(calls, i),
    decreases i,
{
    if i > 0 {
        lemma_registrations_prefix(calls, n, i - 1);
        assert(calls.take(n)[i - 1] == calls[i - 1]);
    }
}

proof fn lemma_registrations_grow(calls: Seq<bool>, a: int, b: int)
    requires
        0 <= a <= b <= calls.len(),
    ensures
        registrations_before(calls, a) <= registrations_before(calls, b),
    decreases b - a,
{
    if a < b {
        lemma_registrations_grow(calls, a, b - 1);
    }
}

} // verus!
