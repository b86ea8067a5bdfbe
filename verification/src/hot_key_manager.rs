use vstd::prelude::*;

use crate::error::NativeExtensionsError;
use crate::ids::next_id;
use crate::registry::{without_isolate, Registry};

verus! {

/// A request to register a system wide hot key.
#[derive(Debug, Clone, Copy, PartialEq, Eq)]
pub struct HotKeyCreateRequest {
    pub alt: bool,
    pub shift: bool,
    pub meta: bool,
    pub control: bool,
    pub platform_code: i64,
}

/// Identifies a registered hot key.
#[derive(Debug, Clone, Copy, PartialEq, Eq, Hash, Structural)]
pub struct HotKeyHandle(pub i64);

/// Receives the presses and releases of the registered hot keys.
pub trait HotKeyManagerDelegate {
    fn on_hot_key_pressed(&self, handle: HotKeyHandle);

    fn on_hot_key_released(&self, handle: HotKeyHandle);
}

/// The Carbon modifier mask of a request: command is bit 8, shift bit 9,
/// option bit 11 and control bit 12.
pub open spec fn carbon_modifier_mask(request: HotKeyCreateRequest) -> u32 {
    ((if request.meta {
        0x100u32
    } else {
        0u32
    }) | (if request.shift {
        0x200u32
    } else {
        0u32
    }) | (if request.alt {
        0x800u32
    } else {
        0u32
    }) | (if request.control {
        0x1000u32
    } else {
        0u32
    }))
}

/// Four flags, each either off or its own bit, make a mask that has each bit
/// exactly when its flag is on, and no other bit.
proof fn lemma_carbon_bits(c: u32, s: u32, o: u32, k: u32)
    by (bit_vector)
    requires
        c == 0 || c == 0x100,
        s == 0 || s == 0x200,
        o == 0 || o == 0x800,
        k == 0 || k == 0x1000,
    ensures
        ((c | s | o | k) & 0x100u32 != 0) == (c == 0x100),
        ((c | s | o | k) & 0x200u32 != 0) == (s == 0x200),
        ((c | s | o | k) & 0x800u32 != 0) == (o == 0x800),
        ((c | s | o | k) & 0x1000u32 != 0) == (k == 0x1000),
        (c | s | o | k) & !0x1B00u32 == 0,
{
}

/// The Carbon modifiers of a hot key: `cmdKey` (bit 8, 0x100) exactly when
/// command is held, `shiftKey` (bit 9, 0x200) exactly with shift, `optionKey`
/// (bit 11, 0x800) exactly with option and `controlKey` (bit 12, 0x1000)
/// exactly with control, and no other bit.
pub proof fn lemma_carbon_modifier_bits(request: HotKeyCreateRequest)
    ensures
        (carbon_modifier_mask(request) & 0x100u32 != 0) == request.meta,
        (carbon_modifier_mask(request) & 0x200u32 != 0) == request.shift,
        (carbon_modifier_mask(request) & 0x800u32 != 0) == request.alt,
        (carbon_modifier_mask(request) & 0x1000u32 != 0) == request.control,
        carbon_modifier_mask(request) & !0x1B00u32 == 0,
{
    lemma_carbon_bits(
        if request.meta { 0x100u32 } else { 0u32 },
        if request.shift { 0x200u32 } else { 0u32 },
        if request.alt { 0x800u32 } else { 0u32 },
        if request.control { 0x1000u32 } else { 0u32 },
    );
}

/// The Carbon modifier mask with which a hot key is registered on macOS.
pub fn carbon_modifiers(request: &HotKeyCreateRequest) -> (res: u32)
    ensures
        res == carbon_modifier_mask(*request),
        (res & 0x100u32 != 0) == request.meta,
        (res & 0x200u32 != 0) == request.shift,
        (res & 0x800u32 != 0) == request.alt,
        (res & 0x1000u32 != 0) == request.control,
        res & !0x1B00u32 == 0,
{
    proof {
        lemma_carbon_modifier_bits(*request);
    }
    let command: u32 = if request.meta {
        0x100
    } else {
        0
    };
    let shift: u32 = if request.shift {
        0x200
    } else {
        0
    };
    let option: u32 = if request.alt {
        0x800
    } else {
        0
    };
    let control: u32 = if request.control {
        0x1000
    } else {
        0
    };
    command | shift | option | control
}

/// Every handle in use is below the counter, which starts at 1.
pub open spec fn handles_below(next: int, handles: Map<i64, (i64, ())>) -> bool {
    &&& 1 <= next
    &&& forall|h: i64| handles.contains_key(h) ==> h < next
}

/// Registered hot keys, each with the isolate that registered it. Handles are
/// drawn from a counter that starts at 1.
pub struct HotKeyManager {
    next_id: i64,
    handle_to_isolate: Registry<()>,
}

impl HotKeyManager {
    pub closed spec fn next_id_view(&self) -> int {
        self.next_id as int
    }

    /// The isolate of each registered handle.
    pub closed spec fn handles_view(&self) -> Map<i64, (i64, ())> {
        self.handle_to_isolate@
    }

    pub open spec fn wf(&self) -> bool {
        handles_below(self.next_id_view(), self.handles_view())
    }

    pub fn new() -> (res: Self)
        ensures
            res.wf(),
            res.next_id_view() == 1,
            res.handles_view() == Map::<i64, (i64, ())>::empty(),
    {
        HotKeyManager { next_id: 1, handle_to_isolate: Registry::new() }
    }

    /// Takes the handle for the next hot key; the platform registers the key
    /// under it.
    pub fn next_handle(&mut self) -> (handle: HotKeyHandle)
        requires
            old(self).wf(),
            old(self).next_id_view() < i64::MAX,
        ensures
            final(self).wf(),
            handle.0 == old(self).next_id_view(),
            !old(self).handles_view().contains_key(handle.0),
            final(self).next_id_view() == old(self).next_id_view() + 1,
            final(self).handles_view() == old(self).handles_view(),
    {
        HotKeyHandle(next_id(&mut self.next_id))
    }

    /// Records the outcome of registering `handle` for `isolate` with the
    /// platform. A platform without hot keys gives no handle; another platform
    /// error is passed on; a registered key is remembered for the isolate.
    pub fn complete_create(
        &mut self,
        isolate: i64,
        handle: HotKeyHandle,
        platform_result: Result<(), NativeExtensionsError>,
    ) -> (res: Result<Option<HotKeyHandle>, NativeExtensionsError>)
        requires
            old(self).wf(),
            handle.0 < old(self).next_id_view(),
        ensures
            final(self).wf(),
            final(self).next_id_view() == old(self).next_id_view(),
            match platform_result {
                Ok(()) => res == Ok::<Option<HotKeyHandle>, NativeExtensionsError>(Some(handle))
                    && final(self).handles_view() == old(self).handles_view().insert(
                    handle.0,
                    (isolate, ()),
                ),
                Err(NativeExtensionsError::UnsupportedOperation) => res == Ok::<
                    Option<HotKeyHandle>,
                    NativeExtensionsError,
                >(None) && final(self).handles_view() == old(self).handles_view(),
                Err(e) => res == Err::<Option<HotKeyHandle>, NativeExtensionsError>(e)
                    && final(self).handles_view() == old(self).handles_view(),
            },
    {
        match platform_result {
            Ok(()) => {
                self.handle_to_isolate.insert(handle.0, isolate, ());
                Ok(Some(handle))
            },
            Err(NativeExtensionsError::UnsupportedOperation) => Ok(None),
            Err(e) => Err(e),
        }
    }

    /// Forgets `handle`; the platform then unregisters the key.
    pub fn destroy_hot_key(&mut self, handle: HotKeyHandle)
        requires
            old(self).wf(),
        ensures
            final(self).wf(),
            final(self).next_id_view() == old(self).next_id_view(),
            final(self).handles_view() == old(self).handles_view().remove(handle.0),
    {
        let _ = self.handle_to_isolate.remove(handle.0);
    }

    /// The isolate to tell about a press or release of `handle`, if it is
    /// registered.
    pub fn isolate_for(&self, handle: HotKeyHandle) -> (res: Option<i64>)
        ensures
            res == (if self.handles_view().contains_key(handle.0) {
                Some(self.handles_view()[handle.0].0)
            } else {
                None
            }),
    {
        match self.handle_to_isolate.get(handle.0) {
            Some(e) => Some(e.0),
            None => None,
        }
    }

    /// Forgets the hot keys of `isolate`. Gives their handles, for the
    /// platform to unregister.
    pub fn on_isolate_destroyed(&mut self, isolate: i64) -> (handles: Vec<HotKeyHandle>)
        requires
            old(self).wf(),
        ensures
            final(self).wf(),
            final(self).next_id_view() == old(self).next_id_view(),
            final(self).handles_view() == without_isolate(old(self).handles_view(), isolate),
            forall|h: i64|
                (exists|i: int| 0 <= i < handles@.len() && #[trigger] handles@[i].0 == h) <==> (
                old(self).handles_view().contains_key(h) && old(self).handles_view()[h].0
                    == isolate),
    {
        let removed = self.handle_to_isolate.remove_isolate(isolate);
        let mut handles: Vec<HotKeyHandle> = Vec::new();
        let mut i: usize = 0;
        while i < removed.len()
            invariant
                i <= removed@.len(),
                handles@.len() == i,
                forall|j: int| 0 <= j < i ==> (#[trigger] handles@[j]).0 == removed@[j].0,
            decreases removed@.len() - i,
        {
            handles.push(HotKeyHandle(removed[i].0));
            i = i + 1;
        }
        proof {
            assert forall|h: i64|
                (exists|i: int| 0 <= i < handles@.len() && #[trigger] handles@[i].0 == h) implies (
            old(self).handles_view().contains_key(h) && old(self).handles_view()[h].0
                == isolate) by {
                let i = choose|i: int| 0 <= i < handles@.len() && #[trigger] handles@[i].0 == h;
                assert(removed@[i].0 == h);
            }
            assert forall|h: i64|
                old(self).handles_view().contains_key(h) && old(self).handles_view()[h].0
                    == isolate implies (exists|i: int|
                0 <= i < handles@.len() && #[trigger] handles@[i].0 == h) by {
                let i = choose|i: int| 0 <= i < removed@.len() && #[trigger] removed@[i].0 == h;
                assert(handles@[i].0 == h);
            }
        }
        handles
    }
}

/// A hot key registered with Carbon: the Carbon id, the manager's handle and
/// the platform's reference `K`.
pub struct CarbonHotKey<K> {
    pub id: u32,
    pub handle: HotKeyHandle,
    pub key_ref: K,
}

/// The Carbon ids are distinct and below the counter, which starts at 1.
pub open spec fn carbon_ids_valid<K>(next: int, keys: Seq<CarbonHotKey<K>>) -> bool {
    &&& 1 <= next
    &&& forall|i: int| 0 <= i < keys.len() ==> (#[trigger] keys[i]).id < next
    &&& forall|i: int, j: int|
        0 <= i < j < keys.len() ==> (#[trigger] keys[i]).id != (#[trigger] keys[j]).id
}

/// The hot keys registered with Carbon on macOS, under ids from a counter that
/// starts at 1.
pub struct CarbonHotKeys<K> {
    next_id: u32,
    hot_keys: Vec<CarbonHotKey<K>>,
}

impl<K> CarbonHotKeys<K> {
    pub closed spec fn next_id_view(&self) -> int {
        self.next_id as int
    }

    pub closed spec fn keys_view(&self) -> Seq<CarbonHotKey<K>> {
        self.hot_keys@
    }

    pub open spec fn wf(&self) -> bool {
        carbon_ids_valid(self.next_id_view(), self.keys_view())
    }

    pub fn new() -> (res: Self)
        ensures
            res.wf(),
            res.next_id_view() == 1,
            res.keys_view().len() == 0,
    {
        CarbonHotKeys { next_id: 1, hot_keys: Vec::new() }
    }

    /// Takes the Carbon id for the next hot key.
    pub fn next_carbon_id(&mut self) -> (id: u32)
        requires
            old(self).wf(),
            old(self).next_id_view() < u32::MAX,
        ensures
            final(self).wf(),
            id == old(self).next_id_view(),
            final(self).next_id_view() == old(self).next_id_view() + 1,
            final(self).keys_view() == old(self).keys_view(),
    {
        let id = self.next_id;
        self.next_id = id + 1;
        id
    }

    /// Remembers a key that Carbon registered under `id`.
    pub fn add(&mut self, id: u32, handle: HotKeyHandle, key_ref: K)
        requires
            old(self).wf(),
            id < old(self).next_id_view(),
            forall|i: int| 0 <= i < old(self).keys_view().len() ==> (#[trigger] old(self).keys_view()[i]).id != id,
        ensures
            final(self).wf(),
            final(self).next_id_view() == old(self).next_id_view(),
            final(self).keys_view() == old(self).keys_view().push(CarbonHotKey { id, handle, key_ref }),
    {
        self.hot_keys.push(CarbonHotKey { id, handle, key_ref });
    }

    /// The handle of the key that Carbon reports under `id`.
    pub fn handle_for(&self, id: u32) -> (res: Option<HotKeyHandle>)
        requires
            self.wf(),
        ensures
            match res {
                Some(h) => exists|i: int|
                    0 <= i < self.keys_view().len() && (#[trigger] self.keys_view()[i]).id == id
                        && self.keys_view()[i].handle == h,
                None => forall|i: int|
                    0 <= i < self.keys_view().len() ==> (#[trigger] self.keys_view()[i]).id != id,
            },
    {
        let mut i: usize = 0;
        while i < self.hot_keys.len()
            invariant
                i <= self.keys_view().len(),
                self.keys_view() == self.hot_keys@,
                forall|j: int| 0 <= j < i ==> (#[trigger] self.keys_view()[j]).id != id,
            decreases self.keys_view().len() - i,
        {
            if self.hot_keys[i].id == id {
                return Some(self.hot_keys[i].handle);
            }
            i = i + 1;
        }
        None
    }

    /// Takes out the key registered for `handle`, for Carbon to unregister.
    pub fn remove_handle(&mut self, handle: HotKeyHandle) -> (res: Option<CarbonHotKey<K>>)
        requires
            old(self).wf(),
        ensures
            final(self).wf(),
            final(self).next_id_view() == old(self).next_id_view(),
            match res {
                Some(k) => exists|i: int|
                    0 <= i < old(self).keys_view().len() && old(self).keys_view()[i] == k
                        && k.handle == handle && final(self).keys_view()
                        == old(self).keys_view().remove(i),
                None => final(self).keys_view() == old(self).keys_view() && forall|i: int|
                    0 <= i < old(self).keys_view().len()
                        ==> (#[trigger] old(self).keys_view()[i]).handle != handle,
            },
    {
        let mut i: usize = 0;
        while i < self.hot_keys.len()
            invariant
                i <= self.keys_view().len(),
                self.keys_view() == self.hot_keys@,
                self.keys_view() == old(self).keys_view(),
                self.next_id == old(self).next_id,
                carbon_ids_valid(old(self).next_id_view(), old(self).keys_view()),
                forall|j: int| 0 <= j < i ==> (#[trigger] self.keys_view()[j]).handle != handle,
            decreases self.keys_view().len() - i,
        {
            if self.hot_keys[i].handle == handle {
                let ghost before = self.hot_keys@;
                let k = self.hot_keys.remove(i);
                proof {
                    assert forall|a: int, b: int|
                        0 <= a < b < self.hot_keys@.len() implies (#[trigger] self.hot_keys@[a]).id
                        != (#[trigger] self.hot_keys@[b]).id by {
                        let a0 = if a < i { a } else { a + 1 };
                        let b0 = if b < i { b } else { b + 1 };
                        assert(self.hot_keys@[a] == before[a0]);
                        assert(self.hot_keys@[b] == before[b0]);
                    }
                    assert forall|a: int|
                        0 <= a < self.hot_keys@.len() implies (#[trigger] self.hot_keys@[a]).id
                        < self.next_id by {
                        let a0 = if a < i { a } else { a + 1 };
                        assert(self.hot_keys@[a] == before[a0]);
                    }
                }
                return Some(k);
            }
            i = i + 1;
        }
        None
    }
}

} // verus!
