use vstd::prelude::*;

use crate::api_model::{DataProviderValueId, DataRepresentation, VirtualFileStorage};
use crate::data_provider_manager::VirtualFileResult;

verus! {

/// How one representation of a data provider is offered by an
/// `NSItemProvider`.
#[derive(Debug, Clone, PartialEq, Eq)]
pub enum ItemRegistration {
    /// Data of a format, simple or lazy: taken from the provider on request.
    Data { format: String },
    /// A virtual file received into a temporary file and handed over as a file.
    FileVirtualFile { format: String, id: DataProviderValueId },
    /// A virtual file received into memory and handed over as data.
    MemoryVirtualFile { format: String, id: DataProviderValueId },
}

/// How a representation is offered: virtual files go where their storage
/// suggestion says, into a temporary file when there is none.
pub open spec fn registration_matches<V>(r: DataRepresentation<V>, g: ItemRegistration) -> bool {
    match r {
        DataRepresentation::Simple { format, .. } => g matches ItemRegistration::Data { format: f }
            && f@ == format@,
        DataRepresentation::Lazy { format, .. } => g matches ItemRegistration::Data { format: f }
            && f@ == format@,
        DataRepresentation::VirtualFile { id, format, storage_suggestion } => match storage_suggestion {
            Some(VirtualFileStorage::Memory) => g matches ItemRegistration::MemoryVirtualFile {
                format: f,
                id: i,
            } && f@ == format@ && i == id,
            _ => g matches ItemRegistration::FileVirtualFile { format: f, id: i } && f@ == format@
                && i == id,
        },
    }
}

/// The registrations of an item provider for a data provider's
/// representations, one per representation, in order.
pub fn item_provider_registrations<V>(reprs: &Vec<DataRepresentation<V>>) -> (res: Vec<
    ItemRegistration,
>)
    ensures
        res@.len() == reprs@.len(),
        forall|i: int| 0 <= i < reprs@.len() ==> registration_matches(#[trigger] reprs@[i], res@[i]),
{
    let mut res: Vec<ItemRegistration> = Vec::new();
    let mut i: usize = 0;
    while i < reprs.len()
        invariant
            i <= reprs@.len(),
            res@.len() == i,
            forall|j: int| 0 <= j < i ==> registration_matches(#[trigger] reprs@[j], res@[j]),
        decreases reprs@.len() - i,
    {
        let g = match &reprs[i] {
            DataRepresentation::Simple { format, .. } => ItemRegistration::Data {
                format: format.clone(),
            },
            DataRepresentation::Lazy { format, .. } => ItemRegistration::Data {
                format: format.clone(),
            },
            DataRepresentation::VirtualFile { id, format, storage_suggestion } => {
                match storage_suggestion {
                    Some(VirtualFileStorage::Memory) => ItemRegistration::MemoryVirtualFile {
                        format: format.clone(),
                        id: *id,
                    },
                    _ => ItemRegistration::FileVirtualFile { format: format.clone(), id: *id },
                }
            },
        };
        res.push(g);
        i = i + 1;
    }
    res
}

/// Representation `i` is lazy data under value id `id`.
pub open spec fn lazy_at<V>(reprs: Seq<DataRepresentation<V>>, i: int, id: DataProviderValueId) -> bool {
    0 <= i < reprs.len() && reprs[i] is Lazy && reprs[i]->Lazy_id == id
}

/// Some representation is lazy data under value id `id`.
pub open spec fn is_lazy_id<V>(reprs: Seq<DataRepresentation<V>>, id: DataProviderValueId) -> bool {
    exists|i: int| #[trigger] lazy_at(reprs, i, id)
}

/// The lazy values of a provider that are not cached yet, in order of the
/// representations.
pub fn ids_to_precache<V>(reprs: &Vec<DataRepresentation<V>>, cached: &Vec<DataProviderValueId>) -> (res: Vec<
    DataProviderValueId,
>)
    ensures
        forall|k: int|
            0 <= k < res@.len() ==> !cached@.contains(#[trigger] res@[k]) && is_lazy_id(reprs@, res@[k]),
        forall|i: int, id: DataProviderValueId|
            #[trigger] lazy_at(reprs@, i, id) && !cached@.contains(id) ==> res@.contains(id),
{
    let mut res: Vec<DataProviderValueId> = Vec::new();
    let mut i: usize = 0;
    while i < reprs.len()
        invariant
            i <= reprs@.len(),
            forall|k: int|
                0 <= k < res@.len() ==> !cached@.contains(#[trigger] res@[k]) && is_lazy_id(reprs@, res@[k]),
            forall|j: int, id: DataProviderValueId|
                j < i && #[trigger] lazy_at(reprs@, j, id) && !cached@.contains(id) ==> res@.contains(id),
        decreases reprs@.len() - i,
    {
        match &reprs[i] {
            DataRepresentation::Lazy { id, .. } => {
                let mut found = false;
                let mut k: usize = 0;
                while k < cached.len()
                    invariant
                        k <= cached@.len(),
                        found == exists|m: int| 0 <= m < k && cached@[m] == *id,
                    decreases cached@.len() - k,
                {
                    if cached[k].0 == id.0 {
                        found = true;
                    }
                    k = k + 1;
                }
                let ghost before = res@;
                if !found {
                    res.push(*id);
                }
                proof {
                    assert(lazy_at(reprs@, i as int, *id));
                    assert forall|k: int| 0 <= k < res@.len() implies !cached@.contains(#[trigger] res@[k]) && is_lazy_id(reprs@, res@[k]) by {
                        if k < before.len() {
                            assert(res@[k] == before[k]);
                        } else {
                            assert(res@[k] == *id);
                            assert(!cached@.contains(*id));
                        }
                    }
                    assert forall|j: int, id2: DataProviderValueId|
                        j < i + 1 && #[trigger] lazy_at(reprs@, j, id2) && !cached@.contains(id2) implies res@.contains(id2) by {
                        if j < i {
                            assert(before.contains(id2));
                            let m = choose|m: int| 0 <= m < before.len() && before[m] == id2;
                            assert(res@[m] == id2);
                        } else {
                            assert(id2 == *id);
                            assert(!found);
                            assert(res@[res@.len() - 1] == id2);
                        }
                    }
                }
            },
            _ => {
                proof {
                    assert forall|j: int, id2: DataProviderValueId|
                        j < i + 1 && #[trigger] lazy_at(reprs@, j, id2) && !cached@.contains(id2) implies res@.contains(id2) by {
                        assert(j != i);
                    }
                }
            },
        }
        i = i + 1;
    }
    res
}

/// Where the data of a requested format comes from.
#[derive(Debug, Clone, Copy, PartialEq, Eq, Structural)]
pub enum ValueSource {
    /// The simple representation at this index.
    Simple(usize),
    /// The cached value of this lazy value.
    Precached(DataProviderValueId),
    /// This lazy value, to fetch from the Dart side.
    Fetch(DataProviderValueId),
    /// No representation has the format.
    NotFound,
}

/// Whether `id` is among `ids`.
fn contains_id(ids: &Vec<DataProviderValueId>, id: DataProviderValueId) -> (res: bool)
    ensures
        res == ids@.contains(id),
{
    let mut k: usize = 0;
    while k < ids.len()
        invariant
            k <= ids@.len(),
            forall|m: int| 0 <= m < k ==> ids@[m] != id,
        decreases ids@.len() - k,
    {
        if ids[k].0 == id.0 {
            assert(ids@[k as int] == id);
            return true;
        }
        k = k + 1;
    }
    false
}

/// Finds where the data of `format` comes from: the first simple or lazy
/// representation of that format; a lazy one is served from the cache when
/// its value was cached.
pub fn value_source_for_format<V>(
    reprs: &Vec<DataRepresentation<V>>,
    format: &String,
    cached: &Vec<DataProviderValueId>,
) -> (res: ValueSource)
    ensures
        match crate::android::data_provider::first_data_index(reprs@, format@) {
            Some(i) => match reprs@[i] {
                DataRepresentation::Lazy { id, .. } => res == (if cached@.contains(id) {
                    ValueSource::Precached(id)
                } else {
                    ValueSource::Fetch(id)
                }),
                _ => res == ValueSource::Simple(i as usize),
            },
            None => res == ValueSource::NotFound,
        },
{
    match crate::android::data_provider::find_data_for_mime(reprs, format) {
        Some(i) => match &reprs[i] {
            DataRepresentation::Lazy { id, .. } => {
                if contains_id(cached, *id) {
                    ValueSource::Precached(*id)
                } else {
                    ValueSource::Fetch(*id)
                }
            },
            _ => ValueSource::Simple(i),
        },
        None => ValueSource::NotFound,
    }
}

/// What the item provider hands over for a virtual file.
pub enum VirtualFileDelivery<P> {
    /// The received file or data; a received file is to be read through a
    /// presenter that deletes it afterwards.
    Received { payload: Option<P>, must_use_presenter: bool },
    /// Receiving failed with this message.
    Failed { message: String },
    /// Nothing: the session was not fetching, or the transfer was cancelled.
    Nothing,
}

/// What to hand over once a virtual file session ended with `result`; the
/// payload is what the stream collected.
pub fn deliver_virtual_file<P>(result: VirtualFileResult, payload: Option<P>) -> (res:
    VirtualFileDelivery<P>)
    ensures
        match result {
            VirtualFileResult::Done => res matches VirtualFileDelivery::Received {
                payload: p,
                must_use_presenter: m,
            } && p == payload && m,
            VirtualFileResult::Error { message } => res matches VirtualFileDelivery::Failed {
                message: m,
            } && m == message,
            VirtualFileResult::Cancelled => res is Nothing,
        },
{
    match result {
        VirtualFileResult::Done => VirtualFileDelivery::Received { payload, must_use_presenter: true },
        VirtualFileResult::Error { message } => VirtualFileDelivery::Failed { message },
        VirtualFileResult::Cancelled => VirtualFileDelivery::Nothing,
    }
}

/// Decides whether a drag session on iOS fetches the data of its items.
pub trait DataProviderSessionDelegate {
    fn should_fetch_items(&self) -> bool;
}

/// Decides whether a drag session of a data source on iOS fetches the data of
/// its items.
pub trait DataSourceSessionDelegate {
    fn should_fetch_items(&self) -> bool;
}

/// A file that a virtual file stream writes to.
pub trait StreamFile {
    /// Writes all of `data`; tells whether that succeeded.
    fn write_all(&mut self, data: &[u8]) -> bool;
}

/// Where the data written to a virtual file stream goes: a file at a path, or
/// a buffer in memory. A file stream keeps, as `handed`, each chunk that was
/// handed to its file, in order, with whether the file took it.
pub enum StreamEntry<F> {
    File { path: String, file: F, handed: Ghost<Seq<(Seq<u8>, bool)>> },
    Memory { buffer: Vec<u8> },
}

impl<F> StreamEntry<F> {
    /// A stream into `file`, at `path`, that nothing was handed to yet.
    pub fn file(path: String, file: F) -> (res: Self)
        ensures
            res == (StreamEntry::File { path, file, handed: Ghost(Seq::<(Seq<u8>, bool)>::empty()) }),
    {
        StreamEntry::File { path, file, handed: Ghost(Seq::empty()) }
    }
}

/// The open virtual file streams, by handle. Handles come from a counter that
/// starts at 0.
pub struct StreamEntries<F> {
    next_handle: i32,
    entries: Vec<(i32, StreamEntry<F>)>,
}

/// The index of the entry with handle `h`, if any.
pub open spec fn entry_index<F>(entries: Seq<(i32, StreamEntry<F>)>, h: i32) -> Option<int> {
    if exists|i: int| 0 <= i < entries.len() && (#[trigger] entries[i]).0 == h {
        Some(choose|i: int| 0 <= i < entries.len() && (#[trigger] entries[i]).0 == h)
    } else {
        None
    }
}

/// The handles of the entries are distinct.
pub open spec fn distinct_handles<F>(entries: Seq<(i32, StreamEntry<F>)>) -> bool {
    forall|i: int, j: int|
        0 <= i < j < entries.len() ==> (#[trigger] entries[i]).0 != (#[trigger] entries[j]).0
}

impl<F> StreamEntries<F> {
    pub closed spec fn entries_view(&self) -> Seq<(i32, StreamEntry<F>)> {
        self.entries@
    }

    pub closed spec fn next_handle_view(&self) -> int {
        self.next_handle as int
    }

    pub open spec fn wf(&self) -> bool {
        &&& distinct_handles(self.entries_view())
        &&& forall|i: int|
            0 <= i < self.entries_view().len() ==> (#[trigger] self.entries_view()[i]).0
                < self.next_handle_view()
    }

    /// Whether a stream with handle `h` is open.
    pub open spec fn is_open(&self, h: i32) -> bool {
        exists|i: int|
            0 <= i < self.entries_view().len() && (#[trigger] self.entries_view()[i]).0 == h
    }

    pub fn new() -> (res: Self)
        ensures
            res.wf(),
            res.next_handle_view() == 0,
            res.entries_view().len() == 0,
    {
        StreamEntries { next_handle: 0, entries: Vec::new() }
    }

    fn find(&self, handle: i32) -> (res: Option<usize>)
        requires
            self.wf(),
        ensures
            match res {
                Some(i) => i < self.entries_view().len() && self.entries_view()[i as int].0
                    == handle,
                None => !self.is_open(handle),
            },
    {
        let mut i: usize = 0;
        while i < self.entries.len()
            invariant
                i <= self.entries@.len(),
                forall|j: int| 0 <= j < i ==> (#[trigger] self.entries@[j]).0 != handle,
            decreases self.entries@.len() - i,
        {
            if self.entries[i].0 == handle {
                return Some(i);
            }
            i = i + 1;
        }
        None
    }

    /// Opens a stream under the next handle, and gives the handle.
    pub fn open(&mut self, entry: StreamEntry<F>) -> (handle: i32)
        requires
            old(self).wf(),
            old(self).next_handle_view() < i32::MAX,
        ensures
            final(self).wf(),
            handle == old(self).next_handle_view(),
            !old(self).is_open(handle),
            final(self).next_handle_view() == old(self).next_handle_view() + 1,
            final(self).entries_view() == old(self).entries_view().push((handle, entry)),
    {
        let handle = self.next_handle;
        self.next_handle = handle + 1;
        self.entries.push((handle, entry));
        handle
    }

    /// Whether another stream can be opened: the handle counter has not run
    /// out.
    pub fn has_handles_left(&self) -> (res: bool)
        ensures
            res == (self.next_handle_view() < i32::MAX),
    {
        self.next_handle < i32::MAX
    }
}

/// How a request for a virtual file starts.
pub enum VirtualFileStart {
    /// Hand over nothing: the session does not fetch items (iOS asks for them
    /// eagerly before the drag has begun).
    Nothing,
    /// The temporary file to receive the data could not be opened.
    Failed { message: String },
    /// Ask for the file, streaming it into the stream with this handle.
    Request { stream_handle: i32 },
}

/// The message for a temporary file that could not be opened.
pub open spec fn temp_file_error_message() -> Seq<char> {
    "Failed to open temporary file for writing"@
}

/// Starts a virtual file request of a session. Nothing is fetched when the
/// session does not fetch items; otherwise `entry` is where the data is to go,
/// a buffer in memory or a new temporary file, which the caller opens only
/// once the session fetches (`None` when the file could not be opened). The
/// entry becomes a stream under the next handle.
pub fn start_virtual_file<F>(
    entries: &mut StreamEntries<F>,
    should_fetch_items: bool,
    entry: Option<StreamEntry<F>>,
) -> (res: VirtualFileStart)
    requires
        old(entries).wf(),
        old(entries).next_handle_view() < i32::MAX,
    ensures
        final(entries).wf(),
        !should_fetch_items ==> res is Nothing && *final(entries) == *old(entries),
        should_fetch_items && entry is None ==> (res matches VirtualFileStart::Failed { message: m }
            && m@ == temp_file_error_message()) && *final(entries) == *old(entries),
        should_fetch_items && entry is Some ==> ({
            let h = old(entries).next_handle_view() as i32;
            &&& res == VirtualFileStart::Request { stream_handle: h }
            &&& !old(entries).is_open(h)
            &&& final(entries).next_handle_view() == old(entries).next_handle_view() + 1
            &&& final(entries).entries_view() == old(entries).entries_view().push((h, entry->Some_0))
        }),
{
    if !should_fetch_items {
        return VirtualFileStart::Nothing;
    }
    match entry {
        None => VirtualFileStart::Failed {
            message: String::from_str("Failed to open temporary file for writing"),
        },
        Some(e) => {
            let handle = entries.open(e);
            VirtualFileStart::Request { stream_handle: handle }
        },
    }
}

/// Writes `data` to the stream with handle `handle`. Memory streams keep the
/// data; file streams hand all of it to their file's `write_all`, once, and
/// record the chunk with the file's answer in `handed`. Gives 1 on success and
/// 0 when there is no such stream or the file did not take the data; what the
/// file does with the bytes is up to its `StreamFile` impl, which the caller
/// supplies.
pub fn platform_stream_write<F: StreamFile>(
    entries: &mut StreamEntries<F>,
    handle: i32,
    data: &[u8],
) -> (res: i32)
    requires
        old(entries).wf(),
    ensures
        final(entries).wf(),
        final(entries).next_handle_view() == old(entries).next_handle_view(),
        final(entries).entries_view().len() == old(entries).entries_view().len(),
        forall|i: int|
            0 <= i < old(entries).entries_view().len() ==> (#[trigger] final(entries).entries_view()[i]).0 == old(entries).entries_view()[i].0,
        !old(entries).is_open(handle) ==> res == 0 && final(entries).entries_view() == old(entries).entries_view(),
        forall|i: int|
            0 <= i < old(entries).entries_view().len() && (#[trigger] old(entries).entries_view()[i]).0 == handle ==> match old(entries).entries_view()[i].1 {
                StreamEntry::Memory { buffer } => res == 1 && (final(entries).entries_view()[i].1 matches StreamEntry::Memory { buffer: b } && b@ == buffer@ + data@),
                StreamEntry::File { path, handed, .. } => (res == 0 || res == 1) && (final(entries).entries_view()[i].1 matches StreamEntry::File { path: p, handed: h, .. } && p == path && h@ == handed@.push((data@, res == 1))),
            },
        forall|i: int|
            0 <= i < old(entries).entries_view().len() && (#[trigger] old(entries).entries_view()[i]).0 != handle ==> final(entries).entries_view()[i] == old(entries).entries_view()[i],
{
    match entries.find(handle) {
        None => 0,
        Some(index) => {
            let ghost before = entries.entries@;
            let (h, entry) = entries.entries.remove(index);
            let (res, entry) = match entry {
                StreamEntry::File { path, mut file, handed } => {
                    let ok = file.write_all(data);
                    let handed = Ghost(handed@.push((data@, ok)));
                    (if ok {
                        1i32
                    } else {
                        0i32
                    }, StreamEntry::File { path, file, handed })
                },
                StreamEntry::Memory { mut buffer } => {
                    let mut i: usize = 0;
                    let ghost b0 = buffer@;
                    while i < data.len()
                        invariant
                            i <= data@.len(),
                            buffer@ == b0 + data@.take(i as int),
                        decreases data@.len() - i,
                    {
                        buffer.push(data[i]);
                        proof {
                            assert(data@.take(i + 1) == data@.take(i as int).push(data@[i as int]));
                        }
                        i = i + 1;
                    }
                    proof {
                        assert(data@.take(data@.len() as int) == data@);
                    }
                    (1i32, StreamEntry::Memory { buffer })
                },
            };
            entries.entries.insert(index, (h, entry));
            proof {
                assert forall|a: int, b: int|
                    0 <= a < b < entries.entries@.len() implies (#[trigger] entries.entries@[a]).0
                    != (#[trigger] entries.entries@[b]).0 by {
                    assert(entries.entries@[a].0 == before[a].0);
                    assert(entries.entries@[b].0 == before[b].0);
                }
                assert forall|i: int|
                    0 <= i < before.len() && (#[trigger] before[i]).0 != handle implies entries.entries@[i]
                    == before[i] by {
                    assert(i != index);
                }
            }
            res
        },
    }
}

/// Closes the stream with handle `handle`. With `delete`, the stream is
/// forgotten and handed back (a file stream's file is then to be removed);
/// without, nothing changes.
pub fn platform_stream_close<F>(entries: &mut StreamEntries<F>, handle: i32, delete: bool) -> (res:
    Option<StreamEntry<F>>)
    requires
        old(entries).wf(),
    ensures
        final(entries).wf(),
        final(entries).next_handle_view() == old(entries).next_handle_view(),
        !delete ==> res is None && final(entries).entries_view() == old(entries).entries_view(),
        delete && !old(entries).is_open(handle) ==> res is None && final(entries).entries_view()
            == old(entries).entries_view(),
        delete && old(entries).is_open(handle) ==> exists|i: int|
            0 <= i < old(entries).entries_view().len() && (#[trigger] old(entries).entries_view()[i]).0 == handle && res == Some(old(entries).entries_view()[i].1)
                && final(entries).entries_view() == old(entries).entries_view().remove(i),
        !final(entries).is_open(handle) || !delete,
{
    if !delete {
        return None;
    }
    match entries.find(handle) {
        None => None,
        Some(index) => {
            let ghost before = entries.entries@;
            let (_, entry) = entries.entries.remove(index);
            proof {
                assert forall|a: int, b: int|
                    0 <= a < b < entries.entries@.len() implies (#[trigger] entries.entries@[a]).0
                    != (#[trigger] entries.entries@[b]).0 by {
                    let a0 = if a < index { a } else { a + 1 };
                    let b0 = if b < index { b } else { b + 1 };
                    assert(entries.entries@[a] == before[a0]);
                    assert(entries.entries@[b] == before[b0]);
                }
                assert(!entries.is_open(handle)) by {
                    if entries.is_open(handle) {
                        let j = choose|j: int| 0 <= j < entries.entries@.len() && (#[trigger] entries.entries@[j]).0 == handle;
                        let j0 = if j < index { j } else { j + 1 };
                        assert(entries.entries@[j] == before[j0]);
                    }
                }
            }
            Some(entry)
        },
    }
}

} // verus!
