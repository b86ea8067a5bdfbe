use vstd::prelude::*;

use crate::android::util::{path_segments, url_path_segments};
use crate::api_model::{DataProvider, DataProviderValueId, DataRepresentation};
use crate::registry::Registry;
use crate::value_promise::ValuePromiseResult;
use crate::decimal::{decimal, decimal_string, parse_i64, parsed_i64};
use crate::error::NativeExtensionsError;

verus! {

pub const MIME_TYPE_TEXT_PLAIN: &'static str = "text/plain";

pub const MIME_TYPE_TEXT_HTML: &'static str = "text/html";

pub const MIME_TYPE_URI_LIST: &'static str = "text/uri-list";

/// Virtual file streams are not backed by anything on Android: a write always
/// succeeds.
pub fn platform_stream_write(_handle: i32, _data: &[u8]) -> (res: i32)
    ensures
        res == 1,
{
    1
}

/// Closing a stream has nothing to release on Android.
pub fn platform_stream_close(_handle: i32, _delete: bool) {
}

/// One format of a representation, as the clip item sees it: the format, whether
/// the data is produced lazily, and which representation it comes from.
#[derive(Debug, Clone, PartialEq, Eq)]
pub struct ClipEntry {
    pub format: String,
    pub lazy: bool,
    pub source: usize,
}

/// Where the URI of a clip item comes from.
#[derive(Debug, Clone, Copy, PartialEq, Eq, Structural)]
pub enum ClipUri {
    /// The `text/uri-list` data of representation `source`.
    FromData(usize),
    /// The content provider URI of the data provider.
    ContentProvider,
}

/// What a clip item is made of: the plain text, the HTML text (each from a
/// representation) and the URI.
#[derive(Debug, Clone, Copy, PartialEq, Eq, Structural)]
pub struct ClipItemPlan {
    pub text: Option<usize>,
    pub text_html: Option<usize>,
    pub uri: Option<ClipUri>,
}

/// The plan before any entry.
pub open spec fn empty_plan() -> ClipItemPlan {
    ClipItemPlan { text: None, text_html: None, uri: None }
}

/// What one entry changes in the plan. Lazy data and formats other than plain
/// text, HTML and URI lists are served by the content provider; a URI list
/// gives the URI unless one was set before.
pub open spec fn plan_step(plan: ClipItemPlan, e: ClipEntry) -> ClipItemPlan {
    if e.lazy {
        ClipItemPlan { uri: Some(ClipUri::ContentProvider), ..plan }
    } else if e.format@ == MIME_TYPE_TEXT_PLAIN@ {
        ClipItemPlan { text: Some(e.source), ..plan }
    } else if e.format@ == MIME_TYPE_TEXT_HTML@ {
        ClipItemPlan { text_html: Some(e.source), ..plan }
    } else if e.format@ == MIME_TYPE_URI_LIST@ {
        if plan.uri is None {
            ClipItemPlan { uri: Some(ClipUri::FromData(e.source)), ..plan }
        } else {
            plan
        }
    } else {
        ClipItemPlan { uri: Some(ClipUri::ContentProvider), ..plan }
    }
}

/// The plan after the first `k` entries.
pub open spec fn plan_prefix(entries: Seq<ClipEntry>, k: int) -> ClipItemPlan
    decreases k,
{
    if k <= 0 {
        empty_plan()
    } else {
        plan_step(plan_prefix(entries, k - 1), entries[k - 1])
    }
}

/// `types` with `t` added at the end unless it is there already.
pub open spec fn add_type(types: Seq<Seq<char>>, t: Seq<char>) -> Seq<Seq<char>> {
    if types.contains(t) {
        types
    } else {
        types.push(t)
    }
}

/// The clip's types after the first `k` entries have added theirs to `types`.
pub open spec fn types_prefix(entries: Seq<ClipEntry>, k: int, types: Seq<Seq<char>>) -> Seq<
    Seq<char>,
>
    decreases k,
{
    if k <= 0 {
        types
    } else {
        add_type(types_prefix(entries, k - 1, types), entries[k - 1].format@)
    }
}

/// Adding the formats of the first `k` entries to the clip's types, each
/// unless there already, leaves no type twice and gives exactly the types there
/// were and those formats.
pub proof fn lemma_types_prefix(entries: Seq<ClipEntry>, k: int, types: Seq<Seq<char>>)
    requires
        types.no_duplicates(),
        0 <= k <= entries.len(),
    ensures
        types_prefix(entries, k, types).no_duplicates(),
        forall|t: Seq<char>|
            #[trigger] types_prefix(entries, k, types).contains(t) == (types.contains(t) || exists|j: int|
                0 <= j < k && (#[trigger] entries[j]).format@ == t),
    decreases k,
{
    if k > 0 {
        lemma_types_prefix(entries, k - 1, types);
        let prev = types_prefix(entries, k - 1, types);
        let f = entries[k - 1].format@;
        let next = types_prefix(entries, k, types);
        if !prev.contains(f) {
            assert forall|i: int, j: int| 0 <= i < j < next.len() implies next[i] != next[j] by {
                if j == next.len() - 1 {
                    assert(prev[i] == next[i]);
                }
            }
        }
        assert forall|u: Seq<char>|
            #[trigger] next.contains(u) == (types.contains(u) || exists|j: int| 0 <= j < k && (#[trigger] entries[j]).format@ == u) by {
            if next.contains(u) && !prev.contains(u) {
                let i = choose|i: int| 0 <= i < next.len() && #[trigger] next[i] == u;
                assert(entries[k - 1].format@ == u);
            }
            if prev.contains(u) {
                let i = choose|i: int| 0 <= i < prev.len() && #[trigger] prev[i] == u;
                assert(next[i] == u);
            }
            if exists|j: int| 0 <= j < k && (#[trigger] entries[j]).format@ == u {
                let j = choose|j: int| 0 <= j < k && (#[trigger] entries[j]).format@ == u;
                if j == k - 1 {
                    if !prev.contains(f) {
                        assert(next[prev.len() as int] == f);
                    }
                } else {
                    assert(prev.contains(u));
                }
            }
        }
    }
}

/// The message of the error for HTML text without a plain text fallback.
pub open spec fn missing_plain_text_message() -> Seq<char> {
    "You must provide plain text fallback for HTML clipboard text"@
}

/// The outcome of planning a clip item from `entries`: HTML without plain text
/// is refused (`Err`), a plan with nothing in it makes no item.
pub open spec fn clip_item_outcome(entries: Seq<ClipEntry>) -> Result<Option<ClipItemPlan>, ()> {
    let plan = plan_prefix(entries, entries.len() as int);
    if plan.text is None && plan.text_html is Some {
        Err(())
    } else if plan.text is Some || plan.text_html is Some || plan.uri is Some {
        Ok(Some(plan))
    } else {
        Ok(None)
    }
}

/// The entries of a data provider: one per simple or lazy representation, in
/// order; virtual files have none.
pub open spec fn provider_entries<V>(reprs: Seq<DataRepresentation<V>>) -> Seq<(Seq<char>, bool)>
    decreases reprs.len(),
{
    if reprs.len() == 0 {
        Seq::empty()
    } else {
        let rest = provider_entries(reprs.drop_last());
        match reprs.last() {
            DataRepresentation::Simple { format, .. } => rest.push((format@, false)),
            DataRepresentation::Lazy { format, .. } => rest.push((format@, true)),
            DataRepresentation::VirtualFile { .. } => rest,
        }
    }
}

/// The entries of a data provider's representations, for `plan_clip_item`.
pub fn clip_entries_for_provider<V>(reprs: &Vec<DataRepresentation<V>>) -> (res: Vec<ClipEntry>)
    ensures
        res@.map_values(|e: ClipEntry| (e.format@, e.lazy)) == provider_entries(reprs@),
        forall|i: int|
            0 <= i < res@.len() ==> (#[trigger] res@[i]).source < reprs@.len()
                && representation_format_of(reprs@[res@[i].source as int]) == res@[i].format@,
{
    let mut res: Vec<ClipEntry> = Vec::new();
    let mut i: usize = 0;
    while i < reprs.len()
        invariant
            i <= reprs@.len(),
            res@.map_values(|e: ClipEntry| (e.format@, e.lazy)) == provider_entries(
                reprs@.take(i as int),
            ),
            forall|j: int|
                0 <= j < res@.len() ==> (#[trigger] res@[j]).source < i
                    && representation_format_of(reprs@[res@[j].source as int]) == res@[j].format@,
        decreases reprs@.len() - i,
    {
        let ghost before = res@;
        proof {
            assert(reprs@.take(i + 1).drop_last() == reprs@.take(i as int));
            assert(reprs@.take(i + 1).last() == reprs@[i as int]);
        }
        match &reprs[i] {
            DataRepresentation::Simple { format, .. } => {
                res.push(ClipEntry { format: format.clone(), lazy: false, source: i });
                assert(res@.map_values(|e: ClipEntry| (e.format@, e.lazy)) == before.map_values(
                    |e: ClipEntry| (e.format@, e.lazy),
                ).push((format@, false)));
            },
            DataRepresentation::Lazy { format, .. } => {
                res.push(ClipEntry { format: format.clone(), lazy: true, source: i });
                assert(res@.map_values(|e: ClipEntry| (e.format@, e.lazy)) == before.map_values(
                    |e: ClipEntry| (e.format@, e.lazy),
                ).push((format@, true)));
            },
            DataRepresentation::VirtualFile { .. } => {},
        }
        i = i + 1;
    }
    proof {
        assert(reprs@.take(reprs@.len() as int) == reprs@);
    }
    res
}

/// Entry `e` is served through the content provider URI: its data is lazy, or
/// its format is none of plain text, HTML and URI lists.
pub open spec fn served_by_provider(e: ClipEntry) -> bool {
    e.lazy || !(e.format@ == "text/plain"@ || e.format@ == "text/html"@ || e.format@ == "text/uri-list"@)
}

/// Entry `e` holds data given up front in format `format`.
pub open spec fn eager_entry_of(e: ClipEntry, format: Seq<char>) -> bool {
    !e.lazy && e.format@ == format
}

/// The three formats differ from each other.
proof fn lemma_mime_literals()
    ensures
        MIME_TYPE_TEXT_PLAIN@ == "text/plain"@,
        MIME_TYPE_TEXT_HTML@ == "text/html"@,
        MIME_TYPE_URI_LIST@ == "text/uri-list"@,
        "text/html"@ != "text/plain"@,
        "text/uri-list"@ != "text/plain"@,
        "text/uri-list"@ != "text/html"@,
{
    reveal_strlit("text/plain");
    reveal_strlit("text/html");
    reveal_strlit("text/uri-list");
    assert("text/plain"@.len() == 10 && "text/html"@.len() == 9 && "text/uri-list"@.len() == 13);
}

/// What one entry does to the plan, by the kind of entry.
proof fn lemma_plan_step(p0: ClipItemPlan, e: ClipEntry)
    ensures
        ({
            let p = plan_step(p0, e);
            &&& served_by_provider(e) ==> p.uri == Some(ClipUri::ContentProvider) && p.text == p0.text && p.text_html == p0.text_html
            &&& eager_entry_of(e, "text/plain"@) ==> p.uri == p0.uri && p.text == Some(e.source) && p.text_html == p0.text_html
            &&& eager_entry_of(e, "text/html"@) ==> p.uri == p0.uri && p.text == p0.text && p.text_html == Some(e.source)
            &&& eager_entry_of(e, "text/uri-list"@) ==> p.text == p0.text && p.text_html == p0.text_html && p.uri == (if p0.uri is None {
                Some(ClipUri::FromData(e.source))
            } else {
                p0.uri
            })
            &&& served_by_provider(e) || eager_entry_of(e, "text/plain"@) || eager_entry_of(e, "text/html"@)
                || eager_entry_of(e, "text/uri-list"@)
        }),
{
    lemma_mime_literals();
}

/// The URI is the content provider's exactly when some entry is served
/// through it.
pub proof fn lemma_plan_uri_provider(entries: Seq<ClipEntry>, k: int)
    requires
        0 <= k <= entries.len(),
    ensures
        (plan_prefix(entries, k).uri == Some(ClipUri::ContentProvider)) ==> (exists|j: int|
            0 <= j < k && #[trigger] served_by_provider(entries[j])),
        (exists|j: int| 0 <= j < k && #[trigger] served_by_provider(entries[j])) ==> (plan_prefix(entries, k).uri
            == Some(ClipUri::ContentProvider)),
    decreases k,
{
    if k > 0 {
        lemma_plan_uri_provider(entries, k - 1);
        lemma_plan_step(plan_prefix(entries, k - 1), entries[k - 1]);
        if served_by_provider(entries[k - 1]) {
            assert(served_by_provider(entries[k - 1]));
        } else if exists|j: int| 0 <= j < k && #[trigger] served_by_provider(entries[j]) {
            let j = choose|j: int| 0 <= j < k && #[trigger] served_by_provider(entries[j]);
            assert(j < k - 1);
        }
    }
}

/// There is no URI exactly when no entry is served through the content
/// provider and none is a URI list given up front.
pub proof fn lemma_plan_uri_none(entries: Seq<ClipEntry>, k: int)
    requires
        0 <= k <= entries.len(),
    ensures
        (plan_prefix(entries, k).uri is None) ==> ((forall|j: int| 0 <= j < k ==> !#[trigger] served_by_provider(entries[j])) && (forall|j: int|
            0 <= j < k ==> !#[trigger] eager_entry_of(entries[j], "text/uri-list"@))),
        ((forall|j: int| 0 <= j < k ==> !#[trigger] served_by_provider(entries[j])) && (forall|j: int|
            0 <= j < k ==> !#[trigger] eager_entry_of(entries[j], "text/uri-list"@)))
            ==> (plan_prefix(entries, k).uri is None),
    decreases k,
{
    if k > 0 {
        lemma_plan_uri_none(entries, k - 1);
        let e = entries[k - 1];
        lemma_plan_step(plan_prefix(entries, k - 1), e);
        if plan_prefix(entries, k).uri is None {
            assert(!served_by_provider(e) && !eager_entry_of(e, "text/uri-list"@));
            assert(plan_prefix(entries, k - 1).uri is None);
            assert forall|j: int| 0 <= j < k implies !served_by_provider(entries[j]) && !eager_entry_of(entries[j], "text/uri-list"@) by {
                if j < k - 1 {
                    assert(!served_by_provider(entries[j]) && !eager_entry_of(entries[j], "text/uri-list"@));
                }
            }
        }
        if (forall|j: int| 0 <= j < k ==> !#[trigger] served_by_provider(entries[j])) && (forall|j: int|
            0 <= j < k ==> !#[trigger] eager_entry_of(entries[j], "text/uri-list"@)) {
            assert(!served_by_provider(entries[k - 1]) && !eager_entry_of(entries[k - 1], "text/uri-list"@));
            assert forall|j: int| 0 <= j < k - 1 implies !served_by_provider(entries[j]) && !eager_entry_of(entries[j], "text/uri-list"@) by {
                assert(!served_by_provider(entries[j]) && !eager_entry_of(entries[j], "text/uri-list"@));
            }
        }
    }
}

/// The URI comes from the data of a URI list exactly when no entry is served
/// through the content provider, and then from the first URI list given up
/// front.
pub proof fn lemma_plan_uri_from_data(entries: Seq<ClipEntry>, k: int, src: usize)
    requires
        0 <= k <= entries.len(),
    ensures
        (plan_prefix(entries, k).uri == Some(ClipUri::FromData(src))) ==> ((forall|j: int|
            0 <= j < k ==> !#[trigger] served_by_provider(entries[j])) && exists|f: int|
            0 <= f < k && #[trigger] eager_entry_of(entries[f], "text/uri-list"@) && entries[f].source == src
                && forall|j: int| 0 <= j < f ==> !#[trigger] eager_entry_of(entries[j], "text/uri-list"@)),
        ((forall|j: int| 0 <= j < k ==> !#[trigger] served_by_provider(entries[j])) && exists|f: int|
            0 <= f < k && #[trigger] eager_entry_of(entries[f], "text/uri-list"@) && entries[f].source == src
                && forall|j: int| 0 <= j < f ==> !#[trigger] eager_entry_of(entries[j], "text/uri-list"@))
            ==> (plan_prefix(entries, k).uri == Some(ClipUri::FromData(src))),
    decreases k,
{
    if k > 0 {
        lemma_plan_uri_from_data(entries, k - 1, src);
        lemma_plan_uri_none(entries, k - 1);
        let p0 = plan_prefix(entries, k - 1);
        let p = plan_prefix(entries, k);
        let e = entries[k - 1];
        lemma_plan_step(p0, e);
        if p.uri == Some(ClipUri::FromData(src)) {
            assert(!served_by_provider(e));
            if p0.uri == Some(ClipUri::FromData(src)) {
                let f = choose|f: int| 0 <= f < k - 1 && #[trigger] eager_entry_of(entries[f], "text/uri-list"@)
                    && entries[f].source == src && forall|j: int| 0 <= j < f ==> !#[trigger] eager_entry_of(entries[j], "text/uri-list"@);
                assert(eager_entry_of(entries[f], "text/uri-list"@));
                assert forall|j: int| 0 <= j < k implies !#[trigger] served_by_provider(entries[j]) by {
                    if j < k - 1 {
                        assert(!served_by_provider(entries[j]));
                    }
                }
            } else {
                assert(eager_entry_of(e, "text/uri-list"@) && p0.uri is None && e.source == src);
                assert(eager_entry_of(entries[k - 1], "text/uri-list"@));
                assert forall|j: int| 0 <= j < k implies !#[trigger] served_by_provider(entries[j]) by {
                    if j < k - 1 {
                        assert(!served_by_provider(entries[j]) && !eager_entry_of(entries[j], "text/uri-list"@));
                    }
                }
                assert forall|j: int| 0 <= j < k - 1 implies !#[trigger] eager_entry_of(entries[j], "text/uri-list"@) by {
                    assert(!served_by_provider(entries[j]) && !eager_entry_of(entries[j], "text/uri-list"@));
                }
            }
        }
        if (forall|j: int| 0 <= j < k ==> !#[trigger] served_by_provider(entries[j])) && exists|f: int|
            0 <= f < k && #[trigger] eager_entry_of(entries[f], "text/uri-list"@) && entries[f].source == src
                && forall|j: int| 0 <= j < f ==> !#[trigger] eager_entry_of(entries[j], "text/uri-list"@) {
            let f = choose|f: int| 0 <= f < k && #[trigger] eager_entry_of(entries[f], "text/uri-list"@)
                && entries[f].source == src && forall|j: int| 0 <= j < f ==> !#[trigger] eager_entry_of(entries[j], "text/uri-list"@);
            assert(!served_by_provider(entries[k - 1]));
            assert forall|j: int| 0 <= j < k - 1 implies !#[trigger] served_by_provider(entries[j]) by {
                assert(!served_by_provider(entries[j]));
            }
            if f < k - 1 {
                assert(eager_entry_of(entries[f], "text/uri-list"@));
                assert(p0.uri == Some(ClipUri::FromData(src)));
            } else {
                assert forall|j: int| 0 <= j < k - 1 implies !served_by_provider(entries[j]) && !eager_entry_of(entries[j], "text/uri-list"@) by {
                    assert(!served_by_provider(entries[j]));
                    assert(!eager_entry_of(entries[j], "text/uri-list"@));
                }
                assert(p0.uri is None);
            }
        }
    }
}

/// The plain text comes from the last plain text entry given up front, and
/// there is none exactly when there is no such entry; likewise the HTML text.
pub proof fn lemma_plan_texts(entries: Seq<ClipEntry>, k: int, src: usize)
    requires
        0 <= k <= entries.len(),
    ensures
        (plan_prefix(entries, k).text == Some(src)) ==> exists|f: int|
            0 <= f < k && #[trigger] eager_entry_of(entries[f], "text/plain"@) && entries[f].source == src
                && forall|j: int| f < j < k ==> !#[trigger] eager_entry_of(entries[j], "text/plain"@),
        (exists|f: int|
            0 <= f < k && #[trigger] eager_entry_of(entries[f], "text/plain"@) && entries[f].source == src
                && forall|j: int| f < j < k ==> !#[trigger] eager_entry_of(entries[j], "text/plain"@)) ==> (plan_prefix(entries, k).text == Some(src)),
        (plan_prefix(entries, k).text is None) ==> (forall|j: int| 0 <= j < k ==> !#[trigger] eager_entry_of(entries[j], "text/plain"@)),
        (forall|j: int| 0 <= j < k ==> !#[trigger] eager_entry_of(entries[j], "text/plain"@)) ==> (plan_prefix(entries, k).text is None),
        (plan_prefix(entries, k).text_html == Some(src)) ==> exists|f: int|
            0 <= f < k && #[trigger] eager_entry_of(entries[f], "text/html"@) && entries[f].source == src
                && forall|j: int| f < j < k ==> !#[trigger] eager_entry_of(entries[j], "text/html"@),
        (exists|f: int|
            0 <= f < k && #[trigger] eager_entry_of(entries[f], "text/html"@) && entries[f].source == src
                && forall|j: int| f < j < k ==> !#[trigger] eager_entry_of(entries[j], "text/html"@)) ==> (plan_prefix(entries, k).text_html == Some(src)),
        (plan_prefix(entries, k).text_html is None) ==> (forall|j: int| 0 <= j < k ==> !#[trigger] eager_entry_of(entries[j], "text/html"@)),
        (forall|j: int| 0 <= j < k ==> !#[trigger] eager_entry_of(entries[j], "text/html"@)) ==> (plan_prefix(entries, k).text_html is None),
    decreases k,
{
    if k > 0 {
        lemma_plan_texts(entries, k - 1, src);
        let p0 = plan_prefix(entries, k - 1);
        let p = plan_prefix(entries, k);
        let e = entries[k - 1];
        lemma_plan_step(p0, e);
        lemma_mime_literals();
        let plain = eager_entry_of(e, "text/plain"@);
        let html = eager_entry_of(e, "text/html"@);
        if plain {
            assert(eager_entry_of(entries[k - 1], "text/plain"@));
            assert(!html);
        } else {
            assert(p.text == p0.text);
            if p0.text == Some(src) {
                let f = choose|f: int| 0 <= f < k - 1 && #[trigger] eager_entry_of(entries[f], "text/plain"@)
                    && entries[f].source == src && forall|j: int| f < j < k - 1 ==> !#[trigger] eager_entry_of(entries[j], "text/plain"@);
                assert(eager_entry_of(entries[f], "text/plain"@));
            }
            if exists|f: int| 0 <= f < k && #[trigger] eager_entry_of(entries[f], "text/plain"@) && entries[f].source == src
                && forall|j: int| f < j < k ==> !#[trigger] eager_entry_of(entries[j], "text/plain"@) {
                let f = choose|f: int| 0 <= f < k && #[trigger] eager_entry_of(entries[f], "text/plain"@)
                    && entries[f].source == src && forall|j: int| f < j < k ==> !#[trigger] eager_entry_of(entries[j], "text/plain"@);
                assert(f < k - 1);
                assert(eager_entry_of(entries[f], "text/plain"@));
            }
        }
        if html {
            assert(eager_entry_of(entries[k - 1], "text/html"@));
        } else {
            assert(p.text_html == p0.text_html);
            if p0.text_html == Some(src) {
                let f = choose|f: int| 0 <= f < k - 1 && #[trigger] eager_entry_of(entries[f], "text/html"@)
                    && entries[f].source == src && forall|j: int| f < j < k - 1 ==> !#[trigger] eager_entry_of(entries[j], "text/html"@);
                assert(eager_entry_of(entries[f], "text/html"@));
            }
            if exists|f: int| 0 <= f < k && #[trigger] eager_entry_of(entries[f], "text/html"@) && entries[f].source == src
                && forall|j: int| f < j < k ==> !#[trigger] eager_entry_of(entries[j], "text/html"@) {
                let f = choose|f: int| 0 <= f < k && #[trigger] eager_entry_of(entries[f], "text/html"@)
                    && entries[f].source == src && forall|j: int| f < j < k ==> !#[trigger] eager_entry_of(entries[j], "text/html"@);
                assert(f < k - 1);
                assert(eager_entry_of(entries[f], "text/html"@));
            }
        }
    }
}

/// The format of a representation, as a string.
pub open spec fn representation_format_of<V>(r: DataRepresentation<V>) -> Seq<char> {
    crate::api_model::representation_format(r)
}

/// Plans the clip item for one data provider (or data source item): which
/// representation gives the plain text, which the HTML text, where the URI
/// comes from. Adds the entries' formats to the clip's types, each once.
pub fn plan_clip_item(entries: &Vec<ClipEntry>, clip_types: &mut Vec<String>) -> (res: Result<
    Option<ClipItemPlan>,
    NativeExtensionsError,
>)
    ensures
        final(clip_types).deep_view() == types_prefix(
            entries@,
            entries@.len() as int,
            old(clip_types).deep_view(),
        ),
        match res {
            Ok(item) => clip_item_outcome(entries@) == Ok::<Option<ClipItemPlan>, ()>(item),
            Err(e) => clip_item_outcome(entries@) is Err && (e matches NativeExtensionsError::OtherError(
                m,
            ) && m@ == missing_plain_text_message()),
        },
        old(clip_types).deep_view().no_duplicates() ==> final(clip_types).deep_view().no_duplicates(),
        old(clip_types).deep_view().no_duplicates() ==> forall|t: Seq<char>|
            #[trigger] final(clip_types).deep_view().contains(t) == (old(clip_types).deep_view().contains(t) || exists|j: int|
                0 <= j < entries@.len() && (#[trigger] entries@[j]).format@ == t),
        res matches Ok(Some(p)) ==> ((p.uri == Some(ClipUri::ContentProvider)) == (exists|j: int|
            0 <= j < entries@.len() && #[trigger] served_by_provider(entries@[j]))),
        res matches Ok(Some(p)) ==> (p.uri matches Some(ClipUri::FromData(src)) ==> exists|f: int|
            0 <= f < entries@.len() && #[trigger] eager_entry_of(entries@[f], "text/uri-list"@) && entries@[f].source == src
                && forall|j: int| 0 <= j < f ==> !#[trigger] eager_entry_of(entries@[j], "text/uri-list"@)),
{
    proof {
        if old(clip_types).deep_view().no_duplicates() {
            lemma_types_prefix(entries@, entries@.len() as int, old(clip_types).deep_view());
        }
        lemma_plan_uri_provider(entries@, entries@.len() as int);
        match plan_prefix(entries@, entries@.len() as int).uri {
            Some(ClipUri::FromData(src)) => {
                lemma_plan_uri_from_data(entries@, entries@.len() as int, src);
            },
            _ => {},
        }
    }
    let plain = String::from_str(MIME_TYPE_TEXT_PLAIN);
    let html = String::from_str(MIME_TYPE_TEXT_HTML);
    let uri_list = String::from_str(MIME_TYPE_URI_LIST);
    let mut plan = ClipItemPlan { text: None, text_html: None, uri: None };
    let mut i: usize = 0;
    while i < entries.len()
        invariant
            i <= entries@.len(),
            plain@ == MIME_TYPE_TEXT_PLAIN@,
            html@ == MIME_TYPE_TEXT_HTML@,
            uri_list@ == MIME_TYPE_URI_LIST@,
            plan == plan_prefix(entries@, i as int),
            clip_types.deep_view() == types_prefix(entries@, i as int, old(clip_types).deep_view()),
        decreases entries@.len() - i,
    {
        let e = &entries[i];
        if e.lazy {
            plan = ClipItemPlan { uri: Some(ClipUri::ContentProvider), ..plan };
        } else if e.format == plain {
            plan = ClipItemPlan { text: Some(e.source), ..plan };
        } else if e.format == html {
            plan = ClipItemPlan { text_html: Some(e.source), ..plan };
        } else if e.format == uri_list {
            if plan.uri.is_none() {
                plan = ClipItemPlan { uri: Some(ClipUri::FromData(e.source)), ..plan };
            }
        } else {
            plan = ClipItemPlan { uri: Some(ClipUri::ContentProvider), ..plan };
        }
        let ghost before = clip_types.deep_view();
        let present = crate::android::util::contains(clip_types.as_slice(), e.format.as_str());
        proof {
            if before.contains(e.format@) {
                let j = choose|j: int| 0 <= j < before.len() && before[j] == e.format@;
                assert(clip_types@[j]@ == e.format@);
            }
            if present {
                let j = choose|j: int| 0 <= j < clip_types@.len() && (#[trigger] clip_types@[j])@ == e.format@;
                assert(before[j] == e.format@);
            }
        }
        if !present {
            clip_types.push(e.format.clone());
            proof {
                assert(clip_types.deep_view() =~= before.push(e.format@));
            }
        }
        i = i + 1;
    }
    if plan.text.is_none() && plan.text_html.is_some() {
        return Err(
            NativeExtensionsError::OtherError(
                String::from_str("You must provide plain text fallback for HTML clipboard text"),
            ),
        );
    }
    if plan.text.is_some() || plan.text_html.is_some() || plan.uri.is_some() {
        Ok(Some(plan))
    } else {
        Ok(None)
    }
}

/// Representation `i` holds data (simple or lazy) of `format`.
pub open spec fn data_of_format_at<V>(reprs: Seq<DataRepresentation<V>>, format: Seq<char>, i: int) -> bool {
    0 <= i < reprs.len() && !(reprs[i] is VirtualFile) && representation_format_of(reprs[i]) == format
}

/// The index of the first simple or lazy representation of `format`.
pub open spec fn first_data_index<V>(reprs: Seq<DataRepresentation<V>>, format: Seq<char>) -> Option<int> {
    if exists|i: int| #[trigger] data_of_format_at(reprs, format, i) {
        let i = choose|i: int| #[trigger] data_of_format_at(reprs, format, i) && forall|j: int|
            0 <= j < i ==> !data_of_format_at(reprs, format, j);
        Some(i)
    } else {
        None
    }
}

/// The first index that holds data of `format` is the one that
/// `first_data_index` gives.
proof fn lemma_first_data_index<V>(reprs: Seq<DataRepresentation<V>>, format: Seq<char>, i: int)
    requires
        data_of_format_at(reprs, format, i),
        forall|j: int| 0 <= j < i ==> !data_of_format_at(reprs, format, j),
    ensures
        first_data_index(reprs, format) == Some(i),
{
    let c = choose|c: int| #[trigger] data_of_format_at(reprs, format, c) && forall|j: int|
        0 <= j < c ==> !data_of_format_at(reprs, format, j);
    assert(data_of_format_at(reprs, format, c) && forall|j: int| 0 <= j < c ==> !data_of_format_at(reprs, format, j));
    if c < i {
        assert(!data_of_format_at(reprs, format, c));
    }
    if c > i {
        assert(!data_of_format_at(reprs, format, i));
    }
}

/// The clip's types after the first `p` providers added theirs.
pub open spec fn types_after_providers(providers: Seq<Vec<ClipEntry>>, p: int) -> Seq<Seq<char>>
    decreases p,
{
    if p <= 0 {
        Seq::empty()
    } else {
        types_prefix(providers[p - 1]@, providers[p - 1]@.len() as int, types_after_providers(providers, p - 1))
    }
}

/// Plans the clip items of a clip for several data providers (or data source
/// items), in order: each provider that gives something makes an item (with
/// the provider's index), the clip's types gather all their formats once. The
/// first refusal stops the plan.
pub fn plan_clip_items(providers: &Vec<Vec<ClipEntry>>) -> (res: Result<
    (Vec<(usize, ClipItemPlan)>, Vec<String>),
    NativeExtensionsError,
>)
    ensures
        match res {
            Ok((items, types)) => {
                &&& types.deep_view() == types_after_providers(providers@, providers@.len() as int)
                &&& forall|p: int| 0 <= p < providers@.len() ==> clip_item_outcome(#[trigger] providers@[p]@) is Ok
                &&& forall|k: int| 0 <= k < items@.len() ==> (#[trigger] items@[k]).0 < providers@.len()
                    && clip_item_outcome(providers@[items@[k].0 as int]@) == Ok::<Option<ClipItemPlan>, ()>(Some(items@[k].1))
                &&& forall|k1: int, k2: int| 0 <= k1 < k2 < items@.len() ==> (#[trigger] items@[k1]).0 < (#[trigger] items@[k2]).0
                &&& forall|p: int| 0 <= p < providers@.len() && clip_item_outcome(#[trigger] providers@[p]@) != Ok::<Option<ClipItemPlan>, ()>(None)
                    ==> exists|k: int| 0 <= k < items@.len() && items@[k].0 == p
            },
            Err(e) => (exists|p: int| 0 <= p < providers@.len() && clip_item_outcome(#[trigger] providers@[p]@) is Err)
                && (e matches NativeExtensionsError::OtherError(m) && m@ == missing_plain_text_message()),
        },
{
    let mut types: Vec<String> = Vec::new();
    let mut items: Vec<(usize, ClipItemPlan)> = Vec::new();
    let mut p: usize = 0;
    while p < providers.len()
        invariant
            p <= providers@.len(),
            types.deep_view() == types_after_providers(providers@, p as int),
            forall|q: int| 0 <= q < p ==> clip_item_outcome(#[trigger] providers@[q]@) is Ok,
            forall|k: int| 0 <= k < items@.len() ==> (#[trigger] items@[k]).0 < p
                && clip_item_outcome(providers@[items@[k].0 as int]@) == Ok::<Option<ClipItemPlan>, ()>(Some(items@[k].1)),
            forall|k1: int, k2: int| 0 <= k1 < k2 < items@.len() ==> (#[trigger] items@[k1]).0 < (#[trigger] items@[k2]).0,
            forall|q: int| 0 <= q < p && clip_item_outcome(#[trigger] providers@[q]@) != Ok::<Option<ClipItemPlan>, ()>(None)
                ==> exists|k: int| 0 <= k < items@.len() && items@[k].0 == q,
        decreases providers@.len() - p,
    {
        match plan_clip_item(&providers[p], &mut types) {
            Ok(Some(plan)) => {
                let ghost before = items@;
                items.push((p, plan));
                proof {
                    assert forall|q: int| 0 <= q < p + 1 && clip_item_outcome(#[trigger] providers@[q]@) != Ok::<Option<ClipItemPlan>, ()>(None)
                        implies exists|k: int| 0 <= k < items@.len() && items@[k].0 == q by {
                        if q < p {
                            let k = choose|k: int| 0 <= k < before.len() && before[k].0 == q;
                            assert(items@[k].0 == q);
                        } else {
                            assert(items@[items@.len() - 1].0 == q);
                        }
                    }
                }
            },
            Ok(None) => {},
            Err(e) => {
                return Err(e);
            },
        }
        p = p + 1;
    }
    Ok((items, types))
}

/// The index of the first simple or lazy representation whose format is
/// `format`: the one whose data a content URI request for that type is served
/// from.
pub fn find_data_for_mime<V>(reprs: &Vec<DataRepresentation<V>>, format: &String) -> (res:
    Option<usize>)
    ensures
        match res {
            Some(i) => i < reprs@.len() && !(reprs@[i as int] is VirtualFile)
                && representation_format_of(reprs@[i as int]) == format@ && forall|j: int|
                0 <= j < i ==> (#[trigger] reprs@[j]) is VirtualFile || representation_format_of(
                reprs@[j],
            ) != format@,
            None => forall|j: int|
                0 <= j < reprs@.len() ==> (#[trigger] reprs@[j]) is VirtualFile
                    || representation_format_of(reprs@[j]) != format@,
        },
        res matches Some(i) ==> first_data_index(reprs@, format@) == Some(i as int),
        res is None ==> first_data_index(reprs@, format@) is None,
{
    let mut i: usize = 0;
    while i < reprs.len()
        invariant
            i <= reprs@.len(),
            forall|j: int|
                0 <= j < i ==> (#[trigger] reprs@[j]) is VirtualFile || representation_format_of(
                    reprs@[j],
                ) != format@,
            forall|j: int| 0 <= j < i ==> !data_of_format_at(reprs@, format@, j),
        decreases reprs@.len() - i,
    {
        match &reprs[i] {
            DataRepresentation::Simple { format: f, .. } => {
                if *f == *format {
                    proof {
                        lemma_first_data_index(reprs@, format@, i as int);
                    }
                    return Some(i);
                }
            },
            DataRepresentation::Lazy { format: f, .. } => {
                if *f == *format {
                    proof {
                        lemma_first_data_index(reprs@, format@, i as int);
                    }
                    return Some(i);
                }
            },
            DataRepresentation::VirtualFile { .. } => {},
        }
        i = i + 1;
    }
    proof {
        if exists|k: int| #[trigger] data_of_format_at(reprs@, format@, k) {
            let k = choose|k: int| #[trigger] data_of_format_at(reprs@, format@, k);
            assert(reprs@[k] is VirtualFile || representation_format_of(reprs@[k]) != format@);
        }
    }
    None
}

/// The content URI under which the data of provider `id` of app `package` is
/// served.
pub open spec fn content_provider_uri_text(package: Seq<char>, id: i64) -> Seq<char> {
    "content://"@ + package + ".SuperClipboardDataProvider/"@ + decimal(id as int)
}

/// The content URI under which the data of provider `id` of app `package` is
/// served.
pub fn content_provider_uri(package: &String, id: i64) -> (res: String)
    ensures
        res@ == content_provider_uri_text(package@, id),
{
    let mut res = String::from_str("content://");
    res.append(package.as_str());
    res.append(".SuperClipboardDataProvider/");
    let digits = decimal_string(id);
    res.append(digits.as_str());
    res
}

/// What a content URI names: the data provider.
#[derive(Debug, Clone, Copy, PartialEq, Eq)]
pub struct UriInfo {
    pub data_provider_id: i64,
}

/// The provider that a content URI names: its first path segment, read as a
/// number.
pub open spec fn uri_info_of(uri: Seq<char>) -> Option<i64> {
    match url_path_segments(uri) {
        Some(segments) => if segments.len() > 0 {
            parsed_i64(segments[0])
        } else {
            None
        },
        None => None,
    }
}

impl UriInfo {
    /// Reads the provider id out of a content URI.
    pub fn parse(uri: &str) -> (res: Option<UriInfo>)
        ensures
            match res {
                Some(info) => uri_info_of(uri@) == Some(info.data_provider_id),
                None => uri_info_of(uri@) is None,
            },
    {
        let segments = path_segments(uri);
        match segments {
            Some(segments) => {
                if segments.len() == 0 {
                    return None;
                }
                match parse_i64(segments[0].as_str()) {
                    Some(id) => Some(UriInfo { data_provider_id: id }),
                    None => None,
                }
            },
            None => None,
        }
    }
}

/// What a read of a content URI in one type comes to, before a lazy value is
/// fetched.
pub enum UriRead<'a, V> {
    /// There is nothing to give: the provider is gone, or it has no simple or
    /// lazy representation of that type.
    NoData,
    /// The data of a simple representation.
    Data(&'a V),
    /// A lazy value, to be asked of the isolate that registered the provider.
    Lazy { isolate: i64, id: DataProviderValueId },
}

/// The error for a URI that names no provider.
pub open spec fn is_malformed_uri_error(e: NativeExtensionsError) -> bool {
    e matches NativeExtensionsError::OtherError(m) && m@ == "Malformed URI"@
}

/// Serves a read of `uri` in type `mime` from the registered providers (id to
/// the isolate that registered it and its data): an unreadable URI is an
/// error; a provider that is gone gives nothing; else the first simple or lazy
/// representation of the type decides, and without one there is nothing.
pub fn data_for_uri<'a, V>(
    providers: &'a Registry<DataProvider<V>>,
    uri: &str,
    mime: &String,
) -> (res: Result<UriRead<'a, V>, NativeExtensionsError>)
    ensures
        uri_info_of(uri@) is None ==> (res matches Err(e) && is_malformed_uri_error(e)),
        uri_info_of(uri@) matches Some(id) ==> ({
            &&& res is Ok
            &&& !providers@.contains_key(id) ==> (res matches Ok(UriRead::NoData))
            &&& providers@.contains_key(id) ==> {
                let reprs = providers@[id].1.representations@;
                match first_data_index(reprs, mime@) {
                    None => (res matches Ok(UriRead::NoData)),
                    Some(i) => match reprs[i] {
                        DataRepresentation::Simple { data, .. } => (res matches Ok(UriRead::Data(d))
                            && *d == data),
                        DataRepresentation::Lazy { id: value_id, .. } => (res matches Ok(
                            UriRead::Lazy { isolate, id: v },
                        ) && isolate == providers@[id].0 && v == value_id),
                        DataRepresentation::VirtualFile { .. } => false,
                    },
                }
            }
        }),
{
    let info = match UriInfo::parse(uri) {
        Some(info) => info,
        None => {
            return Err(NativeExtensionsError::OtherError(String::from_str("Malformed URI")));
        },
    };
    let entry = match providers.get(info.data_provider_id) {
        Some(entry) => entry,
        None => {
            return Ok(UriRead::NoData);
        },
    };
    let reprs = &entry.1.representations;
    match find_data_for_mime(reprs, mime) {
        None => Ok(UriRead::NoData),
        Some(i) => match &reprs[i] {
            DataRepresentation::Simple { data, .. } => Ok(UriRead::Data(data)),
            DataRepresentation::Lazy { id, .. } => Ok(UriRead::Lazy { isolate: entry.0, id: *id }),
            DataRepresentation::VirtualFile { .. } => Ok(UriRead::NoData),
        },
    }
}

/// The data of a lazy value, once asked for: nothing when the isolate's side
/// is gone (`None`) or the value was cancelled.
pub fn lazy_uri_data<V>(fetched: Option<ValuePromiseResult<V>>) -> (res: Option<V>)
    ensures
        match fetched {
            Some(ValuePromiseResult::Value { value }) => res == Some(value),
            _ => res is None,
        },
{
    match fetched {
        Some(ValuePromiseResult::Value { value }) => Some(value),
        _ => None,
    }
}

/// The formats of the simple and lazy representations among `reprs`, in
/// order: the types a content URI of the provider can be read in.
pub open spec fn readable_formats<V>(reprs: Seq<DataRepresentation<V>>) -> Seq<Seq<char>>
    decreases reprs.len(),
{
    if reprs.len() == 0 {
        Seq::empty()
    } else {
        let rest = readable_formats(reprs.drop_last());
        if reprs.last() is VirtualFile {
            rest
        } else {
            rest.push(representation_format_of(reprs.last()))
        }
    }
}

/// The formats among `formats` whose entry of `matches` holds, in order (a
/// format without an entry does not match).
pub open spec fn matching_formats(formats: Seq<Seq<char>>, matches: Seq<bool>) -> Seq<Seq<char>>
    decreases formats.len(),
{
    if formats.len() == 0 {
        Seq::empty()
    } else {
        let rest = matching_formats(formats.drop_last(), matches);
        if formats.len() - 1 < matches.len() && matches[formats.len() - 1] {
            rest.push(formats.last())
        } else {
            rest
        }
    }
}

/// The types that a content URI can be read in, before filtering: an
/// unreadable URI is an error, a provider that is gone has none, else the
/// formats of its simple and lazy representations, in order. Each is then
/// compared with the request's filter by the platform.
pub fn uri_readable_formats<V>(providers: &Registry<DataProvider<V>>, uri: &str) -> (res: Result<
    Vec<String>,
    NativeExtensionsError,
>)
    ensures
        uri_info_of(uri@) is None ==> (res matches Err(e) && is_malformed_uri_error(e)),
        uri_info_of(uri@) matches Some(id) ==> (res matches Ok(v) && v.deep_view() == (if providers@.contains_key(id) {
            readable_formats(providers@[id].1.representations@)
        } else {
            Seq::empty()
        })),
{
    let info = match UriInfo::parse(uri) {
        Some(info) => info,
        None => {
            return Err(NativeExtensionsError::OtherError(String::from_str("Malformed URI")));
        },
    };
    let mut res: Vec<String> = Vec::new();
    match providers.get(info.data_provider_id) {
        None => {
            proof {
                assert(res.deep_view() =~= Seq::<Seq<char>>::empty());
            }
        },
        Some(entry) => {
            let reprs = &entry.1.representations;
            let mut i: usize = 0;
            while i < reprs.len()
                invariant
                    i <= reprs@.len(),
                    res.deep_view() == readable_formats(reprs@.take(i as int)),
                decreases reprs@.len() - i,
            {
                proof {
                    assert(reprs@.take(i + 1).drop_last() =~= reprs@.take(i as int));
                }
                let ghost before = res.deep_view();
                match &reprs[i] {
                    DataRepresentation::VirtualFile { .. } => {},
                    DataRepresentation::Simple { format, .. } => {
                        res.push(format.clone());
                        proof {
                            assert(res.deep_view() =~= before.push(format@));
                        }
                    },
                    DataRepresentation::Lazy { format, .. } => {
                        res.push(format.clone());
                        proof {
                            assert(res.deep_view() =~= before.push(format@));
                        }
                    },
                }
                i = i + 1;
            }
            proof {
                assert(reprs@.take(reprs@.len() as int) =~= reprs@);
            }
        },
    }
    Ok(res)
}

/// The types that a content URI offers for a filter: those of `formats`
/// (from `uri_readable_formats`) that the platform found to match it,
/// `matches[i]` being the answer for `formats[i]`.
pub fn filter_mime_types(formats: &Vec<String>, matches: &Vec<bool>) -> (res: Vec<String>)
    ensures
        res.deep_view() == matching_formats(formats.deep_view(), matches@),
{
    let mut res: Vec<String> = Vec::new();
    let mut i: usize = 0;
    while i < formats.len()
        invariant
            i <= formats@.len(),
            res.deep_view() == matching_formats(formats.deep_view().take(i as int), matches@),
        decreases formats@.len() - i,
    {
        proof {
            assert(formats.deep_view().take(i + 1).drop_last() =~= formats.deep_view().take(i as int));
        }
        let ghost before = res.deep_view();
        if i < matches.len() && matches[i] {
            res.push(formats[i].clone());
            proof {
                assert(res.deep_view() =~= before.push(formats@[i as int]@));
            }
        }
        i = i + 1;
    }
    proof {
        assert(formats.deep_view().take(formats@.len() as int) =~= formats.deep_view());
    }
    res
}

} // verus!
