use vstd::prelude::*;

use crate::android::data_provider::ClipEntry;
use crate::android::util::{path_segments, url_path_segments};
use crate::decimal::{append_digits, decimal, decimal_string, parse_i64, parse_usize, parsed_i64, parsed_usize};

verus! {

/// Virtual file streams are not backed by anything on Android: a write always
/// succeeds.
pub fn platform_stream_write(_handle: i32, _data: &[u8]) -> (res: i32)
    ensures
        res == 1,
{
    1
}

/// Closing a stream has nothing to release on Android.
pub fn platform_stream_close(_handle: i32, _delete: bool) {
}

/// The content URI under which item `index` of data source `id` of app
/// `package` is served.
pub open spec fn item_uri_text(package: Seq<char>, id: i64, index: usize) -> Seq<char> {
    "content://"@ + package + ".ClipboardDataProvider/"@ + decimal(id as int) + "/"@ + decimal(
        index as int,
    )
}

/// The content URI under which item `index` of data source `id` of app
/// `package` is served.
pub fn content_provider_uri(package: &String, id: i64, index: usize) -> (res: String)
    ensures
        res@ == item_uri_text(package@, id, index),
{
    let mut res = String::from_str("content://");
    res.append(package.as_str());
    res.append(".ClipboardDataProvider/");
    let id_digits = decimal_string(id);
    res.append(id_digits.as_str());
    res.append("/");
    append_digits(&mut res, index as u64);
    res
}

/// What a content URI names: the data source and the item within it.
#[derive(Debug, Clone, Copy, PartialEq, Eq)]
pub struct UriInfo {
    pub data_source_id: i64,
    pub index: usize,
}

/// The data source and item that a content URI names: its first two path
/// segments, the first read as an `i64` and the second as a `usize`.
pub open spec fn uri_info_of(uri: Seq<char>) -> Option<(i64, usize)> {
    match url_path_segments(uri) {
        Some(segments) => if segments.len() >= 2 {
            match (parsed_i64(segments[0]), parsed_usize(segments[1])) {
                (Some(id), Some(index)) => Some((id, index)),
                _ => None,
            }
        } else {
            None
        },
        None => None,
    }
}

impl UriInfo {
    /// Reads the data source id and item index out of a content URI.
    pub fn parse(uri: &str) -> (res: Option<UriInfo>)
        ensures
            match res {
                Some(info) => uri_info_of(uri@) == Some((info.data_source_id, info.index)),
                None => uri_info_of(uri@) is None,
            },
    {
        let segments = path_segments(uri);
        match segments {
            Some(segments) => {
                if segments.len() < 2 {
                    return None;
                }
                let id = parse_i64(segments[0].as_str());
                let index = parse_usize(segments[1].as_str());
                match (id, index) {
                    (Some(id), Some(index)) => Some(UriInfo { data_source_id: id, index }),
                    _ => None,
                }
            },
            None => None,
        }
    }
}

/// The kind of a representation of a data source item.
#[derive(Debug, Clone, Copy, PartialEq, Eq, Structural)]
pub enum ItemRepresentationKind {
    /// Data given up front, in each of its formats.
    Simple,
    /// Data produced on request, in each of its formats.
    Lazy,
    /// Anything else (virtual files): not on the clipboard.
    Other,
}

/// The entries of representations `0..k` of a data source item: one per
/// format of each simple or lazy representation, in order.
pub open spec fn item_entries(reprs: Seq<(ItemRepresentationKind, Vec<String>)>, k: int) -> Seq<(Seq<char>, bool, int)>
    decreases k,
{
    if k <= 0 {
        Seq::empty()
    } else {
        let rest = item_entries(reprs, k - 1);
        let r = reprs[k - 1];
        match r.0 {
            ItemRepresentationKind::Other => rest,
            _ => rest + r.1.deep_view().map_values(|f: Seq<char>| (f, r.0 == ItemRepresentationKind::Lazy, k - 1)),
        }
    }
}

/// The entries of a data source item's representations, for `plan_clip_item`.
pub fn clip_entries_for_item(reprs: &Vec<(ItemRepresentationKind, Vec<String>)>) -> (res: Vec<ClipEntry>)
    ensures
        res@.map_values(|e: ClipEntry| (e.format@, e.lazy, e.source as int)) == item_entries(reprs@, reprs@.len() as int),
{
    let mut res: Vec<ClipEntry> = Vec::new();
    let mut i: usize = 0;
    while i < reprs.len()
        invariant
            i <= reprs@.len(),
            res@.map_values(|e: ClipEntry| (e.format@, e.lazy, e.source as int)) == item_entries(reprs@, i as int),
        decreases reprs@.len() - i,
    {
        let kind = reprs[i].0;
        let formats = &reprs[i].1;
        match kind {
            ItemRepresentationKind::Other => {},
            _ => {
                let lazy = match kind {
                    ItemRepresentationKind::Lazy => true,
                    _ => false,
                };
                let ghost base = res@.map_values(|e: ClipEntry| (e.format@, e.lazy, e.source as int));
                let mut j: usize = 0;
                while j < formats.len()
                    invariant
                        j <= formats@.len(),
                        i < reprs@.len(),
                        formats == &reprs@[i as int].1,
                        lazy == (kind == ItemRepresentationKind::Lazy),
                        res@.map_values(|e: ClipEntry| (e.format@, e.lazy, e.source as int)) == base
                            + formats.deep_view().take(j as int).map_values(|f: Seq<char>| (f, lazy, i as int)),
                    decreases formats@.len() - j,
                {
                    let ghost before = res@;
                    res.push(ClipEntry { format: formats[j].clone(), lazy, source: i });
                    proof {
                        assert(formats.deep_view().take(j + 1) =~= formats.deep_view().take(j as int).push(formats@[j as int]@));
                        assert(res@.map_values(|e: ClipEntry| (e.format@, e.lazy, e.source as int)) =~= before.map_values(
                            |e: ClipEntry| (e.format@, e.lazy, e.source as int),
                        ).push((formats@[j as int]@, lazy, i as int)));
                        assert(formats.deep_view().take(j + 1).map_values(|f: Seq<char>| (f, lazy, i as int))
                            =~= formats.deep_view().take(j as int).map_values(|f: Seq<char>| (f, lazy, i as int)).push(
                            (formats@[j as int]@, lazy, i as int),
                        ));
                    }
                    j = j + 1;
                }
                proof {
                    assert(formats.deep_view().take(formats@.len() as int) =~= formats.deep_view());
                }
            },
        }
        i = i + 1;
    }
    res
}

} // verus!
