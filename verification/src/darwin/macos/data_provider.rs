use vstd::prelude::*;

use crate::api_model::{representation_format, DataProviderValueId, DataRepresentation};
use crate::menu::title_or_empty;

verus! {

/// The pasteboard type written in place of none, so that a drag of only local
/// data can start.
pub const PLACEHOLDER_TYPE: &'static str = "dev.nativeshell.placeholder-item";

/// The formats of the simple and lazy representations, in order.
pub open spec fn data_formats<V>(reprs: Seq<DataRepresentation<V>>) -> Seq<Seq<char>>
    decreases reprs.len(),
{
    if reprs.len() == 0 {
        Seq::empty()
    } else {
        let rest = data_formats(reprs.drop_last());
        if reprs.last() is VirtualFile {
            rest
        } else {
            rest.push(representation_format(reprs.last()))
        }
    }
}

/// The types that a pasteboard item of a data provider can write: the formats
/// of its simple and lazy representations; for a drag without any, the
/// placeholder type.
pub fn writable_types<V>(reprs: &Vec<DataRepresentation<V>>, for_dragging: bool) -> (res: Vec<String>)
    ensures
        data_formats(reprs@).len() == 0 && for_dragging ==> res.deep_view() == seq![PLACEHOLDER_TYPE@],
        !(data_formats(reprs@).len() == 0 && for_dragging) ==> res.deep_view() == data_formats(reprs@),
{
    let mut res: Vec<String> = Vec::new();
    let mut i: usize = 0;
    while i < reprs.len()
        invariant
            i <= reprs@.len(),
            res.deep_view() == data_formats(reprs@.take(i as int)),
        decreases reprs@.len() - i,
    {
        proof {
            assert(reprs@.take(i + 1).drop_last() == reprs@.take(i as int));
            assert(reprs@.take(i + 1).last() == reprs@[i as int]);
        }
        let ghost before = res.deep_view();
        match &reprs[i] {
            DataRepresentation::Simple { format, .. } => {
                res.push(format.clone());
                assert(res.deep_view() =~= before.push(format@));
            },
            DataRepresentation::Lazy { format, .. } => {
                res.push(format.clone());
                assert(res.deep_view() =~= before.push(format@));
            },
            DataRepresentation::VirtualFile { .. } => {},
        }
        i = i + 1;
    }
    proof {
        assert(reprs@.take(reprs@.len() as int) == reprs@);
    }
    if res.len() == 0 && for_dragging {
        let mut placeholder: Vec<String> = Vec::new();
        placeholder.push(String::from_str(PLACEHOLDER_TYPE));
        assert(placeholder.deep_view() =~= seq![PLACEHOLDER_TYPE@]);
        placeholder
    } else {
        res
    }
}

/// The first virtual file of a data provider: its value id and format.
pub fn virtual_file_info<V>(reprs: &Vec<DataRepresentation<V>>) -> (res: Option<(DataProviderValueId, String)>)
    ensures
        match res {
            Some((id, format)) => exists|i: int|
                0 <= i < reprs@.len() && (#[trigger] reprs@[i] matches DataRepresentation::VirtualFile {
                    id: vid,
                    format: f,
                    ..
                } && vid == id && f@ == format@) && forall|j: int| 0 <= j < i ==> !(#[trigger] reprs@[j] is VirtualFile),
            None => forall|j: int| 0 <= j < reprs@.len() ==> !(#[trigger] reprs@[j] is VirtualFile),
        },
{
    let mut i: usize = 0;
    while i < reprs.len()
        invariant
            i <= reprs@.len(),
            forall|j: int| 0 <= j < i ==> !(#[trigger] reprs@[j] is VirtualFile),
        decreases reprs@.len() - i,
    {
        match &reprs[i] {
            DataRepresentation::VirtualFile { id, format, .. } => {
                return Some((*id, format.clone()));
            },
            _ => {},
        }
        i = i + 1;
    }
    None
}

/// The file name that a promised file gets: the provider's suggested name, or
/// the empty string.
pub fn file_promise_file_name(suggested_name: &Option<String>) -> (res: String)
    ensures
        res@ == title_or_empty(*suggested_name),
{
    crate::menu::title_string(suggested_name)
}

} // verus!
