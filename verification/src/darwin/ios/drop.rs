use vstd::prelude::*;

use crate::api_model::DropOperation;
use crate::darwin::macos::reader::{add_all_unique, lemma_add_all_unique, push_unique};

verus! {

/// The operations that a UIKit drop session allows: a copy, and a move when
/// the session allows moving.
pub fn allowed_operations(allows_move: bool) -> (res: Vec<DropOperation>)
    ensures
        res@ == (if allows_move {
            seq![DropOperation::Copy, DropOperation::Move]
        } else {
            seq![DropOperation::Copy]
        }),
{
    let mut res = Vec::new();
    res.push(DropOperation::Copy);
    if allows_move {
        res.push(DropOperation::Move);
    }
    proof {
        if allows_move {
            assert(res@ =~= seq![DropOperation::Copy, DropOperation::Move]);
        } else {
            assert(res@ =~= seq![DropOperation::Copy]);
        }
    }
    res
}

/// The operation that a drop event reports as accepted: the last one the
/// Dart side accepted, for the drop itself only.
pub fn accepted_operation(is_perform_drop: bool, last_operation: DropOperation) -> (res: Option<DropOperation>)
    ensures
        res == (if is_perform_drop {
            Some(last_operation)
        } else {
            None
        }),
{
    if is_perform_drop {
        Some(last_operation)
    } else {
        None
    }
}

/// The type identifiers of an item provider, each once, in order.
pub fn unique_formats(formats: &Vec<String>) -> (res: Vec<String>)
    ensures
        res.deep_view() == add_all_unique(Seq::empty(), formats.deep_view(), formats@.len() as int),
        res.deep_view().no_duplicates(),
        forall|t: Seq<char>| #[trigger] res.deep_view().contains(t) == formats.deep_view().contains(t),
{
    proof {
        lemma_add_all_unique(Seq::empty(), formats.deep_view(), formats@.len() as int);
        assert(formats.deep_view().take(formats@.len() as int) =~= formats.deep_view());
    }
    let mut res: Vec<String> = Vec::new();
    let mut i: usize = 0;
    while i < formats.len()
        invariant
            i <= formats@.len(),
            res.deep_view() == add_all_unique(Seq::empty(), formats.deep_view(), i as int),
        decreases formats@.len() - i,
    {
        push_unique(&mut res, formats[i].clone());
        i = i + 1;
    }
    res
}

} // verus!
