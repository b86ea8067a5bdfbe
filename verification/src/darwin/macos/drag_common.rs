use vstd::prelude::*;

use crate::api_model::DropOperation;

verus! {

/// `NSDragOperationNone`.
pub const NS_DRAG_OPERATION_NONE: u64 = 0;

/// `NSDragOperationCopy`.
pub const NS_DRAG_OPERATION_COPY: u64 = 1;

/// `NSDragOperationLink`.
pub const NS_DRAG_OPERATION_LINK: u64 = 2;

/// `NSDragOperationMove`.
pub const NS_DRAG_OPERATION_MOVE: u64 = 16;

/// The AppKit operation for an operation: refusals and cancellations are none.
pub open spec fn ns_operation(op: DropOperation) -> u64 {
    match op {
        DropOperation::NoOperation => NS_DRAG_OPERATION_NONE,
        DropOperation::UserCancelled => NS_DRAG_OPERATION_NONE,
        DropOperation::Forbidden => NS_DRAG_OPERATION_NONE,
        DropOperation::Copy => NS_DRAG_OPERATION_COPY,
        DropOperation::Link => NS_DRAG_OPERATION_LINK,
        DropOperation::Move => NS_DRAG_OPERATION_MOVE,
    }
}

/// The operation for a single AppKit operation; anything else means nothing.
pub open spec fn operation_of_ns(op: u64) -> DropOperation {
    if op == NS_DRAG_OPERATION_COPY {
        DropOperation::Copy
    } else if op == NS_DRAG_OPERATION_MOVE {
        DropOperation::Move
    } else if op == NS_DRAG_OPERATION_LINK {
        DropOperation::Link
    } else {
        DropOperation::NoOperation
    }
}

/// The operations that a mask allows, move first, then copy, then link.
pub open spec fn operations_of_mask(mask: u64) -> Seq<DropOperation> {
    let moves: Seq<DropOperation> = if mask & NS_DRAG_OPERATION_MOVE == NS_DRAG_OPERATION_MOVE {
        seq![DropOperation::Move]
    } else {
        Seq::empty()
    };
    let copies: Seq<DropOperation> = if mask & NS_DRAG_OPERATION_COPY == NS_DRAG_OPERATION_COPY {
        seq![DropOperation::Copy]
    } else {
        Seq::empty()
    };
    let links: Seq<DropOperation> = if mask & NS_DRAG_OPERATION_LINK == NS_DRAG_OPERATION_LINK {
        seq![DropOperation::Link]
    } else {
        Seq::empty()
    };
    moves + copies + links
}

/// The `NSDragOperation` values: a copy is `Copy` (1), a link is `Link` (2), a
/// move is `Move` (16), and refusals and cancellations are `None` (0); back
/// from AppKit, 1, 16 and 2 are a copy, a move and a link, and anything else
/// is no operation.
pub proof fn lemma_ns_operation_values(op: DropOperation, value: u64)
    ensures
        (ns_operation(op) == 1) == (op == DropOperation::Copy),
        (ns_operation(op) == 2) == (op == DropOperation::Link),
        (ns_operation(op) == 16) == (op == DropOperation::Move),
        (ns_operation(op) == 0) == (op == DropOperation::NoOperation || op == DropOperation::UserCancelled
            || op == DropOperation::Forbidden),
        operation_of_ns(value) == (if value == 1 {
            DropOperation::Copy
        } else if value == 16 {
            DropOperation::Move
        } else if value == 2 {
            DropOperation::Link
        } else {
            DropOperation::NoOperation
        }),
{
}

/// The operations a mask allows: a move exactly when it has `Move` (16), a
/// copy exactly when it has `Copy` (1), a link exactly when it has `Link` (2),
/// nothing else, each once, a move before a copy before a link.
pub proof fn lemma_mask_operations(mask: u64)
    ensures
        operations_of_mask(mask).contains(DropOperation::Move) == (mask & 16u64 != 0),
        operations_of_mask(mask).contains(DropOperation::Copy) == (mask & 1u64 != 0),
        operations_of_mask(mask).contains(DropOperation::Link) == (mask & 2u64 != 0),
        forall|i: int|
            0 <= i < operations_of_mask(mask).len() ==> #[trigger] operations_of_mask(mask)[i] == DropOperation::Move
                || operations_of_mask(mask)[i] == DropOperation::Copy || operations_of_mask(mask)[i]
                == DropOperation::Link,
        forall|i: int, j: int|
            0 <= i < j < operations_of_mask(mask).len() ==> #[trigger] operations_of_mask(mask)[i] == DropOperation::Move
                || (operations_of_mask(mask)[i] == DropOperation::Copy && #[trigger] operations_of_mask(mask)[j]
                == DropOperation::Link),
{
    assert((mask & 16u64 == 16u64) == (mask & 16u64 != 0)) by (bit_vector);
    assert((mask & 1u64 == 1u64) == (mask & 1u64 != 0)) by (bit_vector);
    assert((mask & 2u64 == 2u64) == (mask & 2u64 != 0)) by (bit_vector);
    let ops = operations_of_mask(mask);
    if mask & 16u64 != 0 {
        assert(ops[0] == DropOperation::Move);
    }
    if ops.contains(DropOperation::Move) {
        let i = choose|i: int| 0 <= i < ops.len() && ops[i] == DropOperation::Move;
    }
    if mask & 1u64 != 0 {
        let k: int = if mask & 16u64 != 0 { 1 } else { 0 };
        assert(ops[k] == DropOperation::Copy);
    }
    if ops.contains(DropOperation::Copy) {
        let i = choose|i: int| 0 <= i < ops.len() && ops[i] == DropOperation::Copy;
    }
    if mask & 2u64 != 0 {
        assert(ops[ops.len() - 1] == DropOperation::Link);
    }
    if ops.contains(DropOperation::Link) {
        let i = choose|i: int| 0 <= i < ops.len() && ops[i] == DropOperation::Link;
    }
}

pub fn to_platform(op: DropOperation) -> (res: u64)
    ensures
        res == ns_operation(op),
        (res == 1) == (op == DropOperation::Copy),
        (res == 2) == (op == DropOperation::Link),
        (res == 16) == (op == DropOperation::Move),
        (res == 0) == (op == DropOperation::NoOperation || op == DropOperation::UserCancelled || op
            == DropOperation::Forbidden),
{
    proof {
        lemma_ns_operation_values(op, 0);
    }
    match op {
        DropOperation::NoOperation => NS_DRAG_OPERATION_NONE,
        DropOperation::UserCancelled => NS_DRAG_OPERATION_NONE,
        DropOperation::Forbidden => NS_DRAG_OPERATION_NONE,
        DropOperation::Copy => NS_DRAG_OPERATION_COPY,
        DropOperation::Link => NS_DRAG_OPERATION_LINK,
        DropOperation::Move => NS_DRAG_OPERATION_MOVE,
    }
}

pub fn from_platform(op: u64) -> (res: DropOperation)
    ensures
        res == operation_of_ns(op),
        res == (if op == 1 {
            DropOperation::Copy
        } else if op == 16 {
            DropOperation::Move
        } else if op == 2 {
            DropOperation::Link
        } else {
            DropOperation::NoOperation
        }),
{
    proof {
        lemma_ns_operation_values(DropOperation::NoOperation, op);
    }
    if op == NS_DRAG_OPERATION_COPY {
        DropOperation::Copy
    } else if op == NS_DRAG_OPERATION_MOVE {
        DropOperation::Move
    } else if op == NS_DRAG_OPERATION_LINK {
        DropOperation::Link
    } else {
        DropOperation::NoOperation
    }
}

pub fn from_platform_mask(mask: u64) -> (res: Vec<DropOperation>)
    ensures
        res@ == operations_of_mask(mask),
        res@.contains(DropOperation::Move) == (mask & 16u64 != 0),
        res@.contains(DropOperation::Copy) == (mask & 1u64 != 0),
        res@.contains(DropOperation::Link) == (mask & 2u64 != 0),
        forall|i: int, j: int|
            0 <= i < j < res@.len() ==> #[trigger] res@[i] == DropOperation::Move || (res@[i] == DropOperation::Copy
                && #[trigger] res@[j] == DropOperation::Link),
{
    proof {
        lemma_mask_operations(mask);
    }
    let mut res = Vec::new();
    if mask & NS_DRAG_OPERATION_MOVE == NS_DRAG_OPERATION_MOVE {
        res.push(DropOperation::Move);
    }
    if mask & NS_DRAG_OPERATION_COPY == NS_DRAG_OPERATION_COPY {
        res.push(DropOperation::Copy);
    }
    if mask & NS_DRAG_OPERATION_LINK == NS_DRAG_OPERATION_LINK {
        res.push(DropOperation::Link);
    }
    proof {
        assert(res@ =~= operations_of_mask(mask));
    }
    res
}

/// Copy, move and link survive the way to AppKit and back; the refusals and
/// cancellations come back as nothing.
pub proof fn lemma_ns_round_trip(op: DropOperation)
    ensures
        (op == DropOperation::Copy || op == DropOperation::Move || op == DropOperation::Link)
            ==> operation_of_ns(ns_operation(op)) == op,
        (op == DropOperation::NoOperation || op == DropOperation::UserCancelled || op
            == DropOperation::Forbidden) ==> operation_of_ns(ns_operation(op))
            == DropOperation::NoOperation,
{
}

/// The AppKit mask of a list of operations: the union of their operations.
pub open spec fn mask_of(ops: Seq<DropOperation>) -> u64
    decreases ops.len(),
{
    if ops.len() == 0 {
        NS_DRAG_OPERATION_NONE
    } else {
        mask_of(ops.drop_last()) | ns_operation(ops.last())
    }
}

/// Adding one operation's value to a mask of copy, link and move bits.
proof fn lemma_mask_bits_step(x: u64, y: u64)
    by (bit_vector)
    requires
        x & !19u64 == 0,
        y == 0 || y == 1 || y == 2 || y == 16,
    ensures
        (x | y) & !19u64 == 0,
        ((x | y) & 1u64 != 0) == ((x & 1u64 != 0) || y == 1),
        ((x | y) & 2u64 != 0) == ((x & 2u64 != 0) || y == 2),
        ((x | y) & 16u64 != 0) == ((x & 16u64 != 0) || y == 16),
{
}

/// The mask of a list of operations has `Copy` (1) exactly when the list holds
/// a copy, `Link` (2) exactly when it holds a link, `Move` (16) exactly when it
/// holds a move, and no other bit.
pub proof fn lemma_mask_of_bits(ops: Seq<DropOperation>)
    ensures
        (mask_of(ops) & 1u64 != 0) == ops.contains(DropOperation::Copy),
        (mask_of(ops) & 2u64 != 0) == ops.contains(DropOperation::Link),
        (mask_of(ops) & 16u64 != 0) == ops.contains(DropOperation::Move),
        mask_of(ops) & !19u64 == 0,
    decreases ops.len(),
{
    if ops.len() == 0 {
        assert(0u64 & 1u64 == 0 && 0u64 & 2u64 == 0 && 0u64 & 16u64 == 0 && 0u64 & !19u64 == 0) by (bit_vector);
    } else {
        let rest = ops.drop_last();
        lemma_mask_of_bits(rest);
        lemma_ns_operation_values(ops.last(), 0);
        lemma_mask_bits_step(mask_of(rest), ns_operation(ops.last()));
        assert(ops == rest.push(ops.last()));
        assert forall|o: DropOperation| ops.contains(o) == (rest.contains(o) || ops.last() == o) by {
            if ops.contains(o) {
                let i = choose|i: int| 0 <= i < ops.len() && ops[i] == o;
                if i < ops.len() - 1 {
                    assert(rest[i] == o);
                }
            }
            if rest.contains(o) {
                let i = choose|i: int| 0 <= i < rest.len() && rest[i] == o;
                assert(ops[i] == o);
            }
            if ops.last() == o {
                assert(ops[ops.len() - 1] == o);
            }
        }
    }
}

/// The operations that a drag source offers AppKit: those its configuration
/// allows.
pub fn source_operation_mask(allowed: &Vec<DropOperation>) -> (res: u64)
    ensures
        res == mask_of(allowed@),
        (res & 1u64 != 0) == allowed@.contains(DropOperation::Copy),
        (res & 2u64 != 0) == allowed@.contains(DropOperation::Link),
        (res & 16u64 != 0) == allowed@.contains(DropOperation::Move),
        res & !19u64 == 0,
{
    proof {
        lemma_mask_of_bits(allowed@);
    }
    let mut res: u64 = NS_DRAG_OPERATION_NONE;
    let mut i: usize = 0;
    while i < allowed.len()
        invariant
            i <= allowed@.len(),
            res == mask_of(allowed@.take(i as int)),
        decreases allowed@.len() - i,
    {
        proof {
            assert(allowed@.take(i + 1).drop_last() == allowed@.take(i as int));
            assert(allowed@.take(i + 1).last() == allowed@[i as int]);
        }
        res = res | to_platform(allowed[i]);
        i = i + 1;
    }
    proof {
        assert(allowed@.take(allowed@.len() as int) == allowed@);
    }
    res
}

/// The operation a finished drag reports: the first one of the mask AppKit
/// ended it with (move, then copy, then link); with none, a cancellation when
/// the user pressed escape.
pub open spec fn drag_end_operation(mask: u64, user_cancelled: bool) -> DropOperation {
    let ops = operations_of_mask(mask);
    if ops.len() > 0 {
        ops[0]
    } else if user_cancelled {
        DropOperation::UserCancelled
    } else {
        DropOperation::NoOperation
    }
}

/// A finished drag reports a move when AppKit ended it with `Move` (16) in the
/// mask, else a copy with `Copy` (1), else a link with `Link` (2); with none of
/// them, a cancellation when the user pressed escape and no operation
/// otherwise.
pub proof fn lemma_drag_end_operation(mask: u64, user_cancelled: bool)
    ensures
        drag_end_operation(mask, user_cancelled) == (if mask & 16u64 != 0 {
            DropOperation::Move
        } else if mask & 1u64 != 0 {
            DropOperation::Copy
        } else if mask & 2u64 != 0 {
            DropOperation::Link
        } else if user_cancelled {
            DropOperation::UserCancelled
        } else {
            DropOperation::NoOperation
        }),
{
    lemma_mask_operations(mask);
    let ops = operations_of_mask(mask);
    if ops.len() > 0 {
        assert(ops.contains(ops[0]));
        if mask & 16u64 == 0 && mask & 1u64 != 0 {
            let i = choose|i: int| 0 <= i < ops.len() && ops[i] == DropOperation::Copy;
            if i > 0 {
                assert(ops[0] == DropOperation::Move || (ops[0] == DropOperation::Copy && ops[i] == DropOperation::Link));
            }
        }
        if mask & 16u64 != 0 {
            let i = choose|i: int| 0 <= i < ops.len() && ops[i] == DropOperation::Move;
            if i > 0 {
                assert(ops[0] == DropOperation::Move || (ops[0] == DropOperation::Copy && ops[i] == DropOperation::Link));
            }
        }
    } else {
        assert(!ops.contains(DropOperation::Move) && !ops.contains(DropOperation::Copy) && !ops.contains(DropOperation::Link));
    }
}

/// The operation a finished drag reports.
pub fn drag_ended_operation(mask: u64, user_cancelled: bool) -> (res: DropOperation)
    ensures
        res == drag_end_operation(mask, user_cancelled),
        res == (if mask & 16u64 != 0 {
            DropOperation::Move
        } else if mask & 1u64 != 0 {
            DropOperation::Copy
        } else if mask & 2u64 != 0 {
            DropOperation::Link
        } else if user_cancelled {
            DropOperation::UserCancelled
        } else {
            DropOperation::NoOperation
        }),
{
    proof {
        lemma_drag_end_operation(mask, user_cancelled);
    }
    let ops = from_platform_mask(mask);
    let operation = if ops.len() > 0 {
        ops[0]
    } else {
        DropOperation::NoOperation
    };
    match operation {
        DropOperation::NoOperation => if user_cancelled {
            DropOperation::UserCancelled
        } else {
            DropOperation::NoOperation
        },
        _ => operation,
    }
}

} // verus!
