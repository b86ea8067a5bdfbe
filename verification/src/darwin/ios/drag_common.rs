use vstd::prelude::*;

use crate::api_model::DropOperation;

verus! {

/// `UIDropOperation.cancel`.
pub const UI_DROP_OPERATION_CANCEL: i64 = 0;

/// `UIDropOperation.forbidden`.
pub const UI_DROP_OPERATION_FORBIDDEN: i64 = 1;

/// `UIDropOperation.copy`.
pub const UI_DROP_OPERATION_COPY: i64 = 2;

/// `UIDropOperation.move`.
pub const UI_DROP_OPERATION_MOVE: i64 = 3;

/// The UIKit operation for an operation: UIKit has no link, and no difference
/// between nothing and a cancelled drag.
pub open spec fn ui_operation(op: DropOperation) -> i64 {
    match op {
        DropOperation::NoOperation => UI_DROP_OPERATION_CANCEL,
        DropOperation::UserCancelled => UI_DROP_OPERATION_CANCEL,
        DropOperation::Forbidden => UI_DROP_OPERATION_FORBIDDEN,
        DropOperation::Copy => UI_DROP_OPERATION_COPY,
        DropOperation::Move => UI_DROP_OPERATION_MOVE,
        DropOperation::Link => UI_DROP_OPERATION_CANCEL,
    }
}

/// The operation for a UIKit operation; unknown values mean nothing.
pub open spec fn operation_of_ui(op: i64) -> DropOperation {
    if op == UI_DROP_OPERATION_FORBIDDEN {
        DropOperation::Forbidden
    } else if op == UI_DROP_OPERATION_COPY {
        DropOperation::Copy
    } else if op == UI_DROP_OPERATION_MOVE {
        DropOperation::Move
    } else {
        DropOperation::NoOperation
    }
}

/// The `UIDropOperation` values: a refused drop is `forbidden` (1), a copy is
/// `copy` (2), a move is `move` (3), and everything else is `cancel` (0); back
/// from UIKit, 1, 2 and 3 are a refusal, a copy and a move, and any other value
/// is no operation.
pub proof fn lemma_ui_operation_values(op: DropOperation, value: i64)
    ensures
        (ui_operation(op) == 1) == (op == DropOperation::Forbidden),
        (ui_operation(op) == 2) == (op == DropOperation::Copy),
        (ui_operation(op) == 3) == (op == DropOperation::Move),
        (ui_operation(op) == 0) == (op == DropOperation::NoOperation || op == DropOperation::UserCancelled
            || op == DropOperation::Link),
        operation_of_ui(value) == (if value == 1 {
            DropOperation::Forbidden
        } else if value == 2 {
            DropOperation::Copy
        } else if value == 3 {
            DropOperation::Move
        } else {
            DropOperation::NoOperation
        }),
{
}

pub fn to_platform(op: DropOperation) -> (res: i64)
    ensures
        res == ui_operation(op),
        (res == 1) == (op == DropOperation::Forbidden),
        (res == 2) == (op == DropOperation::Copy),
        (res == 3) == (op == DropOperation::Move),
        (res == 0) == (op == DropOperation::NoOperation || op == DropOperation::UserCancelled || op
            == DropOperation::Link),
{
    proof {
        lemma_ui_operation_values(op, 0);
    }
    match op {
        DropOperation::NoOperation => UI_DROP_OPERATION_CANCEL,
        DropOperation::UserCancelled => UI_DROP_OPERATION_CANCEL,
        DropOperation::Forbidden => UI_DROP_OPERATION_FORBIDDEN,
        DropOperation::Copy => UI_DROP_OPERATION_COPY,
        DropOperation::Move => UI_DROP_OPERATION_MOVE,
        DropOperation::Link => UI_DROP_OPERATION_CANCEL,
    }
}

pub fn from_platform(op: i64) -> (res: DropOperation)
    ensures
        res == operation_of_ui(op),
        res == (if op == 1 {
            DropOperation::Forbidden
        } else if op == 2 {
            DropOperation::Copy
        } else if op == 3 {
            DropOperation::Move
        } else {
            DropOperation::NoOperation
        }),
{
    proof {
        lemma_ui_operation_values(DropOperation::NoOperation, op);
    }
    if op == UI_DROP_OPERATION_FORBIDDEN {
        DropOperation::Forbidden
    } else if op == UI_DROP_OPERATION_COPY {
        DropOperation::Copy
    } else if op == UI_DROP_OPERATION_MOVE {
        DropOperation::Move
    } else {
        DropOperation::NoOperation
    }
}

/// The operations that UIKit knows survive the way there and back; the others
/// come back as nothing.
pub proof fn lemma_ui_round_trip(op: DropOperation)
    ensures
        (op == DropOperation::Forbidden || op == DropOperation::Copy || op == DropOperation::Move)
            ==> operation_of_ui(ui_operation(op)) == op,
        (op == DropOperation::NoOperation || op == DropOperation::UserCancelled || op
            == DropOperation::Link) ==> operation_of_ui(ui_operation(op))
            == DropOperation::NoOperation,
{
}

} // verus!
