use vstd::prelude::*;

use crate::android::drag_common::DragAction;
use crate::api_model::DropOperation;
use crate::error::NativeExtensionsError;
use crate::registry::Registry;

verus! {

/// Whether a drag session lives on after an event.
#[derive(Debug, Clone, Copy, PartialEq, Eq, Structural)]
pub enum HandleEventResult {
    KeepSession,
    RemoveSession,
}

/// What the drag side tells its delegate about an event of its own session.
#[derive(Debug, Clone, Copy, PartialEq, Eq, Structural)]
pub enum DragSessionNotice {
    /// The drag moved; the event's location goes with it.
    Moved,
    /// The drag ended with this operation.
    Ended(DropOperation),
}

/// The operation that a finished drag reports: a copy when the drop
/// succeeded, nothing otherwise.
pub open spec fn ended_operation(drop_result: bool) -> DropOperation {
    if drop_result {
        DropOperation::Copy
    } else {
        DropOperation::NoOperation
    }
}

/// Handles an event of a drag session that this app started: a location
/// update is passed on, the end of the drag is reported with its operation and
/// ends the session; other events change nothing.
pub fn handle_drag_session_event(action: DragAction, drop_result: bool) -> (res: (
    Option<DragSessionNotice>,
    HandleEventResult,
))
    ensures
        res.0 == (if action == DragAction::DragLocation {
            Some(DragSessionNotice::Moved)
        } else if action == DragAction::DragEnded {
            Some(DragSessionNotice::Ended(ended_operation(drop_result)))
        } else {
            None
        }),
        res.1 == (if action == DragAction::DragEnded {
            HandleEventResult::RemoveSession
        } else {
            HandleEventResult::KeepSession
        }),
        action == DragAction::DragEnded && drop_result ==> res.0 == Some(DragSessionNotice::Ended(DropOperation::Copy)),
        action == DragAction::DragEnded && !drop_result ==> res.0 == Some(DragSessionNotice::Ended(DropOperation::NoOperation)),
{
    match action {
        DragAction::DragLocation => (Some(DragSessionNotice::Moved), HandleEventResult::KeepSession),
        DragAction::DragEnded => {
            let operation = if drop_result {
                DropOperation::Copy
            } else {
                DropOperation::NoOperation
            };
            (Some(DragSessionNotice::Ended(operation)), HandleEventResult::RemoveSession)
        },
        _ => (None, HandleEventResult::KeepSession),
    }
}

/// Converts RGBA pixel data into the ARGB words of an Android bitmap, row by
/// row; each source row starts `bytes_per_row` bytes after the previous one.
pub open spec fn argb_at(data: Seq<u8>, width: int, bytes_per_row: int, x: int, y: int) -> i32 {
    let pos = y * bytes_per_row + x * 4;
    (data[pos + 3] as int * 0x1000000 + data[pos] as int * 0x10000 + data[pos + 1] as int * 0x100
        + data[pos + 2] as int) as i32
}

/// The ARGB pixels of an Android bitmap made from RGBA `data` of a
/// `width` by `height` image whose rows are `bytes_per_row` bytes apart.
pub fn argb_pixels(data: &[u8], width: usize, height: usize, bytes_per_row: usize) -> (res: Vec<i32>)
    requires
        height > 0 ==> (height - 1) * bytes_per_row + width * 4 <= data@.len(),
        width * height <= usize::MAX,
    ensures
        res@.len() == width * height,
        forall|x: int, y: int|
            0 <= x < width && 0 <= y < height ==> #[trigger] res@[y * width + x] == argb_at(
                data@,
                width as int,
                bytes_per_row as int,
                x,
                y,
            ),
{
    let n = data.len();
    let mut res: Vec<i32> = Vec::new();
    let mut y: usize = 0;
    while y < height
        invariant
            n == data@.len(),
            y <= height,
            height > 0 ==> (height - 1) * bytes_per_row + width * 4 <= data@.len(),
            width * height <= usize::MAX,
            res@.len() == y * width,
            forall|xx: int, yy: int|
                0 <= xx < width && 0 <= yy < y ==> #[trigger] res@[yy * width + xx] == argb_at(
                    data@,
                    width as int,
                    bytes_per_row as int,
                    xx,
                    yy,
                ),
        decreases height - y,
    {
        proof {
            assert(y * width + width <= width * height) by (nonlinear_arith)
                requires
                    y < height,
            ;
            assert(y * bytes_per_row <= (height - 1) * bytes_per_row) by (nonlinear_arith)
                requires
                    y < height,
            ;
            assert(y * bytes_per_row + width * 4 <= data@.len());
        }
        let row_start: usize = y * bytes_per_row;
        let mut x: usize = 0;
        while x < width
            invariant
                n == data@.len(),
                y < height,
                x <= width,
                row_start == y * bytes_per_row,
                row_start + width * 4 <= data@.len(),
                y * width + width <= width * height,
                width * height <= usize::MAX,
                res@.len() == y * width + x,
                forall|xx: int, yy: int|
                    0 <= xx < width && 0 <= yy < y ==> #[trigger] res@[yy * width + xx] == argb_at(
                        data@,
                        width as int,
                        bytes_per_row as int,
                        xx,
                        yy,
                    ),
                forall|xx: int|
                    0 <= xx < x ==> #[trigger] res@[y * width + xx] == argb_at(
                        data@,
                        width as int,
                        bytes_per_row as int,
                        xx,
                        y as int,
                    ),
            decreases width - x,
        {
            assert(x * 4 < width * 4);
            let pos = row_start + x * 4;
            let r = data[pos] as u32;
            let g = data[pos + 1] as u32;
            let b = data[pos + 2] as u32;
            let a = data[pos + 3] as u32;
            let color = (a * 0x1000000 + r * 0x10000 + g * 0x100 + b) as i32;
            let ghost before = res@;
            res.push(color);
            proof {
                assert forall|xx: int, yy: int|
                    0 <= xx < width && 0 <= yy < y implies #[trigger] res@[yy * width + xx]
                    == argb_at(data@, width as int, bytes_per_row as int, xx, yy) by {
                    assert(yy * width + xx < y * width) by (nonlinear_arith)
                        requires
                            0 <= xx < width,
                            0 <= yy < y,
                    ;
                    assert(res@[yy * width + xx] == before[yy * width + xx]);
                }
            }
            x = x + 1;
        }
        proof {
            assert((y + 1) * width == y * width + width) by (nonlinear_arith);
            assert forall|xx: int, yy: int|
                0 <= xx < width && 0 <= yy < y + 1 implies #[trigger] res@[yy * width + xx]
                == argb_at(data@, width as int, bytes_per_row as int, xx, yy) by {
                if yy == y {
                    assert(res@[y * width + xx] == argb_at(
                        data@,
                        width as int,
                        bytes_per_row as int,
                        xx,
                        y as int,
                    ));
                }
            }
        }
        y = y + 1;
    }
    proof {
        assert(y == height);
        assert(res@.len() == width * height) by (nonlinear_arith)
            requires
                res@.len() == y * width,
                y == height,
        ;
    }
    res
}

/// The drag sessions that this app started from one view, with what each
/// keeps (of type `S`: its configuration and data provider handles).
pub struct DragSessions<S> {
    sessions: Registry<S>,
}

impl<S> DragSessions<S> {
    /// The sessions by id, each with the view's context id.
    pub closed spec fn sessions_view(&self) -> Map<i64, (i64, S)> {
        self.sessions@
    }

    pub fn new() -> (res: Self)
        ensures
            res.sessions_view() == Map::<i64, (i64, S)>::empty(),
    {
        DragSessions { sessions: Registry::new() }
    }

    /// Remembers a drag session that started.
    pub fn insert(&mut self, session_id: i64, context_id: i64, session: S)
        ensures
            final(self).sessions_view() == old(self).sessions_view().insert(session_id, (context_id, session)),
    {
        self.sessions.insert(session_id, context_id, session);
    }

    /// What session `session_id` keeps, for its local data.
    pub fn get_local_data_for_session_id(&self, session_id: i64) -> (res: Result<&S, NativeExtensionsError>)
        ensures
            self.sessions_view().contains_key(session_id) ==> (res matches Ok(s) && *s
                == self.sessions_view()[session_id].1),
            !self.sessions_view().contains_key(session_id) ==> res == Err::<&S, NativeExtensionsError>(
                NativeExtensionsError::DragSessionNotFound,
            ),
    {
        match self.sessions.get(session_id) {
            Some(e) => Ok(&e.1),
            None => Err(NativeExtensionsError::DragSessionNotFound),
        }
    }

    /// Passes a drag event to the session it belongs to, if it is one of
    /// these; the session ends with the drag.
    pub fn on_drop_event(&mut self, session_id: Option<i64>, action: DragAction, drop_result: bool) -> (res: Option<
        DragSessionNotice,
    >)
        ensures
            match session_id {
                Some(id) => if old(self).sessions_view().contains_key(id) {
                    &&& res == handle_event_notice(action, drop_result)
                    &&& final(self).sessions_view() == (if action == DragAction::DragEnded {
                        old(self).sessions_view().remove(id)
                    } else {
                        old(self).sessions_view()
                    })
                } else {
                    res is None && final(self).sessions_view() == old(self).sessions_view()
                },
                None => res is None && final(self).sessions_view() == old(self).sessions_view(),
            },
    {
        match session_id {
            Some(id) => {
                if self.sessions.contains(id) {
                    let (notice, result) = handle_drag_session_event(action, drop_result);
                    match result {
                        HandleEventResult::RemoveSession => {
                            let _ = self.sessions.remove(id);
                        },
                        HandleEventResult::KeepSession => {},
                    }
                    notice
                } else {
                    None
                }
            },
            None => None,
        }
    }
}

/// What a session's event tells the delegate.
pub open spec fn handle_event_notice(action: DragAction, drop_result: bool) -> Option<DragSessionNotice> {
    if action == DragAction::DragLocation {
        Some(DragSessionNotice::Moved)
    } else if action == DragAction::DragEnded {
        Some(DragSessionNotice::Ended(ended_operation(drop_result)))
    } else {
        None
    }
}

/// The message of the error for a drag without a combined drag image.
pub open spec fn missing_image_message() -> Seq<char> {
    "Missing combined drag image"@
}

/// The combined drag image that Android drags need.
pub fn require_combined_image<T>(image: Option<T>) -> (res: Result<T, NativeExtensionsError>)
    ensures
        match image {
            Some(i) => res == Ok::<T, NativeExtensionsError>(i),
            None => res matches Err(NativeExtensionsError::OtherError(m)) && m@ == missing_image_message(),
        },
{
    match image {
        Some(i) => Ok(i),
        None => Err(NativeExtensionsError::OtherError(String::from_str("Missing combined drag image"))),
    }
}

} // verus!
