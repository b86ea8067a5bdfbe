use vstd::prelude::*;

use std::rc::Rc;

verus! {

/// Hands out readers of the clipboard, one per request.
pub struct ClipboardReader {}

/// What the clipboard reader does with a method call.
#[derive(Debug, Clone, Copy, PartialEq, Eq, Structural)]
pub enum ClipboardReaderCall {
    /// Create a reader of the clipboard and register it for the calling isolate.
    NewClipboardReader,
    /// Answer with the unknown method error.
    Unknown,
}

impl ClipboardReader {
    pub fn new() -> (res: Self) {
        ClipboardReader {  }
    }

    /// Decides what a method call asks for.
    pub fn method_call(&self, method: &str) -> (res: ClipboardReaderCall)
        ensures
            (res == ClipboardReaderCall::NewClipboardReader) == (method@ == "newClipboardReader"@),
    {
        let name = String::from_str(method);
        let known = String::from_str("newClipboardReader");
        if name == known {
            ClipboardReaderCall::NewClipboardReader
        } else {
            ClipboardReaderCall::Unknown
        }
    }
}

/// Gives the clipboard reader of a context.
pub trait GetClipboardReader {
    fn clipboard_reader(&self) -> Rc<ClipboardReader>;
}

} // verus!
