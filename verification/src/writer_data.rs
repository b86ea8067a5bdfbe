use vstd::prelude::*;

verus! {

/// One representation of a clipboard item to write; `V` is the type of the
/// values that travel over the method channel.
#[derive(Debug, Clone, PartialEq, Eq)]
pub enum ClipboardWriterItemData<V> {
    Simple { types: Vec<String>, data: V },
    Lazy { types: Vec<String>, id: i64 },
    VirtualFile { file_size: i64, file_name: String },
}

/// A clipboard item to write.
#[derive(Debug, Clone, PartialEq, Eq)]
pub struct ClipboardWriterItem<V> {
    pub data: Vec<ClipboardWriterItemData<V>>,
}

/// The items to write to the clipboard.
#[derive(Debug, Clone, PartialEq, Eq)]
pub struct ClipboardWriterData<V> {
    pub items: Vec<ClipboardWriterItem<V>>,
}

} // verus!
