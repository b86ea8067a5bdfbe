use vstd::prelude::*;

verus! {

/// Identifies one value (a lazy value or a virtual file) of a data provider.
#[derive(Debug, Clone, Copy, PartialEq, Eq, Hash, Structural)]
pub struct DataProviderValueId(pub i64);

/// Identifies a registered data provider.
#[derive(Debug, Clone, Copy, PartialEq, Eq, Hash, Structural)]
pub struct DataProviderId(pub i64);

impl DataProviderId {
    pub fn from_i64(value: i64) -> (res: Self)
        ensures
            res.0 == value,
    {
        DataProviderId(value)
    }
}

/// Where a virtual file is to be received.
#[derive(Debug, Clone, Copy, PartialEq, Eq, Structural)]
pub enum VirtualFileStorage {
    TemporaryFile,
    Memory,
}

/// One representation of the data of a provider, in one format. `V` is the
/// type of the values that travel over the method channel.
#[derive(Debug, Clone, PartialEq, Eq)]
pub enum DataRepresentation<V> {
    Simple { format: String, data: V },
    Lazy { id: DataProviderValueId, format: String },
    VirtualFile {
        id: DataProviderValueId,
        format: String,
        storage_suggestion: Option<VirtualFileStorage>,
    },
}

/// The format of a representation, whatever its kind.
pub open spec fn representation_format<V>(r: DataRepresentation<V>) -> Seq<char> {
    match r {
        DataRepresentation::Simple { format, .. } => format@,
        DataRepresentation::Lazy { format, .. } => format@,
        DataRepresentation::VirtualFile { format, .. } => format@,
    }
}

impl<V> DataRepresentation<V> {
    pub fn is_virtual_file(&self) -> (res: bool)
        ensures
            res == (*self is VirtualFile),
    {
        match self {
            DataRepresentation::VirtualFile { .. } => true,
            _ => false,
        }
    }

    pub fn format(&self) -> (res: &String)
        ensures
            res@ == representation_format(*self),
    {
        match self {
            DataRepresentation::Simple { format, .. } => format,
            DataRepresentation::Lazy { format, .. } => format,
            DataRepresentation::VirtualFile { format, .. } => format,
        }
    }
}

/// The data that a provider offers, one representation per format.
#[derive(Debug, Clone, PartialEq, Eq)]
pub struct DataProvider<V> {
    pub representations: Vec<DataRepresentation<V>>,
    pub suggested_name: Option<String>,
}

/// What a drop does with the data, or why it did nothing.
#[derive(Debug, Clone, Copy, PartialEq, Eq, Structural)]
pub enum DropOperation {
    /// Nothing happens (`None` on the Dart side).
    NoOperation,
    /// The user cancelled the drag by pressing escape (macOS, Windows, Linux).
    UserCancelled,
    /// The target refused the drop (iOS); stands for `None` elsewhere.
    Forbidden,
    Copy,
    Move,
    Link,
}

/// Whether a drop with this operation hands the data over.
pub open spec fn accepts_drop(op: DropOperation) -> bool {
    op != DropOperation::NoOperation && op != DropOperation::UserCancelled && op
        != DropOperation::Forbidden
}

/// Whether a drop with this operation hands the data over: every operation
/// but `NoOperation`, `UserCancelled` and `Forbidden`.
pub fn is_accepting(op: DropOperation) -> (res: bool)
    ensures
        res == accepts_drop(op),
{
    match op {
        DropOperation::NoOperation | DropOperation::UserCancelled | DropOperation::Forbidden => false,
        _ => true,
    }
}

/// The answer to a request to show a context menu.
#[derive(Debug, Clone, Copy, PartialEq, Eq)]
pub struct ShowContextMenuResponse {
    pub item_selected: bool,
}

#[derive(Debug, Clone, Copy, PartialEq, Eq)]
pub struct MenuActionAttributes {
    pub disabled: bool,
    pub destructive: bool,
}

/// A keyboard shortcut of a menu action.
#[derive(Debug, Clone, PartialEq, Eq)]
pub struct Activator {
    pub trigger: String,
    pub alt: bool,
    pub meta: bool,
    pub shift: bool,
    pub control: bool,
}

/// The check or radio mark of a menu action.
#[derive(Debug, Clone, Copy, PartialEq, Eq, Structural)]
pub enum MenuActionState {
    /// No mark (`none` on the Dart side).
    NoState,
    CheckOn,
    CheckOff,
    CheckMixed,
    RadioOn,
    RadioOff,
}

/// A menu element whose content is provided later.
#[derive(Debug, Clone, Copy, PartialEq, Eq)]
pub struct DeferredMenuElement {
    pub unique_id: i64,
}

/// A separator between menu elements, possibly titled.
#[derive(Debug, Clone, PartialEq, Eq)]
pub struct MenuSeparator {
    pub title: Option<String>,
}

} // verus!
