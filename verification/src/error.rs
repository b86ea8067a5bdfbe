use vstd::prelude::*;

verus! {

/// What `format!("{:?}", s)` makes of a string: the string in double quotes,
/// with the characters that need it escaped.
pub uninterp spec fn debug_quoted(s: Seq<char>) -> Seq<char>;

/// Formats `s` with `format!("{:?}", ..)`, that is with std's `Debug` for
/// `String`. The contract claims only that the result is a function of `s`
/// alone; what the quoting and escaping are is left to the name.
#[verifier::external_body]
pub(crate) fn debug_quote(s: &String) -> (res: String)
    ensures
        res@ == debug_quoted(s@),
{
    format!("{:?}", s)
}

/// Errors of the native extensions. Errors that carry an error of another layer
/// (a method call, the file system, the engine context) carry its message.
#[derive(Debug, Clone, PartialEq, Eq)]
pub enum NativeExtensionsError {
    UnknownError,
    MethodCallError(String),
    OtherError(String),
    DataSourceNotFound,
    ReaderNotFound,
    PlatformContextNotFound,
    UnsupportedOperation,
    VirtualFileSessionNotFound,
    VirtualFileReceiveError(String),
    IOError(String),
    InvalidData,
    DragSessionNotFound,
    MouseEventNotFound,
    EngineContextError(String),
    PlatformMenuNotFound,
    InvalidMenuElement,
    InvalidMenuConfigurationId,
}

pub type NativeExtensionsResult<T> = Result<T, NativeExtensionsError>;

/// The human readable message of an error.
pub open spec fn error_message(e: NativeExtensionsError) -> Seq<char> {
    match e {
        NativeExtensionsError::UnknownError => "unknown error"@,
        NativeExtensionsError::MethodCallError(m) => m@,
        NativeExtensionsError::OtherError(m) => debug_quoted(m@),
        NativeExtensionsError::DataSourceNotFound => "Platform data source not found"@,
        NativeExtensionsError::ReaderNotFound => "platform reader not found"@,
        NativeExtensionsError::PlatformContextNotFound => "platform drag and drop context not found"@,
        NativeExtensionsError::UnsupportedOperation => "unsupported operation"@,
        NativeExtensionsError::VirtualFileSessionNotFound => "virtual session not found"@,
        NativeExtensionsError::VirtualFileReceiveError(m) => "virtual file receive error: "@ + m@,
        NativeExtensionsError::IOError(m) => m@,
        NativeExtensionsError::InvalidData => "invalid data"@,
        NativeExtensionsError::DragSessionNotFound => "drag session not found"@,
        NativeExtensionsError::MouseEventNotFound => "mouse event not found"@,
        NativeExtensionsError::EngineContextError(m) => m@,
        NativeExtensionsError::PlatformMenuNotFound => "platform menu not found"@,
        NativeExtensionsError::InvalidMenuElement => "invalid menu element"@,
        NativeExtensionsError::InvalidMenuConfigurationId => "invalid menu configuration id"@,
    }
}

/// The machine readable code that travels with an error to the Dart side.
pub open spec fn error_detail(e: NativeExtensionsError) -> Seq<char> {
    match e {
        NativeExtensionsError::UnknownError => "unknownError"@,
        NativeExtensionsError::MethodCallError(_) => "methodCallError"@,
        NativeExtensionsError::OtherError(_) => "otherError"@,
        NativeExtensionsError::DataSourceNotFound => "dataSourceNotFound"@,
        NativeExtensionsError::ReaderNotFound => "readerNotFound"@,
        NativeExtensionsError::PlatformContextNotFound => "platformContextNotFound"@,
        NativeExtensionsError::UnsupportedOperation => "unsupportedOperation"@,
        NativeExtensionsError::VirtualFileSessionNotFound => "virtualFileSessionNotFound"@,
        NativeExtensionsError::VirtualFileReceiveError(_) => "virtualFileReceiveError"@,
        NativeExtensionsError::IOError(_) => "ioError"@,
        NativeExtensionsError::InvalidData => "invalidData"@,
        NativeExtensionsError::DragSessionNotFound => "dragSessionNotFound"@,
        NativeExtensionsError::MouseEventNotFound => "mouseEventNotFound"@,
        NativeExtensionsError::EngineContextError(_) => "engineContextError"@,
        NativeExtensionsError::PlatformMenuNotFound => "platformMenuNotFound"@,
        NativeExtensionsError::InvalidMenuElement => "invalidMenuElement"@,
        NativeExtensionsError::InvalidMenuConfigurationId => "invalidMenuConfigurationId"@,
    }
}

/// An error as it is reported over the method channel.
#[derive(Debug, Clone, PartialEq, Eq)]
pub struct PlatformErrorParts {
    pub code: String,
    pub message: String,
    pub detail: Option<String>,
}

impl NativeExtensionsError {
    /// The message that `Display` prints for this error.
    pub fn message(&self) -> (res: String)
        ensures
            res@ == error_message(*self),
    {
        match self {
            NativeExtensionsError::UnknownError => String::from_str("unknown error"),
            NativeExtensionsError::MethodCallError(m) => m.clone(),
            NativeExtensionsError::OtherError(m) => debug_quote(m),
            NativeExtensionsError::DataSourceNotFound => String::from_str(
                "Platform data source not found",
            ),
            NativeExtensionsError::ReaderNotFound => String::from_str("platform reader not found"),
            NativeExtensionsError::PlatformContextNotFound => String::from_str(
                "platform drag and drop context not found",
            ),
            NativeExtensionsError::UnsupportedOperation => String::from_str(
                "unsupported operation",
            ),
            NativeExtensionsError::VirtualFileSessionNotFound => String::from_str(
                "virtual session not found",
            ),
            NativeExtensionsError::VirtualFileReceiveError(m) => {
                let mut res = String::from_str("virtual file receive error: ");
                res.append(m.as_str());
                res
            },
            NativeExtensionsError::IOError(m) => m.clone(),
            NativeExtensionsError::InvalidData => String::from_str("invalid data"),
            NativeExtensionsError::DragSessionNotFound => String::from_str(
                "drag session not found",
            ),
            NativeExtensionsError::MouseEventNotFound => String::from_str("mouse event not found"),
            NativeExtensionsError::EngineContextError(m) => m.clone(),
            NativeExtensionsError::PlatformMenuNotFound => String::from_str(
                "platform menu not found",
            ),
            NativeExtensionsError::InvalidMenuElement => String::from_str("invalid menu element"),
            NativeExtensionsError::InvalidMenuConfigurationId => String::from_str(
                "invalid menu configuration id",
            ),
        }
    }

    /// The error's code for the Dart side.
    pub fn get_detail(&self) -> (res: String)
        ensures
            res@ == error_detail(*self),
    {
        match self {
            NativeExtensionsError::UnknownError => String::from_str("unknownError"),
            NativeExtensionsError::MethodCallError(_) => String::from_str("methodCallError"),
            NativeExtensionsError::OtherError(_) => String::from_str("otherError"),
            NativeExtensionsError::DataSourceNotFound => String::from_str("dataSourceNotFound"),
            NativeExtensionsError::ReaderNotFound => String::from_str("readerNotFound"),
            NativeExtensionsError::PlatformContextNotFound => String::from_str(
                "platformContextNotFound",
            ),
            NativeExtensionsError::UnsupportedOperation => String::from_str("unsupportedOperation"),
            NativeExtensionsError::VirtualFileSessionNotFound => String::from_str(
                "virtualFileSessionNotFound",
            ),
            NativeExtensionsError::VirtualFileReceiveError(_) => String::from_str(
                "virtualFileReceiveError",
            ),
            NativeExtensionsError::IOError(_) => String::from_str("ioError"),
            NativeExtensionsError::InvalidData => String::from_str("invalidData"),
            NativeExtensionsError::DragSessionNotFound => String::from_str("dragSessionNotFound"),
            NativeExtensionsError::MouseEventNotFound => String::from_str("mouseEventNotFound"),
            NativeExtensionsError::EngineContextError(_) => String::from_str("engineContextError"),
            NativeExtensionsError::PlatformMenuNotFound => String::from_str("platformMenuNotFound"),
            NativeExtensionsError::InvalidMenuElement => String::from_str("invalidMenuElement"),
            NativeExtensionsError::InvalidMenuConfigurationId => String::from_str(
                "invalidMenuConfigurationId",
            ),
        }
    }

    /// The error as it goes over the method channel: a fixed code, the message
    /// and the detail code.
    pub fn to_platform_error(&self) -> (res: PlatformErrorParts)
        ensures
            res.code@ == "super_native_extensions_error"@,
            res.message@ == error_message(*self),
            res.detail matches Some(d) && d@ == error_detail(*self),
    {
        PlatformErrorParts {
            code: String::from_str("super_native_extensions_error"),
            message: self.message(),
            detail: Some(self.get_detail()),
        }
    }
}

/// The error that a method channel handler answers a method it does not know
/// with: code `invalid_method` and a message that names the method.
pub fn unknown_method_error(method: &str) -> (res: PlatformErrorParts)
    ensures
        res.code@ == "invalid_method"@,
        res.message@ == "Unknown Method: "@ + method@,
        res.detail is None,
{
    let mut message = String::from_str("Unknown Method: ");
    message.append(method);
    PlatformErrorParts { code: String::from_str("invalid_method"), message, detail: None }
}

/// Errors of the clipboard plugin.
#[derive(Debug, Clone, PartialEq, Eq)]
pub enum ClipboardError {
    UnknownError,
    OtherError(String),
    ReaderNotFound,
}

pub type ClipboardResult<T> = Result<T, ClipboardError>;

/// The human readable message of a clipboard error.
pub open spec fn clipboard_error_message(e: ClipboardError) -> Seq<char> {
    match e {
        ClipboardError::UnknownError => "unknown error"@,
        ClipboardError::OtherError(m) => debug_quoted(m@),
        ClipboardError::ReaderNotFound => "platform reader not found"@,
    }
}

impl ClipboardError {
    /// The message that `Display` prints for this error.
    pub fn message(&self) -> (res: String)
        ensures
            res@ == clipboard_error_message(*self),
    {
        match self {
            ClipboardError::UnknownError => String::from_str("unknown error"),
            ClipboardError::OtherError(m) => debug_quote(m),
            ClipboardError::ReaderNotFound => String::from_str("platform reader not found"),
        }
    }

    /// The error as it goes over the method channel: a fixed code, the message
    /// and no detail.
    pub fn to_platform_error(&self) -> (res: PlatformErrorParts)
        ensures
            res.code@ == "clipboard_error"@,
            res.message@ == clipboard_error_message(*self),
            res.detail is None,
    {
        PlatformErrorParts {
            code: String::from_str("clipboard_error"),
            message: self.message(),
            detail: None,
        }
    }
}

} // verus!
