//! Application errors and the stable form in which they reach the user
//! interface: a code, a message safe to show, whether retrying may help, and
//! the input field concerned.
use crate::text::push_str_chars;
use vstd::prelude::*;

verus! {

/// What the user interface receives for an error.
#[derive(Debug, Clone, PartialEq, Eq)]
pub struct AppErrorDto {
    pub code: String,
    pub message: String,
    pub retryable: bool,
    pub field: Option<String>,
}

/// An application error.  `Database` carries the storage engine's own text.
#[derive(Debug, Clone, PartialEq, Eq)]
pub enum AppError {
    Database(String),
    DataDirectoryUnavailable,
    MainWindowUnavailable,
    EventEmissionFailed,
    Validation { code: &'static str, message: &'static str, field: Option<&'static str> },
    DestinationUnwritable,
    IdentityStorageInvalid,
    ListenerUnavailable,
    CompletedOutputUnavailable,
    DesktopActionFailed,
    ClipboardBusy,
}

/// The code, message, retry hint and field that `error` is shown with.
/// Validation errors keep their own code, message and field and are never
/// retryable; every other error has a fixed text that reveals no detail.
pub open spec fn dto_of(error: AppError) -> (Seq<char>, Seq<char>, bool, Option<Seq<char>>) {
    match error {
        AppError::Database(_) => ("internal"@, "Fileporter could not open its local settings."@, true, None),
        AppError::DataDirectoryUnavailable => ("internal"@, "Fileporter could not find a local data directory."@, false, None),
        AppError::MainWindowUnavailable => ("internal"@, "Fileporter's main window is unavailable."@, true, None),
        AppError::EventEmissionFailed => ("internal"@, "Fileporter could not update the window state."@, true, None),
        AppError::Validation { code, message, field } => (code@, message@, false, match field {
            Some(f) => Some(f@),
            None => None,
        }),
        AppError::DestinationUnwritable => (
            "destination_unwritable"@,
            "Fileporter cannot create and write to that receive folder."@,
            true,
            Some("receiveDirectory"@),
        ),
        AppError::IdentityStorageInvalid => (
            "identity_storage_invalid"@,
            "Fileporter could not read its local device identity."@,
            false,
            None,
        ),
        AppError::ListenerUnavailable => (
            "listener_unavailable"@,
            "Fileporter could not start its local receiving listener."@,
            true,
            Some("listenAddress"@),
        ),
        AppError::CompletedOutputUnavailable => ("invalid_path"@, "That completed local item is no longer available."@, false, None),
        AppError::DesktopActionFailed => ("internal"@, "Fileporter could not complete the requested desktop action."@, true, None),
        AppError::ClipboardBusy => (
            "clipboard_busy"@,
            "Fileporter could not access the system clipboard. Close another clipboard app and try again."@,
            true,
            None,
        ),
    }
}

/// Whether `dto` shows exactly what `dto_of` gives.
pub open spec fn shows(dto: AppErrorDto, view: (Seq<char>, Seq<char>, bool, Option<Seq<char>>)) -> bool {
    &&& dto.code@ == view.0
    &&& dto.message@ == view.1
    &&& dto.retryable == view.2
    &&& match (dto.field, view.3) {
        (Some(f), Some(g)) => f@ == g,
        (None, None) => true,
        _ => false,
    }
}

fn dto(code: &str, message: &str, retryable: bool, field: Option<&str>) -> (d: AppErrorDto)
    ensures
        d.code@ == code@,
        d.message@ == message@,
        d.retryable == retryable,
        match (d.field, field) {
            (Some(f), Some(g)) => f@ == g@,
            (None, None) => true,
            _ => false,
        },
{
    AppErrorDto {
        code: code.to_owned(),
        message: message.to_owned(),
        retryable,
        field: match field {
            Some(f) => Some(f.to_owned()),
            None => None,
        },
    }
}

impl AppErrorDto {
    /// The form in which `value` reaches the user interface.
    pub fn from(value: AppError) -> (d: AppErrorDto)
        ensures
            shows(d, dto_of(value)),
    {
        match value {
            AppError::Database(_) => dto("internal", "Fileporter could not open its local settings.", true, None),
            AppError::DataDirectoryUnavailable => dto("internal", "Fileporter could not find a local data directory.", false, None),
            AppError::MainWindowUnavailable => dto("internal", "Fileporter's main window is unavailable.", true, None),
            AppError::EventEmissionFailed => dto("internal", "Fileporter could not update the window state.", true, None),
            AppError::Validation { code, message, field } => dto(code, message, false, field),
            AppError::DestinationUnwritable => dto(
                "destination_unwritable",
                "Fileporter cannot create and write to that receive folder.",
                true,
                Some("receiveDirectory"),
            ),
            AppError::IdentityStorageInvalid => dto(
                "identity_storage_invalid",
                "Fileporter could not read its local device identity.",
                false,
                None,
            ),
            AppError::ListenerUnavailable => dto(
                "listener_unavailable",
                "Fileporter could not start its local receiving listener.",
                true,
                Some("listenAddress"),
            ),
            AppError::CompletedOutputUnavailable => dto("invalid_path", "That completed local item is no longer available.", false, None),
            AppError::DesktopActionFailed => dto("internal", "Fileporter could not complete the requested desktop action.", true, None),
            AppError::ClipboardBusy => dto(
                "clipboard_busy",
                "Fileporter could not access the system clipboard. Close another clipboard app and try again.",
                true,
                None,
            ),
        }
    }
}

/// The description of each `AppError` for logs.
pub open spec fn app_error_text(error: AppError) -> Seq<char> {
    match error {
        AppError::Database(_) => "database setup failed"@,
        AppError::DataDirectoryUnavailable => "application data directory is unavailable"@,
        AppError::MainWindowUnavailable => "main window is unavailable"@,
        AppError::EventEmissionFailed => "application event could not be delivered"@,
        AppError::Validation { code, .. } => "invalid input: "@ + code@,
        AppError::DestinationUnwritable => "receive directory is not writable"@,
        AppError::IdentityStorageInvalid => "local identity storage is invalid"@,
        AppError::ListenerUnavailable => "listener lifecycle failed"@,
        AppError::CompletedOutputUnavailable => "a completed local output is unavailable"@,
        AppError::DesktopActionFailed => "native desktop action failed"@,
        AppError::ClipboardBusy => "native clipboard is busy"@,
    }
}

impl AppError {
    /// The error's description for logs.
    pub fn text(&self) -> (t: String)
        ensures
            t@ == app_error_text(*self),
    {
        match self {
            AppError::Database(_) => "database setup failed".to_owned(),
            AppError::DataDirectoryUnavailable => "application data directory is unavailable".to_owned(),
            AppError::MainWindowUnavailable => "main window is unavailable".to_owned(),
            AppError::EventEmissionFailed => "application event could not be delivered".to_owned(),
            AppError::Validation { code, .. } => {
                let mut t = "invalid input: ".to_owned();
                push_str_chars(&mut t, code);
                t
            },
            AppError::DestinationUnwritable => "receive directory is not writable".to_owned(),
            AppError::IdentityStorageInvalid => "local identity storage is invalid".to_owned(),
            AppError::ListenerUnavailable => "listener lifecycle failed".to_owned(),
            AppError::CompletedOutputUnavailable => "a completed local output is unavailable".to_owned(),
            AppError::DesktopActionFailed => "native desktop action failed".to_owned(),
            AppError::ClipboardBusy => "native clipboard is busy".to_owned(),
        }
    }
}

} // verus!
