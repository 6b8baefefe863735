use fileporter::error::{AppError, AppErrorDto};

#[test]
fn errors_are_stable_and_safe() {
    let dto = AppErrorDto::from(AppError::DataDirectoryUnavailable);
    assert_eq!(dto.code, "internal");
    assert!(!dto.retryable);
}

#[test]
fn validation_preserves_only_the_stable_contract() {
    let dto = AppErrorDto::from(AppError::Validation {
        code: "invalid_path",
        message: "Choose an existing file or folder.",
        field: Some("paths"),
    });
    assert_eq!(dto.code, "invalid_path");
    assert_eq!(dto.field.as_deref(), Some("paths"));
}

#[test]
fn database_details_never_reach_the_interface() {
    let dto = AppErrorDto::from(AppError::Database("disk I/O error at /secret/path".into()));
    assert_eq!(dto.code, "internal");
    assert_eq!(dto.message, "Fileporter could not open its local settings.");
    assert!(dto.retryable);
    assert_eq!(dto.field, None);
    assert_eq!(AppError::Database("x".into()).text(), "database setup failed");
}

#[test]
fn field_bearing_errors_name_their_field() {
    let dto = AppErrorDto::from(AppError::DestinationUnwritable);
    assert_eq!(dto.code, "destination_unwritable");
    assert_eq!(dto.field.as_deref(), Some("receiveDirectory"));
    let dto = AppErrorDto::from(AppError::ListenerUnavailable);
    assert_eq!(dto.field.as_deref(), Some("listenAddress"));
    let dto = AppErrorDto::from(AppError::ClipboardBusy);
    assert_eq!(dto.code, "clipboard_busy");
    assert_eq!(
        AppError::Validation { code: "bad", message: "m", field: None }.text(),
        "invalid input: bad"
    );
}
