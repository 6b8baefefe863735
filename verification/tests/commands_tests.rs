use fileporter::commands::{
    apply_settings_patch, onboarded_settings, validate_device_name, CompleteOnboardingInput, PatchProbes,
    UpdateSettingsInput,
};
use fileporter::error::AppErrorDto;
use fileporter::records::Settings;

fn empty_patch() -> UpdateSettingsInput {
    UpdateSettingsInput {
        device_name: None,
        receive_directory: None,
        receiving_enabled: None,
        listen_address: None,
        launch_at_login: None,
        notifications_enabled: None,
        automatic_device_trust: None,
        history_retention_days: None,
    }
}

fn no_probes() -> PatchProbes {
    PatchProbes { receive_directory: None, listen_address: None }
}

#[test]
fn commands_device_name_is_trimmed_and_bounded() {
    assert_eq!(validate_device_name("  Work PC  ").unwrap(), "Work PC");
    assert!(validate_device_name("").is_err());
    assert!(validate_device_name(&"a".repeat(49)).is_err());
}

#[test]
fn commands_settings_patch_matches_camel_case_input() {
    let mut patch = empty_patch();
    patch.device_name = Some("Office PC".into());
    patch.receiving_enabled = Some(false);
    patch.automatic_device_trust = Some(false);
    let mut settings = Settings::default();
    apply_settings_patch(&mut settings, patch, no_probes()).unwrap();
    assert_eq!(settings.device_name, "Office PC");
    assert!(!settings.receiving_enabled);
    assert!(!settings.automatic_device_trust);
}

#[test]
fn commands_settings_patch_accepts_only_documented_history_retention_values() {
    let mut patch = empty_patch();
    patch.history_retention_days = Some(90);
    let mut settings = Settings::default();
    apply_settings_patch(&mut settings, patch, no_probes()).unwrap();
    assert_eq!(settings.history_retention_days, 90);
    let mut invalid = empty_patch();
    invalid.history_retention_days = Some(14);
    let error = apply_settings_patch(&mut settings, invalid, no_probes()).unwrap_err();
    assert_eq!(error.message, "Choose 7, 30, 90 days, or forever.");
    assert_eq!(settings.history_retention_days, 90);
}

#[test]
fn desktop_name_errors_use_the_desktop_text() {
    let error = validate_device_name("   ").unwrap_err();
    assert_eq!(error.code, "invalid_device_name");
    assert_eq!(error.message, "Device name must be between 1 and 48 characters.");
    assert_eq!(error.field.as_deref(), Some("deviceName"));
    assert!(!error.retryable);
    assert_eq!(validate_device_name(&"é".repeat(48)).unwrap(), "é".repeat(48));
}

#[test]
fn onboarding_completes_with_the_given_preferences() {
    let previous = Settings::default();
    let input = CompleteOnboardingInput {
        device_name: " Studio ".into(),
        receive_directory: "~/In".into(),
        launch_at_login: Some(false),
        notifications_enabled: None,
        automatic_device_trust: Some(false),
    };
    let settings = onboarded_settings(&previous, &input, Ok("/home/u/In".into())).unwrap();
    assert_eq!(settings.device_name, "Studio");
    assert_eq!(settings.receive_directory.as_deref(), Some("/home/u/In"));
    assert!(settings.onboarding_complete);
    assert!(!settings.launch_at_login);
    assert!(settings.notifications_enabled);
    assert!(!settings.automatic_device_trust);
    assert_eq!(settings.listen_address, previous.listen_address);
    let failure = AppErrorDto { code: "destination_unwritable".into(), message: "m".into(), retryable: true, field: None };
    assert_eq!(onboarded_settings(&previous, &input, Err(failure.clone())), Err(failure));
}
