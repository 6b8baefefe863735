use fileporter::engine::{IpAddress, SocketAddress};
use fileporter::error::AppErrorDto;
use fileporter::records::Settings;
use fileporter::settings_ops::{apply_settings_patch, history_cutoff, validate_device_name, PatchProbes, UpdateSettingsInput};

fn empty_patch() -> UpdateSettingsInput {
    UpdateSettingsInput {
        device_name: None,
        receive_directory: None,
        receiving_enabled: None,
        listen_address: None,
        launch_at_login: None,
        notifications_enabled: None,
        automatic_device_trust: None,
        history_retention_days: None,
    }
}

fn no_probes() -> PatchProbes {
    PatchProbes { receive_directory: None, listen_address: None }
}

#[test]
fn settings_ops_device_name_is_trimmed_and_bounded() {
    assert_eq!(validate_device_name("  Work PC  ").unwrap(), "Work PC");
    assert!(validate_device_name("").is_err());
    assert!(validate_device_name(&"a".repeat(49)).is_err());
}

#[test]
fn settings_ops_settings_patch_matches_camel_case_input() {
    let mut patch = empty_patch();
    patch.device_name = Some("Office PC".into());
    patch.receiving_enabled = Some(false);
    patch.automatic_device_trust = Some(false);
    let mut settings = Settings::default();
    apply_settings_patch(&mut settings, patch, no_probes()).unwrap();
    assert_eq!(settings.device_name, "Office PC");
    assert!(!settings.receiving_enabled);
    assert!(!settings.automatic_device_trust);
}

#[test]
fn settings_ops_settings_patch_accepts_only_documented_history_retention_values() {
    let mut patch = empty_patch();
    patch.history_retention_days = Some(90);
    let mut settings = Settings::default();
    apply_settings_patch(&mut settings, patch, no_probes()).unwrap();
    assert_eq!(settings.history_retention_days, 90);
    let mut invalid = empty_patch();
    invalid.history_retention_days = Some(14);
    assert!(apply_settings_patch(&mut settings, invalid, no_probes()).is_err());
}

#[test]
fn defaults_are_the_documented_first_run_settings() {
    let settings = Settings::default();
    assert_eq!(settings.device_name, "");
    assert_eq!(settings.receive_directory, None);
    assert!(!settings.onboarding_complete);
    assert!(settings.receiving_enabled);
    assert_eq!(settings.listen_address, "0.0.0.0:0");
    assert!(settings.launch_at_login);
    assert!(settings.notifications_enabled);
    assert!(settings.automatic_device_trust);
    assert_eq!(settings.history_retention_days, 30);
}

#[test]
fn a_failing_step_keeps_what_was_applied_before_it() {
    let mut patch = empty_patch();
    patch.device_name = Some("Laptop".into());
    patch.receiving_enabled = Some(false);
    patch.listen_address = Some("8.8.8.8:1".into());
    patch.launch_at_login = Some(false);
    let probes = PatchProbes {
        receive_directory: None,
        listen_address: Some(SocketAddress { ip: IpAddress::V4([8, 8, 8, 8]), port: 1 }),
    };
    let mut settings = Settings::default();
    let error = apply_settings_patch(&mut settings, patch, probes).unwrap_err();
    assert_eq!(error.code, "invalid_listen_address");
    assert_eq!(error.message, "Invalid listen address");
    assert_eq!(error.field.as_deref(), Some("listenAddress"));
    assert_eq!(settings.device_name, "Laptop");
    assert!(!settings.receiving_enabled);
    assert_eq!(settings.listen_address, "0.0.0.0:0");
    assert!(settings.launch_at_login);
}

#[test]
fn probed_folders_and_private_listen_addresses_are_applied() {
    let mut patch = empty_patch();
    patch.receive_directory = Some("~/Incoming".into());
    patch.listen_address = Some("192.168.1.4:4000".into());
    let probes = PatchProbes {
        receive_directory: Some(Ok("/home/u/Incoming".into())),
        listen_address: Some(SocketAddress { ip: IpAddress::V4([192, 168, 1, 4]), port: 4000 }),
    };
    let mut settings = Settings::default();
    apply_settings_patch(&mut settings, patch, probes).unwrap();
    assert_eq!(settings.receive_directory.as_deref(), Some("/home/u/Incoming"));
    assert_eq!(settings.listen_address, "192.168.1.4:4000");
}

#[test]
fn an_unwritable_folder_reports_the_probe_error() {
    let mut patch = empty_patch();
    patch.receive_directory = Some("/nope".into());
    let failure = AppErrorDto { code: "destination_unwritable".into(), message: "m".into(), retryable: true, field: None };
    let probes = PatchProbes { receive_directory: Some(Err(failure.clone())), listen_address: None };
    let mut settings = Settings::default();
    assert_eq!(apply_settings_patch(&mut settings, patch, probes), Err(failure));
    assert_eq!(settings.receive_directory, None);
}

#[test]
fn history_cutoff_counts_days_back_from_now() {
    let mut settings = Settings::default();
    assert_eq!(history_cutoff(&settings, 10_000_000), Some(10_000_000 - 30 * 86_400));
    settings.history_retention_days = 0;
    assert_eq!(history_cutoff(&settings, 10_000_000), None);
    settings.history_retention_days = 7;
    assert_eq!(history_cutoff(&settings, i64::MIN + 5), Some(i64::MIN));
}
