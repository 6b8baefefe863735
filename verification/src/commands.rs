//! What the desktop commands decide: the shapes of their inputs, and how
//! onboarding and settings updates change the settings, with the texts the
//! desktop shows for invalid input.
pub use crate::settings_ops::{CompleteOnboardingInput, PatchProbes, UpdateSettingsInput};
use crate::error::{dto_of, shows, AppErrorDto};
use crate::records::Settings;
use crate::settings_ops::{
    check_device_name, check_history_retention, device_name_ok, name_error, patch_reported, patch_settings, patched,
    retention_allowed, retention_error, PatchTexts,
};
use crate::text::trimmed;
use vstd::prelude::*;

verus! {

#[derive(Debug, Clone, PartialEq, Eq)]
pub struct RequestPairingInput {
    pub remote_name: String,
    pub public_key: Vec<u8>,
    pub certificate_fingerprint: String,
}

#[derive(Debug, Clone, PartialEq, Eq)]
pub struct PairingIdInput {
    pub pairing_id: String,
}

#[derive(Debug, Clone, PartialEq, Eq)]
pub struct StartPairingAtEndpointInput {
    pub endpoint: String,
}

#[derive(Debug, Clone, PartialEq, Eq)]
pub struct DiscoveredDeviceInput {
    pub device_id: String,
}

#[derive(Debug, Clone, PartialEq, Eq)]
pub struct RenameTrustedDeviceInput {
    pub device_id: String,
    pub alias: String,
}

#[derive(Debug, Clone, PartialEq, Eq)]
pub struct SendQueuedLoopbackInput {
    pub batch_id: String,
}

#[derive(Debug, Clone, PartialEq, Eq)]
pub struct BatchIdInput {
    pub batch_id: String,
}

#[derive(Debug, Clone, PartialEq, Eq)]
pub struct ItemIdInput {
    pub item_id: String,
}

/// The texts the desktop shows for invalid settings.
pub open spec fn desktop_texts() -> PatchTexts {
    PatchTexts {
        device_name: "Device name must be between 1 and 48 characters.",
        listen_address: "Use a loopback or private listen address with a port.",
        history_retention: "Choose 7, 30, 90 days, or forever.",
    }
}

fn desktop_texts_exec() -> (texts: PatchTexts)
    ensures
        texts == desktop_texts(),
{
    PatchTexts {
        device_name: "Device name must be between 1 and 48 characters.",
        listen_address: "Use a loopback or private listen address with a port.",
        history_retention: "Choose 7, 30, 90 days, or forever.",
    }
}

/// The trimmed device name, when it is 1 to 48 characters long.
pub fn validate_device_name(name: &str) -> (result: Result<String, AppErrorDto>)
    ensures
        match result {
            Ok(s) => device_name_ok(name@) && s@ == trimmed(name@),
            Err(d) => !device_name_ok(name@) && shows(d, dto_of(name_error(desktop_texts().device_name))),
        },
{
    check_device_name(name, "Device name must be between 1 and 48 characters.")
}

/// Checks a history retention value: forever (0), 7, 30 or 90 days.
pub fn validate_history_retention(days: i64) -> (result: Result<(), AppErrorDto>)
    ensures
        match result {
            Ok(()) => retention_allowed(days),
            Err(d) => !retention_allowed(days) && shows(d, dto_of(retention_error(desktop_texts().history_retention))),
        },
{
    check_history_retention(days, "Choose 7, 30, 90 days, or forever.")
}

/// Applies a partial update to `settings`, as the desktop does.
pub fn apply_settings_patch(settings: &mut Settings, input: UpdateSettingsInput, probes: PatchProbes) -> (result: Result<(), AppErrorDto>)
    requires
        input.receive_directory is Some ==> probes.receive_directory is Some,
        input.receive_directory is None ==> probes.receive_directory is None,
    ensures
        patched(*old(settings), *final(settings), input, probes),
        patch_reported(result, input, probes, desktop_texts()),
{
    patch_settings(settings, input, probes, desktop_texts_exec())
}

/// The settings that onboarding leaves: the previous settings with the
/// validated name, the probed receive folder, onboarding complete, and each
/// preference that the form gives.  A bad name is reported before the
/// folder's own error.
pub fn onboarded_settings(previous: &Settings, input: &CompleteOnboardingInput, probed_directory: Result<String, AppErrorDto>) -> (result: Result<Settings, AppErrorDto>)
    ensures
        match result {
            Ok(s) => {
                &&& device_name_ok(input.device_name@)
                &&& s.device_name@ == trimmed(input.device_name@)
                &&& probed_directory matches Ok(p) && s.receive_directory matches Some(q) && q@ == p@
                &&& s.onboarding_complete
                &&& s.receiving_enabled == previous.receiving_enabled
                &&& s.listen_address@ == previous.listen_address@
                &&& s.launch_at_login == (match input.launch_at_login {
                    Some(v) => v,
                    None => previous.launch_at_login,
                })
                &&& s.notifications_enabled == (match input.notifications_enabled {
                    Some(v) => v,
                    None => previous.notifications_enabled,
                })
                &&& s.automatic_device_trust == (match input.automatic_device_trust {
                    Some(v) => v,
                    None => previous.automatic_device_trust,
                })
                &&& s.history_retention_days == previous.history_retention_days
            },
            Err(d) => if !device_name_ok(input.device_name@) {
                shows(d, dto_of(name_error(desktop_texts().device_name)))
            } else {
                probed_directory == Err::<String, AppErrorDto>(d)
            },
        },
{
    let name = validate_device_name(input.device_name.as_str())?;
    let directory = probed_directory?;
    Ok(Settings {
        device_name: name,
        receive_directory: Some(directory),
        onboarding_complete: true,
        receiving_enabled: previous.receiving_enabled,
        listen_address: previous.listen_address.clone(),
        launch_at_login: match input.launch_at_login {
            Some(value) => value,
            None => previous.launch_at_login,
        },
        notifications_enabled: match input.notifications_enabled {
            Some(value) => value,
            None => previous.notifications_enabled,
        },
        automatic_device_trust: match input.automatic_device_trust {
            Some(value) => value,
            None => previous.automatic_device_trust,
        },
        history_retention_days: previous.history_retention_days,
    })
}

} // verus!
