//! Settings validation shared by every shell: a setting accepted on one
//! platform means the same thing on the other.  Checking that a receive
//! folder can be written and parsing a listen address are the caller's; what
//! is done with their outcome is here.
use crate::engine::{loopback_or_private, unspecified, validate_listen_address, SocketAddress};
use crate::error::{dto_of, shows, AppError, AppErrorDto};
use crate::records::Settings;
use crate::text::{trim, trimmed};
use vstd::prelude::*;

verus! {

/// What the onboarding form submits.
#[derive(Debug, Clone, PartialEq, Eq)]
pub struct CompleteOnboardingInput {
    pub device_name: String,
    pub receive_directory: String,
    pub launch_at_login: Option<bool>,
    pub notifications_enabled: Option<bool>,
    pub automatic_device_trust: Option<bool>,
}

/// A partial settings update: each field that is present is applied.
#[derive(Debug, Clone, PartialEq, Eq)]
pub struct UpdateSettingsInput {
    pub device_name: Option<String>,
    pub receive_directory: Option<String>,
    pub receiving_enabled: Option<bool>,
    pub listen_address: Option<String>,
    pub launch_at_login: Option<bool>,
    pub notifications_enabled: Option<bool>,
    pub automatic_device_trust: Option<bool>,
    pub history_retention_days: Option<i64>,
}

/// What the caller found out for an update: the canonical receive folder
/// after probing that it can be written (or why it cannot), and the parsed
/// listen address (`None` when the text does not parse).
#[derive(Debug, Clone, PartialEq, Eq)]
pub struct PatchProbes {
    pub receive_directory: Option<Result<String, AppErrorDto>>,
    pub listen_address: Option<SocketAddress>,
}

/// The user-facing texts of the three validation errors of an update.
#[derive(Debug, Clone, Copy)]
pub struct PatchTexts {
    pub device_name: &'static str,
    pub listen_address: &'static str,
    pub history_retention: &'static str,
}

/// A device name is 1 to 48 characters once surrounding white space is removed.
pub open spec fn device_name_ok(name: Seq<char>) -> bool {
    0 < trimmed(name).len() <= 48
}

/// History is kept forever (0) or for 7, 30 or 90 days.
pub open spec fn retention_allowed(days: i64) -> bool {
    days == 0 || days == 7 || days == 30 || days == 90
}

pub open spec fn name_error(message: &'static str) -> AppError {
    AppError::Validation { code: "invalid_device_name", message, field: Some("deviceName") }
}

pub open spec fn listen_error(message: &'static str) -> AppError {
    AppError::Validation { code: "invalid_listen_address", message, field: Some("listenAddress") }
}

pub open spec fn retention_error(message: &'static str) -> AppError {
    AppError::Validation {
        code: "invalid_history_retention",
        message,
        field: Some("historyRetentionDays"),
    }
}

/// The trimmed device name, or the validation error shown with `message`.
pub fn check_device_name(name: &str, message: &'static str) -> (result: Result<String, AppErrorDto>)
    ensures
        match result {
            Ok(s) => device_name_ok(name@) && s@ == trimmed(name@),
            Err(d) => !device_name_ok(name@) && shows(d, dto_of(name_error(message))),
        },
{
    let t = trim(name);
    let count = t.as_str().unicode_len();
    if count == 0 || count > 48 {
        return Err(AppErrorDto::from(AppError::Validation {
            code: "invalid_device_name",
            message,
            field: Some("deviceName"),
        }));
    }
    Ok(t)
}

/// Checks a history retention value.
pub fn check_history_retention(days: i64, message: &'static str) -> (result: Result<(), AppErrorDto>)
    ensures
        match result {
            Ok(()) => retention_allowed(days),
            Err(d) => !retention_allowed(days) && shows(d, dto_of(retention_error(message))),
        },
{
    if days == 0 || days == 7 || days == 30 || days == 90 {
        Ok(())
    } else {
        Err(AppErrorDto::from(AppError::Validation {
            code: "invalid_history_retention",
            message,
            field: Some("historyRetentionDays"),
        }))
    }
}

/// Whether a listen address, as parsed, may be used.
pub open spec fn listen_ok(parsed: Option<SocketAddress>) -> bool {
    parsed matches Some(a) && (unspecified(a.ip) || loopback_or_private(a.ip))
}

/// Each step of an update fails or passes in order: the name, the receive
/// folder, the listen address, the retention.  `n`, `d`, `l` and `r` are
/// whether each step fails.
pub open spec fn patch_failures(input: UpdateSettingsInput, probes: PatchProbes) -> (bool, bool, bool, bool) {
    let n = input.device_name matches Some(x) && !device_name_ok(x@);
    let d = !n && (probes.receive_directory matches Some(Err(_)));
    let l = !n && !d && input.listen_address is Some && !listen_ok(probes.listen_address);
    let r = !n && !d && !l && (input.history_retention_days matches Some(x) && !retention_allowed(x));
    (n, d, l, r)
}

/// What an update does: each present field is applied in order until a
/// step fails; what was applied before the failing step stays applied, the
/// rest is left as it was.
pub open spec fn patched(old: Settings, new: Settings, input: UpdateSettingsInput, probes: PatchProbes) -> bool {
    let (n, d, l, r) = patch_failures(input, probes);
    &&& new.device_name@ == (match input.device_name {
        Some(x) => if n {
            old.device_name@
        } else {
            trimmed(x@)
        },
        None => old.device_name@,
    })
    &&& (match (probes.receive_directory, n) {
        (Some(Ok(p)), false) => new.receive_directory matches Some(q) && q@ == p@,
        _ => new.receive_directory == old.receive_directory,
    })
    &&& new.receiving_enabled == (match input.receiving_enabled {
        Some(v) => if n || d {
            old.receiving_enabled
        } else {
            v
        },
        None => old.receiving_enabled,
    })
    &&& new.listen_address@ == (match input.listen_address {
        Some(a) => if n || d || l {
            old.listen_address@
        } else {
            a@
        },
        None => old.listen_address@,
    })
    &&& new.launch_at_login == (match input.launch_at_login {
        Some(v) => if n || d || l {
            old.launch_at_login
        } else {
            v
        },
        None => old.launch_at_login,
    })
    &&& new.notifications_enabled == (match input.notifications_enabled {
        Some(v) => if n || d || l {
            old.notifications_enabled
        } else {
            v
        },
        None => old.notifications_enabled,
    })
    &&& new.automatic_device_trust == (match input.automatic_device_trust {
        Some(v) => if n || d || l {
            old.automatic_device_trust
        } else {
            v
        },
        None => old.automatic_device_trust,
    })
    &&& new.history_retention_days == (match input.history_retention_days {
        Some(v) => if n || d || l || r {
            old.history_retention_days
        } else {
            v
        },
        None => old.history_retention_days,
    })
    &&& new.onboarding_complete == old.onboarding_complete
}

/// What an update reports: the error of the first failing step, or success.
pub open spec fn patch_reported(result: Result<(), AppErrorDto>, input: UpdateSettingsInput, probes: PatchProbes, texts: PatchTexts) -> bool {
    let (n, d, l, r) = patch_failures(input, probes);
    if n {
        result matches Err(e) && shows(e, dto_of(name_error(texts.device_name)))
    } else if d {
        probes.receive_directory matches Some(Err(e)) && result == Err::<(), AppErrorDto>(e)
    } else if l {
        result matches Err(e) && shows(e, dto_of(listen_error(texts.listen_address)))
    } else if r {
        result matches Err(e) && shows(e, dto_of(retention_error(texts.history_retention)))
    } else {
        result is Ok
    }
}

/// Applies `input` to `settings` with the validation texts `texts`.
pub fn patch_settings(settings: &mut Settings, input: UpdateSettingsInput, probes: PatchProbes, texts: PatchTexts) -> (result: Result<(), AppErrorDto>)
    requires
        input.receive_directory is Some ==> probes.receive_directory is Some,
        input.receive_directory is None ==> probes.receive_directory is None,
    ensures
        patched(*old(settings), *final(settings), input, probes),
        patch_reported(result, input, probes, texts),
{
    if let Some(name) = &input.device_name {
        match check_device_name(name.as_str(), texts.device_name) {
            Ok(trimmed_name) => {
                settings.device_name = trimmed_name;
            },
            Err(e) => {
                return Err(e);
            },
        }
    }
    if let Some(probed) = probes.receive_directory {
        match probed {
            Ok(directory) => {
                settings.receive_directory = Some(directory);
            },
            Err(e) => {
                return Err(e);
            },
        }
    }
    if let Some(value) = input.receiving_enabled {
        settings.receiving_enabled = value;
    }
    if let Some(address) = input.listen_address {
        if validate_listen_address(probes.listen_address).is_err() {
            return Err(AppErrorDto::from(AppError::Validation {
                code: "invalid_listen_address",
                message: texts.listen_address,
                field: Some("listenAddress"),
            }));
        }
        settings.listen_address = address;
    }
    if let Some(value) = input.launch_at_login {
        settings.launch_at_login = value;
    }
    if let Some(value) = input.notifications_enabled {
        settings.notifications_enabled = value;
    }
    if let Some(value) = input.automatic_device_trust {
        settings.automatic_device_trust = value;
    }
    if let Some(days) = input.history_retention_days {
        match check_history_retention(days, texts.history_retention) {
            Ok(()) => {},
            Err(e) => {
                return Err(e);
            },
        }
        settings.history_retention_days = days;
    }
    Ok(())
}

/// The texts this module's validation errors are shown with.
pub fn settings_texts() -> (texts: PatchTexts)
    ensures
        texts.device_name == "Name must be 1\u{2013}48 characters",
        texts.listen_address == "Invalid listen address",
        texts.history_retention == "Invalid retention",
{
    PatchTexts {
        device_name: "Name must be 1\u{2013}48 characters",
        listen_address: "Invalid listen address",
        history_retention: "Invalid retention",
    }
}

/// The trimmed device name, when it is 1 to 48 characters long.
pub fn validate_device_name(name: &str) -> (result: Result<String, AppErrorDto>)
    ensures
        match result {
            Ok(s) => device_name_ok(name@) && s@ == trimmed(name@),
            Err(d) => !device_name_ok(name@) && shows(d, dto_of(name_error("Name must be 1\u{2013}48 characters"))),
        },
{
    check_device_name(name, "Name must be 1\u{2013}48 characters")
}

/// Checks a history retention value: forever (0), 7, 30 or 90 days.
pub fn validate_history_retention(days: i64) -> (result: Result<(), AppErrorDto>)
    ensures
        match result {
            Ok(()) => retention_allowed(days),
            Err(d) => !retention_allowed(days) && shows(d, dto_of(retention_error("Invalid retention"))),
        },
{
    check_history_retention(days, "Invalid retention")
}

/// Applies a partial update to `settings`; see `patched` and `patch_reported`.
pub fn apply_settings_patch(settings: &mut Settings, input: UpdateSettingsInput, probes: PatchProbes) -> (result: Result<(), AppErrorDto>)
    requires
        input.receive_directory is Some ==> probes.receive_directory is Some,
        input.receive_directory is None ==> probes.receive_directory is None,
    ensures
        patched(*old(settings), *final(settings), input, probes),
        patch_reported(result, input, probes, settings_texts_spec()),
{
    patch_settings(settings, input, probes, settings_texts())
}

pub open spec fn settings_texts_spec() -> PatchTexts {
    PatchTexts {
        device_name: "Name must be 1\u{2013}48 characters",
        listen_address: "Invalid listen address",
        history_retention: "Invalid retention",
    }
}

/// The instant before which finished history is pruned: `days` days before
/// `now` (saturating at `i64::MIN`), or nothing when history is kept forever.
pub open spec fn retention_cutoff_of(now: i64, days: i64) -> Option<i64> {
    if days > 0 {
        let c = now - days * 86400;
        Some(if c < i64::MIN { i64::MIN } else { c as i64 })
    } else {
        None
    }
}

/// The cutoff before which finished batches are pruned under `settings`.
pub fn history_cutoff(settings: &Settings, now: i64) -> (cutoff: Option<i64>)
    requires
        settings.history_retention_days * 86400 <= i64::MAX,
    ensures
        cutoff == retention_cutoff_of(now, settings.history_retention_days),
{
    if settings.history_retention_days > 0 {
        let span = settings.history_retention_days * 86400;
        if now < i64::MIN + span {
            Some(i64::MIN)
        } else {
            Some(now - span)
        }
    } else {
        None
    }
}

} // verus!
