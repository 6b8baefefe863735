//! The desktop's pairing bookkeeping: how a pairing request is validated and
//! recorded, how its session is restored and confirmed, what the interface
//! is shown of pending pairings and trusted devices, and how the TLS
//! credential is packed for the secret store.  Storage, clocks and the
//! secret store are the caller's.
use crate::bytes::{be_u32, copy_range, push_be_u32, push_bytes, read_be_u32, u32_of_be, lemma_u32_round_trip};
use crate::error::AppError;
use crate::identity::{
    confirmation_result, confirmed_state, device_id_of, expired_state, DevicePublicIdentity, PairingError,
    PairingSession, PairingState,
};
use crate::records::{PendingPairing, TrustedPeer};
use crate::text::{
    chars_of, decimal, decimal_chars, hex_decode, hex_decoded, lower_all, lowercase_chars, push_chars,
    push_str_chars, string_from_chars, string_from_range, trim, trimmed,
};
use vstd::prelude::*;

verus! {

/// Seconds a pairing request stays open.
pub const PAIRING_LIFETIME_SECS: i64 = 120;

/// A pending pairing as the interface shows it.
#[derive(Debug, Clone, PartialEq, Eq)]
pub struct PendingPairingView {
    pub id: String,
    pub device_id: String,
    pub remote_name: String,
    pub certificate_fingerprint: String,
    pub expires_at: i64,
    pub local_confirmed: bool,
    pub remote_confirmed: bool,
    pub sas_code: Option<String>,
}

/// A trusted device as the interface shows it; the fingerprint is cut to
/// its first 16 characters.
#[derive(Debug, Clone, PartialEq, Eq)]
pub struct TrustedDeviceView {
    pub device_id: String,
    pub name: String,
    pub alias: Option<String>,
    pub paired_at: i64,
    pub last_seen_at: Option<i64>,
    pub certificate_fingerprint_short: String,
    pub auto_send: bool,
    pub endpoint: Option<String>,
}

#[derive(Debug, Clone, PartialEq, Eq)]
pub struct PairingConfirmationView {
    pub pairing: PendingPairingView,
    pub trusted_device: Option<TrustedDeviceView>,
}

#[derive(Debug, Clone, PartialEq, Eq)]
pub struct PairingSnapshot {
    pub local_device_id: String,
    pub pending_pairings: Vec<PendingPairingView>,
    pub trusted_devices: Vec<TrustedDeviceView>,
}

/// The error for an invalid pairing input in `field`.
pub open spec fn invalid_pairing_spec(field: &'static str) -> AppError {
    AppError::Validation { code: "invalid_pairing", message: "The pairing request is invalid.", field: Some(field) }
}

pub fn invalid_pairing(field: &'static str) -> (e: AppError)
    ensures
        e == invalid_pairing_spec(field),
{
    AppError::Validation { code: "invalid_pairing", message: "The pairing request is invalid.", field: Some(field) }
}

pub open spec fn pairing_not_found_spec() -> AppError {
    AppError::Validation {
        code: "pairing_not_found",
        message: "That pairing request is no longer available.",
        field: Some("pairingId"),
    }
}

pub fn pairing_not_found() -> (e: AppError)
    ensures
        e == pairing_not_found_spec(),
{
    AppError::Validation {
        code: "pairing_not_found",
        message: "That pairing request is no longer available.",
        field: Some("pairingId"),
    }
}

pub open spec fn pairing_expired_spec() -> AppError {
    AppError::Validation {
        code: "pairing_expired",
        message: "That pairing request has expired. Start a new pairing request.",
        field: Some("pairingId"),
    }
}

pub fn pairing_expired() -> (e: AppError)
    ensures
        e == pairing_expired_spec(),
{
    AppError::Validation {
        code: "pairing_expired",
        message: "That pairing request has expired. Start a new pairing request.",
        field: Some("pairingId"),
    }
}

/// A display text: 1 to 128 characters once surrounding white space is
/// removed.
pub open spec fn text_ok(value: Seq<char>) -> bool {
    0 < trimmed(value).len() <= 128
}

pub fn validate_text(value: &str, field: &'static str) -> (result: Result<String, AppError>)
    ensures
        match result {
            Ok(s) => text_ok(value@) && s@ == trimmed(value@),
            Err(e) => !text_ok(value@) && e == invalid_pairing_spec(field),
        },
{
    let text = trim(value);
    let count = text.as_str().unicode_len();
    if count == 0 || count > 128 {
        Err(invalid_pairing(field))
    } else {
        Ok(text)
    }
}

pub open spec fn fingerprint_prefix() -> Seq<char> {
    seq!['b', 'l', 'a', 'k', 'e', '3', ':']
}

/// The hexadecimal part of a fingerprint: the trimmed text without a
/// leading `blake3:`.
pub open spec fn fingerprint_hex(value: Seq<char>) -> Seq<char> {
    let t = trimmed(value);
    if t.len() >= 7 && t.subrange(0, 7) == fingerprint_prefix() {
        t.subrange(7, t.len() as int)
    } else {
        t
    }
}

/// A certificate fingerprint: 32 bytes of hexadecimal, optionally after
/// `blake3:`; it is kept as `blake3:` and lower-case hexadecimal.
pub open spec fn fingerprint_ok(value: Seq<char>) -> bool {
    hex_decoded(fingerprint_hex(value)) matches Some(b) && b.len() == 32
}

/// The hexadecimal part of a fingerprint, as `fingerprint_hex` says.
pub fn fingerprint_hex_chars(value: &str) -> (hex: Vec<char>)
    ensures
        hex@ == fingerprint_hex(value@),
{
    let t = trim(value);
    let chars = chars_of(t.as_str());
    let prefix = vec!['b', 'l', 'a', 'k', 'e', '3', ':'];
    assert(prefix@ =~= fingerprint_prefix());
    let mut has_prefix = chars.len() >= 7;
    let mut k: usize = 0;
    while has_prefix && k < 7
        invariant
            k <= 7,
            prefix@ == fingerprint_prefix(),
            has_prefix ==> chars@.len() >= 7 && forall|j: int| 0 <= j < k ==> chars@[j] == prefix@[j],
            !has_prefix ==> !(chars@.len() >= 7 && chars@.subrange(0, 7) == fingerprint_prefix()),
        decreases 7 - k,
    {
        if chars[k] != prefix[k] {
            assert(chars@.subrange(0, 7)[k as int] != prefix@[k as int]);
            has_prefix = false;
        }
        k = k + 1;
    }
    if has_prefix {
        assert(chars@.subrange(0, 7) =~= fingerprint_prefix());
    }
    let hex = if has_prefix {
        let rest = string_from_range(&chars, 7, chars.len());
        chars_of(rest.as_str())
    } else {
        chars_of(t.as_str())
    };
    hex
}

pub fn validate_fingerprint(value: &str) -> (result: Result<String, AppError>)
    ensures
        match result {
            Ok(s) => fingerprint_ok(value@) && s@ == fingerprint_prefix() + lower_all(fingerprint_hex(value@)),
            Err(e) => !fingerprint_ok(value@) && e == invalid_pairing_spec("certificateFingerprint"),
        },
{
    let hex = fingerprint_hex_chars(value);
    assert(hex@ == fingerprint_hex(value@));
    match hex_decode(&hex) {
        Some(bytes) => {
            if bytes.len() != 32 {
                return Err(invalid_pairing("certificateFingerprint"));
            }
        },
        None => {
            return Err(invalid_pairing("certificateFingerprint"));
        },
    }
    let mut out = "blake3:".to_owned();
    proof {
        reveal_strlit("blake3:");
        assert("blake3:"@ =~= fingerprint_prefix());
    }
    let lowered = lowercase_chars(&hex);
    push_chars(&mut out, &lowered);
    Ok(out)
}

/// A normalized comparison code: seven ASCII characters, three digits, a
/// space and three digits.
pub open spec fn normalized_sas(value: Seq<u8>) -> bool {
    &&& value.len() == 7
    &&& value[3] == 32
    &&& forall|i: int| 0 <= i < 7 && i != 3 ==> 48 <= #[trigger] value[i] <= 57
}

pub fn is_normalized_sas_code(value: &str) -> (normalized: bool)
    ensures
        normalized == normalized_sas(vstd::utf8::encode_utf8(value@)),
{
    let bytes = value.as_bytes();
    if bytes.len() != 7 || bytes[3] != 32 {
        return false;
    }
    let mut i: usize = 0;
    while i < 7
        invariant
            i <= 7,
            bytes@.len() == 7,
            bytes@ == vstd::utf8::encode_utf8(value@),
            bytes@[3] == 32,
            forall|k: int| 0 <= k < i && k != 3 ==> 48 <= #[trigger] bytes@[k] <= 57,
        decreases 7 - i,
    {
        if i != 3 && !(48 <= bytes[i] && bytes[i] <= 57) {
            return false;
        }
        i = i + 1;
    }
    true
}

pub fn validate_sas_code(value: &str) -> (result: Result<String, AppError>)
    ensures
        match result {
            Ok(s) => normalized_sas(vstd::utf8::encode_utf8(value@)) && s@ == value@,
            Err(e) => !normalized_sas(vstd::utf8::encode_utf8(value@)) && e == invalid_pairing_spec("sasCode"),
        },
{
    if !is_normalized_sas_code(value) {
        return Err(invalid_pairing("sasCode"));
    }
    Ok(value.to_owned())
}

/// The interface's view of a pending pairing: everything but its key and
/// creation time.
pub fn view(pairing: &PendingPairing) -> (v: PendingPairingView)
    ensures
        v.id@ == pairing.id@,
        v.device_id@ == pairing.device_id@,
        v.remote_name@ == pairing.remote_name@,
        v.certificate_fingerprint@ == pairing.certificate_fingerprint@,
        v.expires_at == pairing.expires_at,
        v.local_confirmed == pairing.local_confirmed,
        v.remote_confirmed == pairing.remote_confirmed,
        match (v.sas_code, pairing.sas_code) {
            (Some(a), Some(b)) => a@ == b@,
            (None, None) => true,
            _ => false,
        },
{
    PendingPairingView {
        id: pairing.id.clone(),
        device_id: pairing.device_id.clone(),
        remote_name: pairing.remote_name.clone(),
        certificate_fingerprint: pairing.certificate_fingerprint.clone(),
        expires_at: pairing.expires_at,
        local_confirmed: pairing.local_confirmed,
        remote_confirmed: pairing.remote_confirmed,
        sas_code: match &pairing.sas_code {
            Some(s) => Some(s.clone()),
            None => None,
        },
    }
}

fn clone_option(value: &Option<String>) -> (c: Option<String>)
    ensures
        match (c, *value) {
            (Some(a), Some(b)) => a@ == b@,
            (None, None) => true,
            _ => false,
        },
{
    match value {
        Some(s) => Some(s.clone()),
        None => None,
    }
}

/// The interface's view of a trusted device.
pub fn trusted_view(peer: &TrustedPeer) -> (v: TrustedDeviceView)
    ensures
        v.device_id@ == peer.device_id@,
        v.name@ == peer.remote_name@,
        match (v.alias, peer.local_alias) {
            (Some(a), Some(b)) => a@ == b@,
            (None, None) => true,
            _ => false,
        },
        v.paired_at == peer.paired_at,
        v.last_seen_at == peer.last_seen_at,
        v.certificate_fingerprint_short@ == if peer.certificate_fingerprint@.len() > 16 {
            peer.certificate_fingerprint@.subrange(0, 16)
        } else {
            peer.certificate_fingerprint@
        },
        v.auto_send == peer.auto_send,
        match (v.endpoint, peer.endpoint) {
            (Some(a), Some(b)) => a@ == b@,
            (None, None) => true,
            _ => false,
        },
{
    let chars = chars_of(peer.certificate_fingerprint.as_str());
    let end = if chars.len() > 16 { 16 } else { chars.len() };
    let short = string_from_range(&chars, 0, end);
    proof {
        if chars@.len() <= 16 {
            assert(chars@.subrange(0, end as int) =~= chars@);
        }
    }
    TrustedDeviceView {
        device_id: peer.device_id.clone(),
        name: peer.remote_name.clone(),
        alias: clone_option(&peer.local_alias),
        paired_at: peer.paired_at,
        last_seen_at: peer.last_seen_at,
        certificate_fingerprint_short: short,
        auto_send: peer.auto_send,
        endpoint: clone_option(&peer.endpoint),
    }
}

/// The stored form of a TLS credential: the certificate's length as a
/// big-endian `u32`, the certificate, then the private key.
pub open spec fn tls_secret_of(certificate: Seq<u8>, key: Seq<u8>) -> Seq<u8> {
    be_u32(certificate.len() as u32) + certificate + key
}

pub fn encode_tls_secret(value: &(Vec<u8>, Vec<u8>)) -> (encoded: Vec<u8>)
    ensures
        encoded@ == tls_secret_of(value.0@, value.1@),
{
    let mut encoded: Vec<u8> = Vec::new();
    push_be_u32(&mut encoded, value.0.len() as u32);
    push_bytes(&mut encoded, value.0.as_slice());
    push_bytes(&mut encoded, value.1.as_slice());
    encoded
}

/// What a stored credential holds: a certificate of the announced length
/// and a private key of at least one byte after it.
pub open spec fn tls_secret_parts(value: Seq<u8>) -> Option<(Seq<u8>, Seq<u8>)> {
    if value.len() < 4 {
        None
    } else {
        let end = 4 + u32_of_be(value) as int;
        if end < value.len() {
            Some((value.subrange(4, end), value.subrange(end, value.len() as int)))
        } else {
            None
        }
    }
}

pub fn decode_tls_secret(value: &[u8]) -> (result: Result<(Vec<u8>, Vec<u8>), AppError>)
    ensures
        match result {
            Ok(parts) => tls_secret_parts(value@) == Some((parts.0@, parts.1@)),
            Err(e) => tls_secret_parts(value@) is None && e == AppError::IdentityStorageInvalid,
        },
{
    if value.len() < 4 {
        return Err(AppError::IdentityStorageInvalid);
    }
    let length = read_be_u32(value, 0) as usize;
    assert(value@.subrange(0, 4) =~= value@.subrange(0, 4));
    if length >= value.len() - 4 {
        return Err(AppError::IdentityStorageInvalid);
    }
    let end = 4 + length;
    Ok((copy_range(value, 4, end), copy_range(value, end, value.len())))
}

/// A stored credential reads back as the certificate and key it was made
/// from, when the key is not empty and the certificate's length fits the
/// length field.
pub proof fn lemma_tls_secret_round_trip(certificate: Seq<u8>, key: Seq<u8>)
    requires
        certificate.len() <= u32::MAX,
        key.len() > 0,
    ensures
        tls_secret_parts(tls_secret_of(certificate, key)) == Some((certificate, key)),
{
    let v = tls_secret_of(certificate, key);
    let n = certificate.len() as u32;
    lemma_u32_round_trip(n);
    assert(v.subrange(0, 4) =~= be_u32(n));
    assert(u32_of_be(v) == u32_of_be(be_u32(n)));
    assert(v.subrange(4, 4 + certificate.len() as int) =~= certificate);
    assert(v.subrange(4 + certificate.len() as int, v.len() as int) =~= key);
}


fn pairing_id(device_id: &String, nanos: u128) -> (id: String)
    ensures
        id@ == "pairing-"@ + device_id@ + "-"@ + decimal(nanos as nat),
{
    let mut id = "pairing-".to_owned();
    push_str_chars(&mut id, device_id.as_str());
    push_str_chars(&mut id, "-");
    let digits = decimal_chars(nanos);
    push_chars(&mut id, &digits);
    id
}

/// A pairing request from the interface, validated in order: the remote
/// name, the fingerprint, a 32-byte Ed25519 key, not this device's own.
pub open spec fn request_refusal(remote_name: Seq<char>, public_key: Seq<u8>, fingerprint: Seq<char>, own_key: Seq<u8>) -> Option<AppError> {
    if !text_ok(remote_name) {
        Some(invalid_pairing_spec("remoteName"))
    } else if !fingerprint_ok(fingerprint) {
        Some(invalid_pairing_spec("certificateFingerprint"))
    } else if public_key.len() != 32 || !crate::crypto::ed25519_valid_key(public_key) || public_key == own_key {
        Some(invalid_pairing_spec("publicKey"))
    } else {
        None
    }
}

fn key_array(v: &Vec<u8>) -> (a: [u8; 32])
    requires
        v@.len() == 32,
    ensures
        a@ == v@,
{
    let mut a = [0u8; 32];
    let mut i: usize = 0;
    while i < 32
        invariant
            i <= 32,
            v@.len() == 32,
            forall|j: int| 0 <= j < i ==> a@[j] == v@[j],
        decreases 32 - i,
    {
        a[i] = v[i];
        i = i + 1;
    }
    assert(a@ =~= v@);
    a
}

/// The pending pairing recorded for a request made at `now` (seconds) and
/// `nanos` (nanoseconds, which make its ID unique): open for two minutes,
/// confirmed by neither side, without a comparison code.
pub fn new_pending_pairing(
    remote_name: &str,
    public_key: &Vec<u8>,
    certificate_fingerprint: &str,
    own_public_key: &[u8; 32],
    now: i64,
    nanos: u128,
) -> (result: Result<PendingPairing, AppError>)
    requires
        now <= i64::MAX - PAIRING_LIFETIME_SECS,
    ensures
        match request_refusal(remote_name@, public_key@, certificate_fingerprint@, own_public_key@) {
            Some(e) => result == Err::<PendingPairing, AppError>(e),
            None => result matches Ok(p) && p.device_id@ == device_id_of(public_key@)
                && p.id@ == "pairing-"@ + device_id_of(public_key@) + "-"@ + decimal(nanos as nat)
                && p.public_key@ == public_key@ && p.remote_name@ == trimmed(remote_name@)
                && p.certificate_fingerprint@ == fingerprint_prefix() + lower_all(fingerprint_hex(certificate_fingerprint@))
                && p.created_at == now && p.expires_at == now + PAIRING_LIFETIME_SECS && !p.local_confirmed
                && !p.remote_confirmed && p.sas_code is None,
        },
{
    let name = validate_text(remote_name, "remoteName")?;
    let fingerprint = validate_fingerprint(certificate_fingerprint)?;
    if public_key.len() != 32 {
        return Err(invalid_pairing("publicKey"));
    }
    let key = key_array(public_key);
    let remote = match DevicePublicIdentity::from_public_key(key) {
        Ok(remote) => remote,
        Err(_) => return Err(invalid_pairing("publicKey")),
    };
    if crate::bytes::bytes_equal(&remote.public_key, own_public_key) {
        return Err(invalid_pairing("publicKey"));
    }
    let device_id = remote.device_id();
    let id = pairing_id(&device_id, nanos);
    Ok(PendingPairing {
        id,
        device_id,
        public_key: copy_range(public_key.as_slice(), 0, public_key.len()),
        certificate_fingerprint: fingerprint,
        remote_name: name,
        created_at: now,
        expires_at: now + PAIRING_LIFETIME_SECS,
        local_confirmed: false,
        remote_confirmed: false,
        sas_code: None,
    })
}

/// The pending pairing recorded once the pairing transport has
/// authenticated `peer` and derived the comparison code `sas_code`; a device
/// that already has a trusted-peer record (trusted or revoked) is refused.
pub fn new_authenticated_pairing(
    remote_name: &str,
    peer: &crate::network::TrustedPeerPin,
    sas_code: &str,
    already_recorded: bool,
    now: i64,
    nanos: u128,
) -> (result: Result<PendingPairing, AppError>)
    requires
        now <= i64::MAX - PAIRING_LIFETIME_SECS,
    ensures
        if !normalized_sas(vstd::utf8::encode_utf8(sas_code@)) {
            result == Err::<PendingPairing, AppError>(invalid_pairing_spec("sasCode"))
        } else if !text_ok(remote_name@) {
            result == Err::<PendingPairing, AppError>(invalid_pairing_spec("remoteName"))
        } else if already_recorded {
            result == Err::<PendingPairing, AppError>(invalid_pairing_spec("publicKey"))
        } else {
            (result matches Ok(p) && p.device_id@ == peer.device_id@
                && p.id@ == "pairing-"@ + peer.device_id@ + "-"@ + decimal(nanos as nat)
                && p.public_key@ == peer.public_key@ && p.remote_name@ == trimmed(remote_name@)
                && p.certificate_fingerprint@ == fingerprint_prefix() + crate::text::hex_lower(
                peer.certificate_fingerprint@,
            ) && p.created_at == now && p.expires_at == now + PAIRING_LIFETIME_SECS && !p.local_confirmed
                && !p.remote_confirmed && p.sas_code is Some && p.sas_code->0@ == sas_code@)
        },
{
    let code = validate_sas_code(sas_code)?;
    let name = validate_text(remote_name, "remoteName")?;
    if already_recorded {
        return Err(invalid_pairing("publicKey"));
    }
    let mut fingerprint = "blake3:".to_owned();
    proof {
        reveal_strlit("blake3:");
        assert("blake3:"@ =~= fingerprint_prefix());
    }
    let hex = crate::text::hex_encode(&peer.certificate_fingerprint);
    push_chars(&mut fingerprint, &hex);
    Ok(PendingPairing {
        id: pairing_id(&peer.device_id, nanos),
        device_id: peer.device_id.clone(),
        public_key: copy_range(&peer.public_key, 0, 32),
        certificate_fingerprint: fingerprint,
        remote_name: name,
        created_at: now,
        expires_at: now + PAIRING_LIFETIME_SECS,
        local_confirmed: false,
        remote_confirmed: false,
        sas_code: Some(code),
    })
}

/// Nanoseconds since the Unix epoch of a time in seconds, negative times
/// counted as the epoch.
pub open spec fn epoch_nanos(seconds: i64) -> u128 {
    if seconds < 0 {
        0
    } else {
        (seconds * 1000000000) as u128
    }
}

fn epoch_nanos_exec(seconds: i64) -> (n: u128)
    ensures
        n == epoch_nanos(seconds),
{
    if seconds < 0 {
        0
    } else {
        (seconds as u128) * 1000000000
    }
}

/// The session of a stored pending pairing, with the confirmations it
/// records replayed at its creation time; `None` for a row whose comparison
/// code is malformed, which must be discarded.
pub fn restore_session(pairing: &PendingPairing) -> (result: Result<Option<PairingSession>, AppError>)
    ensures
        match pairing.sas_code {
            Some(c) => !normalized_sas(vstd::utf8::encode_utf8(c@)) ==> result == Ok::<Option<PairingSession>, AppError>(None),
            None => true,
        },
        result matches Ok(Some(s)) ==> s.deadline() == epoch_nanos(pairing.expires_at)
            && s.current() == restored_state(
            epoch_nanos(pairing.expires_at),
            epoch_nanos(pairing.created_at),
            pairing.local_confirmed,
            pairing.remote_confirmed,
        ),
        result is Err ==> result == Err::<Option<PairingSession>, AppError>(invalid_pairing_spec("pairingId")),
        result is Err <==> restored_refused(
            epoch_nanos(pairing.expires_at),
            epoch_nanos(pairing.created_at),
            pairing.local_confirmed,
            pairing.remote_confirmed,
        ) && (match pairing.sas_code {
            Some(c) => normalized_sas(vstd::utf8::encode_utf8(c@)),
            None => true,
        }),
{
    if let Some(code) = &pairing.sas_code {
        if !is_normalized_sas_code(code.as_str()) {
            return Ok(None);
        }
    }
    let expiry = epoch_nanos_exec(pairing.expires_at);
    let created = epoch_nanos_exec(pairing.created_at);
    let mut session = PairingSession::new(expiry);
    if pairing.local_confirmed {
        if session.confirm_local(created).is_err() {
            return Err(invalid_pairing("pairingId"));
        }
    }
    if pairing.remote_confirmed {
        if session.confirm_remote(created).is_err() {
            return Err(invalid_pairing("pairingId"));
        }
    }
    Ok(Some(session))
}

/// The state a restored session reaches.
pub open spec fn restored_state(expiry: u128, created: u128, local: bool, remote: bool) -> PairingState {
    let s0 = PairingState::Pending;
    let s1 = if local {
        confirmed_state(s0, expiry, created, true)
    } else {
        s0
    };
    if remote {
        confirmed_state(s1, expiry, created, false)
    } else {
        s1
    }
}

/// Whether replaying a stored row's confirmations fails.
pub open spec fn restored_refused(expiry: u128, created: u128, local: bool, remote: bool) -> bool {
    let s0 = PairingState::Pending;
    let local_fails = local && confirmation_result(expired_state(s0, expiry, created), true) is Err;
    let s1 = if local {
        confirmed_state(s0, expiry, created, true)
    } else {
        s0
    };
    local_fails || (remote && confirmation_result(expired_state(s1, expiry, created), false) is Err)
}

/// What one confirmation of a pending pairing leads to.
#[derive(Debug, Clone, Copy, PartialEq, Eq, Structural)]
pub enum ConfirmationStep {
    /// The pairing cannot be confirmed: it has no comparison code, or the
    /// session refuses the confirmation.
    Invalid,
    /// The pairing has expired and is to be discarded.
    Expired,
    /// The confirmation is recorded; the other side has yet to confirm.
    Recorded,
    /// Both sides have confirmed: trust is to be committed.
    Completed,
}

/// The step a confirmation (`local` for this device's user, else the peer)
/// at `now` takes.
pub open spec fn confirmation_step_of(has_code: bool, state: PairingState, deadline: u128, now: u128, local: bool) -> ConfirmationStep {
    if !has_code {
        ConfirmationStep::Invalid
    } else {
        match confirmation_result(expired_state(state, deadline, now), local) {
            Err(PairingError::Expired) => ConfirmationStep::Expired,
            Err(_) => ConfirmationStep::Invalid,
            Ok(s) => if s == PairingState::Confirmed {
                ConfirmationStep::Completed
            } else {
                ConfirmationStep::Recorded
            },
        }
    }
}

/// Applies one confirmation to the session of `pairing`.  Without a
/// comparison code the session is left alone.
pub fn confirm_step(pairing: &PendingPairing, session: &mut PairingSession, now: u128, local: bool) -> (step: ConfirmationStep)
    ensures
        step == confirmation_step_of(pairing.sas_code is Some, old(session).current(), old(session).deadline(), now, local),
        pairing.sas_code is Some ==> final(session).current() == confirmed_state(
            old(session).current(),
            old(session).deadline(),
            now,
            local,
        ),
        pairing.sas_code is None ==> final(session).current() == old(session).current(),
        final(session).deadline() == old(session).deadline(),
{
    if pairing.sas_code.is_none() {
        return ConfirmationStep::Invalid;
    }
    let result = if local {
        session.confirm_local(now)
    } else {
        session.confirm_remote(now)
    };
    match result {
        Ok(state) => if state == PairingState::Confirmed {
            ConfirmationStep::Completed
        } else {
            ConfirmationStep::Recorded
        },
        Err(PairingError::Expired) => ConfirmationStep::Expired,
        Err(_) => ConfirmationStep::Invalid,
    }
}

/// The trusted-peer record committed for a pairing both sides confirmed at
/// `now`: its identity, key, fingerprint and name, no alias, never seen,
/// sending automatically, not revoked, without an endpoint.
pub fn trusted_peer_from(pairing: &PendingPairing, now: i64) -> (peer: TrustedPeer)
    ensures
        peer.device_id@ == pairing.device_id@,
        peer.public_key@ == pairing.public_key@,
        peer.certificate_fingerprint@ == pairing.certificate_fingerprint@,
        peer.remote_name@ == pairing.remote_name@,
        peer.local_alias is None,
        peer.paired_at == now,
        peer.last_seen_at is None,
        peer.auto_send,
        peer.revoked_at is None,
        peer.endpoint is None,
{
    TrustedPeer {
        device_id: pairing.device_id.clone(),
        public_key: copy_range(pairing.public_key.as_slice(), 0, pairing.public_key.len()),
        certificate_fingerprint: pairing.certificate_fingerprint.clone(),
        remote_name: pairing.remote_name.clone(),
        local_alias: None,
        paired_at: now,
        last_seen_at: None,
        auto_send: true,
        revoked_at: None,
        endpoint: None,
    }
}

/// Whether a stored pending pairing is shown: rows without a comparison
/// code are, rows with a malformed one are not.
pub open spec fn pairing_visible(p: PendingPairing) -> bool {
    match p.sas_code {
        Some(c) => normalized_sas(vstd::utf8::encode_utf8(c@)),
        None => true,
    }
}

/// The pending pairings the interface is shown, in stored order.
pub fn visible_pairings(pairings: &Vec<PendingPairing>) -> (views: Vec<PendingPairingView>)
    ensures
        views@.map_values(|v: PendingPairingView| v.id@) == pairings@.filter(|p: PendingPairing| pairing_visible(p)).map_values(
            |p: PendingPairing| p.id@,
        ),
{
    let ghost pred = |p: PendingPairing| pairing_visible(p);
    let mut out: Vec<PendingPairingView> = Vec::new();
    let mut i: usize = 0;
    proof {
        reveal(Seq::filter);
        assert(pairings@.subrange(0, 0).filter(pred) =~= Seq::<PendingPairing>::empty());
    }
    while i < pairings.len()
        invariant
            i <= pairings@.len(),
            pred == (|p: PendingPairing| pairing_visible(p)),
            out@.map_values(|v: PendingPairingView| v.id@) == pairings@.subrange(0, i as int).filter(pred).map_values(
                |p: PendingPairing| p.id@,
            ),
        decreases pairings@.len() - i,
    {
        let ghost prefix = pairings@.subrange(0, i + 1);
        proof {
            reveal(Seq::filter);
            assert(prefix.drop_last() =~= pairings@.subrange(0, i as int));
            assert(prefix.last() == pairings@[i as int]);
        }
        let p = &pairings[i];
        let visible = match &p.sas_code {
            Some(c) => is_normalized_sas_code(c.as_str()),
            None => true,
        };
        let ghost before = out@.map_values(|v: PendingPairingView| v.id@);
        if visible {
            out.push(view(p));
            assert(prefix.filter(pred) == pairings@.subrange(0, i as int).filter(pred).push(*p));
            assert(out@.map_values(|v: PendingPairingView| v.id@) =~= before.push(p.id@));
            assert(prefix.filter(pred).map_values(|q: PendingPairing| q.id@) =~= pairings@.subrange(0, i as int).filter(
                pred,
            ).map_values(|q: PendingPairing| q.id@).push(p.id@));
        } else {
            assert(prefix.filter(pred) == pairings@.subrange(0, i as int).filter(pred));
        }
        i = i + 1;
    }
    assert(pairings@.subrange(0, i as int) =~= pairings@);
    out
}


/// What committing a pairing both sides confirmed does with its stored row.
#[derive(Debug, Clone, PartialEq, Eq)]
pub enum CommitStep {
    /// Nothing is committed; the error is reported.
    Refuse(AppError),
    /// The row has expired: it is deleted and `pairing_expired` reported.
    DiscardExpired,
    /// The peer is stored as trusted and the row deleted.
    Commit,
}

/// What committing `peer` for the stored pairing row `stored` (`None` when
/// there is none) at `now` does: a missing row is not found, an expired one
/// is discarded, and the peer is stored only when both sides confirmed and
/// it is the device and key the row was made for.
pub fn commit_step(stored: &Option<PendingPairing>, peer: &TrustedPeer, now: i64) -> (step: CommitStep)
    ensures
        step == match *stored {
            None => CommitStep::Refuse(pairing_not_found_spec()),
            Some(p) => if p.expires_at <= now {
                CommitStep::DiscardExpired
            } else if !p.local_confirmed || !p.remote_confirmed || p.device_id@ != peer.device_id@ || p.public_key@
                != peer.public_key@ {
                CommitStep::Refuse(invalid_pairing_spec("pairingId"))
            } else {
                CommitStep::Commit
            },
        },
{
    match stored {
        None => CommitStep::Refuse(pairing_not_found()),
        Some(p) => if p.expires_at <= now {
            CommitStep::DiscardExpired
        } else if !p.local_confirmed || !p.remote_confirmed || !crate::text::str_equal(p.device_id.as_str(), peer.device_id.as_str())
            || !crate::bytes::bytes_equal(p.public_key.as_slice(), peer.public_key.as_slice()) {
            CommitStep::Refuse(invalid_pairing("pairingId"))
        } else {
            CommitStep::Commit
        },
    }
}

} // verus!
