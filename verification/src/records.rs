//! The records the application keeps durably: settings, trusted peers,
//! pending pairings, batches with their targets and items, and transfer
//! checkpoints.  Storing them is the caller's; their shape and their
//! defaults are here.
use vstd::prelude::*;

verus! {

/// A peer this device trusts.
#[derive(Debug, Clone, PartialEq, Eq)]
pub struct TrustedPeer {
    pub device_id: String,
    pub public_key: Vec<u8>,
    pub certificate_fingerprint: String,
    pub remote_name: String,
    pub local_alias: Option<String>,
    pub paired_at: i64,
    pub last_seen_at: Option<i64>,
    pub auto_send: bool,
    pub revoked_at: Option<i64>,
    pub endpoint: Option<String>,
}

/// A pairing that waits for confirmation.  `sas_code` is the normalized
/// comparison code; no transcript, signature or secret is kept.
#[derive(Debug, Clone, PartialEq, Eq)]
pub struct PendingPairing {
    pub id: String,
    pub device_id: String,
    pub public_key: Vec<u8>,
    pub certificate_fingerprint: String,
    pub remote_name: String,
    pub created_at: i64,
    pub expires_at: i64,
    pub local_confirmed: bool,
    pub remote_confirmed: bool,
    pub sas_code: Option<String>,
}

#[derive(Debug, Clone, PartialEq, Eq)]
pub struct Batch {
    pub id: String,
    pub direction: String,
    pub state: String,
    pub created_at: i64,
    pub completed_at: Option<i64>,
    pub total_bytes: i64,
    pub total_entries: i64,
    pub warning_count: i64,
    pub wait_for_available: bool,
}

#[derive(Debug, Clone, PartialEq, Eq)]
pub struct BatchTarget {
    pub id: String,
    pub batch_id: String,
    pub peer_device_id: String,
    pub state: String,
    pub acknowledged_bytes: i64,
    pub error_code: Option<String>,
    pub retry_at: Option<i64>,
    pub retry_count: i64,
    pub wait_for_available: bool,
}

#[derive(Debug, Clone, PartialEq, Eq)]
pub struct TransferItem {
    pub id: String,
    pub batch_id: String,
    pub parent_item_id: Option<String>,
    pub kind: String,
    pub display_name: String,
    pub source_path_local: Option<String>,
    pub destination_path_local: Option<String>,
    pub size: i64,
    pub mtime: Option<i64>,
    pub state: String,
    pub warning_json: Option<String>,
}

/// How far an item's bytes are durable at a target, and the digest once the
/// item is verified.
#[derive(Debug, Clone, PartialEq, Eq)]
pub struct Checkpoint {
    pub target_id: String,
    pub item_id: String,
    pub durable_offset: i64,
    pub verified_hash: Option<Vec<u8>>,
    pub updated_at: i64,
}

/// A batch with its targets and items.  A queued record means the batch was
/// accepted locally, never that a peer received it.
#[derive(Debug, Clone, PartialEq, Eq)]
pub struct PersistedBatch {
    pub batch: Batch,
    pub targets: Vec<BatchTarget>,
    pub items: Vec<TransferItem>,
}

/// The user's settings.  `history_retention_days` is 0 to keep history
/// forever, else the number of days it is kept.
#[derive(Debug, Clone, PartialEq, Eq)]
pub struct Settings {
    pub device_name: String,
    pub receive_directory: Option<String>,
    pub onboarding_complete: bool,
    pub receiving_enabled: bool,
    pub listen_address: String,
    pub launch_at_login: bool,
    pub notifications_enabled: bool,
    pub automatic_device_trust: bool,
    pub history_retention_days: i64,
}

/// The settings of a fresh installation: no name and no receive folder yet,
/// receiving on, listening on every interface at a port the system picks,
/// launching at login, notifications and automatic trust on, and history
/// kept for 30 days.
pub open spec fn default_settings(s: Settings) -> bool {
    &&& s.device_name@ == Seq::<char>::empty()
    &&& s.receive_directory is None
    &&& !s.onboarding_complete
    &&& s.receiving_enabled
    &&& s.listen_address@ == "0.0.0.0:0"@
    &&& s.launch_at_login
    &&& s.notifications_enabled
    &&& s.automatic_device_trust
    &&& s.history_retention_days == 30
}

impl Default for Settings {
    fn default() -> (s: Self)
        ensures
            default_settings(s),
    {
        Settings {
            device_name: String::new(),
            receive_directory: None,
            onboarding_complete: false,
            receiving_enabled: true,
            listen_address: "0.0.0.0:0".to_owned(),
            launch_at_login: true,
            notifications_enabled: true,
            automatic_device_trust: true,
            history_retention_days: 30,
        }
    }
}

} // verus!
