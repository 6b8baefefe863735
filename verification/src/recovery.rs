//! What startup recovery does with one incoming batch that did not finish:
//! fail it when its ID is not a UUID, adopt it from proven final files or
//! fail it when its staging tree is gone, fail it and remove the tree when
//! it has no target, and otherwise bring each staged file's checkpoint in
//! line with the disk, failing and removing the tree when a staged file
//! cannot be trusted.  Looking at the disk and the store is the caller's.
use crate::engine::{staged_file_recovery, staged_recovery_of, StagedFileRecovery};
use vstd::prelude::*;

verus! {

/// Why recovery fails a batch.
#[derive(Debug, Clone, Copy, PartialEq, Eq)]
pub enum RecoveryCode {
    InvalidBatch,
    StagingMissing,
    TargetMissing,
    StagingCorrupt,
}

/// The error code of each `RecoveryCode`.
pub open spec fn recovery_code_text(code: RecoveryCode) -> &'static str {
    match code {
        RecoveryCode::InvalidBatch => "recovery_invalid_batch",
        RecoveryCode::StagingMissing => "recovery_staging_missing",
        RecoveryCode::TargetMissing => "recovery_target_missing",
        RecoveryCode::StagingCorrupt => "recovery_staging_corrupt",
    }
}

impl RecoveryCode {
    /// The error code recorded on the batch's targets.
    pub fn text(&self) -> (text: &'static str)
        ensures
            text == recovery_code_text(*self),
    {
        match self {
            RecoveryCode::InvalidBatch => "recovery_invalid_batch",
            RecoveryCode::StagingMissing => "recovery_staging_missing",
            RecoveryCode::TargetMissing => "recovery_target_missing",
            RecoveryCode::StagingCorrupt => "recovery_staging_corrupt",
        }
    }
}

/// What the caller found of a batch: whether its ID is a UUID, whether its
/// staging tree exists, whether it has a target, and, when the staging
/// tree is gone, whether every final file it recorded is there with its
/// verified digest (`None` when it recorded no complete set of them).
#[derive(Debug, Clone, Copy, PartialEq, Eq)]
pub struct BatchRecovery {
    pub id_valid: bool,
    pub staging_present: bool,
    pub has_target: bool,
    pub final_files_proven: Option<bool>,
}

/// What the caller found of one item: whether it is a file, whether its
/// recorded path is a safe receiver path, its recorded size, the length of
/// its staged copy, its checkpoint's durable offset, and, when the
/// checkpoint records a verified digest, whether the staged copy has it.
#[derive(Debug, Clone, Copy, PartialEq, Eq)]
pub struct ItemRecovery {
    pub is_file: bool,
    pub path_ok: bool,
    pub size: i64,
    pub disk_len: Option<u64>,
    pub durable_offset: Option<i64>,
    pub verified: Option<bool>,
}

/// A staged file whose checkpoint is brought in line with the disk.
#[derive(Debug, Clone, Copy, PartialEq, Eq)]
pub struct Rewind {
    pub index: usize,
    pub truncate_to: Option<u64>,
    pub durable_offset: u64,
}

/// What recovery does with the batch.
pub enum ReconcilePlan {
    /// Mark the batch, its targets and items failed with `code`.
    MarkFailed { code: RecoveryCode },
    /// Mark the batch, its first target and its items completed.
    Adopt,
    /// Remove the staging tree, then mark the batch failed with `code`.
    RemoveAndFail { code: RecoveryCode },
    /// Apply `rewinds` in order (cutting staged files and lowering
    /// checkpoints); then, when `corrupt`, or when a cut fails, remove the
    /// staging tree and mark the batch failed with `recovery_staging_corrupt`.
    Resume { rewinds: Vec<Rewind>, corrupt: bool },
}

/// A plan as plain values.
pub enum ReconcilePlanView {
    MarkFailed { code: RecoveryCode },
    Adopt,
    RemoveAndFail { code: RecoveryCode },
    Resume { rewinds: Seq<Rewind>, corrupt: bool },
}

impl View for ReconcilePlan {
    type V = ReconcilePlanView;

    open spec fn view(&self) -> ReconcilePlanView {
        match self {
            ReconcilePlan::MarkFailed { code } => ReconcilePlanView::MarkFailed { code: *code },
            ReconcilePlan::Adopt => ReconcilePlanView::Adopt,
            ReconcilePlan::RemoveAndFail { code } => ReconcilePlanView::RemoveAndFail { code: *code },
            ReconcilePlan::Resume { rewinds, corrupt } => ReconcilePlanView::Resume { rewinds: rewinds@, corrupt: *corrupt },
        }
    }
}

/// The first `n` items, in order, up to the first staged file that cannot
/// be trusted: the rewinds they need, and whether such a file was met.
pub open spec fn recovery_scan(items: Seq<ItemRecovery>, n: int) -> (Seq<Rewind>, bool)
    decreases n,
{
    if n <= 0 {
        (Seq::empty(), false)
    } else {
        let (rewinds, corrupt) = recovery_scan(items, n - 1);
        let item = items[n - 1];
        if corrupt || !item.is_file {
            (rewinds, corrupt)
        } else if !item.path_ok {
            (rewinds, true)
        } else {
            match staged_recovery_of(item.size, item.disk_len, item.durable_offset, item.verified) {
                StagedFileRecovery::Corrupt => (rewinds, true),
                StagedFileRecovery::Keep => (rewinds, false),
                StagedFileRecovery::Rewind { truncate_to, durable_offset } => (
                    rewinds.push(Rewind { index: (n - 1) as usize, truncate_to, durable_offset }),
                    false,
                ),
            }
        }
    }
}

/// What recovery does with a batch and its items.
pub open spec fn reconcile_plan_of(batch: BatchRecovery, items: Seq<ItemRecovery>) -> ReconcilePlanView {
    if !batch.id_valid {
        ReconcilePlanView::MarkFailed { code: RecoveryCode::InvalidBatch }
    } else if !batch.staging_present {
        if batch.final_files_proven == Some(true) {
            ReconcilePlanView::Adopt
        } else {
            ReconcilePlanView::MarkFailed { code: RecoveryCode::StagingMissing }
        }
    } else if !batch.has_target {
        ReconcilePlanView::RemoveAndFail { code: RecoveryCode::TargetMissing }
    } else {
        let (rewinds, corrupt) = recovery_scan(items, items.len() as int);
        ReconcilePlanView::Resume { rewinds, corrupt }
    }
}

/// Recovery's plan for a batch, as `reconcile_plan_of` says.
pub fn reconcile_batch(batch: &BatchRecovery, items: &[ItemRecovery]) -> (plan: ReconcilePlan)
    ensures
        plan@ == reconcile_plan_of(*batch, items@),
{
    if !batch.id_valid {
        return ReconcilePlan::MarkFailed { code: RecoveryCode::InvalidBatch };
    }
    if !batch.staging_present {
        return match batch.final_files_proven {
            Some(true) => ReconcilePlan::Adopt,
            _ => ReconcilePlan::MarkFailed { code: RecoveryCode::StagingMissing },
        };
    }
    if !batch.has_target {
        return ReconcilePlan::RemoveAndFail { code: RecoveryCode::TargetMissing };
    }
    let mut rewinds: Vec<Rewind> = Vec::new();
    let mut corrupt = false;
    let mut i: usize = 0;
    while i < items.len()
        invariant
            i <= items@.len(),
            (rewinds@, corrupt) == recovery_scan(items@, i as int),
        decreases items@.len() - i,
    {
        let item = items[i];
        if !corrupt && item.is_file {
            if !item.path_ok {
                corrupt = true;
            } else {
                match staged_file_recovery(item.size, item.disk_len, item.durable_offset, item.verified) {
                    StagedFileRecovery::Corrupt => {
                        corrupt = true;
                    },
                    StagedFileRecovery::Keep => {},
                    StagedFileRecovery::Rewind { truncate_to, durable_offset } => {
                        rewinds.push(Rewind { index: i, truncate_to, durable_offset });
                    },
                }
            }
        }
        i = i + 1;
    }
    ReconcilePlan::Resume { rewinds, corrupt }
}

/// A batch whose staging tree is gone is adopted exactly when its final
/// files are proven, and otherwise failed as missing; recovery never adopts
/// a batch whose staging tree is still there.
pub proof fn lemma_adopt_or_fail(batch: BatchRecovery, items: Seq<ItemRecovery>)
    requires
        batch.id_valid,
    ensures
        !batch.staging_present ==> (reconcile_plan_of(batch, items) is Adopt <==> batch.final_files_proven == Some(
            true,
        )),
        !batch.staging_present ==> (reconcile_plan_of(batch, items) is Adopt || reconcile_plan_of(batch, items)
            == ReconcilePlanView::MarkFailed { code: RecoveryCode::StagingMissing }),
        batch.staging_present ==> !(reconcile_plan_of(batch, items) is Adopt),
{
}

/// Recovery rewinds only staged files that precede any untrusted one, and
/// each rewind concerns a file item.
pub proof fn lemma_rewinds_are_files(items: Seq<ItemRecovery>, n: int)
    requires
        0 <= n <= items.len() <= usize::MAX,
    ensures
        forall|k: int| 0 <= k < recovery_scan(items, n).0.len() ==> {
            let r = #[trigger] recovery_scan(items, n).0[k];
            &&& r.index < n
            &&& items[r.index as int].is_file
            &&& items[r.index as int].path_ok
        },
    decreases n,
{
    if n > 0 {
        lemma_rewinds_are_files(items, n - 1);
        let prior = recovery_scan(items, n - 1).0;
        let now = recovery_scan(items, n).0;
        assert forall|k: int| 0 <= k < now.len() implies {
            let r = #[trigger] now[k];
            &&& r.index < n
            &&& items[r.index as int].is_file
            &&& items[r.index as int].path_ok
        } by {
            if k < prior.len() {
                assert(now[k] == prior[k]);
            } else {
                assert(((n - 1) as usize) as int == n - 1);
            }
        }
    }
}

} // verus!
