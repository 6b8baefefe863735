//! Which of the application's own rolling log files are deleted: those older
//! than the retention period, then the oldest of the rest until what remains
//! fits the size cap.  Listing and deleting the files is the caller's.
use crate::text::{chars_equal, chars_of};
use vstd::prelude::*;

verus! {

/// Log files older than this many nanoseconds are deleted (seven days).
pub const LOG_RETENTION_NANOS: i128 = 604800000000000;

/// The most bytes the kept log files may take.
pub const MAX_LOG_BYTES: u64 = 33554432;

/// One of the application's log files; `modified` is its modification time in
/// nanoseconds since the Unix epoch.
#[derive(Debug, PartialEq, Eq)]
pub struct OwnedLogFile {
    pub path: String,
    pub modified: i128,
    pub bytes: u64,
}

pub struct LogFileView {
    pub path: Seq<char>,
    pub modified: i128,
    pub bytes: u64,
}

impl View for OwnedLogFile {
    type V = LogFileView;

    open spec fn view(&self) -> LogFileView {
        LogFileView { path: self.path@, modified: self.modified, bytes: self.bytes }
    }
}

/// Whether a file name is one of the application's own rolling log files:
/// `fileporter.log` or a name that starts with `fileporter.log.`.
pub open spec fn owned_log_name(name: Seq<char>) -> bool {
    name == "fileporter.log"@ || "fileporter.log."@.is_prefix_of(name)
}

/// Whether `name` is one of the application's own log files; no other file
/// is ever considered for removal.
pub fn is_owned_log_name(name: &str) -> (owned: bool)
    ensures
        owned == owned_log_name(name@),
{
    proof {
        reveal_strlit("fileporter.log");
        reveal_strlit("fileporter.log.");
    }
    let chars = chars_of(name);
    let base = chars_of("fileporter.log");
    let dotted = chars_of("fileporter.log.");
    if chars_equal(&chars, &base) {
        return true;
    }
    if chars.len() < dotted.len() {
        assert(!"fileporter.log."@.is_prefix_of(name@));
        return false;
    }
    let mut i: usize = 0;
    while i < dotted.len()
        invariant
            i <= dotted@.len() <= chars@.len(),
            chars@ == name@,
            dotted@ == "fileporter.log."@,
            name@ != "fileporter.log"@,
            forall|k: int| 0 <= k < i ==> chars@[k] == dotted@[k],
        decreases dotted@.len() - i,
    {
        if chars[i] != dotted[i] {
            assert(name@.subrange(0, dotted@.len() as int)[i as int] != dotted@[i as int]);
            return false;
        }
        i = i + 1;
    }
    assert(name@.subrange(0, dotted@.len() as int) =~= dotted@);
    true
}

pub open spec fn file_views(files: Seq<OwnedLogFile>) -> Seq<LogFileView> {
    files.map_values(|f: OwnedLogFile| f@)
}

/// A file is expired when it was modified more than the retention period
/// before `now`; a file from the future is not.
pub open spec fn expired(f: LogFileView, now: i128) -> bool {
    now - f.modified > LOG_RETENTION_NANOS
}

/// The bytes of `files`.
pub open spec fn bytes_total(files: Seq<LogFileView>) -> int
    decreases files.len(),
{
    if files.len() == 0 {
        0
    } else {
        bytes_total(files.drop_last()) + files.last().bytes
    }
}

/// `sorted` with `f` placed after every file modified no later than it.
pub open spec fn insert_by_modified(sorted: Seq<LogFileView>, f: LogFileView) -> Seq<LogFileView>
    decreases sorted.len(),
{
    if sorted.len() == 0 {
        seq![f]
    } else if sorted.last().modified <= f.modified {
        sorted.push(f)
    } else {
        insert_by_modified(sorted.drop_last(), f).push(sorted.last())
    }
}

/// `files` ordered by modification time, oldest first; files modified at
/// the same time keep their order.
pub open spec fn sorted_by_modified(files: Seq<LogFileView>) -> Seq<LogFileView>
    decreases files.len(),
{
    if files.len() == 0 {
        files
    } else {
        insert_by_modified(sorted_by_modified(files.drop_last()), files.last())
    }
}

/// The oldest files of `sorted`, taken in order while the bytes that remain
/// exceed the cap; `total` is the bytes that remain before each step.
pub open spec fn overflow_removals(sorted: Seq<LogFileView>, total: int) -> Seq<LogFileView>
    decreases sorted.len(),
{
    if sorted.len() == 0 || total <= MAX_LOG_BYTES {
        Seq::empty()
    } else {
        let rest = if total - sorted[0].bytes < 0 {
            0
        } else {
            total - sorted[0].bytes
        };
        seq![sorted[0]] + overflow_removals(sorted.drop_first(), rest)
    }
}

/// The files to delete: the expired ones in the order given, then the
/// oldest of the others until the rest fit the cap.
pub open spec fn removal_plan(files: Seq<LogFileView>, now: i128) -> Seq<LogFileView> {
    let kept = files.filter(|f: LogFileView| !expired(f, now));
    files.filter(|f: LogFileView| expired(f, now)) + overflow_removals(
        sorted_by_modified(kept),
        bytes_total(kept),
    )
}

fn copy_file(f: &OwnedLogFile) -> (g: OwnedLogFile)
    ensures
        g@ == f@,
{
    OwnedLogFile { path: f.path.clone(), modified: f.modified, bytes: f.bytes }
}

/// Where `f` goes in `sorted`: after the last file modified no later than it.
proof fn lemma_insert_at(sorted: Seq<LogFileView>, f: LogFileView, j: int)
    requires
        0 <= j <= sorted.len(),
        forall|k: int| j <= k < sorted.len() ==> sorted[k].modified > f.modified,
        j > 0 ==> sorted[j - 1].modified <= f.modified,
    ensures
        insert_by_modified(sorted, f) == sorted.insert(j, f),
    decreases sorted.len(),
{
    if sorted.len() == 0 {
        assert(sorted.insert(j, f) =~= seq![f]);
    } else if j == sorted.len() {
        assert(sorted.insert(j, f) =~= sorted.push(f));
    } else {
        lemma_insert_at(sorted.drop_last(), f, j);
        assert(sorted.insert(j, f) =~= sorted.drop_last().insert(j, f).push(sorted.last()));
    }
}

proof fn lemma_total_bound(files: Seq<LogFileView>, n: int)
    requires
        0 <= n <= files.len(),
    ensures
        bytes_total(files.subrange(0, n)) <= bytes_total(files),
        bytes_total(files.subrange(0, n)) >= 0,
    decreases files.len() - n,
{
    if n < files.len() {
        lemma_total_bound(files, n + 1);
        assert(files.subrange(0, n + 1).drop_last() =~= files.subrange(0, n));
    } else {
        assert(files.subrange(0, n) =~= files);
    }
    lemma_total_nonnegative(files.subrange(0, n));
}

proof fn lemma_total_nonnegative(files: Seq<LogFileView>)
    ensures
        bytes_total(files) >= 0,
    decreases files.len(),
{
    if files.len() > 0 {
        lemma_total_nonnegative(files.drop_last());
    }
}

/// The log files to delete, as `removal_plan` says.
pub fn files_to_remove(files: Vec<OwnedLogFile>, now: i128) -> (remove: Vec<OwnedLogFile>)
    requires
        bytes_total(file_views(files@).filter(|f: LogFileView| !expired(f, now))) <= u64::MAX,
    ensures
        file_views(remove@) == removal_plan(file_views(files@), now),
{
    let ghost all = file_views(files@);
    proof {
        reveal(Seq::filter);
        assert(all.subrange(0, 0).filter(|f: LogFileView| expired(f, now)) =~= Seq::<LogFileView>::empty());
        assert(all.subrange(0, 0).filter(|f: LogFileView| !expired(f, now)) =~= Seq::<LogFileView>::empty());
    }
    let ghost keep_pred = |f: LogFileView| !expired(f, now);
    let ghost drop_pred = |f: LogFileView| expired(f, now);
    let mut remove: Vec<OwnedLogFile> = Vec::new();
    let mut sorted: Vec<OwnedLogFile> = Vec::new();
    let mut i: usize = 0;
    while i < files.len()
        invariant
            i <= files@.len(),
            all == file_views(files@),
            keep_pred == (|f: LogFileView| !expired(f, now)),
            drop_pred == (|f: LogFileView| expired(f, now)),
            file_views(remove@) == all.subrange(0, i as int).filter(drop_pred),
            file_views(sorted@) == sorted_by_modified(all.subrange(0, i as int).filter(keep_pred)),
        decreases files@.len() - i,
    {
        let ghost prefix = all.subrange(0, i + 1);
        assert(prefix.drop_last() =~= all.subrange(0, i as int));
        assert(prefix.last() == files@[i as int]@);
        assert(prefix.len() > 0);
        reveal(Seq::filter);
        assert(prefix.filter(drop_pred) == if drop_pred(prefix.last()) {
            prefix.drop_last().filter(drop_pred).push(prefix.last())
        } else {
            prefix.drop_last().filter(drop_pred)
        });
        assert(prefix.filter(keep_pred) == if keep_pred(prefix.last()) {
            prefix.drop_last().filter(keep_pred).push(prefix.last())
        } else {
            prefix.drop_last().filter(keep_pred)
        });
        let f = &files[i];
        let is_expired = now >= i128::MIN + LOG_RETENTION_NANOS && f.modified < now - LOG_RETENTION_NANOS;
        assert(is_expired == expired(f@, now));
        assert(drop_pred(f@) == is_expired);
        assert(keep_pred(f@) == !is_expired);
        if is_expired {
            let ghost before = file_views(remove@);
            remove.push(copy_file(f));
            assert(file_views(remove@) =~= before.push(f@));
            assert(prefix.filter(drop_pred) =~= all.subrange(0, i as int).filter(drop_pred).push(f@));
            assert(prefix.filter(keep_pred) =~= all.subrange(0, i as int).filter(keep_pred));
        } else {
            let mut j: usize = sorted.len();
            while j > 0 && sorted[j - 1].modified > f.modified
                invariant
                    j <= sorted@.len(),
                    forall|k: int| j <= k < sorted@.len() ==> sorted@[k].modified > f.modified,
                decreases j,
            {
                j = j - 1;
            }
            let ghost before = file_views(sorted@);
            proof {
                lemma_insert_at(before, f@, j as int);
            }
            sorted.insert(j, copy_file(f));
            assert(file_views(sorted@) =~= before.insert(j as int, f@));
            assert(prefix.filter(drop_pred) =~= all.subrange(0, i as int).filter(drop_pred));
            assert(prefix.filter(keep_pred) =~= all.subrange(0, i as int).filter(keep_pred).push(f@));
            assert(prefix.filter(keep_pred).drop_last() =~= all.subrange(0, i as int).filter(keep_pred));
        }
        i = i + 1;
    }
    assert(all.subrange(0, i as int) =~= all);
    let ghost kept = all.filter(keep_pred);
    let ghost expired_part = file_views(remove@);
    let ghost ordered = file_views(sorted@);
    proof {
        lemma_sorted_total(kept);
    }
    let mut total: u64 = 0;
    let mut k: usize = 0;
    while k < sorted.len()
        invariant
            k <= sorted@.len(),
            ordered == file_views(sorted@),
            total == bytes_total(ordered.subrange(0, k as int)),
            bytes_total(ordered) <= u64::MAX,
        decreases sorted@.len() - k,
    {
        proof {
            lemma_total_bound(ordered, k + 1);
            assert(ordered.subrange(0, k + 1).drop_last() =~= ordered.subrange(0, k as int));
        }
        total = total + sorted[k].bytes;
        k = k + 1;
    }
    assert(ordered.subrange(0, k as int) =~= ordered);
    assert(ordered.subrange(0, 0) + overflow_removals(ordered.subrange(0, ordered.len() as int), total as int)
        =~= overflow_removals(ordered, bytes_total(ordered)));
    let mut m: usize = 0;
    while m < sorted.len() && total > MAX_LOG_BYTES
        invariant
            m <= sorted@.len(),
            ordered == file_views(sorted@),
            file_views(remove@) == expired_part + ordered.subrange(0, m as int),
            overflow_removals(ordered, bytes_total(ordered)) == ordered.subrange(0, m as int)
                + overflow_removals(ordered.subrange(m as int, ordered.len() as int), total as int),
        decreases sorted@.len() - m,
    {
        let ghost rest = ordered.subrange(m as int, ordered.len() as int);
        assert(rest.drop_first() =~= ordered.subrange(m + 1, ordered.len() as int));
        assert(rest[0] == ordered[m as int]);
        total = if total < sorted[m].bytes {
            0
        } else {
            total - sorted[m].bytes
        };
        let ghost before = file_views(remove@);
        remove.push(copy_file(&sorted[m]));
        assert(file_views(remove@) =~= before.push(ordered[m as int]));
        m = m + 1;
        assert(ordered.subrange(0, m as int) =~= ordered.subrange(0, m - 1).push(ordered[m - 1]));
        assert(file_views(remove@) =~= expired_part + ordered.subrange(0, m as int));
    }
    assert(overflow_removals(ordered.subrange(m as int, ordered.len() as int), total as int) =~= Seq::empty());
    assert(ordered.subrange(0, m as int) =~= overflow_removals(ordered, bytes_total(ordered)));
    remove
}

proof fn lemma_insert_total(sorted: Seq<LogFileView>, f: LogFileView)
    ensures
        bytes_total(insert_by_modified(sorted, f)) == bytes_total(sorted) + f.bytes,
    decreases sorted.len(),
{
    if sorted.len() == 0 {
        assert(seq![f].drop_last() =~= Seq::<LogFileView>::empty());
        assert(seq![f].last() == f);
        assert(bytes_total(Seq::<LogFileView>::empty()) == 0);
        assert(insert_by_modified(sorted, f) == seq![f]);
    } else if sorted.last().modified <= f.modified {
        assert(sorted.push(f).drop_last() =~= sorted);
    } else {
        lemma_insert_total(sorted.drop_last(), f);
        let inner = insert_by_modified(sorted.drop_last(), f);
        assert(inner.push(sorted.last()).drop_last() =~= inner);
    }
}

/// Ordering the files keeps their byte total.
proof fn lemma_sorted_total(files: Seq<LogFileView>)
    ensures
        bytes_total(sorted_by_modified(files)) == bytes_total(files),
    decreases files.len(),
{
    if files.len() > 0 {
        lemma_sorted_total(files.drop_last());
        lemma_insert_total(sorted_by_modified(files.drop_last()), files.last());
    }
}

} // verus!
