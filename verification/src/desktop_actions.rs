//! What the native desktop actions decide before any platform API is
//! reached: which completed incoming outputs an ID may name, the file URL a
//! path is published as, the clipboard drop effect, and notification text
//! that names no peer and no path.
use crate::error::AppError;
use crate::records::{Batch, PersistedBatch, TransferItem};
use crate::text::{decimal, decimal_chars, push_chars, str_equal, hex_digit};
use vstd::prelude::*;

verus! {

/// Whether a batch record is a finished incoming one.
pub open spec fn completed_incoming(record: PersistedBatch) -> bool {
    record.batch.direction@ == "incoming"@ && record.batch.state@ == "completed"@
}

/// Whether `item` is a finished top-level output called `id`.
pub open spec fn completed_output(item: TransferItem, id: Seq<char>) -> bool {
    item.id@ == id && item.parent_item_id is None && item.state@ == "completed"@
}

/// The first finished top-level output called `id` among the items of
/// `items`.
pub open spec fn find_output_in(items: Seq<TransferItem>, id: Seq<char>) -> Option<TransferItem>
    decreases items.len(),
{
    if items.len() == 0 {
        None
    } else if completed_output(items[0], id) {
        Some(items[0])
    } else {
        find_output_in(items.drop_first(), id)
    }
}

/// The first finished top-level output called `id` in the finished incoming
/// batches of `records`, in record order.
pub open spec fn find_output(records: Seq<PersistedBatch>, id: Seq<char>) -> Option<TransferItem>
    decreases records.len(),
{
    if records.len() == 0 {
        None
    } else if completed_incoming(records[0]) && find_output_in(records[0].items@, id) is Some {
        find_output_in(records[0].items@, id)
    } else {
        find_output(records.drop_first(), id)
    }
}

fn find_item(items: &Vec<TransferItem>, id: &str) -> (found: Option<usize>)
    ensures
        match found {
            Some(k) => k < items@.len() && find_output_in(items@, id@) == Some(items@[k as int]),
            None => find_output_in(items@, id@) is None,
        },
{
    assert(items@.subrange(0, items@.len() as int) =~= items@);
    let mut k: usize = 0;
    while k < items.len()
        invariant
            k <= items@.len(),
            find_output_in(items@, id@) == find_output_in(items@.subrange(k as int, items@.len() as int), id@),
        decreases items@.len() - k,
    {
        let ghost rest = items@.subrange(k as int, items@.len() as int);
        assert(rest.drop_first() =~= items@.subrange(k + 1, items@.len() as int));
        assert(rest[0] == items@[k as int]);
        let item = &items[k];
        if str_equal(item.id.as_str(), id) && item.parent_item_id.is_none() && str_equal(item.state.as_str(), "completed") {
            return Some(k);
        }
        k = k + 1;
    }
    None
}

/// The recorded destination of the finished incoming top-level output called
/// `item_id`; the caller still checks that it exists.
pub fn completed_item_destination(records: &Vec<PersistedBatch>, item_id: &str) -> (result: Result<String, AppError>)
    ensures
        match find_output(records@, item_id@) {
            Some(item) => match item.destination_path_local {
                Some(d) => result matches Ok(p) && p@ == d@,
                None => result == Err::<String, AppError>(AppError::CompletedOutputUnavailable),
            },
            None => result == Err::<String, AppError>(AppError::CompletedOutputUnavailable),
        },
{
    let ghost all = records@;
    assert(all.subrange(0, all.len() as int) =~= all);
    let mut r: usize = 0;
    while r < records.len()
        invariant
            r <= records@.len(),
            all == records@,
            find_output(all, item_id@) == find_output(all.subrange(r as int, all.len() as int), item_id@),
        decreases records@.len() - r,
    {
        let ghost rest = all.subrange(r as int, all.len() as int);
        assert(rest.drop_first() =~= all.subrange(r + 1, all.len() as int));
        assert(rest[0] == all[r as int]);
        let record = &records[r];
        if str_equal(record.batch.direction.as_str(), "incoming") && str_equal(record.batch.state.as_str(), "completed") {
            if let Some(k) = find_item(&record.items, item_id) {
                return match &record.items[k].destination_path_local {
                    Some(d) => Ok(d.clone()),
                    None => Err(AppError::CompletedOutputUnavailable),
                };
            }
        }
        r = r + 1;
    }
    Err(AppError::CompletedOutputUnavailable)
}

/// The IDs of a batch's finished top-level outputs, in item order, when the
/// batch is a finished incoming one that has any.
pub open spec fn batch_output_ids(records: Seq<PersistedBatch>, batch_id: Seq<char>) -> Option<Seq<Seq<char>>>
    decreases records.len(),
{
    if records.len() == 0 {
        None
    } else if records[0].batch.id@ == batch_id && completed_incoming(records[0]) {
        let items = records[0].items@.filter(
            |i: TransferItem| i.parent_item_id is None && i.state@ == "completed"@,
        );
        Some(items.map_values(|i: TransferItem| i.id@))
    } else {
        batch_output_ids(records.drop_first(), batch_id)
    }
}

/// The IDs of the finished top-level outputs of the finished incoming batch
/// `batch_id`; each is then resolved as a single item.  A batch without any
/// is refused.
pub fn completed_batch_output_ids(records: &Vec<PersistedBatch>, batch_id: &str) -> (result: Result<Vec<String>, AppError>)
    ensures
        match batch_output_ids(records@, batch_id@) {
            Some(ids) => if ids.len() == 0 {
                result == Err::<Vec<String>, AppError>(AppError::CompletedOutputUnavailable)
            } else {
                result matches Ok(v) && v@.map_values(|s: String| s@) == ids
            },
            None => result == Err::<Vec<String>, AppError>(AppError::CompletedOutputUnavailable),
        },
{
    let ghost all = records@;
    assert(all.subrange(0, all.len() as int) =~= all);
    let mut r: usize = 0;
    while r < records.len()
        invariant
            r <= records@.len(),
            all == records@,
            batch_output_ids(all, batch_id@) == batch_output_ids(all.subrange(r as int, all.len() as int), batch_id@),
        decreases records@.len() - r,
    {
        let ghost rest = all.subrange(r as int, all.len() as int);
        assert(rest.drop_first() =~= all.subrange(r + 1, all.len() as int));
        assert(rest[0] == all[r as int]);
        let record = &records[r];
        if str_equal(record.batch.id.as_str(), batch_id) && str_equal(record.batch.direction.as_str(), "incoming")
            && str_equal(record.batch.state.as_str(), "completed") {
            let ghost pred = |i: TransferItem| i.parent_item_id is None && i.state@ == "completed"@;
            let ghost items = record.items@;
            let mut ids: Vec<String> = Vec::new();
            let mut k: usize = 0;
            proof {
                reveal(Seq::filter);
                assert(items.subrange(0, 0).filter(pred) =~= Seq::<TransferItem>::empty());
            }
            while k < record.items.len()
                invariant
                    k <= items.len(),
                    items == record.items@,
                    pred == (|i: TransferItem| i.parent_item_id is None && i.state@ == "completed"@),
                    ids@.map_values(|s: String| s@) == items.subrange(0, k as int).filter(pred).map_values(
                        |i: TransferItem| i.id@,
                    ),
                decreases items.len() - k,
            {
                let ghost prefix = items.subrange(0, k + 1);
                proof {
                    reveal(Seq::filter);
                    assert(prefix.drop_last() =~= items.subrange(0, k as int));
                    assert(prefix.last() == items[k as int]);
                }
                let item = &record.items[k];
                let ghost before = ids@.map_values(|s: String| s@);
                if item.parent_item_id.is_none() && str_equal(item.state.as_str(), "completed") {
                    ids.push(item.id.clone());
                    assert(prefix.filter(pred) == items.subrange(0, k as int).filter(pred).push(items[k as int]));
                    assert(ids@.map_values(|s: String| s@) =~= before.push(item.id@));
                    assert(prefix.filter(pred).map_values(|i: TransferItem| i.id@) =~= items.subrange(0, k as int).filter(
                        pred,
                    ).map_values(|i: TransferItem| i.id@).push(item.id@));
                } else {
                    assert(prefix.filter(pred) == items.subrange(0, k as int).filter(pred));
                }
                k = k + 1;
            }
            assert(items.subrange(0, k as int) =~= items);
            if ids.len() == 0 {
                return Err(AppError::CompletedOutputUnavailable);
            }
            return Ok(ids);
        }
        r = r + 1;
    }
    Err(AppError::CompletedOutputUnavailable)
}

/// The title and body of the notification for a finished incoming batch:
/// the number of items received, or that the transfer failed.
pub fn incoming_notification_text(completed: bool, item_count: usize) -> (text: (&'static str, String))
    ensures
        text.0 == "Fileporter",
        completed ==> text.1@ == "Received "@ + decimal(item_count as nat) + " item(s)."@,
        !completed ==> text.1@ == "An incoming transfer could not be completed."@,
{
    if completed {
        let mut body = "Received ".to_owned();
        let digits = decimal_chars(item_count as u128);
        push_chars(&mut body, &digits);
        crate::text::push_str_chars(&mut body, " item(s).");
        ("Fileporter", body)
    } else {
        ("Fileporter", "An incoming transfer could not be completed.".to_owned())
    }
}

/// Whether a stored batch is a finished incoming one the user is told of:
/// incoming, and completed, failed or cancelled.
pub open spec fn terminal_incoming(b: Batch) -> bool {
    b.direction@ == "incoming"@ && (b.state@ == "completed"@ || b.state@ == "failed"@ || b.state@ == "cancelled"@)
}

/// The item count a notification names: the batch's entries, never below
/// zero.
pub open spec fn notice_count(b: Batch) -> usize {
    (if b.total_entries < 0 {
        0
    } else {
        b.total_entries
    }) as usize
}

/// The notification a stored batch gives: for a finished incoming batch the
/// title and text of `incoming_notification_text`, nothing for any other.
pub fn terminal_incoming_notice(batch: &Batch) -> (notice: Option<(&'static str, String)>)
    ensures
        notice is Some <==> terminal_incoming(*batch),
        notice matches Some(t) ==> t.0 == "Fileporter" && (batch.state@ == "completed"@ ==> t.1@ == "Received "@
            + decimal(notice_count(*batch) as nat) + " item(s)."@) && (batch.state@ != "completed"@ ==> t.1@
            == "An incoming transfer could not be completed."@),
{
    if !str_equal(batch.direction.as_str(), "incoming") {
        return None;
    }
    let completed = str_equal(batch.state.as_str(), "completed");
    if !(completed || str_equal(batch.state.as_str(), "failed") || str_equal(batch.state.as_str(), "cancelled")) {
        return None;
    }
    let count: usize = if batch.total_entries < 0 {
        0
    } else {
        batch.total_entries as usize
    };
    Some(incoming_notification_text(completed, count))
}

/// Whether files put on the clipboard are to be copied or moved.
#[derive(Debug, Clone, Copy, PartialEq, Eq, Structural)]
pub enum FileClipboardOperation {
    Copy,
    Move,
}

/// The Windows `Preferred DropEffect` for an operation: copy (1) or move (2).
pub fn windows_drop_effect_payload(operation: FileClipboardOperation) -> (effect: u32)
    ensures
        operation == FileClipboardOperation::Copy ==> effect == 1,
        operation == FileClipboardOperation::Move ==> effect == 2,
{
    match operation {
        FileClipboardOperation::Copy => 1,
        FileClipboardOperation::Move => 2,
    }
}

/// Bytes a file URL carries as themselves: ASCII letters and digits and
/// `/ - _ . ~`.
pub open spec fn url_safe(b: u8) -> bool {
    (48 <= b <= 57) || (65 <= b <= 90) || (97 <= b <= 122) || b == 47 || b == 45 || b == 95 || b == 46
        || b == 126
}

/// Upper-case hexadecimal digit.
pub open spec fn upper_hex_digit(d: nat) -> char {
    if d < 10 {
        (48 + d) as char
    } else {
        (55 + d) as char
    }
}

/// Each byte of a path as itself when URL-safe, else as `%XX`.
pub open spec fn percent_encoded(bytes: Seq<u8>) -> Seq<char>
    decreases bytes.len(),
{
    if bytes.len() == 0 {
        Seq::empty()
    } else {
        let b = bytes.last();
        percent_encoded(bytes.drop_last()) + if url_safe(b) {
            seq![b as char]
        } else {
            seq!['%', upper_hex_digit((b / 16) as nat), upper_hex_digit((b % 16) as nat)]
        }
    }
}

fn upper_hex_char(d: u8) -> (c: char)
    requires
        d < 16,
    ensures
        c == upper_hex_digit(d as nat),
{
    if d < 10 {
        crate::text::char_from_ascii(48 + d as u32)
    } else {
        crate::text::char_from_ascii(55 + d as u32)
    }
}

/// The `file://` URL of a path, percent-encoded byte by byte so that nothing
/// in it is read as a shell or URL metacharacter.  A path that is not valid
/// text (`None`) has no URL.
pub fn macos_file_url(path: Option<&str>) -> (result: Result<String, AppError>)
    ensures
        match path {
            Some(p) => result matches Ok(u) && u@ == "file://"@ + percent_encoded(
                vstd::utf8::encode_utf8(p@),
            ),
            None => result == Err::<String, AppError>(AppError::DesktopActionFailed),
        },
{
    let path = match path {
        Some(p) => p,
        None => return Err(AppError::DesktopActionFailed),
    };
    let bytes = path.as_bytes();
    let mut url = "file://".to_owned();
    let ghost start = url@;
    let mut i: usize = 0;
    while i < bytes.len()
        invariant
            i <= bytes@.len(),
            url@ == start + percent_encoded(bytes@.subrange(0, i as int)),
        decreases bytes@.len() - i,
    {
        let b = bytes[i];
        let ghost before = url@;
        if (48 <= b && b <= 57) || (65 <= b && b <= 90) || (97 <= b && b <= 122) || b == 47 || b == 45 || b == 95
            || b == 46 || b == 126 {
            url.push(crate::text::char_from_ascii(b as u32));
        } else {
            url.push('%');
            url.push(upper_hex_char(b / 16));
            url.push(upper_hex_char(b % 16));
        }
        i = i + 1;
        assert(bytes@.subrange(0, i as int).drop_last() =~= bytes@.subrange(0, i - 1));
        assert(url@ =~= start + percent_encoded(bytes@.subrange(0, i as int)));
    }
    assert(bytes@.subrange(0, i as int) =~= bytes@);
    Ok(url)
}

} // verus!
