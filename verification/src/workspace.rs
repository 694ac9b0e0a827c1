//! Workspace storage: upload limits, the storage overview, and permanent
//! purging of selected items with the bytes it gives back.
use vstd::prelude::*;

use crate::auth::require_workspace_manager;
use crate::error::{is_validation, AppError, AppResult};
use crate::text::{chars_of, same_chars, trim, trim_chars};

verus! {

/// The workspace limit applied by the JSON and multipart API: the configured
/// value (100 MiB when unset), at least one byte, at most the server maximum.
pub open spec fn spec_api_workspace_limit(configured: Option<i64>, server_max: u64) -> u64 {
    let v: u64 = crate::uploads::spec_tus_workspace_limit(configured);
    if v < server_max { v } else { server_max }
}

/// The upload limit of a workspace for the JSON and multipart API.
pub fn api_workspace_limit(configured: Option<i64>, server_max: u64) -> (r: u64)
    ensures
        r == spec_api_workspace_limit(configured, server_max),
        r <= server_max,
{
    let v = crate::uploads::tus_workspace_limit(configured);
    if v < server_max { v } else { server_max }
}

/// The bytes a multipart request is assumed to bring: its declared length,
/// or the limit plus one MiB of framing when it declares none.
pub fn multipart_incoming(declared: Option<u64>, limit: u64) -> (r: u64)
    ensures
        r == match declared {
            Some(d) => d,
            None => if limit + 1048576 > u64::MAX { u64::MAX } else { (limit + 1048576) as u64 },
        },
{
    match declared {
        Some(d) => d,
        None => limit.saturating_add(1048576),
    }
}

/// The largest request body the server accepts: the single-request upload
/// limit plus one MiB of framing, saturating, and at most `usize::MAX`.
pub fn request_body_limit(legacy_max: u64) -> (r: usize)
    ensures
        r as int == ({
            let framed = if legacy_max + 1048576 > u64::MAX { u64::MAX as int } else { legacy_max + 1048576 };
            if framed > usize::MAX { usize::MAX as int } else { framed }
        }),
{
    let framed = legacy_max.saturating_add(1048576);
    if framed > usize::MAX as u64 {
        usize::MAX
    } else {
        framed as usize
    }
}

// ---------------------------------------------------------------------------
// Storage overview
// ---------------------------------------------------------------------------

/// The sum of the reclaimable bytes of deleted items.
pub open spec fn deleted_reclaimable(items: Seq<(bool, i64)>) -> int
    decreases items.len(),
{
    if items.len() == 0 {
        0
    } else {
        deleted_reclaimable(items.drop_last()) + if items.last().0 { items.last().1 as int } else { 0 }
    }
}

/// The bytes that purging the trash would give back, from each listed item's
/// deleted flag and reclaimable bytes; `None` when a running total leaves
/// the signed 64-bit range, where plain addition would overflow.
pub fn reclaimable_total(items: &Vec<(bool, i64)>) -> (r: Option<i64>)
    ensures
        r is Some <==> forall|k: int|
            0 <= k <= items@.len() ==> i64::MIN <= #[trigger] deleted_reclaimable(items@.take(k)) <= i64::MAX,
        r matches Some(t) ==> t == deleted_reclaimable(items@),
{
    let mut total: i64 = 0;
    let mut i: usize = 0;
    assert(items@.take(0) =~= Seq::<(bool, i64)>::empty());
    while i < items.len()
        invariant
            i <= items@.len(),
            forall|k: int|
                0 <= k <= i ==> i64::MIN <= #[trigger] deleted_reclaimable(items@.take(k)) <= i64::MAX,
            total == deleted_reclaimable(items@.take(i as int)),
        decreases items@.len() - i,
    {
        assert(items@.take(i + 1).drop_last() =~= items@.take(i as int));
        let (deleted, bytes) = items[i];
        if deleted {
            match total.checked_add(bytes) {
                Some(t) => {
                    total = t;
                },
                None => {
                    assert(!(i64::MIN <= deleted_reclaimable(items@.take(i + 1)) <= i64::MAX));
                    return None;
                },
            }
        }
        i = i + 1;
        assert(total == deleted_reclaimable(items@.take(i as int)));
    }
    assert(items@.take(i as int) =~= items@);
    Some(total)
}

/// Whether free space has fallen below the reserve plus what active uploads
/// still expect.
pub fn low_storage(free: u64, reserve: u64, reserved_uploads: i64) -> (r: bool)
    ensures
        r == (free < crate::uploads::spec_required_space(
            reserve,
            if reserved_uploads < 0 { 0 } else { reserved_uploads as u64 },
            0,
        )),
{
    let outstanding: u64 = if reserved_uploads < 0 { 0 } else { reserved_uploads as u64 };
    free < reserve.saturating_add(outstanding)
}

// ---------------------------------------------------------------------------
// Purging
// ---------------------------------------------------------------------------

/// At most this many items are purged at once.
pub const MAX_PURGE_ITEMS: usize = 250;

/// The first checks of a purge: a manager's role and between 1 and 250 items.
pub fn check_purge_selection(role: &str, count: usize) -> (r: AppResult<()>)
    ensures
        match r {
            Ok(_) => (role@ == "owner"@ || role@ == "admin"@) && 1 <= count <= 250,
            Err(e) => if !(role@ == "owner"@ || role@ == "admin"@) {
                e is Forbidden
            } else {
                (count == 0 || count > 250) && is_validation(e, "select between 1 and 250 items"@)
            },
        },
{
    require_workspace_manager(role)?;
    if count == 0 || count > 250 {
        return Err(AppError::Validation(String::from_str("select between 1 and 250 items")));
    }
    Ok(())
}

/// A purge must be confirmed by typing the workspace's name.
pub fn check_purge_confirmation(confirmation: &str, workspace_name: &str) -> (r: AppResult<()>)
    ensures
        r is Ok <==> trim(confirmation@) == workspace_name@,
        r matches Err(e) ==> is_validation(e, "workspace name confirmation does not match"@),
{
    let c = chars_of(confirmation);
    let t = trim_chars(c.as_slice());
    let n = chars_of(workspace_name);
    if !same_chars(t.as_slice(), n.as_slice()) {
        return Err(AppError::Validation(String::from_str("workspace name confirmation does not match")));
    }
    Ok(())
}

/// The distinct elements of `ids`, each at its first position.
pub open spec fn distinct(ids: Seq<u128>) -> Seq<u128>
    decreases ids.len(),
{
    if ids.len() == 0 {
        ids
    } else if distinct(ids.drop_last()).contains(ids.last()) {
        distinct(ids.drop_last())
    } else {
        distinct(ids.drop_last()).push(ids.last())
    }
}

proof fn lemma_distinct(ids: Seq<u128>)
    ensures
        distinct(ids).no_duplicates(),
        distinct(ids).to_set() == ids.to_set(),
        distinct(ids).len() <= ids.len(),
    decreases ids.len(),
{
    if ids.len() > 0 {
        let init = ids.drop_last();
        lemma_distinct(init);
        let d = distinct(init);
        assert(ids =~= init.push(ids.last()));
        if !d.contains(ids.last()) {
            let d2 = d.push(ids.last());
            assert forall|a: int, b: int| 0 <= a < d2.len() && 0 <= b < d2.len() && a != b implies d2[a] != d2[b] by {
                if a < d.len() && b < d.len() {
                    assert(d2[a] == d[a] && d2[b] == d[b]);
                } else if a == d.len() {
                    assert(d2[b] == d[b]);
                } else {
                    assert(d2[a] == d[a]);
                }
            }
            assert forall|x: u128| d2.contains(x) <==> (d.contains(x) || x == ids.last()) by {
                if d2.contains(x) {
                    let j = choose|j: int| 0 <= j < d2.len() && d2[j] == x;
                    if j < d.len() {
                        assert(d[j] == x);
                    }
                }
                if d.contains(x) {
                    let j = choose|j: int| 0 <= j < d.len() && d[j] == x;
                    assert(d2[j] == x);
                }
                if x == ids.last() {
                    assert(d2[d.len() as int] == x);
                }
            }
            assert(d2.to_set() =~= d.to_set().insert(ids.last()));
        } else {
            assert(d.to_set().contains(ids.last()));
        }
        assert forall|x: u128| ids.contains(x) <==> (init.contains(x) || x == ids.last()) by {
            if ids.contains(x) {
                let j = choose|j: int| 0 <= j < ids.len() && ids[j] == x;
                if j < init.len() {
                    assert(init[j] == x);
                }
            }
            if init.contains(x) {
                let j = choose|j: int| 0 <= j < init.len() && init[j] == x;
                assert(ids[j] == x);
            }
        }
        assert(ids.to_set() =~= init.to_set().insert(ids.last()));
    }
}

/// The selected items without repeats, in the order first selected. Every
/// selected item is kept exactly once.
pub fn unique_ids(ids: &Vec<u128>) -> (r: Vec<u128>)
    ensures
        r@ == distinct(ids@),
        r@.no_duplicates(),
        r@.to_set() == ids@.to_set(),
        r@.len() <= ids@.len(),
{
    let mut out: Vec<u128> = Vec::new();
    let mut i: usize = 0;
    while i < ids.len()
        invariant
            i <= ids@.len(),
            out@ == distinct(ids@.take(i as int)),
        decreases ids@.len() - i,
    {
        assert(ids@.take(i + 1).drop_last() =~= ids@.take(i as int));
        let id = ids[i];
        let mut seen = false;
        let mut k: usize = 0;
        while k < out.len()
            invariant
                k <= out@.len(),
                seen == exists|j: int| 0 <= j < k && out@[j] == id,
            decreases out@.len() - k,
        {
            if out[k] == id {
                seen = true;
            }
            k = k + 1;
        }
        if !seen {
            out.push(id);
        }
        i = i + 1;
    }
    assert(ids@.take(i as int) =~= ids@);
    proof {
        lemma_distinct(ids@);
    }
    out
}

/// Every selected item must exist in the workspace.
pub fn check_purge_rows(found: usize, selected: usize) -> (r: AppResult<()>)
    ensures
        r is Ok <==> found == selected,
        r matches Err(e) ==> is_validation(e, "one or more selected items were not found"@),
{
    if found != selected {
        return Err(AppError::Validation(String::from_str("one or more selected items were not found")));
    }
    Ok(())
}

/// The running account of a purge: the blobs already examined, the bytes
/// given back (saturating), and the files to remove after commit.
pub struct PurgeTally {
    pub seen_blobs: Vec<u128>,
    pub reclaimed_bytes: i64,
    pub storage_keys: Vec<String>,
}

impl PurgeTally {
    /// Nothing examined, nothing reclaimed.
    pub fn new() -> (r: PurgeTally)
        ensures
            r.seen_blobs@ == Seq::<u128>::empty(),
            r.reclaimed_bytes == 0,
            r.storage_keys@.len() == 0,
    {
        PurgeTally { seen_blobs: Vec::new(), reclaimed_bytes: 0, storage_keys: Vec::new() }
    }

    /// Whether `blob` is met for the first time; it is remembered either way.
    pub fn first_visit(&mut self, blob: u128) -> (r: bool)
        ensures
            r == !old(self).seen_blobs@.contains(blob),
            final(self).seen_blobs@ == if r { old(self).seen_blobs@.push(blob) } else { old(self).seen_blobs@ },
            final(self).reclaimed_bytes == old(self).reclaimed_bytes,
            final(self).storage_keys@ == old(self).storage_keys@,
    {
        let mut k: usize = 0;
        while k < self.seen_blobs.len()
            invariant
                k <= self.seen_blobs@.len(),
                self.seen_blobs@ == old(self).seen_blobs@,
                self.reclaimed_bytes == old(self).reclaimed_bytes,
                self.storage_keys@ == old(self).storage_keys@,
                forall|j: int| 0 <= j < k ==> self.seen_blobs@[j] != blob,
            decreases self.seen_blobs@.len() - k,
        {
            if self.seen_blobs[k] == blob {
                assert(self.seen_blobs@[k as int] == blob);
                return false;
            }
            k = k + 1;
        }
        self.seen_blobs.push(blob);
        true
    }

    /// Records a blob that no item references any more: its bytes are given
    /// back and its file, when it has a key, is removed after commit.
    pub fn record_removed_blob(&mut self, size: i64, storage_key: Option<String>)
        ensures
            final(self).seen_blobs@ == old(self).seen_blobs@,
            final(self).reclaimed_bytes == ({
                let total = old(self).reclaimed_bytes + size;
                if total > i64::MAX { i64::MAX } else if total < i64::MIN { i64::MIN } else { total as i64 }
            }),
            final(self).storage_keys@ == match storage_key {
                Some(k) => old(self).storage_keys@.push(k),
                None => old(self).storage_keys@,
            },
    {
        self.reclaimed_bytes = match self.reclaimed_bytes.checked_add(size) {
            Some(t) => t,
            None => if size > 0 { i64::MAX } else { i64::MIN },
        };
        match storage_key {
            Some(k) => self.storage_keys.push(k),
            None => {},
        }
    }
}

} // verus!
