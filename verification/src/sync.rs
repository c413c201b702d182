//! The incremental sync engine: content fingerprints, inventory
//! records, the diff that plans transfer operations, and the summary
//! of an executed plan.

use vstd::prelude::*;

use crate::i18n::{spec_format, spec_translation_or_fallback, strs_of, t, t_format, Language,
    TranslationEntryV, TranslationStore};
use crate::strutil::{concat3, spec_dec_str, u64_to_dec};
use crate::types::{FileStatus, FileStatusV, OperationType, SyncOperation, SyncOperationV,
    SyncResult};

verus! {

/// The SHA-256 digest of a byte sequence. Its value is fixed by the
/// input bytes alone; the library never states what it is.
pub uninterp spec fn sha256_of(bytes: Seq<u8>) -> Seq<u8>;

/// Relies on sha2::Sha256 (via digest::Digest::digest): the digest is a
/// function of the input bytes alone and is always 32 bytes long.
#[verifier::external_body]
fn sha256_digest(content: &Vec<u8>) -> (r: Vec<u8>)
    ensures
        r@ == sha256_of(content@),
        r@.len() == 32,
{
    <sha2::Sha256 as sha2::Digest>::digest(content.as_slice()).to_vec()
}

/// The lowercase hex digit for a value below 16.
pub open spec fn hex_char(n: u8) -> char
    recommends
        n < 16,
{
    if n < 10 {
        ((48 + n) as u8) as char
    } else {
        ((87 + n) as u8) as char
    }
}

/// Lowercase hex encoding: two digits per byte, high nibble first.
pub open spec fn hex_of(bytes: Seq<u8>) -> Seq<char> {
    Seq::new(
        2 * bytes.len(),
        |i: int|
            if i % 2 == 0 {
                hex_char((bytes[i / 2] / 16) as u8)
            } else {
                hex_char((bytes[i / 2] % 16) as u8)
            },
    )
}

/// The lowercase hex digit for a value below 16, as a string slice.
fn hex_digit_str(n: u8) -> (r: &'static str)
    requires
        n < 16,
    ensures
        r@ == seq![hex_char(n)],
{
    proof {
        reveal_strlit("0");
        reveal_strlit("1");
        reveal_strlit("2");
        reveal_strlit("3");
        reveal_strlit("4");
        reveal_strlit("5");
        reveal_strlit("6");
        reveal_strlit("7");
        reveal_strlit("8");
        reveal_strlit("9");
        reveal_strlit("a");
        reveal_strlit("b");
        reveal_strlit("c");
        reveal_strlit("d");
        reveal_strlit("e");
        reveal_strlit("f");
    }
    match n {
        0 => "0",
        1 => "1",
        2 => "2",
        3 => "3",
        4 => "4",
        5 => "5",
        6 => "6",
        7 => "7",
        8 => "8",
        9 => "9",
        10 => "a",
        11 => "b",
        12 => "c",
        13 => "d",
        14 => "e",
        _ => "f",
    }
}

/// Lowercase hex encoding of a byte vector.
pub fn hex_string(bytes: &Vec<u8>) -> (r: String)
    ensures
        r@ == hex_of(bytes@),
{
    let mut r = String::new();
    let n = bytes.len();
    let mut i: usize = 0;
    while i < n
        invariant
            n == bytes@.len(),
            i <= n,
            r@ == hex_of(bytes@.take(i as int)),
        decreases n - i,
    {
        let b = bytes[i];
        let hi = hex_digit_str(b / 16);
        let lo = hex_digit_str(b % 16);
        r.append(hi);
        r.append(lo);
        i += 1;
        proof {
            assert(r@ =~= hex_of(bytes@.take(i as int)));
        }
    }
    proof {
        assert(bytes@.take(n as int) =~= bytes@);
    }
    r
}

/// The content fingerprint: lowercase hex of the SHA-256 digest.
pub open spec fn spec_checksum(content: Seq<u8>) -> Seq<char> {
    hex_of(sha256_of(content))
}

/// Compute the content fingerprint of a file's bytes.
pub fn checksum_of_bytes(content: &Vec<u8>) -> (r: String)
    ensures
        r@ == spec_checksum(content@),
        r@.len() == 64,
{
    let digest = sha256_digest(content);
    hex_string(&digest)
}

/// Build the inventory record of a local file from its relative path,
/// metadata and content; the fingerprint is computed here.
pub fn make_local_record(rel_path: String, size: u64, modified: u64, content: &Vec<u8>) -> (r:
    FileStatus)
    ensures
        r@.path == rel_path@,
        r@.size == size,
        r@.modified == modified,
        !r@.is_directory,
        r@.checksum == Some(spec_checksum(content@)),
{
    let checksum = checksum_of_bytes(content);
    FileStatus { path: rel_path, size, modified, is_directory: false, checksum: Some(checksum) }
}

/// Build the inventory record of a remote directory entry from what the
/// listing reports; absent size or time default to zero, and no
/// fingerprint is recorded.
pub fn make_remote_record(rel_path: String, size: Option<u64>, modified: Option<u64>,
    is_directory: bool) -> (r: FileStatus)
    ensures
        r@.path == rel_path@,
        r@.size == (match size {
            Some(n) => n,
            None => 0,
        }),
        r@.modified == (match modified {
            Some(n) => n,
            None => 0,
        }),
        r@.is_directory == is_directory,
        r@.checksum is None,
{
    FileStatus {
        path: rel_path,
        size: match size {
            Some(n) => n,
            None => 0,
        },
        modified: match modified {
            Some(n) => n,
            None => 0,
        },
        is_directory,
        checksum: None,
    }
}

/// The views of an inventory's records.
pub open spec fn views_of(s: Seq<FileStatus>) -> Seq<FileStatusV> {
    s.map_values(|f: FileStatus| f@)
}

/// The views of a list of operations.
pub open spec fn ops_views(s: Seq<SyncOperation>) -> Seq<SyncOperationV> {
    s.map_values(|o: SyncOperation| o@)
}

/// A root path joined with a relative path.
pub open spec fn spec_join(root: Seq<char>, rel: Seq<char>) -> Seq<char> {
    root + seq!['/'] + rel
}

/// Join a root path with a relative path.
pub fn join_path(root: &str, rel: &str) -> (r: String)
    ensures
        r@ == spec_join(root@, rel@),
{
    proof {
        reveal_strlit("/");
        assert("/"@ =~= seq!['/']);
    }
    concat3(root, "/", rel)
}

/// Does the inventory hold a record at this relative path?
pub open spec fn has_path(inv: Seq<FileStatusV>, p: Seq<char>) -> bool {
    exists|j: int| 0 <= j < inv.len() && inv[j].path == p
}

/// The record at this relative path (meaningful when paths are unique).
pub open spec fn record_at(inv: Seq<FileStatusV>, p: Seq<char>) -> FileStatusV {
    inv[choose|j: int| 0 <= j < inv.len() && inv[j].path == p]
}

/// Relative paths are pairwise distinct within the inventory.
pub open spec fn unique_paths(inv: Seq<FileStatusV>) -> bool {
    forall|i: int, j: int| 0 <= i < j < inv.len() ==> inv[i].path != inv[j].path
}

/// With unique paths, any record whose path matches is the record that
/// `record_at` denotes.
pub proof fn lemma_record_at(inv: Seq<FileStatusV>, p: Seq<char>, j: int)
    requires
        unique_paths(inv),
        0 <= j < inv.len(),
        inv[j].path == p,
    ensures
        has_path(inv, p),
        record_at(inv, p) == inv[j],
{
    assert(has_path(inv, p));
    let k = choose|k: int| 0 <= k < inv.len() && inv[k].path == p;
    if k != j {
        if k < j {
            assert(inv[k].path != inv[j].path);
        } else {
            assert(inv[j].path != inv[k].path);
        }
    }
}

/// Must this local file be uploaded, given the remote record at the
/// same relative path? The modification time is the primary signal;
/// fingerprints decide only when the remote record carries one.
pub open spec fn spec_needs_upload(l: FileStatusV, r: FileStatusV) -> bool {
    l.modified > r.modified || (r.checksum is Some && l.checksum != r.checksum)
}

/// Is an upload of this local record called for against this remote
/// inventory? Directory records are traversal artifacts and are never
/// transferred.
pub open spec fn upload_needed(l: FileStatusV, remote: Seq<FileStatusV>) -> bool {
    &&& !l.is_directory
    &&& (!has_path(remote, l.path) || spec_needs_upload(l, record_at(remote, l.path)))
}

/// Is a download of this remote record called for against this local
/// inventory?
pub open spec fn download_needed(r: FileStatusV, local: Seq<FileStatusV>) -> bool {
    &&& !r.is_directory
    &&& !has_path(local, r.path)
}

/// The upload operation planned for a local record.
pub open spec fn upload_op(l: FileStatusV, lroot: Seq<char>, rroot: Seq<char>, now: u64)
    -> SyncOperationV {
    SyncOperationV {
        operation_type: OperationType::Upload,
        local_path: spec_join(lroot, l.path),
        remote_path: spec_join(rroot, l.path),
        timestamp: now,
    }
}

/// The download operation planned for a remote record.
pub open spec fn download_op(r: FileStatusV, lroot: Seq<char>, rroot: Seq<char>, now: u64)
    -> SyncOperationV {
    SyncOperationV {
        operation_type: OperationType::Download,
        local_path: spec_join(lroot, r.path),
        remote_path: spec_join(rroot, r.path),
        timestamp: now,
    }
}

/// The uploads the plan holds, in local inventory order.
pub open spec fn spec_uploads(
    local: Seq<FileStatusV>,
    remote: Seq<FileStatusV>,
    lroot: Seq<char>,
    rroot: Seq<char>,
    now: u64,
) -> Seq<SyncOperationV>
    decreases local.len(),
{
    if local.len() == 0 {
        Seq::empty()
    } else {
        spec_uploads(local.drop_last(), remote, lroot, rroot, now) + (if upload_needed(
            local.last(),
            remote,
        ) {
            seq![upload_op(local.last(), lroot, rroot, now)]
        } else {
            Seq::empty()
        })
    }
}

/// The downloads the plan holds, in remote inventory order.
pub open spec fn spec_downloads(
    local: Seq<FileStatusV>,
    remote: Seq<FileStatusV>,
    lroot: Seq<char>,
    rroot: Seq<char>,
    now: u64,
) -> Seq<SyncOperationV>
    decreases remote.len(),
{
    if remote.len() == 0 {
        Seq::empty()
    } else {
        spec_downloads(local, remote.drop_last(), lroot, rroot, now) + (if download_needed(
            remote.last(),
            local,
        ) {
            seq![download_op(remote.last(), lroot, rroot, now)]
        } else {
            Seq::empty()
        })
    }
}

/// The whole plan: all uploads, then all downloads.
pub open spec fn spec_sync_plan(
    local: Seq<FileStatusV>,
    remote: Seq<FileStatusV>,
    lroot: Seq<char>,
    rroot: Seq<char>,
    now: u64,
) -> Seq<SyncOperationV> {
    spec_uploads(local, remote, lroot, rroot, now) + spec_downloads(
        local,
        remote,
        lroot,
        rroot,
        now,
    )
}

/// Find the index of the record at this relative path, if any.
pub fn find_by_path(inv: &Vec<FileStatus>, p: &str) -> (r: Option<usize>)
    ensures
        match r {
            Some(i) => i < inv@.len() && views_of(inv@)[i as int].path == p@,
            None => !has_path(views_of(inv@), p@),
        },
{
    let n = inv.len();
    let mut i: usize = 0;
    while i < n
        invariant
            n == inv@.len(),
            i <= n,
            forall|j: int| 0 <= j < i ==> views_of(inv@)[j].path != p@,
        decreases n - i,
    {
        if crate::strutil::str_eq(inv[i].path.as_str(), p) {
            return Some(i);
        }
        assert(views_of(inv@)[i as int].path != p@);
        i += 1;
    }
    None
}

/// Do all records of the inventory have pairwise distinct paths?
pub fn paths_unique(inv: &Vec<FileStatus>) -> (r: bool)
    ensures
        r == unique_paths(views_of(inv@)),
{
    let n = inv.len();
    let mut i: usize = 0;
    while i < n
        invariant
            n == inv@.len(),
            i <= n,
            forall|a: int, b: int| 0 <= a < b < inv@.len() && a < i ==> views_of(inv@)[a].path
                != views_of(inv@)[b].path,
        decreases n - i,
    {
        let mut j: usize = i + 1;
        while j < n
            invariant
                n == inv@.len(),
                i < n,
                i + 1 <= j <= n,
                forall|b: int| i < b < j ==> views_of(inv@)[i as int].path != views_of(
                    inv@,
                )[b].path,
            decreases n - j,
        {
            if crate::strutil::str_eq(inv[i].path.as_str(), inv[j].path.as_str()) {
                assert(views_of(inv@)[i as int].path == views_of(inv@)[j as int].path);
                return false;
            }
            j += 1;
        }
        i += 1;
    }
    true
}

/// Must this local file be uploaded, given the remote record at the
/// same relative path?
pub fn needs_upload(l: &FileStatus, r: &FileStatus) -> (res: bool)
    ensures
        res == spec_needs_upload(l@, r@),
{
    if l.modified > r.modified {
        return true;
    }
    match (&l.checksum, &r.checksum) {
        (_, None) => false,
        (Some(lc), Some(rc)) => !crate::strutil::str_eq(lc.as_str(), rc.as_str()),
        (None, Some(_)) => true,
    }
}

/// Diff the two inventories and plan the transfers that reconcile
/// them: an upload for every local file that is new or changed against
/// the remote record at the same relative path, and a download for
/// every remote file with no local counterpart. Unchanged files yield
/// no operation.
pub fn sync_incremental(
    local_files: &Vec<FileStatus>,
    remote_files: &Vec<FileStatus>,
    local_root: &str,
    remote_root: &str,
    now: u64,
) -> (ops: Vec<SyncOperation>)
    requires
        unique_paths(views_of(local_files@)),
        unique_paths(views_of(remote_files@)),
    ensures
        ops_views(ops@) == spec_sync_plan(
            views_of(local_files@),
            views_of(remote_files@),
            local_root@,
            remote_root@,
            now,
        ),
{
    let ghost localv = views_of(local_files@);
    let ghost remotev = views_of(remote_files@);
    let mut ops: Vec<SyncOperation> = Vec::new();
    let n = local_files.len();
    let mut i: usize = 0;
    while i < n
        invariant
            localv == views_of(local_files@),
            remotev == views_of(remote_files@),
            unique_paths(remotev),
            n == local_files@.len(),
            i <= n,
            ops_views(ops@) == spec_uploads(localv.take(i as int), remotev, local_root@,
                remote_root@, now),
        decreases n - i,
    {
        let l = &local_files[i];
        let need: bool = if l.is_directory {
            false
        } else {
            match find_by_path(remote_files, l.path.as_str()) {
                None => true,
                Some(j) => {
                    proof {
                        lemma_record_at(remotev, l@.path, j as int);
                    }
                    needs_upload(l, &remote_files[j])
                },
            }
        };
        assert(need == upload_needed(localv[i as int], remotev));
        if need {
            let op = SyncOperation {
                operation_type: OperationType::Upload,
                local_path: join_path(local_root, l.path.as_str()),
                remote_path: join_path(remote_root, l.path.as_str()),
                timestamp: now,
            };
            ops.push(op);
        }
        i += 1;
        proof {
            assert(localv.take(i as int).drop_last() =~= localv.take(i as int - 1));
            assert(localv.take(i as int).last() == localv[i as int - 1]);
            assert(ops_views(ops@) =~= spec_uploads(localv.take(i as int), remotev,
                local_root@, remote_root@, now));
        }
    }
    proof {
        assert(localv.take(n as int) =~= localv);
    }
    let m = remote_files.len();
    let mut k: usize = 0;
    while k < m
        invariant
            localv == views_of(local_files@),
            remotev == views_of(remote_files@),
            m == remote_files@.len(),
            k <= m,
            ops_views(ops@) == spec_uploads(localv, remotev, local_root@, remote_root@, now)
                + spec_downloads(localv, remotev.take(k as int), local_root@, remote_root@,
                now),
        decreases m - k,
    {
        let r = &remote_files[k];
        let need: bool = if r.is_directory {
            false
        } else {
            match find_by_path(local_files, r.path.as_str()) {
                None => true,
                Some(_) => false,
            }
        };
        assert(need == download_needed(remotev[k as int], localv));
        if need {
            let op = SyncOperation {
                operation_type: OperationType::Download,
                local_path: join_path(local_root, r.path.as_str()),
                remote_path: join_path(remote_root, r.path.as_str()),
                timestamp: now,
            };
            let ghost prev = ops@;
            proof {
                assert(op@ == download_op(remotev[k as int], local_root@, remote_root@, now));
            }
            ops.push(op);
            proof {
                assert(ops_views(ops@) =~= ops_views(prev).push(op@));
            }
        }
        k += 1;
        proof {
            let kk = k as int;
            assert(remotev.take(kk).drop_last() =~= remotev.take(kk - 1));
            assert(remotev.take(kk).last() == remotev[kk - 1]);
            assert(spec_downloads(localv, remotev.take(kk), local_root@, remote_root@, now)
                == spec_downloads(localv, remotev.take(kk - 1), local_root@, remote_root@,
                now) + (if download_needed(remotev[kk - 1], localv) {
                seq![download_op(remotev[kk - 1], local_root@, remote_root@, now)]
            } else {
                Seq::empty()
            }));
            assert(ops_views(ops@) =~= spec_uploads(localv, remotev, local_root@,
                remote_root@, now) + spec_downloads(localv, remotev.take(kk),
                local_root@, remote_root@, now));
        }
    }
    proof {
        assert(remotev.take(m as int) =~= remotev);
    }
    ops
}

/// How many times an operation occurs in a plan.
pub open spec fn count_op(ops: Seq<SyncOperationV>, v: SyncOperationV) -> nat
    decreases ops.len(),
{
    if ops.len() == 0 {
        0
    } else {
        count_op(ops.drop_last(), v) + (if ops.last() == v {
            1nat
        } else {
            0nat
        })
    }
}

/// An empty plan holds no operation.
pub proof fn lemma_count_op_empty(v: SyncOperationV)
    ensures
        count_op(Seq::<SyncOperationV>::empty(), v) == 0,
{
}

/// A one-operation plan holds an operation once or not at all.
pub proof fn lemma_count_op_singleton(x: SyncOperationV, v: SyncOperationV)
    ensures
        count_op(seq![x], v) == (if x == v {
            1nat
        } else {
            0nat
        }),
{
    assert(seq![x].drop_last() =~= Seq::<SyncOperationV>::empty());
    lemma_count_op_empty(v);
    assert(count_op(seq![x].drop_last(), v) == 0);
    assert(seq![x].last() == x);
}

/// Counting distributes over concatenation.
pub proof fn lemma_count_op_concat(a: Seq<SyncOperationV>, b: Seq<SyncOperationV>,
    v: SyncOperationV)
    ensures
        count_op(a + b, v) == count_op(a, v) + count_op(b, v),
    decreases b.len(),
{
    if b.len() == 0 {
        assert(a + b =~= a);
    } else {
        assert((a + b).drop_last() =~= a + b.drop_last());
        assert((a + b).last() == b.last());
        lemma_count_op_concat(a, b.drop_last(), v);
    }
}

/// No upload operation occurs among the planned downloads.
proof fn lemma_downloads_no_upload(
    local: Seq<FileStatusV>,
    remote: Seq<FileStatusV>,
    lroot: Seq<char>,
    rroot: Seq<char>,
    now: u64,
    v: SyncOperationV,
)
    requires
        v.operation_type == OperationType::Upload,
    ensures
        count_op(spec_downloads(local, remote, lroot, rroot, now), v) == 0,
    decreases remote.len(),
{
    if remote.len() > 0 {
        lemma_downloads_no_upload(local, remote.drop_last(), lroot, rroot, now, v);
        lemma_count_op_concat(
            spec_downloads(local, remote.drop_last(), lroot, rroot, now),
            if download_needed(remote.last(), local) {
                seq![download_op(remote.last(), lroot, rroot, now)]
            } else {
                Seq::empty()
            },
            v,
        );
        lemma_count_op_empty(v);
        lemma_count_op_singleton(download_op(remote.last(), lroot, rroot, now), v);
    }
}

/// No download operation occurs among the planned uploads.
proof fn lemma_uploads_no_download(
    local: Seq<FileStatusV>,
    remote: Seq<FileStatusV>,
    lroot: Seq<char>,
    rroot: Seq<char>,
    now: u64,
    v: SyncOperationV,
)
    requires
        v.operation_type == OperationType::Download,
    ensures
        count_op(spec_uploads(local, remote, lroot, rroot, now), v) == 0,
    decreases local.len(),
{
    if local.len() > 0 {
        lemma_uploads_no_download(local.drop_last(), remote, lroot, rroot, now, v);
        lemma_count_op_concat(
            spec_uploads(local.drop_last(), remote, lroot, rroot, now),
            if upload_needed(local.last(), remote) {
                seq![upload_op(local.last(), lroot, rroot, now)]
            } else {
                Seq::empty()
            },
            v,
        );
        lemma_count_op_empty(v);
        lemma_count_op_singleton(upload_op(local.last(), lroot, rroot, now), v);
    }
}

/// Among the planned uploads, the operation for one local record occurs
/// exactly as often as a record with its path needs an upload.
proof fn lemma_uploads_count(
    local: Seq<FileStatusV>,
    remote: Seq<FileStatusV>,
    lroot: Seq<char>,
    rroot: Seq<char>,
    now: u64,
    p: Seq<char>,
)
    requires
        unique_paths(local),
    ensures
        count_op(spec_uploads(local, remote, lroot, rroot, now), upload_op_for(p, lroot, rroot,
            now)) == (if exists|i: int| 0 <= i < local.len() && local[i].path == p
            && upload_needed(local[i], remote) {
            1nat
        } else {
            0nat
        }),
    decreases local.len(),
{
    let v = upload_op_for(p, lroot, rroot, now);
    if local.len() == 0 {
    } else {
        let pre = local.drop_last();
        lemma_uploads_count(pre, remote, lroot, rroot, now, p);
        lemma_count_op_concat(
            spec_uploads(pre, remote, lroot, rroot, now),
            if upload_needed(local.last(), remote) {
                seq![upload_op(local.last(), lroot, rroot, now)]
            } else {
                Seq::empty()
            },
            v,
        );
        lemma_count_op_empty(v);
        lemma_count_op_singleton(upload_op(local.last(), lroot, rroot, now), v);
        let last = local.last();
        if last.path == p && upload_needed(last, remote) {
            // the last record matches; no earlier record can share its path
            assert(upload_op(last, lroot, rroot, now) == v);
            assert(forall|i: int| 0 <= i < pre.len() ==> pre[i] == local[i]);
            assert(!(exists|i: int| 0 <= i < pre.len() && pre[i].path == p
                && upload_needed(pre[i], remote))) by {
                if exists|i: int| 0 <= i < pre.len() && pre[i].path == p
                    && upload_needed(pre[i], remote) {
                    let i = choose|i: int| 0 <= i < pre.len() && pre[i].path == p
                        && upload_needed(pre[i], remote);
                    assert(local[i].path != local[local.len() - 1].path);
                }
            }
            assert(exists|i: int| 0 <= i < local.len() && local[i].path == p
                && upload_needed(local[i], remote)) by {
                assert(local[local.len() - 1].path == p
                    && upload_needed(local[local.len() - 1], remote));
            }
        } else {
            if upload_needed(last, remote) {
                // an upload was planned for the last record, but for another path
                assert(spec_join(lroot, last.path).skip(lroot.len() as int + 1) =~= last.path);
                assert(spec_join(lroot, p).skip(lroot.len() as int + 1) =~= p);
                assert(upload_op(last, lroot, rroot, now) != v);
            }
            assert((exists|i: int| 0 <= i < local.len() && local[i].path == p
                && upload_needed(local[i], remote)) == (exists|i: int| 0 <= i < pre.len()
                && pre[i].path == p && upload_needed(pre[i], remote))) by {
                if exists|i: int| 0 <= i < local.len() && local[i].path == p
                    && upload_needed(local[i], remote) {
                    let i = choose|i: int| 0 <= i < local.len() && local[i].path == p
                        && upload_needed(local[i], remote);
                    assert(i < local.len() - 1 || local[i] == last);
                    if i < local.len() - 1 {
                        assert(pre[i].path == p && upload_needed(pre[i], remote));
                    }
                }
            }
        }
    }
}

/// Among the planned downloads, the operation for one remote record
/// occurs exactly as often as a record with its path needs a download.
proof fn lemma_downloads_count(
    local: Seq<FileStatusV>,
    remote: Seq<FileStatusV>,
    lroot: Seq<char>,
    rroot: Seq<char>,
    now: u64,
    p: Seq<char>,
)
    requires
        unique_paths(remote),
    ensures
        count_op(spec_downloads(local, remote, lroot, rroot, now), download_op_for(p, lroot,
            rroot, now)) == (if exists|j: int| 0 <= j < remote.len() && remote[j].path == p
            && download_needed(remote[j], local) {
            1nat
        } else {
            0nat
        }),
    decreases remote.len(),
{
    let v = download_op_for(p, lroot, rroot, now);
    if remote.len() == 0 {
    } else {
        let pre = remote.drop_last();
        lemma_downloads_count(local, pre, lroot, rroot, now, p);
        lemma_count_op_concat(
            spec_downloads(local, pre, lroot, rroot, now),
            if download_needed(remote.last(), local) {
                seq![download_op(remote.last(), lroot, rroot, now)]
            } else {
                Seq::empty()
            },
            v,
        );
        lemma_count_op_empty(v);
        lemma_count_op_singleton(download_op(remote.last(), lroot, rroot, now), v);
        let last = remote.last();
        if last.path == p && download_needed(last, local) {
            assert(download_op(last, lroot, rroot, now) == v);
            assert(!(exists|j: int| 0 <= j < pre.len() && pre[j].path == p
                && download_needed(pre[j], local))) by {
                if exists|j: int| 0 <= j < pre.len() && pre[j].path == p
                    && download_needed(pre[j], local) {
                    let j = choose|j: int| 0 <= j < pre.len() && pre[j].path == p
                        && download_needed(pre[j], local);
                    assert(remote[j].path != remote[remote.len() - 1].path);
                }
            }
            assert(exists|j: int| 0 <= j < remote.len() && remote[j].path == p
                && download_needed(remote[j], local)) by {
                assert(remote[remote.len() - 1].path == p
                    && download_needed(remote[remote.len() - 1], local));
            }
        } else {
            if download_needed(last, local) {
                assert(spec_join(lroot, last.path).skip(lroot.len() as int + 1) =~= last.path);
                assert(spec_join(lroot, p).skip(lroot.len() as int + 1) =~= p);
                assert(download_op(last, lroot, rroot, now) != v);
            }
            assert((exists|j: int| 0 <= j < remote.len() && remote[j].path == p
                && download_needed(remote[j], local)) == (exists|j: int| 0 <= j < pre.len()
                && pre[j].path == p && download_needed(pre[j], local))) by {
                if exists|j: int| 0 <= j < remote.len() && remote[j].path == p
                    && download_needed(remote[j], local) {
                    let j = choose|j: int| 0 <= j < remote.len() && remote[j].path == p
                        && download_needed(remote[j], local);
                    assert(j < remote.len() - 1 || remote[j] == last);
                    if j < remote.len() - 1 {
                        assert(pre[j].path == p && download_needed(pre[j], local));
                    }
                }
            }
        }
    }
}

/// The upload operation planned for the file at one relative path.
pub open spec fn upload_op_for(p: Seq<char>, lroot: Seq<char>, rroot: Seq<char>, now: u64)
    -> SyncOperationV {
    SyncOperationV {
        operation_type: OperationType::Upload,
        local_path: spec_join(lroot, p),
        remote_path: spec_join(rroot, p),
        timestamp: now,
    }
}

/// The download operation planned for the file at one relative path.
pub open spec fn download_op_for(p: Seq<char>, lroot: Seq<char>, rroot: Seq<char>, now: u64)
    -> SyncOperationV {
    SyncOperationV {
        operation_type: OperationType::Download,
        local_path: spec_join(lroot, p),
        remote_path: spec_join(rroot, p),
        timestamp: now,
    }
}

/// Law: a local file that needs an upload — in particular one with no
/// remote counterpart at its path — is planned for upload exactly once.
pub proof fn lemma_upload_exactly_once(
    local: Seq<FileStatusV>,
    remote: Seq<FileStatusV>,
    lroot: Seq<char>,
    rroot: Seq<char>,
    now: u64,
    i: int,
)
    requires
        unique_paths(local),
        0 <= i < local.len(),
        upload_needed(local[i], remote),
    ensures
        count_op(spec_sync_plan(local, remote, lroot, rroot, now), upload_op_for(local[i].path,
            lroot, rroot, now)) == 1,
{
    let p = local[i].path;
    let v = upload_op_for(p, lroot, rroot, now);
    lemma_count_op_concat(spec_uploads(local, remote, lroot, rroot, now), spec_downloads(local,
        remote, lroot, rroot, now), v);
    lemma_uploads_count(local, remote, lroot, rroot, now, p);
    lemma_downloads_no_upload(local, remote, lroot, rroot, now, v);
    assert(exists|k: int| 0 <= k < local.len() && local[k].path == p && upload_needed(local[k],
        remote)) by {
        assert(local[i].path == p && upload_needed(local[i], remote));
    }
}

/// The two inventories agree: no local file needs an upload and no
/// remote file needs a download.
pub open spec fn inventories_consistent(local: Seq<FileStatusV>, remote: Seq<FileStatusV>)
    -> bool {
    &&& forall|i: int| 0 <= i < local.len() ==> !upload_needed(#[trigger] local[i], remote)
    &&& forall|j: int| 0 <= j < remote.len() ==> !download_needed(#[trigger] remote[j], local)
}

proof fn lemma_uploads_empty(
    local: Seq<FileStatusV>,
    remote: Seq<FileStatusV>,
    lroot: Seq<char>,
    rroot: Seq<char>,
    now: u64,
)
    requires
        forall|i: int| 0 <= i < local.len() ==> !upload_needed(#[trigger] local[i], remote),
    ensures
        spec_uploads(local, remote, lroot, rroot, now) == Seq::<SyncOperationV>::empty(),
    decreases local.len(),
{
    if local.len() > 0 {
        let pre = local.drop_last();
        assert(forall|i: int| 0 <= i < pre.len() ==> !upload_needed(#[trigger] pre[i], remote))
            by {
            assert(forall|i: int| 0 <= i < pre.len() ==> pre[i] == local[i]);
        }
        lemma_uploads_empty(pre, remote, lroot, rroot, now);
        assert(!upload_needed(local[local.len() - 1], remote));
        assert(spec_uploads(local, remote, lroot, rroot, now)
            =~= Seq::<SyncOperationV>::empty());
    }
}

proof fn lemma_downloads_empty(
    local: Seq<FileStatusV>,
    remote: Seq<FileStatusV>,
    lroot: Seq<char>,
    rroot: Seq<char>,
    now: u64,
)
    requires
        forall|j: int| 0 <= j < remote.len() ==> !download_needed(#[trigger] remote[j], local),
    ensures
        spec_downloads(local, remote, lroot, rroot, now) == Seq::<SyncOperationV>::empty(),
    decreases remote.len(),
{
    if remote.len() > 0 {
        let pre = remote.drop_last();
        assert(forall|j: int| 0 <= j < pre.len() ==> !download_needed(#[trigger] pre[j], local))
            by {
            assert(forall|j: int| 0 <= j < pre.len() ==> pre[j] == remote[j]);
        }
        lemma_downloads_empty(local, pre, lroot, rroot, now);
        assert(!download_needed(remote[remote.len() - 1], local));
        assert(spec_downloads(local, remote, lroot, rroot, now)
            =~= Seq::<SyncOperationV>::empty());
    }
}

/// Law: consistent inventories plan no operation at all.
pub proof fn lemma_consistent_plan_empty(
    local: Seq<FileStatusV>,
    remote: Seq<FileStatusV>,
    lroot: Seq<char>,
    rroot: Seq<char>,
    now: u64,
)
    requires
        inventories_consistent(local, remote),
    ensures
        spec_sync_plan(local, remote, lroot, rroot, now) == Seq::<SyncOperationV>::empty(),
{
    lemma_uploads_empty(local, remote, lroot, rroot, now);
    lemma_downloads_empty(local, remote, lroot, rroot, now);
    assert(spec_sync_plan(local, remote, lroot, rroot, now)
        =~= Seq::<SyncOperationV>::empty());
}

/// The remote record that an executed upload leaves behind: same path,
/// the local file's size and time, and no recorded fingerprint, as a
/// fresh listing reports it.
pub open spec fn mirror_remote(l: FileStatusV) -> FileStatusV {
    FileStatusV {
        path: l.path,
        size: l.size,
        modified: l.modified,
        is_directory: false,
        checksum: None,
    }
}

/// The local record that an executed download leaves behind: same
/// path, the remote file's size, time and content, hence the remote
/// record's fingerprint if one was known.
pub open spec fn mirror_local(r: FileStatusV) -> FileStatusV {
    FileStatusV {
        path: r.path,
        size: r.size,
        modified: r.modified,
        is_directory: false,
        checksum: r.checksum,
    }
}

/// The local records the plan's downloads create, in remote order.
pub open spec fn downloaded_records(local: Seq<FileStatusV>, remote: Seq<FileStatusV>)
    -> Seq<FileStatusV>
    decreases remote.len(),
{
    if remote.len() == 0 {
        Seq::empty()
    } else {
        downloaded_records(local, remote.drop_last()) + (if download_needed(remote.last(),
            local) {
            seq![mirror_local(remote.last())]
        } else {
            Seq::empty()
        })
    }
}

/// The remote records the plan's uploads create for local files with no
/// remote counterpart, in local order.
pub open spec fn uploaded_records(local: Seq<FileStatusV>, remote: Seq<FileStatusV>)
    -> Seq<FileStatusV>
    decreases local.len(),
{
    if local.len() == 0 {
        Seq::empty()
    } else {
        uploaded_records(local.drop_last(), remote) + (if !local.last().is_directory
            && !has_path(remote, local.last().path) {
            seq![mirror_remote(local.last())]
        } else {
            Seq::empty()
        })
    }
}

/// The remote inventory after the plan ran: records the uploads
/// overwrote are refreshed in place, the rest stay as they were.
pub open spec fn refreshed_remote(local: Seq<FileStatusV>, remote: Seq<FileStatusV>)
    -> Seq<FileStatusV> {
    remote.map_values(
        |r: FileStatusV|
            if has_path(local, r.path) && upload_needed(record_at(local, r.path), remote) {
                mirror_remote(record_at(local, r.path))
            } else {
                r
            },
    )
}

/// The local inventory a fresh walk reports after the plan ran.
pub open spec fn local_after_sync(local: Seq<FileStatusV>, remote: Seq<FileStatusV>)
    -> Seq<FileStatusV> {
    local + downloaded_records(local, remote)
}

/// The remote inventory a fresh listing reports after the plan ran.
pub open spec fn remote_after_sync(local: Seq<FileStatusV>, remote: Seq<FileStatusV>)
    -> Seq<FileStatusV> {
    refreshed_remote(local, remote) + uploaded_records(local, remote)
}

proof fn lemma_uploaded_sound(local: Seq<FileStatusV>, remote: Seq<FileStatusV>, k: int)
    requires
        0 <= k < uploaded_records(local, remote).len(),
    ensures
        exists|i: int|
            0 <= i < local.len() && !local[i].is_directory && !has_path(remote, local[i].path)
                && uploaded_records(local, remote)[k] == mirror_remote(#[trigger] local[i]),
    decreases local.len(),
{
    let u = uploaded_records(local, remote);
    let pre = local.drop_last();
    let upre = uploaded_records(pre, remote);
    if k < upre.len() {
        lemma_uploaded_sound(pre, remote, k);
        let i = choose|i: int|
            0 <= i < pre.len() && !pre[i].is_directory && !has_path(remote, pre[i].path)
                && upre[k] == mirror_remote(#[trigger] pre[i]);
        assert(pre[i] == local[i]);
        assert(u[k] == upre[k]);
        assert(u[k] == mirror_remote(local[i]));
    } else {
        assert(!local.last().is_directory && !has_path(remote, local.last().path));
        assert(u[k] == mirror_remote(local[local.len() - 1]));
    }
}

proof fn lemma_uploaded_complete(local: Seq<FileStatusV>, remote: Seq<FileStatusV>, i: int)
    requires
        0 <= i < local.len(),
        !local[i].is_directory,
        !has_path(remote, local[i].path),
    ensures
        exists|k: int|
            0 <= k < uploaded_records(local, remote).len() && uploaded_records(local, remote)[k]
                == mirror_remote(local[i]),
    decreases local.len(),
{
    let u = uploaded_records(local, remote);
    let pre = local.drop_last();
    let upre = uploaded_records(pre, remote);
    if i < local.len() - 1 {
        assert(pre[i] == local[i]);
        lemma_uploaded_complete(pre, remote, i);
        let k = choose|k: int| 0 <= k < upre.len() && upre[k] == mirror_remote(pre[i]);
        assert(u[k] == mirror_remote(local[i]));
    } else {
        assert(u[u.len() - 1] == mirror_remote(local[i]));
    }
}

proof fn lemma_uploaded_unique(local: Seq<FileStatusV>, remote: Seq<FileStatusV>)
    requires
        unique_paths(local),
    ensures
        unique_paths(uploaded_records(local, remote)),
    decreases local.len(),
{
    let u = uploaded_records(local, remote);
    if local.len() > 0 {
        let pre = local.drop_last();
        let upre = uploaded_records(pre, remote);
        assert(forall|i: int| 0 <= i < pre.len() ==> pre[i] == local[i]);
        lemma_uploaded_unique(pre, remote);
        assert forall|a: int, b: int| 0 <= a < b < u.len() implies u[a].path != u[b].path by {
            if b < upre.len() {
                assert(u[a] == upre[a] && u[b] == upre[b]);
            } else {
                assert(u[b] == mirror_remote(local.last()));
                lemma_uploaded_sound(pre, remote, a);
                let i = choose|i: int|
                    0 <= i < pre.len() && !pre[i].is_directory && !has_path(remote, pre[i].path)
                        && upre[a] == mirror_remote(#[trigger] pre[i]);
                assert(u[a] == upre[a]);
                assert(local[i].path != local[local.len() - 1].path);
            }
        }
    }
}

proof fn lemma_downloaded_sound(local: Seq<FileStatusV>, remote: Seq<FileStatusV>, k: int)
    requires
        0 <= k < downloaded_records(local, remote).len(),
    ensures
        exists|j: int|
            0 <= j < remote.len() && download_needed(#[trigger] remote[j], local)
                && downloaded_records(local, remote)[k] == mirror_local(remote[j]),
    decreases remote.len(),
{
    let d = downloaded_records(local, remote);
    let pre = remote.drop_last();
    let dpre = downloaded_records(local, pre);
    if k < dpre.len() {
        lemma_downloaded_sound(local, pre, k);
        let j = choose|j: int|
            0 <= j < pre.len() && download_needed(#[trigger] pre[j], local) && dpre[k]
                == mirror_local(pre[j]);
        assert(pre[j] == remote[j]);
        assert(d[k] == dpre[k]);
        assert(d[k] == mirror_local(remote[j]));
    } else {
        assert(download_needed(remote.last(), local));
        assert(d[k] == mirror_local(remote[remote.len() - 1]));
    }
}

proof fn lemma_downloaded_complete(local: Seq<FileStatusV>, remote: Seq<FileStatusV>, j: int)
    requires
        0 <= j < remote.len(),
        download_needed(remote[j], local),
    ensures
        exists|k: int|
            0 <= k < downloaded_records(local, remote).len() && downloaded_records(local,
                remote)[k] == mirror_local(remote[j]),
    decreases remote.len(),
{
    let d = downloaded_records(local, remote);
    let pre = remote.drop_last();
    let dpre = downloaded_records(local, pre);
    if j < remote.len() - 1 {
        assert(pre[j] == remote[j]);
        lemma_downloaded_complete(local, pre, j);
        let k = choose|k: int| 0 <= k < dpre.len() && dpre[k] == mirror_local(pre[j]);
        assert(d[k] == mirror_local(remote[j]));
    } else {
        assert(d[d.len() - 1] == mirror_local(remote[j]));
    }
}

proof fn lemma_downloaded_unique(local: Seq<FileStatusV>, remote: Seq<FileStatusV>)
    requires
        unique_paths(remote),
    ensures
        unique_paths(downloaded_records(local, remote)),
    decreases remote.len(),
{
    let d = downloaded_records(local, remote);
    if remote.len() > 0 {
        let pre = remote.drop_last();
        let dpre = downloaded_records(local, pre);
        assert(forall|j: int| 0 <= j < pre.len() ==> pre[j] == remote[j]);
        lemma_downloaded_unique(local, pre);
        assert forall|a: int, b: int| 0 <= a < b < d.len() implies d[a].path != d[b].path by {
            if b < dpre.len() {
                assert(d[a] == dpre[a] && d[b] == dpre[b]);
            } else {
                assert(d[b] == mirror_local(remote.last()));
                lemma_downloaded_sound(local, pre, a);
                let j = choose|j: int|
                    0 <= j < pre.len() && download_needed(#[trigger] pre[j], local) && dpre[a]
                        == mirror_local(pre[j]);
                assert(d[a] == dpre[a]);
                assert(remote[j].path != remote[remote.len() - 1].path);
            }
        }
    }
}

proof fn lemma_refreshed_path(local: Seq<FileStatusV>, remote: Seq<FileStatusV>, j: int)
    requires
        0 <= j < remote.len(),
    ensures
        refreshed_remote(local, remote)[j].path == remote[j].path,
{
    let p = remote[j].path;
    if has_path(local, p) && upload_needed(record_at(local, p), remote) {
        let i = choose|i: int| 0 <= i < local.len() && local[i].path == p;
        assert(record_at(local, p).path == p);
    }
}

proof fn lemma_after_remote_unique(local: Seq<FileStatusV>, remote: Seq<FileStatusV>)
    requires
        unique_paths(local),
        unique_paths(remote),
    ensures
        unique_paths(remote_after_sync(local, remote)),
{
    let r2 = remote_after_sync(local, remote);
    let u = uploaded_records(local, remote);
    lemma_uploaded_unique(local, remote);
    assert forall|a: int, b: int| 0 <= a < b < r2.len() implies r2[a].path != r2[b].path by {
        if b < remote.len() {
            lemma_refreshed_path(local, remote, a);
            lemma_refreshed_path(local, remote, b);
            assert(remote[a].path != remote[b].path);
        } else if a >= remote.len() {
            assert(u[a - remote.len()].path != u[b - remote.len()].path);
        } else {
            lemma_refreshed_path(local, remote, a);
            lemma_uploaded_sound(local, remote, b - remote.len());
            let i = choose|i: int|
                0 <= i < local.len() && !local[i].is_directory && !has_path(remote,
                    local[i].path) && u[b - remote.len()] == mirror_remote(#[trigger] local[i]);
            assert(r2[b].path == local[i].path);
            if r2[a].path == r2[b].path {
                assert(remote[a].path == local[i].path);
                assert(has_path(remote, local[i].path));
            }
        }
    }
}

proof fn lemma_local_settled(local: Seq<FileStatusV>, remote: Seq<FileStatusV>, i: int)
    requires
        unique_paths(local),
        unique_paths(remote),
        0 <= i < local.len(),
        !local[i].is_directory,
    ensures
        !upload_needed(local[i], remote_after_sync(local, remote)),
{
    let r2 = remote_after_sync(local, remote);
    let refreshed = refreshed_remote(local, remote);
    let u = uploaded_records(local, remote);
    let l = local[i];
    let p = l.path;
    lemma_after_remote_unique(local, remote);
    if has_path(remote, p) {
        let j = choose|j: int| 0 <= j < remote.len() && remote[j].path == p;
        lemma_record_at(local, p, i);
        lemma_refreshed_path(local, remote, j);
        assert(r2[j] == refreshed[j]);
        lemma_record_at(r2, p, j);
        if upload_needed(l, remote) {
            assert(refreshed[j] == mirror_remote(l));
            assert(!spec_needs_upload(l, mirror_remote(l)));
        } else {
            lemma_record_at(remote, p, j);
            assert(refreshed[j] == remote[j]);
            assert(!spec_needs_upload(l, remote[j]));
        }
    } else {
        lemma_uploaded_complete(local, remote, i);
        let k = choose|k: int| 0 <= k < u.len() && u[k] == mirror_remote(local[i]);
        assert(r2[remote.len() + k] == mirror_remote(l));
        lemma_record_at(r2, p, remote.len() + k);
        assert(!spec_needs_upload(l, mirror_remote(l)));
    }
}

proof fn lemma_downloaded_settled(local: Seq<FileStatusV>, remote: Seq<FileStatusV>, k: int)
    requires
        unique_paths(local),
        unique_paths(remote),
        0 <= k < downloaded_records(local, remote).len(),
    ensures
        !upload_needed(downloaded_records(local, remote)[k], remote_after_sync(local, remote)),
{
    let r2 = remote_after_sync(local, remote);
    let refreshed = refreshed_remote(local, remote);
    let d = downloaded_records(local, remote);
    lemma_after_remote_unique(local, remote);
    lemma_downloaded_sound(local, remote, k);
    let j = choose|j: int|
        0 <= j < remote.len() && download_needed(#[trigger] remote[j], local) && d[k]
            == mirror_local(remote[j]);
    let p = remote[j].path;
    assert(!has_path(local, p));
    assert(refreshed[j] == remote[j]);
    lemma_refreshed_path(local, remote, j);
    assert(r2[j] == remote[j]);
    lemma_record_at(r2, p, j);
    assert(!spec_needs_upload(mirror_local(remote[j]), remote[j]));
}

proof fn lemma_remote_covered(local: Seq<FileStatusV>, remote: Seq<FileStatusV>, j: int)
    requires
        unique_paths(local),
        unique_paths(remote),
        forall|n: int| 0 <= n < remote.len() ==> !(#[trigger] remote[n]).is_directory,
        0 <= j < remote_after_sync(local, remote).len(),
    ensures
        !download_needed(remote_after_sync(local, remote)[j], local_after_sync(local, remote)),
{
    let r2 = remote_after_sync(local, remote);
    let l2 = local_after_sync(local, remote);
    let u = uploaded_records(local, remote);
    let d = downloaded_records(local, remote);
    if j < remote.len() {
        let p = remote[j].path;
        lemma_refreshed_path(local, remote, j);
        assert(r2[j].path == p);
        if has_path(local, p) {
            let i = choose|i: int| 0 <= i < local.len() && local[i].path == p;
            assert(l2[i] == local[i]);
            assert(has_path(l2, p));
        } else {
            assert(download_needed(remote[j], local));
            lemma_downloaded_complete(local, remote, j);
            let k = choose|k: int| 0 <= k < d.len() && d[k] == mirror_local(remote[j]);
            assert(l2[local.len() + k] == mirror_local(remote[j]));
            assert(has_path(l2, p));
        }
    } else {
        lemma_uploaded_sound(local, remote, j - remote.len());
        let i = choose|i: int|
            0 <= i < local.len() && !local[i].is_directory && !has_path(remote, local[i].path)
                && u[j - remote.len()] == mirror_remote(#[trigger] local[i]);
        assert(r2[j] == mirror_remote(local[i]));
        assert(l2[i] == local[i]);
        assert(has_path(l2, local[i].path));
    }
}

/// Law: after the planned operations ran, the two inventories are
/// consistent, so a second sync against them plans nothing. Stated for
/// file inventories: records that are directory markers are excluded.
pub proof fn lemma_sync_idempotent(
    local: Seq<FileStatusV>,
    remote: Seq<FileStatusV>,
    lroot: Seq<char>,
    rroot: Seq<char>,
    now: u64,
)
    requires
        unique_paths(local),
        unique_paths(remote),
        forall|i: int| 0 <= i < local.len() ==> !(#[trigger] local[i]).is_directory,
        forall|j: int| 0 <= j < remote.len() ==> !(#[trigger] remote[j]).is_directory,
    ensures
        inventories_consistent(local_after_sync(local, remote), remote_after_sync(local,
            remote)),
        spec_sync_plan(local_after_sync(local, remote), remote_after_sync(local, remote),
            lroot, rroot, now) == Seq::<SyncOperationV>::empty(),
{
    let l2 = local_after_sync(local, remote);
    let r2 = remote_after_sync(local, remote);
    let d = downloaded_records(local, remote);
    assert forall|i: int| 0 <= i < l2.len() implies !upload_needed(#[trigger] l2[i], r2) by {
        if i < local.len() {
            assert(l2[i] == local[i]);
            lemma_local_settled(local, remote, i);
        } else {
            assert(l2[i] == d[i - local.len()]);
            lemma_downloaded_settled(local, remote, i - local.len());
        }
    }
    assert forall|j: int| 0 <= j < r2.len() implies !download_needed(#[trigger] r2[j], l2) by {
        lemma_remote_covered(local, remote, j);
    }
    lemma_consistent_plan_empty(l2, r2, lroot, rroot, now);
}

/// Law: a remote file with no local counterpart at its path is planned
/// for download exactly once.
pub proof fn lemma_download_exactly_once(
    local: Seq<FileStatusV>,
    remote: Seq<FileStatusV>,
    lroot: Seq<char>,
    rroot: Seq<char>,
    now: u64,
    j: int,
)
    requires
        unique_paths(remote),
        0 <= j < remote.len(),
        download_needed(remote[j], local),
    ensures
        count_op(spec_sync_plan(local, remote, lroot, rroot, now), download_op_for(
            remote[j].path, lroot, rroot, now)) == 1,
{
    let p = remote[j].path;
    let v = download_op_for(p, lroot, rroot, now);
    lemma_count_op_concat(spec_uploads(local, remote, lroot, rroot, now), spec_downloads(local,
        remote, lroot, rroot, now), v);
    lemma_downloads_count(local, remote, lroot, rroot, now, p);
    lemma_uploads_no_download(local, remote, lroot, rroot, now, v);
    assert(exists|k: int| 0 <= k < remote.len() && remote[k].path == p
        && download_needed(remote[k], local)) by {
        assert(remote[j].path == p && download_needed(remote[j], local));
    }
}


/// The outcome the executor reports for one operation.
#[derive(Clone, Debug)]
pub enum OpOutcome {
    Done,
    OpFailed(String),
}

/// Mathematical view of an `OpOutcome`.
pub ghost enum OpOutcomeV {
    Done,
    OpFailed(Seq<char>),
}

impl View for OpOutcome {
    type V = OpOutcomeV;

    open spec fn view(&self) -> OpOutcomeV {
        match self {
            OpOutcome::Done => OpOutcomeV::Done,
            OpOutcome::OpFailed(m) => OpOutcomeV::OpFailed(m@),
        }
    }
}

/// The views of a list of outcomes.
pub open spec fn outs_views(s: Seq<OpOutcome>) -> Seq<OpOutcomeV> {
    s.map_values(|o: OpOutcome| o@)
}

/// Is this operation a transfer the executor runs during a sync?
pub open spec fn is_transfer_op(o: SyncOperationV) -> bool {
    o.operation_type == OperationType::Upload || o.operation_type == OperationType::Download
}

/// The local paths of the transfers that succeeded, in order.
pub open spec fn spec_transferred(ops: Seq<SyncOperationV>, outs: Seq<OpOutcomeV>)
    -> Seq<Seq<char>>
    decreases ops.len(),
{
    if ops.len() == 0 || outs.len() < ops.len() {
        Seq::empty()
    } else {
        spec_transferred(ops.drop_last(), outs.drop_last()) + (if is_transfer_op(ops.last())
            && outs.last() is Done {
            seq![ops.last().local_path]
        } else {
            Seq::empty()
        })
    }
}

/// The error texts of the transfers that failed, in order.
pub open spec fn spec_op_errors(ops: Seq<SyncOperationV>, outs: Seq<OpOutcomeV>)
    -> Seq<Seq<char>>
    decreases ops.len(),
{
    if ops.len() == 0 || outs.len() < ops.len() {
        Seq::empty()
    } else {
        spec_op_errors(ops.drop_last(), outs.drop_last()) + (match outs.last() {
            OpOutcomeV::OpFailed(m) => if is_transfer_op(ops.last()) {
                seq![m]
            } else {
                Seq::empty()
            },
            OpOutcomeV::Done => Seq::empty(),
        })
    }
}

/// The message a sync summary carries: the translated completion text
/// on success, the translated failure text with the error count
/// substituted otherwise.
pub open spec fn spec_summary_message(
    store: Seq<TranslationEntryV>,
    language: Language,
    error_count: nat,
) -> Seq<char> {
    if error_count == 0 {
        spec_translation_or_fallback(store, "cli.sync_complete"@, language)
    } else {
        spec_format(
            spec_translation_or_fallback(store, "cli.sync_failed"@, language),
            seq![spec_dec_str(error_count as u64)],
        )
    }
}

/// Summarise an executed plan: which transfers went through, which
/// failed with what error, whether the whole sync succeeded, and the
/// translated message reporting it.
pub fn summarize_operations(store: &TranslationStore, language: &Language,
    ops: &Vec<SyncOperation>, outcomes: &Vec<OpOutcome>) -> (r: SyncResult)
    requires
        store.wf(),
        ops@.len() == outcomes@.len(),
    ensures
        r@.files_transferred == spec_transferred(ops_views(ops@), outs_views(outcomes@)),
        r@.errors == spec_op_errors(ops_views(ops@), outs_views(outcomes@)),
        r@.files_skipped.len() == 0,
        r@.success == (spec_op_errors(ops_views(ops@), outs_views(outcomes@)).len() == 0),
        r@.message == spec_summary_message(store@, *language, spec_op_errors(ops_views(ops@),
            outs_views(outcomes@)).len()),
{
    let ghost opsv = ops_views(ops@);
    let ghost outsv = outs_views(outcomes@);
    let mut transferred: Vec<String> = Vec::new();
    let mut errors: Vec<String> = Vec::new();
    let n = ops.len();
    let mut i: usize = 0;
    proof {
        assert(opsv.take(0) =~= Seq::<SyncOperationV>::empty());
        assert(outsv.take(0) =~= Seq::<OpOutcomeV>::empty());
        assert(transferred@.map_values(|s: String| s@) =~= Seq::<Seq<char>>::empty());
        assert(errors@.map_values(|s: String| s@) =~= Seq::<Seq<char>>::empty());
    }
    while i < n
        invariant
            opsv == ops_views(ops@),
            outsv == outs_views(outcomes@),
            n == ops@.len(),
            n == outcomes@.len(),
            i <= n,
            (transferred@.map_values(|s: String| s@)) == spec_transferred(opsv.take(
                i as int), outsv.take(i as int)),
            (errors@.map_values(|s: String| s@)) == spec_op_errors(opsv.take(i as int),
                outsv.take(i as int)),
        decreases n - i,
    {
        let op = &ops[i];
        let is_transfer = match op.operation_type {
            OperationType::Upload => true,
            OperationType::Download => true,
            _ => false,
        };
        if is_transfer {
            match &outcomes[i] {
                OpOutcome::Done => {
                    transferred.push(op.local_path.clone());
                },
                OpOutcome::OpFailed(m) => {
                    errors.push(m.clone());
                },
            }
        }
        i += 1;
        proof {
            assert(opsv.take(i as int).drop_last() =~= opsv.take(i as int - 1));
            assert(outsv.take(i as int).drop_last() =~= outsv.take(i as int - 1));
            assert(opsv.take(i as int).last() == opsv[i as int - 1]);
            assert(outsv.take(i as int).last() == outsv[i as int - 1]);
            assert(transferred@.map_values(|s: String| s@) =~= spec_transferred(opsv.take(
                i as int), outsv.take(i as int)));
            assert(errors@.map_values(|s: String| s@) =~= spec_op_errors(opsv.take(i as int),
                outsv.take(i as int)));
        }
    }
    proof {
        assert(opsv.take(n as int) =~= opsv);
        assert(outsv.take(n as int) =~= outsv);
    }
    let success = errors.len() == 0;
    let message = if success {
        t(store, "cli.sync_complete", language)
    } else {
        let count = u64_to_dec(errors.len() as u64);
        let mut args: Vec<String> = Vec::new();
        args.push(count);
        proof {
            assert(strs_of(args@) =~= seq![spec_dec_str(errors@.len() as u64)]);
        }
        t_format(store, "cli.sync_failed", language, &args)
    };
    let r = SyncResult {
        success,
        message,
        files_transferred: transferred,
        files_skipped: Vec::new(),
        errors,
    };
    proof {
        assert(r@.files_transferred =~= spec_transferred(opsv, outsv));
        assert(r@.errors =~= spec_op_errors(opsv, outsv));
        assert(r@.files_skipped =~= Seq::<Seq<char>>::empty());
        assert(spec_op_errors(opsv, outsv).len() == r.errors@.len()) by {
            assert(r@.errors.len() == r.errors@.len());
        }
    }
    r
}

} // verus!
