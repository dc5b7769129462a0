//! The decisions of the local directory provider: the backup item of each
//! chunk the directory scan reports, and where and whether a restored
//! chunk is written.

use vstd::prelude::*;
use crate::text::{chars_of, string_from_chars, extend_chars, spec_index_of, index_of_char};
use crate::def::{BackupChunkItem, BackupItemState, BuckyBackupError, spec_starts_with};
use crate::fs_path::{components, path_starts_with, path_text, spec_components, spec_path_starts_with, spec_path_text};
use crate::path_helper::{ChunkInnerPathHelper, spec_last_index_of, spec_strip_chunk_suffix, last_index_of_char};
use crate::rpc_params::{spec_parse_u64, parse_u64_text};
use crate::url_text::{translate_local_path_from_url, spec_local_path_of};

verus! {

/// The offset text of a chunk's inner path: what lies between its last
/// slash and its first colon, when it has both.
pub open spec fn spec_offset_bounds(p: Seq<char>) -> Option<(int, int)> {
    match (spec_last_index_of(p, '/'), spec_index_of(p, ':')) {
        (Some(s), Some(c)) => Some((s + 1, c)),
        _ => None,
    }
}

/// An inner path whose offset can be read: where it has both a slash and a
/// colon, the colon comes after the slash and a number stands between them.
pub open spec fn spec_offset_readable(p: Seq<char>) -> bool {
    match spec_offset_bounds(p) {
        Some((a, b)) => a <= b && spec_parse_u64(p.subrange(a, b)) is Some,
        None => true,
    }
}

/// The byte offset an inner path names (`dir/file/<start>:<end>`), 0 when
/// it names none.
pub open spec fn spec_inner_path_offset(p: Seq<char>) -> u64 {
    match spec_offset_bounds(p) {
        Some((a, b)) => match spec_parse_u64(p.subrange(a, b)) {
            Some(n) => n,
            None => 0,
        },
        None => 0,
    }
}

/// The path of `p` relative to `base` (`Path::strip_prefix`), by names.
pub open spec fn spec_relative_path_text(p: Seq<char>, base: Seq<char>) -> Seq<char> {
    spec_path_text(false, spec_components(p).skip(spec_components(base).len() as int))
}

/// Reads the offset of an inner path (see `spec_inner_path_offset`).
pub fn inner_path_offset(inner_path: &str) -> (r: u64)
    requires
        spec_offset_readable(inner_path@),
    ensures
        r == spec_inner_path_offset(inner_path@),
{
    let v = chars_of(inner_path);
    match last_index_of_char(&v, '/') {
        Some(s) => match index_of_char(&v, ':') {
            Some(c) => {
                let mut digits: Vec<char> = Vec::new();
                extend_chars(&mut digits, &v, s + 1, c);
                let text = string_from_chars(&digits);
                match parse_u64_text(text.as_str()) {
                    Some(n) => n,
                    None => 0,
                }
            },
            None => 0,
        },
        None => 0,
    }
}

/// The backup item of a chunk the directory scan reports at `inner_path`
/// below `base_dir`: named by its path relative to the base, new, stamped
/// with `now`, at the offset its inner path names. A chunk outside the base
/// is refused with the message the scan gets back.
pub fn backup_item_for_chunk(
    base_dir: &str,
    inner_path: &str,
    chunk_id: String,
    chunk_size: u64,
    now: u64,
) -> (r: Result<BackupChunkItem, String>)
    requires
        spec_path_starts_with(inner_path@, base_dir@) ==> spec_offset_readable(inner_path@),
    ensures
        !spec_path_starts_with(inner_path@, base_dir@) ==> (r matches Err(m) && m@
            == "relative path error: "@ + inner_path@),
        spec_path_starts_with(inner_path@, base_dir@) ==> (r matches Ok(item) && item.item_id@
            == spec_relative_path_text(inner_path@, base_dir@) && item.chunk_id == chunk_id
            && item.local_chunk_id is None && item.state is New && item.size == chunk_size
            && item.last_update_time == now && item.offset == spec_inner_path_offset(inner_path@)),
{
    if !path_starts_with(inner_path, base_dir) {
        let mut m = String::from_str("relative path error: ");
        m.append(inner_path);
        return Err(m);
    }
    let (_, comps) = components(inner_path);
    let (_, base_comps) = components(base_dir);
    let n = base_comps.len();
    let mut rest: Vec<Vec<char>> = Vec::new();
    let mut i = n;
    let ghost cv = comps@.map_values(|s: Vec<char>| s@);
    proof {
        assert(base_comps@.map_values(|s: Vec<char>| s@).len() == base_comps@.len());
        assert(cv.len() == comps@.len());
    }
    while i < comps.len()
        invariant
            n <= i <= comps@.len(),
            cv == comps@.map_values(|s: Vec<char>| s@),
            rest@.map_values(|s: Vec<char>| s@) == cv.subrange(n as int, i as int),
        decreases comps.len() - i,
    {
        let ghost before = rest@;
        let m = comps[i].len();
        let mut piece: Vec<char> = Vec::new();
        extend_chars(&mut piece, &comps[i], 0, m);
        assert(comps@[i as int]@.subrange(0, m as int) =~= comps@[i as int]@);
        rest.push(piece);
        assert(rest@.map_values(|s: Vec<char>| s@) =~= before.map_values(|s: Vec<char>| s@).push(
            comps@[i as int]@,
        ));
        assert(cv[i as int] == comps@[i as int]@);
        assert(cv.subrange(n as int, i + 1) =~= cv.subrange(n as int, i as int).push(cv[i as int]));
        assert(rest@.map_values(|s: Vec<char>| s@) =~= cv.subrange(n as int, i + 1));
        i = i + 1;
    }
    let k = rest.len();
    let item_id = path_text(false, &rest, k);
    proof {
        assert(rest@.map_values(|s: Vec<char>| s@).take(k as int) =~= cv.skip(n as int));
    }
    let offset = inner_path_offset(inner_path);
    Ok(
        BackupChunkItem {
            item_id,
            chunk_id,
            local_chunk_id: None,
            state: BackupItemState::New,
            size: chunk_size,
            last_update_time: now,
            offset,
        },
    )
}

/// `dir` joined with `rel` as `Path::join` joins them: a rooted `rel`
/// replaces `dir`; otherwise a slash separates them where `dir` is not
/// empty and does not end in one.
pub open spec fn spec_path_join(dir: Seq<char>, rel: Seq<char>) -> Seq<char> {
    if rel.len() > 0 && rel[0] == '/' {
        rel
    } else if dir.len() > 0 && dir.last() != '/' {
        dir + seq!['/'] + rel
    } else {
        dir + rel
    }
}

/// Joins two paths (see `spec_path_join`).
pub fn path_join(dir: &str, rel: &str) -> (r: String)
    ensures
        r@ == spec_path_join(dir@, rel@),
{
    let d = chars_of(dir);
    let q = chars_of(rel);
    if q.len() > 0 && q[0] == '/' {
        return String::from_str(rel);
    }
    let mut out: Vec<char> = Vec::new();
    let dn = d.len();
    extend_chars(&mut out, &d, 0, dn);
    if dn > 0 && d[dn - 1] != '/' {
        out.push('/');
    }
    let qn = q.len();
    extend_chars(&mut out, &q, 0, qn);
    assert(d@.subrange(0, dn as int) =~= d@);
    assert(q@.subrange(0, qn as int) =~= q@);
    string_from_chars(&out)
}

/// The file a restored item is written to: its file path (chunk suffix
/// stripped) below the local directory of the restore location.
pub fn restore_target_path(location_url: &str, item_id: &str) -> (r: Result<String, BuckyBackupError>)
    ensures
        match spec_local_path_of(location_url@) {
            Ok(d) => r matches Ok(p) && p@ == spec_path_join(d, spec_strip_chunk_suffix(item_id@)),
            Err(m) => r matches Err(BuckyBackupError::Failed(x)) && x@ == m,
        },
{
    let dir = match translate_local_path_from_url(location_url) {
        Ok(d) => d,
        Err(e) => return Err(e),
    };
    let rel = ChunkInnerPathHelper::strip_chunk_suffix(item_id);
    Ok(path_join(dir.as_str(), rel.as_str()))
}

/// What a restore does with an item, given the current length of its file.
pub enum RestoreWriteStep {
    /// The file does not reach the item yet: try again later.
    TryLater,
    /// Write the item at its offset.
    WriteAt,
    /// The file already covers the item: compare what is there first.
    VerifyExisting,
}

/// The step for an item at `offset` of `size` bytes in a file that is
/// `file_len` bytes long: wait while the file ends before the item, write
/// while the item reaches past the end, and compare when the file already
/// covers it.
pub open spec fn spec_restore_write_step(file_len: int, offset: int, size: int) -> RestoreWriteStep {
    if file_len < offset {
        RestoreWriteStep::TryLater
    } else if file_len == offset {
        RestoreWriteStep::WriteAt
    } else if file_len >= offset + size {
        RestoreWriteStep::VerifyExisting
    } else {
        RestoreWriteStep::WriteAt
    }
}

/// The step for an item at `offset` of `size` bytes in a file of
/// `file_len` bytes.
pub fn restore_write_step(file_len: u64, offset: u64, size: u64) -> (r: RestoreWriteStep)
    requires
        file_len > offset ==> offset + size <= u64::MAX,
    ensures
        r == spec_restore_write_step(file_len as int, offset as int, size as int),
{
    if file_len < offset {
        RestoreWriteStep::TryLater
    } else if file_len == offset {
        RestoreWriteStep::WriteAt
    } else if file_len >= offset + size {
        RestoreWriteStep::VerifyExisting
    } else {
        RestoreWriteStep::WriteAt
    }
}

/// After comparing the bytes already in the file: when they were read in
/// full and hash to the item's chunk id, the item is already restored;
/// otherwise it is written.
pub fn restore_after_verify(read_in_full: bool, same_chunk: bool) -> (r: Option<BuckyBackupError>)
    ensures
        (read_in_full && same_chunk) ==> (r matches Some(BuckyBackupError::AlreadyDone(m)) && m@.len()
            == 0),
        !(read_in_full && same_chunk) ==> r is None,
{
    if read_in_full && same_chunk {
        Some(BuckyBackupError::AlreadyDone(String::new()))
    } else {
        None
    }
}

} // verus!
