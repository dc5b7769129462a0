//! Ordering of restored chunks within their files.
//!
//! Chunks of a file are fetched concurrently but written in offset order: a
//! chunk whose offset lies past what the file is known to hold is buffered,
//! and buffered chunks are flushed from the lowest offset on.

use vstd::prelude::*;
use crate::def::{BackupChunkItem, BackupItemState, BuckyBackupError, prefixed};
use crate::task_model::{BackupDbError, spec_db_error_message};
use crate::task_model::TaskState;
use crate::local_provider::{RestoreWriteStep, restore_write_step, spec_restore_write_step};

verus! {

impl BackupItemState {
    /// A copy of the state.
    pub fn duplicate(&self) -> (r: BackupItemState)
        ensures
            r@ == self@,
    {
        match self {
            BackupItemState::New => BackupItemState::New,
            BackupItemState::Done => BackupItemState::Done,
            BackupItemState::Failed(m) => BackupItemState::Failed(m.clone()),
        }
    }
}

/// Two items with equal fields.
pub open spec fn spec_same_item(a: BackupChunkItem, b: BackupChunkItem) -> bool {
    &&& a.item_id@ == b.item_id@
    &&& a.chunk_id@ == b.chunk_id@
    &&& match (a.local_chunk_id, b.local_chunk_id) {
        (Some(x), Some(y)) => x@ == y@,
        (None, None) => true,
        _ => false,
    }
    &&& a.state@ == b.state@
    &&& a.size == b.size
    &&& a.last_update_time == b.last_update_time
    &&& a.offset == b.offset
}

impl BackupChunkItem {
    /// A copy of the item.
    pub fn duplicate(&self) -> (r: BackupChunkItem)
        ensures
            spec_same_item(r, *self),
    {
        BackupChunkItem {
            item_id: self.item_id.clone(),
            chunk_id: self.chunk_id.clone(),
            local_chunk_id: match &self.local_chunk_id {
                Some(x) => Some(x.clone()),
                None => None,
            },
            state: self.state.duplicate(),
            size: self.size,
            last_update_time: self.last_update_time,
            offset: self.offset,
        }
    }
}

/// A chunk waiting to be written to its file; an empty buffer of a non-empty
/// chunk means its bytes have not arrived yet.
pub struct WaitFlushBuffer {
    pub item: BackupChunkItem,
    pub buf: Vec<u8>,
}

/// The chunks of one file that wait for the chunks before them.
pub struct WaitFlushFileInfo {
    /// Below this offset the file is known to be written.
    pub max_len: u64,
    pub wait_buffers: Vec<WaitFlushBuffer>,
}

/// Offsets strictly increasing.
pub open spec fn spec_sorted_waits(ws: Seq<WaitFlushBuffer>) -> bool {
    forall|i: int, j: int| 0 <= i < j < ws.len() ==> ws[i].item.offset < ws[j].item.offset
}

/// Whether a chunk at `offset` waits in `ws`.
pub open spec fn spec_has_offset(ws: Seq<WaitFlushBuffer>, offset: u64) -> bool {
    exists|i: int| 0 <= i < ws.len() && #[trigger] ws[i].item.offset == offset
}

/// The offset of the chunk to flush first is the lowest waiting offset.
pub open spec fn spec_is_lowest(ws: Seq<WaitFlushBuffer>, offset: u64) -> bool {
    forall|i: int| 0 <= i < ws.len() ==> offset <= #[trigger] ws[i].item.offset
}

/// Where a chunk at `offset` goes among sorted waiting chunks.
pub open spec fn spec_insert_pos(ws: Seq<WaitFlushBuffer>, offset: u64, p: int) -> bool {
    &&& 0 <= p <= ws.len()
    &&& forall|i: int| 0 <= i < p ==> #[trigger] ws[i].item.offset < offset
    &&& forall|i: int| p <= i < ws.len() ==> offset < #[trigger] ws[i].item.offset
}

/// Where the chunk at `offset` is.
fn find_offset(ws: &Vec<WaitFlushBuffer>, offset: u64) -> (r: Option<usize>)
    ensures
        match r {
            Some(i) => i < ws@.len() && ws@[i as int].item.offset == offset,
            None => !spec_has_offset(ws@, offset),
        },
{
    let mut i: usize = 0;
    while i < ws.len()
        invariant
            i <= ws@.len(),
            forall|k: int| 0 <= k < i ==> #[trigger] ws@[k].item.offset != offset,
        decreases ws.len() - i,
    {
        if ws[i].item.offset == offset {
            return Some(i);
        }
        i = i + 1;
    }
    None
}

impl WaitFlushFileInfo {
    /// The waiting list of a file whose first buffered chunk is at `offset`.
    pub fn new_at(offset: u64) -> (f: WaitFlushFileInfo)
        ensures
            f.max_len == offset,
            f.wait_buffers@.len() == 0,
    {
        WaitFlushFileInfo { max_len: offset, wait_buffers: Vec::new() }
    }

    /// Whether a chunk at `offset` must wait: it lies past what the file is
    /// known to hold.
    pub fn should_buffer(&self, offset: u64) -> (b: bool)
        ensures
            b == (self.max_len < offset),
    {
        self.max_len < offset
    }

    /// Adds `item` to the waiting chunks, in offset order, with no bytes yet;
    /// the file is then known to hold no more than up to the item's offset.
    pub fn add_wait(&mut self, item: BackupChunkItem)
        requires
            spec_sorted_waits(old(self).wait_buffers@),
            !spec_has_offset(old(self).wait_buffers@, item.offset),
        ensures
            spec_sorted_waits(final(self).wait_buffers@),
            spec_registered(*old(self), item, *final(self)),
            final(self).max_len == if item.offset < old(self).max_len {
                item.offset
            } else {
                old(self).max_len
            },
            exists|p: int|
                spec_insert_pos(old(self).wait_buffers@, item.offset, p) && final(self).wait_buffers@ == old(self).wait_buffers@.insert(
                    p,
                    WaitFlushBuffer { item: item, buf: final(self).wait_buffers@[p].buf },
                ) && final(self).wait_buffers@[p].buf@.len() == 0,
    {
        let offset = item.offset;
        let mut p: usize = 0;
        while p < self.wait_buffers.len() && self.wait_buffers[p].item.offset < offset
            invariant
                p <= self.wait_buffers@.len(),
                forall|i: int| 0 <= i < p ==> #[trigger] self.wait_buffers@[i].item.offset < offset,
            decreases self.wait_buffers.len() - p,
        {
            p = p + 1;
        }
        proof {
            let ws = self.wait_buffers@;
            assert forall|i: int| p <= i < ws.len() implies offset < #[trigger] ws[i].item.offset by {
                assert(ws[p as int].item.offset >= offset);
                if i > p {
                    assert(ws[p as int].item.offset < ws[i].item.offset);
                }
                if ws[i].item.offset == offset {
                    assert(spec_has_offset(ws, offset));
                }
            }
        }
        if offset < self.max_len {
            self.max_len = offset;
        }
        let ghost old_ws = self.wait_buffers@;
        let w = WaitFlushBuffer { item, buf: Vec::new() };
        self.wait_buffers.insert(p, w);
        proof {
            let ws = self.wait_buffers@;
            assert(spec_insert_pos(old_ws, offset, p as int));
            assert forall|i: int, j: int| 0 <= i < j < ws.len() implies ws[i].item.offset
                < ws[j].item.offset by {
                if j < p {
                } else if j == p {
                    assert(old_ws[i].item.offset < offset);
                } else if i < p {
                    assert(old_ws[i].item.offset < offset);
                    assert(offset < old_ws[j - 1].item.offset);
                } else if i == p {
                    assert(offset < old_ws[j - 1].item.offset);
                } else {
                    assert(old_ws[i - 1].item.offset < old_ws[j - 1].item.offset);
                }
            }
        }
    }

    /// Stores the fetched bytes of the waiting chunk at `offset`.
    pub fn set_buffer(&mut self, offset: u64, buf: Vec<u8>)
        requires
            spec_sorted_waits(old(self).wait_buffers@),
            spec_has_offset(old(self).wait_buffers@, offset),
        ensures
            spec_sorted_waits(final(self).wait_buffers@),
            final(self).max_len == old(self).max_len,
            final(self).wait_buffers@.len() == old(self).wait_buffers@.len(),
            forall|i: int|
                0 <= i < old(self).wait_buffers@.len() ==> (#[trigger] final(self).wait_buffers@[i]).item == old(self).wait_buffers@[i].item,
            forall|i: int|
                0 <= i < old(self).wait_buffers@.len() ==> (if old(self).wait_buffers@[i].item.offset
                    == offset {
                    (#[trigger] final(self).wait_buffers@[i]).buf@ == buf@
                } else {
                    final(self).wait_buffers@[i].buf == old(self).wait_buffers@[i].buf
                }),
    {
        let found = find_offset(&self.wait_buffers, offset);
        let i = match found {
            Some(i) => i,
            None => {
                return;
            },
        };
        let ghost old_ws = self.wait_buffers@;
        let w = self.wait_buffers.remove(i);
        let WaitFlushBuffer { item, buf: _ } = w;
        self.wait_buffers.insert(i, WaitFlushBuffer { item, buf });
        proof {
            assert(self.wait_buffers@ =~= old_ws.update(
                i as int,
                WaitFlushBuffer { item: old_ws[i as int].item, buf },
            ));
            assert forall|k: int| 0 <= k < old_ws.len() && k != i implies old_ws[k].item.offset
                != offset by {
                if k < i {
                    assert(old_ws[k].item.offset < old_ws[i as int].item.offset);
                } else {
                    assert(old_ws[i as int].item.offset < old_ws[k].item.offset);
                }
            }
        }
    }

    /// The file is known to hold everything up to `end`.
    pub fn note_written_to(&mut self, end: u64)
        ensures
            final(self).max_len == if end > old(self).max_len {
                end
            } else {
                old(self).max_len
            },
            final(self).wait_buffers == old(self).wait_buffers,
    {
        if end > self.max_len {
            self.max_len = end;
        }
    }

    /// Takes the bytes of the lowest waiting chunk, with a copy of the item,
    /// when they have arrived (an empty chunk has always arrived).
    pub fn take_first(&mut self) -> (r: Option<(BackupChunkItem, Vec<u8>)>)
        requires
            spec_sorted_waits(old(self).wait_buffers@),
        ensures
            final(self).max_len == old(self).max_len,
            final(self).wait_buffers@.len() == old(self).wait_buffers@.len(),
            forall|i: int|
                0 <= i < old(self).wait_buffers@.len() ==> (#[trigger] final(self).wait_buffers@[i]).item == old(self).wait_buffers@[i].item,
            spec_sorted_waits(final(self).wait_buffers@),
            old(self).wait_buffers@.len() == 0 ==> r is None,
            old(self).wait_buffers@.len() > 0 ==> {
                let w = old(self).wait_buffers@[0];
                if w.item.size > 0 && w.buf@.len() == 0 {
                    r is None && final(self).wait_buffers@ == old(self).wait_buffers@
                } else {
                    &&& r matches Some((item, data)) && spec_same_item(item, w.item) && data@
                        == w.buf@
                    &&& spec_is_lowest(old(self).wait_buffers@, w.item.offset)
                    &&& final(self).wait_buffers@[0].buf@.len() == 0
                    &&& forall|i: int|
                        1 <= i < old(self).wait_buffers@.len() ==> (#[trigger] final(self).wait_buffers@[i]) == old(self).wait_buffers@[i]
                }
            },
    {
        if self.wait_buffers.len() == 0 {
            return None;
        }
        if self.wait_buffers[0].item.size > 0 && self.wait_buffers[0].buf.len() == 0 {
            return None;
        }
        let ghost old_ws = self.wait_buffers@;
        let w = self.wait_buffers.remove(0);
        let WaitFlushBuffer { item, buf } = w;
        let copy = item.duplicate();
        self.wait_buffers.insert(0, WaitFlushBuffer { item, buf: Vec::new() });
        proof {
            assert forall|i: int| 0 <= i < old_ws.len() implies old_ws[0].item.offset
                <= #[trigger] old_ws[i].item.offset by {
                if i > 0 {
                    assert(old_ws[0].item.offset < old_ws[i].item.offset);
                }
            }
            let ws = self.wait_buffers@;
            assert forall|i: int| 1 <= i < old_ws.len() implies #[trigger] ws[i] == old_ws[i] by {
                assert(ws[i] == old_ws.remove(0)[i - 1]);
            }
            assert forall|i: int, j: int| 0 <= i < j < ws.len() implies ws[i].item.offset
                < ws[j].item.offset by {
                assert(old_ws[i].item.offset < old_ws[j].item.offset);
            }
        }
        Some((copy, buf))
    }

    /// Puts back the bytes of the chunk at `offset` after a failed attempt.
    pub fn put_back(&mut self, offset: u64, buf: Vec<u8>)
        requires
            spec_sorted_waits(old(self).wait_buffers@),
            spec_has_offset(old(self).wait_buffers@, offset),
        ensures
            spec_sorted_waits(final(self).wait_buffers@),
            final(self).max_len == old(self).max_len,
            final(self).wait_buffers@.len() == old(self).wait_buffers@.len(),
            forall|i: int|
                0 <= i < old(self).wait_buffers@.len() ==> (#[trigger] final(self).wait_buffers@[i]).item == old(self).wait_buffers@[i].item,
            forall|i: int|
                0 <= i < old(self).wait_buffers@.len() ==> (if old(self).wait_buffers@[i].item.offset
                    == offset {
                    (#[trigger] final(self).wait_buffers@[i]).buf@ == buf@
                } else {
                    final(self).wait_buffers@[i].buf == old(self).wait_buffers@[i].buf
                }),
    {
        self.set_buffer(offset, buf);
    }

    /// Drops the waiting chunk at `offset`; returns whether none is left.
    pub fn remove_wait(&mut self, offset: u64) -> (empty: bool)
        requires
            spec_sorted_waits(old(self).wait_buffers@),
        ensures
            final(self).max_len == old(self).max_len,
            spec_sorted_waits(final(self).wait_buffers@),
            !spec_has_offset(final(self).wait_buffers@, offset),
            forall|i: int|
                0 <= i < old(self).wait_buffers@.len() && old(self).wait_buffers@[i].item.offset
                    != offset ==> final(self).wait_buffers@.contains(
                    #[trigger] old(self).wait_buffers@[i],
                ),
            forall|i: int|
                0 <= i < final(self).wait_buffers@.len() ==> old(self).wait_buffers@.contains(
                    #[trigger] final(self).wait_buffers@[i],
                ),
            empty == (final(self).wait_buffers@.len() == 0),
    {
        let found = find_offset(&self.wait_buffers, offset);
        match found {
            Some(i) => {
                let ghost old_ws = self.wait_buffers@;
                let _ = self.wait_buffers.remove(i);
                proof {
                    let ws = self.wait_buffers@;
                    assert forall|a: int, b: int| 0 <= a < b < ws.len() implies ws[a].item.offset
                        < ws[b].item.offset by {
                        let oa = if a < i { a } else { a + 1 };
                        let ob = if b < i { b } else { b + 1 };
                        assert(ws[a] == old_ws[oa]);
                        assert(ws[b] == old_ws[ob]);
                    }
                    assert forall|k: int| 0 <= k < ws.len() implies #[trigger] ws[k].item.offset
                        != offset by {
                        let ok = if k < i { k } else { k + 1 };
                        assert(ws[k] == old_ws[ok]);
                        if ok < i {
                            assert(old_ws[ok].item.offset < old_ws[i as int].item.offset);
                        } else {
                            assert(old_ws[i as int].item.offset < old_ws[ok].item.offset);
                        }
                    }
                    assert forall|k: int|
                        0 <= k < old_ws.len() && old_ws[k].item.offset != offset implies ws.contains(
                        #[trigger] old_ws[k],
                    ) by {
                        if k < i {
                            assert(ws[k] == old_ws[k]);
                        } else {
                            assert(k != i);
                            assert(ws[k - 1] == old_ws[k]);
                        }
                    }
                    assert forall|k: int| 0 <= k < ws.len() implies old_ws.contains(
                        #[trigger] ws[k],
                    ) by {
                        let ok = if k < i { k } else { k + 1 };
                        assert(ws[k] == old_ws[ok]);
                    }
                }
            },
            None => {
                proof {
                    let ws = self.wait_buffers@;
                    assert forall|k: int| 0 <= k < ws.len() implies old(self).wait_buffers@.contains(
                        #[trigger] ws[k],
                    ) by {
                        assert(ws[k] == old(self).wait_buffers@[k]);
                    }
                    assert forall|k: int|
                        0 <= k < ws.len() && ws[k].item.offset != offset implies ws.contains(
                        #[trigger] ws[k],
                    ) by {
                    }
                }
            },
        }
        self.wait_buffers.len() == 0
    }
}

/// How writing a flushed chunk to its file turned out.
pub enum FlushOutcome {
    /// The bytes were written.
    Written,
    /// The file already had them.
    AlreadyDone,
    /// The file cannot take them yet.
    TryLater,
    /// Opening the file or writing failed.
    Failed,
}

/// What follows a flush attempt.
pub enum FlushAction {
    /// The chunk is in its file: drop it from the waiting list, count it if
    /// it was written, and flush the next one.
    Done { counted: bool },
    /// Keep the bytes and stop flushing this file for now.
    Retry,
    /// Stop flushing; the run fails.
    Fail,
}

pub fn flush_action(outcome: &FlushOutcome) -> (r: FlushAction)
    ensures
        match outcome {
            FlushOutcome::Written => r == (FlushAction::Done { counted: true }),
            FlushOutcome::AlreadyDone => r == (FlushAction::Done { counted: false }),
            FlushOutcome::TryLater => r is Retry,
            FlushOutcome::Failed => r is Fail,
        },
{
    match outcome {
        FlushOutcome::Written => FlushAction::Done { counted: true },
        FlushOutcome::AlreadyDone => FlushAction::Done { counted: false },
        FlushOutcome::TryLater => FlushAction::Retry,
        FlushOutcome::Failed => FlushAction::Fail,
    }
}

/// Most chunks fetched at once by a restore run.
pub const RESTORE_MAX_PENDING: u64 = 16;
/// Fewest free places worth loading more items for.
pub const RESTORE_MIN_LOAD: u64 = 4;

/// How many more items a restore run loads, if it loads any: it stops when
/// everything is loaded, when fewer than four places are free among sixteen,
/// or when the task no longer runs.
pub fn restore_load_limit(all_loaded: bool, pending: u64, task: &TaskState) -> (r: Option<u64>)
    requires
        pending <= RESTORE_MAX_PENDING,
    ensures
        match r {
            Some(n) => !all_loaded && n == RESTORE_MAX_PENDING - pending && n >= RESTORE_MIN_LOAD
                && task@ is Running,
            None => all_loaded || RESTORE_MAX_PENDING - pending < RESTORE_MIN_LOAD || !(
            task@ is Running),
        },
{
    let limit = RESTORE_MAX_PENDING - pending;
    let running = match task {
        TaskState::Running => true,
        _ => false,
    };
    if all_loaded || limit < RESTORE_MIN_LOAD || !running {
        None
    } else {
        Some(limit)
    }
}

/// `nf` is `f` with `item` added in offset order, with no bytes yet.
pub open spec fn spec_registered(f: WaitFlushFileInfo, item: BackupChunkItem, nf: WaitFlushFileInfo) -> bool {
    &&& nf.max_len == (if item.offset < f.max_len {
        item.offset
    } else {
        f.max_len
    })
    &&& exists|p: int|
        spec_insert_pos(f.wait_buffers@, item.offset, p) && nf.wait_buffers@
            == f.wait_buffers@.insert(p, WaitFlushBuffer { item: item, buf: nf.wait_buffers@[p].buf })
            && nf.wait_buffers@[p].buf@.len() == 0
}

/// `nf` is `f` with the bytes of the chunk at `offset` stored.
pub open spec fn spec_buffer_set(f: WaitFlushFileInfo, offset: u64, buf: Seq<u8>, nf: WaitFlushFileInfo) -> bool {
    &&& nf.max_len == f.max_len
    &&& nf.wait_buffers@.len() == f.wait_buffers@.len()
    &&& forall|i: int|
        0 <= i < f.wait_buffers@.len() ==> (#[trigger] nf.wait_buffers@[i]).item
            == f.wait_buffers@[i].item && (if f.wait_buffers@[i].item.offset == offset {
            nf.wait_buffers@[i].buf@ == buf
        } else {
            nf.wait_buffers@[i].buf == f.wait_buffers@[i].buf
        })
}

/// `r` and `nf` are what taking the lowest waiting chunk of `f` gives.
pub open spec fn spec_first_taken(
    f: WaitFlushFileInfo,
    r: Option<(BackupChunkItem, Vec<u8>)>,
    nf: WaitFlushFileInfo,
) -> bool {
    &&& nf.max_len == f.max_len
    &&& nf.wait_buffers@.len() == f.wait_buffers@.len()
    &&& forall|i: int|
        0 <= i < f.wait_buffers@.len() ==> (#[trigger] nf.wait_buffers@[i]).item
            == f.wait_buffers@[i].item
    &&& f.wait_buffers@.len() == 0 ==> r is None
    &&& f.wait_buffers@.len() > 0 ==> {
        let w = f.wait_buffers@[0];
        if w.item.size > 0 && w.buf@.len() == 0 {
            r is None && nf.wait_buffers@ == f.wait_buffers@
        } else {
            &&& r matches Some((item, data)) && spec_same_item(item, w.item) && data@ == w.buf@
            &&& spec_is_lowest(f.wait_buffers@, w.item.offset)
            &&& nf.wait_buffers@[0].buf@.len() == 0
            &&& forall|i: int|
                1 <= i < f.wait_buffers@.len() ==> (#[trigger] nf.wait_buffers@[i])
                    == f.wait_buffers@[i]
        }
    }
}

/// The waiting chunks of every file being restored, one entry per file path.
pub struct RestoreFlushBuffers {
    files: Vec<(String, WaitFlushFileInfo)>,
}

/// Paths unique; waiting chunks of each file in offset order.
pub open spec fn spec_flush_files_wf(files: Seq<(String, WaitFlushFileInfo)>) -> bool {
    &&& forall|i: int, j: int|
        0 <= i < j < files.len() ==> (#[trigger] files[i]).0@ != (#[trigger] files[j]).0@
    &&& forall|i: int| 0 <= i < files.len() ==> spec_sorted_waits((#[trigger] files[i]).1.wait_buffers@)
}

/// The entry of the file at `path`.
pub open spec fn spec_file_at(files: Seq<(String, WaitFlushFileInfo)>, path: Seq<char>) -> Option<
    WaitFlushFileInfo,
> {
    if exists|i: int| 0 <= i < files.len() && (#[trigger] files[i]).0@ == path {
        let i = choose|i: int| 0 <= i < files.len() && (#[trigger] files[i]).0@ == path;
        Some(files[i].1)
    } else {
        None
    }
}

/// Dropping the entry of one file keeps the others and the invariant.
proof fn lemma_remove_entry(files: Seq<(String, WaitFlushFileInfo)>, i: int)
    requires
        spec_flush_files_wf(files),
        0 <= i < files.len(),
    ensures
        spec_flush_files_wf(files.remove(i)),
        spec_file_at(files.remove(i), files[i].0@) is None,
        forall|p: Seq<char>|
            p != files[i].0@ ==> #[trigger] spec_file_at(files.remove(i), p) == spec_file_at(files, p),
{
    let nf = files.remove(i);
    assert forall|k: int| 0 <= k < nf.len() implies #[trigger] nf[k] == files[if k < i {
        k
    } else {
        k + 1
    }] by {}
    assert forall|a: int, b: int| 0 <= a < b < nf.len() implies (#[trigger] nf[a]).0@
        != (#[trigger] nf[b]).0@ by {
        let oa = if a < i { a } else { a + 1 };
        let ob = if b < i { b } else { b + 1 };
        assert(nf[a] == files[oa]);
        assert(nf[b] == files[ob]);
    }
    assert forall|a: int| 0 <= a < nf.len() implies spec_sorted_waits(
        (#[trigger] nf[a]).1.wait_buffers@,
    ) by {
        let oa = if a < i { a } else { a + 1 };
        assert(nf[a] == files[oa]);
    }
    assert forall|k: int| 0 <= k < nf.len() implies (#[trigger] nf[k]).0@ != files[i].0@ by {
        let ok = if k < i { k } else { k + 1 };
        assert(nf[k] == files[ok]);
        if ok < i {
            assert(files[ok].0@ != files[i].0@);
        } else {
            assert(files[i].0@ != files[ok].0@);
        }
    }
    assert forall|p: Seq<char>| p != files[i].0@ implies #[trigger] spec_file_at(nf, p)
        == spec_file_at(files, p) by {
        if exists|k: int| 0 <= k < nf.len() && (#[trigger] nf[k]).0@ == p {
            let k = choose|k: int| 0 <= k < nf.len() && (#[trigger] nf[k]).0@ == p;
            let ok = if k < i { k } else { k + 1 };
            assert(nf[k] == files[ok]);
            lemma_file_at_index(nf, k);
            lemma_file_at_index(files, ok);
        } else {
            assert forall|k: int| 0 <= k < files.len() implies (#[trigger] files[k]).0@ != p by {
                if k < i {
                    assert(nf[k] == files[k]);
                } else if k > i {
                    assert(nf[k - 1] == files[k]);
                }
            }
        }
    }
}

/// Replacing the entry of one file keeps the others and the invariant.
proof fn lemma_update_entry(files: Seq<(String, WaitFlushFileInfo)>, i: int, f: WaitFlushFileInfo)
    requires
        spec_flush_files_wf(files),
        0 <= i < files.len(),
        spec_sorted_waits(f.wait_buffers@),
    ensures
        spec_flush_files_wf(files.update(i, (files[i].0, f))),
        spec_file_at(files.update(i, (files[i].0, f)), files[i].0@) == Some(f),
        forall|p: Seq<char>|
            p != files[i].0@ ==> #[trigger] spec_file_at(files.update(i, (files[i].0, f)), p)
                == spec_file_at(files, p),
{
    let nf = files.update(i, (files[i].0, f));
    assert forall|a: int, b: int| 0 <= a < b < nf.len() implies (#[trigger] nf[a]).0@
        != (#[trigger] nf[b]).0@ by {
        assert(nf[a].0@ == files[a].0@);
        assert(nf[b].0@ == files[b].0@);
    }
    assert forall|a: int| 0 <= a < nf.len() implies spec_sorted_waits(
        (#[trigger] nf[a]).1.wait_buffers@,
    ) by {
        if a != i {
            assert(nf[a] == files[a]);
        }
    }
    lemma_file_at_index(nf, i);
    assert forall|p: Seq<char>| p != files[i].0@ implies #[trigger] spec_file_at(nf, p)
        == spec_file_at(files, p) by {
        if exists|k: int| 0 <= k < nf.len() && (#[trigger] nf[k]).0@ == p {
            let k = choose|k: int| 0 <= k < nf.len() && (#[trigger] nf[k]).0@ == p;
            assert(k != i);
            assert(nf[k] == files[k]);
            lemma_file_at_index(nf, k);
            lemma_file_at_index(files, k);
        } else {
            assert forall|k: int| 0 <= k < files.len() implies (#[trigger] files[k]).0@ != p by {
                assert(nf[k].0@ == files[k].0@);
            }
        }
    }
}

proof fn lemma_file_at_index(files: Seq<(String, WaitFlushFileInfo)>, i: int)
    requires
        spec_flush_files_wf(files),
        0 <= i < files.len(),
    ensures
        spec_file_at(files, files[i].0@) == Some(files[i].1),
{
    let p = files[i].0@;
    assert(exists|k: int| 0 <= k < files.len() && (#[trigger] files[k]).0@ == p);
    let k = choose|k: int| 0 <= k < files.len() && (#[trigger] files[k]).0@ == p;
    if k != i {
        if k < i {
            assert(files[k].0@ != files[i].0@);
        } else {
            assert(files[i].0@ != files[k].0@);
        }
    }
}

impl RestoreFlushBuffers {
    pub closed spec fn files_view(&self) -> Seq<(String, WaitFlushFileInfo)> {
        self.files@
    }

    pub open spec fn wf(&self) -> bool {
        spec_flush_files_wf(self.files_view())
    }

    /// The entry of the file at `path`.
    pub open spec fn file(&self, path: Seq<char>) -> Option<WaitFlushFileInfo> {
        spec_file_at(self.files_view(), path)
    }

    pub fn new() -> (b: RestoreFlushBuffers)
        ensures
            b.wf(),
            forall|p: Seq<char>| b.file(p) is None,
    {
        RestoreFlushBuffers { files: Vec::new() }
    }

    fn find(&self, path: &String) -> (r: Option<usize>)
        requires
            self.wf(),
        ensures
            match r {
                Some(i) => i < self.files@.len() && self.files@[i as int].0@ == path@
                    && self.file(path@) == Some(self.files@[i as int].1),
                None => self.file(path@) is None,
            },
    {
        let mut i: usize = 0;
        while i < self.files.len()
            invariant
                self.wf(),
                i <= self.files@.len(),
                forall|k: int| 0 <= k < i ==> (#[trigger] self.files@[k]).0@ != path@,
            decreases self.files.len() - i,
        {
            if self.files[i].0 == *path {
                proof {
                    lemma_file_at_index(self.files@, i as int);
                }
                return Some(i);
            }
            i = i + 1;
        }
        None
    }

    /// Whether a chunk of `path` at `offset` must be buffered: the file has
    /// waiting chunks and the offset lies past what it is known to hold.
    pub fn should_buffer(&self, path: &String, offset: u64) -> (b: bool)
        requires
            self.wf(),
        ensures
            b == (self.file(path@) matches Some(f) && f.max_len < offset),
    {
        match self.find(path) {
            Some(i) => self.files[i].1.should_buffer(offset),
            None => false,
        }
    }

    /// Whether a chunk of `path` at `offset` waits.
    pub fn has_wait(&self, path: &String, offset: u64) -> (b: bool)
        requires
            self.wf(),
        ensures
            b == (self.file(path@) matches Some(f) && spec_has_offset(f.wait_buffers@, offset)),
    {
        match self.find(path) {
            Some(i) => find_offset(&self.files[i].1.wait_buffers, offset).is_some(),
            None => false,
        }
    }

    /// Replaces the entry at index `i`.
    fn replace_at(&mut self, i: usize, f: WaitFlushFileInfo)
        requires
            old(self).wf(),
            i < old(self).files@.len(),
            spec_sorted_waits(f.wait_buffers@),
        ensures
            final(self).wf(),
            final(self).files@ == old(self).files@.update(i as int, (old(self).files@[i as int].0, f)),
            forall|p: Seq<char>|
                p != old(self).files@[i as int].0@ ==> #[trigger] final(self).file(p) == old(
                    self,
                ).file(p),
            final(self).file(old(self).files@[i as int].0@) == Some(f),
    {
        let ghost old_files = self.files@;
        let (path, _) = self.files.remove(i);
        self.files.insert(i, (path, f));
        proof {
            assert(self.files@ =~= old_files.update(i as int, (old_files[i as int].0, f)));
            lemma_update_entry(old_files, i as int, f);
        }
    }

    /// Takes the entry at index `i` out, leaving an empty one in its place.
    fn take_at(&mut self, i: usize) -> (f: WaitFlushFileInfo)
        requires
            old(self).wf(),
            i < old(self).files@.len(),
        ensures
            final(self).wf(),
            f == old(self).files@[i as int].1,
            final(self).files@ == old(self).files@.update(
                i as int,
                (old(self).files@[i as int].0, final(self).files@[i as int].1),
            ),
    {
        let ghost old_files = self.files@;
        let (path, f) = self.files.remove(i);
        let empty = WaitFlushFileInfo { max_len: 0, wait_buffers: Vec::new() };
        self.files.insert(i, (path, empty));
        proof {
            assert(self.files@ =~= old_files.update(i as int, (old_files[i as int].0, self.files@[i as int].1)));
            let nf = self.files@;
            assert forall|a: int, b: int| 0 <= a < b < nf.len() implies (#[trigger] nf[a]).0@
                != (#[trigger] nf[b]).0@ by {
                assert(nf[a].0@ == old_files[a].0@);
                assert(nf[b].0@ == old_files[b].0@);
            }
            assert forall|a: int| 0 <= a < nf.len() implies spec_sorted_waits(
                (#[trigger] nf[a]).1.wait_buffers@,
            ) by {
                if a != i {
                    assert(nf[a] == old_files[a]);
                }
            }
        }
        f
    }

    /// Buffers `item` of `path`: creates the file's entry at the item's offset
    /// if there is none, then adds the item in offset order.
    pub fn register_wait(&mut self, path: String, item: BackupChunkItem)
        requires
            old(self).wf(),
            old(self).file(path@) matches Some(f) ==> !spec_has_offset(f.wait_buffers@, item.offset),
        ensures
            final(self).wf(),
            forall|p: Seq<char>| p != path@ ==> #[trigger] final(self).file(p) == old(self).file(p),
            final(self).file(path@) matches Some(nf) && match old(self).file(path@) {
                Some(f) => spec_registered(f, item, nf),
                None => nf.max_len == item.offset && nf.wait_buffers@.len() == 1
                    && nf.wait_buffers@[0].item == item && nf.wait_buffers@[0].buf@.len() == 0,
            },
    {
        let offset = item.offset;
        match self.find(&path) {
            Some(i) => {
                let ghost old_files = self.files@;
                let mut f = self.take_at(i);
                f.add_wait(item);
                self.replace_at(i, f);
                proof {
                    assert(self.files@ =~= old_files.update(i as int, (old_files[i as int].0, f)));
                    lemma_update_entry(old_files, i as int, f);
                }
            },
            None => {
                let mut f = WaitFlushFileInfo::new_at(offset);
                let ghost f0 = f;
                f.add_wait(item);
                proof {
                    let p = choose|p: int|
                        spec_insert_pos(f0.wait_buffers@, item.offset, p) && f.wait_buffers@
                            == f0.wait_buffers@.insert(
                            p,
                            WaitFlushBuffer { item: item, buf: f.wait_buffers@[p].buf },
                        ) && f.wait_buffers@[p].buf@.len() == 0;
                    assert(p == 0);
                }
                let ghost old_files = self.files@;
                self.files.push((path, f));
                proof {
                    let nf = self.files@;
                    let n = old_files.len() as int;
                    assert forall|k: int| 0 <= k < n implies (#[trigger] old_files[k]).0@ != path@ by {
                        if old_files[k].0@ == path@ {
                            assert(exists|j: int| 0 <= j < old_files.len() && (
                            #[trigger] old_files[j]).0@ == path@);
                        }
                    }
                    assert forall|a: int, b: int| 0 <= a < b < nf.len() implies (#[trigger] nf[a]).0@
                        != (#[trigger] nf[b]).0@ by {
                        if b == n {
                            assert(nf[a] == old_files[a]);
                        } else {
                            assert(nf[a] == old_files[a]);
                            assert(nf[b] == old_files[b]);
                        }
                    }
                    assert forall|a: int| 0 <= a < nf.len() implies spec_sorted_waits(
                        (#[trigger] nf[a]).1.wait_buffers@,
                    ) by {
                        if a < n {
                            assert(nf[a] == old_files[a]);
                        }
                    }
                    lemma_file_at_index(nf, n);
                    assert forall|p: Seq<char>| p != path@ implies #[trigger] spec_file_at(nf, p)
                        == spec_file_at(old_files, p) by {
                        if exists|k: int| 0 <= k < nf.len() && (#[trigger] nf[k]).0@ == p {
                            let k = choose|k: int| 0 <= k < nf.len() && (#[trigger] nf[k]).0@ == p;
                            assert(k < n);
                            assert(nf[k] == old_files[k]);
                            lemma_file_at_index(nf, k);
                            lemma_file_at_index(old_files, k);
                        } else {
                            assert forall|k: int| 0 <= k < old_files.len() implies (
                            #[trigger] old_files[k]).0@ != p by {
                                assert(nf[k] == old_files[k]);
                            }
                        }
                    }
                }
            },
        }
    }

    /// Stores the fetched bytes of the waiting chunk of `path` at `offset`.
    pub fn set_buffer(&mut self, path: &String, offset: u64, buf: Vec<u8>)
        requires
            old(self).wf(),
            old(self).file(path@) matches Some(f) && spec_has_offset(f.wait_buffers@, offset),
        ensures
            final(self).wf(),
            forall|p: Seq<char>| p != path@ ==> #[trigger] final(self).file(p) == old(self).file(p),
            final(self).file(path@) matches Some(nf) && old(self).file(path@) matches Some(f)
                && spec_buffer_set(f, offset, buf@, nf),
    {
        let i = match self.find(path) {
            Some(i) => i,
            None => {
                return;
            },
        };
        let ghost old_files = self.files@;
        let mut f = self.take_at(i);
        f.set_buffer(offset, buf);
        self.replace_at(i, f);
        proof {
            assert(self.files@ =~= old_files.update(i as int, (old_files[i as int].0, f)));
            lemma_update_entry(old_files, i as int, f);
        }
    }

    /// The file at `path`, if it has an entry, is known to hold everything
    /// up to `end`.
    pub fn note_written(&mut self, path: &String, end: u64)
        requires
            old(self).wf(),
        ensures
            final(self).wf(),
            forall|p: Seq<char>| p != path@ ==> #[trigger] final(self).file(p) == old(self).file(p),
            match old(self).file(path@) {
                Some(f) => final(self).file(path@) matches Some(nf) && nf.wait_buffers
                    == f.wait_buffers && nf.max_len == (if end > f.max_len {
                    end
                } else {
                    f.max_len
                }),
                None => final(self).file(path@) is None,
            },
    {
        let i = match self.find(path) {
            Some(i) => i,
            None => {
                return;
            },
        };
        let ghost old_files = self.files@;
        let mut f = self.take_at(i);
        f.note_written_to(end);
        self.replace_at(i, f);
        proof {
            assert(self.files@ =~= old_files.update(i as int, (old_files[i as int].0, f)));
            lemma_update_entry(old_files, i as int, f);
        }
    }

    /// Takes the bytes of the lowest waiting chunk of `path`, with a copy of
    /// its item, when they have arrived.
    pub fn take_first(&mut self, path: &String) -> (r: Option<(BackupChunkItem, Vec<u8>)>)
        requires
            old(self).wf(),
        ensures
            final(self).wf(),
            forall|p: Seq<char>| p != path@ ==> #[trigger] final(self).file(p) == old(self).file(p),
            match old(self).file(path@) {
                None => r is None && final(self).file(path@) is None,
                Some(f) => final(self).file(path@) matches Some(nf) && spec_first_taken(f, r, nf),
            },
    {
        let i = match self.find(path) {
            Some(i) => i,
            None => {
                return None;
            },
        };
        let ghost old_files = self.files@;
        let mut f = self.take_at(i);
        let r = f.take_first();
        self.replace_at(i, f);
        proof {
            assert(self.files@ =~= old_files.update(i as int, (old_files[i as int].0, f)));
            lemma_update_entry(old_files, i as int, f);
        }
        r
    }

    /// After the chunk at `offset` (ending at `end`) went to its file: the
    /// file is known to hold up to `end`, the chunk stops waiting, and the
    /// file's entry goes when nothing waits any more.
    pub fn finish_flush(&mut self, path: &String, offset: u64, end: u64)
        requires
            old(self).wf(),
        ensures
            final(self).wf(),
            forall|p: Seq<char>| p != path@ ==> #[trigger] final(self).file(p) == old(self).file(p),
            match old(self).file(path@) {
                None => final(self).file(path@) is None,
                Some(f) => match final(self).file(path@) {
                    None => forall|k: int|
                        0 <= k < f.wait_buffers@.len() ==> (#[trigger] f.wait_buffers@[k]).item.offset
                            == offset,
                    Some(nf) => {
                        &&& nf.max_len == (if end > f.max_len {
                            end
                        } else {
                            f.max_len
                        })
                        &&& nf.wait_buffers@.len() > 0
                        &&& !spec_has_offset(nf.wait_buffers@, offset)
                        &&& forall|k: int|
                            0 <= k < f.wait_buffers@.len() && f.wait_buffers@[k].item.offset
                                != offset ==> nf.wait_buffers@.contains(
                                #[trigger] f.wait_buffers@[k],
                            )
                        &&& forall|k: int|
                            0 <= k < nf.wait_buffers@.len() ==> f.wait_buffers@.contains(
                                #[trigger] nf.wait_buffers@[k],
                            )
                    },
                },
            },
    {
        let i = match self.find(path) {
            Some(i) => i,
            None => {
                return;
            },
        };
        let ghost old_files = self.files@;
        let mut f = self.take_at(i);
        f.note_written_to(end);
        let empty = f.remove_wait(offset);
        if empty {
            let ghost mid = self.files@;
            let _ = self.files.remove(i);
            proof {
                lemma_remove_entry(mid, i as int);
                let g = mid[i as int].1;
                assert(spec_sorted_waits(g.wait_buffers@));
                assert(mid =~= old_files.update(i as int, (old_files[i as int].0, g)));
                lemma_update_entry(old_files, i as int, g);
                let of = old_files[i as int].1;
                assert forall|k: int| 0 <= k < of.wait_buffers@.len() implies (
                #[trigger] of.wait_buffers@[k]).item.offset == offset by {
                    if of.wait_buffers@[k].item.offset != offset {
                        assert(f.wait_buffers@.contains(of.wait_buffers@[k]));
                    }
                }
            }
        } else {
            self.replace_at(i, f);
            proof {
                assert(self.files@ =~= old_files.update(i as int, (old_files[i as int].0, f)));
                lemma_update_entry(old_files, i as int, f);
            }
        }
    }
}

/// What a restore run returns once nothing is pending: the first chunk
/// error, else, when loading stopped early, the loading error, else whether
/// every item was loaded.
pub open spec fn spec_restore_result_ok(
    all_loaded: bool,
    run_error: Option<BuckyBackupError>,
    load_error: Option<BackupDbError>,
) -> Option<bool> {
    if run_error is Some {
        None
    } else if all_loaded {
        Some(true)
    } else if load_error is Some {
        None
    } else {
        Some(false)
    }
}

/// The result of a restore run once nothing is pending.
pub fn restore_result(
    all_loaded: bool,
    run_error: Option<BuckyBackupError>,
    load_error: Option<BackupDbError>,
) -> (r: Result<bool, BuckyBackupError>)
    ensures
        match spec_restore_result_ok(all_loaded, run_error, load_error) {
            Some(b) => r == Ok::<bool, BuckyBackupError>(b),
            None => r is Err,
        },
        run_error matches Some(e) ==> r == Err::<bool, BuckyBackupError>(e),
        run_error is None && !all_loaded ==> (load_error matches Some(le) ==> r matches Err(
            BuckyBackupError::Failed(m),
        ) && m@ == "Read items failed "@ + spec_db_error_message(le)),
{
    match run_error {
        Some(e) => Err(e),
        None => {
            if all_loaded {
                Ok(true)
            } else {
                match load_error {
                    Some(le) => {
                        let msg = le.to_message();
                        Err(BuckyBackupError::Failed(prefixed("Read items failed ", msg.as_str())))
                    },
                    None => Ok(false),
                }
            }
        },
    }
}

impl RestoreFlushBuffers {
    /// After an attempt to flush the chunk at `offset` (ending at `end`) was
    /// refused for now: the file is known to hold up to `end` and the chunk
    /// gets its bytes back.
    pub fn retry_flush(&mut self, path: &String, offset: u64, end: u64, data: Vec<u8>)
        requires
            old(self).wf(),
        ensures
            final(self).wf(),
            forall|p: Seq<char>| p != path@ ==> #[trigger] final(self).file(p) == old(self).file(p),
            match old(self).file(path@) {
                None => final(self).file(path@) is None,
                Some(f) => final(self).file(path@) matches Some(nf) && nf.max_len == (if end
                    > f.max_len {
                    end
                } else {
                    f.max_len
                }) && (if spec_has_offset(f.wait_buffers@, offset) {
                    spec_buffer_set(f, offset, data@, WaitFlushFileInfo { max_len: f.max_len, ..nf })
                } else {
                    nf.wait_buffers == f.wait_buffers
                }),
            },
    {
        self.note_written(path, end);
        if self.has_wait(path, offset) {
            self.set_buffer(path, offset, data);
        }
    }
}

/// Where item `i` of a file starts when the items lie end to end from
/// offset 0: the sum of the sizes before it.
pub open spec fn spec_end_to_end_offset(items: Seq<BackupChunkItem>, i: int) -> int
    decreases i,
{
    if i <= 0 {
        0
    } else {
        spec_end_to_end_offset(items, i - 1) + items[i - 1].size
    }
}

/// The items of one file, in offset order: none is empty and each starts
/// where the one before it ends, the first at offset 0.
pub open spec fn spec_file_items(items: Seq<BackupChunkItem>) -> bool {
    forall|i: int|
        0 <= i < items.len() ==> #[trigger] items[i].size > 0 && items[i].offset
            == spec_end_to_end_offset(items, i)
}

/// A restore of one file, seen from the file: `attempts` are the indices of
/// the items handed to the writer, in the order the fetches finished and
/// retries came round. Each attempt takes the step that the file's current
/// length gives; a write leaves the file ending where the item ends.
/// The result is the file's length and the indices of the items written, in
/// the order they were written.
pub open spec fn spec_restore_file_run(items: Seq<BackupChunkItem>, attempts: Seq<int>) -> (
    int,
    Seq<int>,
)
    decreases attempts.len(),
{
    if attempts.len() == 0 {
        (0, Seq::empty())
    } else {
        let (len, written) = spec_restore_file_run(items, attempts.drop_last());
        let k = attempts.last();
        let item = items[k];
        match spec_restore_write_step(len, item.offset as int, item.size as int) {
            RestoreWriteStep::WriteAt => (item.offset + item.size, written.push(k)),
            _ => (len, written),
        }
    }
}

proof fn lemma_end_to_end_offset_grows(items: Seq<BackupChunkItem>, i: int, j: int)
    requires
        spec_file_items(items),
        0 <= i < j <= items.len(),
    ensures
        spec_end_to_end_offset(items, i) + items[i].size <= spec_end_to_end_offset(items, j),
        spec_end_to_end_offset(items, i) < spec_end_to_end_offset(items, j),
    decreases j - i,
{
    assert(items[i].size > 0);
    if j > i + 1 {
        lemma_end_to_end_offset_grows(items, i + 1, j);
    }
}

/// Whatever order the fetched chunks of a file arrive in, and however often
/// a chunk is handed over again, the writer writes the items once each, in
/// offset order and without a gap: the file always ends where the last
/// written item ends. An item already written is only compared, one past
/// the end of the file waits, and the next one is written when it comes.
pub proof fn law_restore_writes_in_offset_order(items: Seq<BackupChunkItem>, attempts: Seq<int>)
    requires
        spec_file_items(items),
        forall|t: int| 0 <= t < attempts.len() ==> 0 <= #[trigger] attempts[t] < items.len(),
    ensures
        ({
            let (len, written) = spec_restore_file_run(items, attempts);
            &&& written.len() <= items.len()
            &&& forall|j: int| 0 <= j < written.len() ==> #[trigger] written[j] == j
            &&& len == spec_end_to_end_offset(items, written.len() as int)
            &&& forall|k: int|
                0 <= k < items.len() ==> {
                    let step = #[trigger] spec_restore_write_step(
                        len,
                        items[k].offset as int,
                        items[k].size as int,
                    );
                    &&& k < written.len() ==> step is VerifyExisting
                    &&& k == written.len() ==> step is WriteAt
                    &&& k > written.len() ==> step is TryLater
                }
        }),
    decreases attempts.len(),
{
    let (len, written) = spec_restore_file_run(items, attempts);
    if attempts.len() > 0 {
        let prev = attempts.drop_last();
        assert forall|t: int| 0 <= t < prev.len() implies 0 <= #[trigger] prev[t] < items.len() by {
            assert(prev[t] == attempts[t]);
        }
        law_restore_writes_in_offset_order(items, prev);
    }
    assert forall|k: int| 0 <= k < items.len() implies {
        let step = #[trigger] spec_restore_write_step(
            len,
            items[k].offset as int,
            items[k].size as int,
        );
        &&& k < written.len() ==> step is VerifyExisting
        &&& k == written.len() ==> step is WriteAt
        &&& k > written.len() ==> step is TryLater
    } by {
        assert(items[k].size > 0);
        if k < written.len() {
            lemma_end_to_end_offset_grows(items, k, written.len() as int);
        } else if k > written.len() {
            lemma_end_to_end_offset_grows(items, written.len() as int, k);
        }
    }
}


/// Indices as mathematical integers.
pub open spec fn spec_indices(v: Seq<usize>) -> Seq<int> {
    v.map_values(|k: usize| k as int)
}

/// Restores one file: hands the items to the writer in the order of
/// `attempts` (indices into `items`), takes for each the step the file's
/// length gives, and writes where that step says so, the file then ending
/// where the item ends. Gives the file's length and the indices written, in
/// the order written; the run is the one `spec_restore_file_run` describes,
/// so `law_restore_writes_in_offset_order` holds of it.
pub fn run_restore_file(items: &Vec<BackupChunkItem>, attempts: &Vec<usize>) -> (r: (u64, Vec<usize>))
    requires
        spec_file_items(items@),
        forall|t: int| 0 <= t < attempts@.len() ==> #[trigger] attempts@[t] < items@.len(),
        spec_end_to_end_offset(items@, items@.len() as int) <= u64::MAX,
    ensures
        r.0 == spec_restore_file_run(items@, spec_indices(attempts@)).0,
        spec_indices(r.1@) == spec_restore_file_run(items@, spec_indices(attempts@)).1,
{
    let ghost all = spec_indices(attempts@);
    let mut len: u64 = 0;
    let mut written: Vec<usize> = Vec::new();
    let mut i: usize = 0;
    assert(all.take(0) =~= Seq::<int>::empty());
    assert(spec_indices(written@) =~= Seq::<int>::empty());
    while i < attempts.len()
        invariant
            i <= attempts@.len(),
            all == spec_indices(attempts@),
            spec_file_items(items@),
            forall|t: int| 0 <= t < attempts@.len() ==> #[trigger] attempts@[t] < items@.len(),
            spec_end_to_end_offset(items@, items@.len() as int) <= u64::MAX,
            len == spec_restore_file_run(items@, all.take(i as int)).0,
            spec_indices(written@) == spec_restore_file_run(items@, all.take(i as int)).1,
        decreases attempts.len() - i,
    {
        let k = attempts[i];
        proof {
            assert(all.take(i + 1).drop_last() =~= all.take(i as int));
            assert(all.take(i + 1).last() == k as int);
            assert(items@[k as int].size > 0);
            lemma_end_to_end_offset_grows(items@, k as int, items@.len() as int);
        }
        let offset = items[k].offset;
        let size = items[k].size;
        match restore_write_step(len, offset, size) {
            RestoreWriteStep::WriteAt => {
                len = offset + size;
                let ghost w0 = written@;
                written.push(k);
                assert(spec_indices(written@) =~= spec_indices(w0).push(k as int));
            },
            _ => {},
        }
        i = i + 1;
    }
    assert(all.take(attempts@.len() as int) =~= all);
    (len, written)
}

} // verus!
