//! Watched paths and the time each was last seen changing.

use vstd::prelude::*;
use crate::fs_path::{path_eq, path_starts_with, spec_path_eq, spec_path_starts_with};

verus! {

/// A watched path: a directory (watched with everything below it) or a
/// file, and the time in milliseconds it last changed (0 when unknown).
pub struct WatchEntry {
    path: String,
    is_dir: bool,
    last_update_time: u64,
}

impl WatchEntry {
    pub closed spec fn time(&self) -> u64 {
        self.last_update_time
    }

    pub closed spec fn spec_path(&self) -> String {
        self.path
    }

    pub closed spec fn spec_is_dir(&self) -> bool {
        self.is_dir
    }

    pub fn path(&self) -> (p: &String)
        ensures
            *p == self.spec_path(),
    {
        &self.path
    }

    pub fn is_dir(&self) -> (b: bool)
        ensures
            b == self.spec_is_dir(),
    {
        self.is_dir
    }

    pub fn new(path: String, is_dir: bool) -> (e: WatchEntry)
        ensures
            e.spec_path() == path,
            e.spec_is_dir() == is_dir,
            e.time() == 0,
    {
        WatchEntry { path, is_dir, last_update_time: 0 }
    }

    pub fn set_last_update_time(&mut self, timestamp: u64)
        ensures
            final(self).time() == timestamp,
            final(self).spec_path() == old(self).spec_path(),
            final(self).spec_is_dir() == old(self).spec_is_dir(),
    {
        self.last_update_time = timestamp;
    }

    /// Sets the time only when none is known yet.
    pub fn try_set_initial_update_time(&mut self, timestamp: u64)
        ensures
            final(self).time() == if old(self).time() == 0 {
                timestamp
            } else {
                old(self).time()
            },
            final(self).spec_path() == old(self).spec_path(),
            final(self).spec_is_dir() == old(self).spec_is_dir(),
    {
        if self.last_update_time == 0 {
            self.last_update_time = timestamp;
        }
    }

    pub fn last_update_time(&self) -> (t: u64)
        ensures
            t == self.time(),
    {
        self.last_update_time
    }
}

/// Whether a change at `candidate` concerns a watch: anything below a
/// watched directory, or the watched file itself.
pub open spec fn spec_matches_watch(watch_path: Seq<char>, is_dir: bool, candidate: Seq<char>) -> bool {
    if is_dir {
        spec_path_starts_with(candidate, watch_path)
    } else {
        spec_path_eq(watch_path, candidate)
    }
}

pub fn matches_watch(watch_path: &str, is_dir: bool, candidate: &str) -> (b: bool)
    ensures
        b == spec_matches_watch(watch_path@, is_dir, candidate@),
{
    if is_dir {
        path_starts_with(candidate, watch_path)
    } else {
        path_eq(watch_path, candidate)
    }
}

/// A point in time relative to the Unix epoch: after it by `secs` seconds
/// and `nanos` nanoseconds, or before it.
pub struct SystemTimeParts {
    pub after_epoch: bool,
    pub secs: u64,
    pub nanos: u32,
}

/// A time before the epoch has no millisecond count.
pub struct TimeBeforeEpoch;

/// Milliseconds since the epoch, cut to 64 bits as `as u64` cuts them.
pub open spec fn spec_millis(secs: u64, nanos: u32) -> u64 {
    ((secs as u128 * 1000 + (nanos / 1000000) as u128) % 0x1_0000_0000_0000_0000) as u64
}

pub fn system_time_to_millis(time: SystemTimeParts) -> (r: Result<u64, TimeBeforeEpoch>)
    requires
        time.nanos < 1000000000,
    ensures
        time.after_epoch ==> (r matches Ok(ms) && ms == spec_millis(time.secs, time.nanos)),
        !time.after_epoch ==> r is Err,
{
    if !time.after_epoch {
        return Err(TimeBeforeEpoch);
    }
    let total: u128 = time.secs as u128 * 1000 + (time.nanos / 1000000) as u128;
    let low: u128 = total % 0x1_0000_0000_0000_0000;
    Ok(low as u64)
}

/// Whether a file system event kind marks a change: creation, modification
/// or removal.
pub enum EventKindClass {
    Access,
    Create,
    Modify,
    Remove,
    Any,
    Other,
}

pub fn is_relevant_event(kind: &EventKindClass) -> (b: bool)
    ensures
        b == (*kind is Create || *kind is Modify || *kind is Remove),
{
    match kind {
        EventKindClass::Create => true,
        EventKindClass::Modify => true,
        EventKindClass::Remove => true,
        _ => false,
    }
}

/// The watched paths, one entry per path.
pub struct WatchSet {
    entries: Vec<WatchEntry>,
}

impl WatchSet {
    pub closed spec fn entries_view(&self) -> Seq<WatchEntry> {
        self.entries@
    }

    /// No two entries name the same path.
    pub open spec fn wf(&self) -> bool {
        forall|i: int, j: int|
            0 <= i < j < self.entries_view().len() ==> !spec_path_eq(
                (#[trigger] self.entries_view()[i]).spec_path()@,
                (#[trigger] self.entries_view()[j]).spec_path()@,
            )
    }

    pub fn new() -> (s: WatchSet)
        ensures
            s.wf(),
            s.entries_view().len() == 0,
    {
        WatchSet { entries: Vec::new() }
    }

    fn find(&self, path: &str) -> (r: Option<usize>)
        ensures
            match r {
                Some(i) => i < self.entries_view().len() && spec_path_eq(
                    self.entries_view()[i as int].spec_path()@,
                    path@,
                ),
                None => forall|k: int|
                    0 <= k < self.entries_view().len() ==> !spec_path_eq(
                        (#[trigger] self.entries_view()[k]).spec_path()@,
                        path@,
                    ),
            },
    {
        let mut i: usize = 0;
        while i < self.entries.len()
            invariant
                i <= self.entries@.len(),
                forall|k: int|
                    0 <= k < i ==> !spec_path_eq((#[trigger] self.entries@[k]).spec_path()@, path@),
            decreases self.entries.len() - i,
        {
            if path_eq(self.entries[i].path.as_str(), path) {
                return Some(i);
            }
            i = i + 1;
        }
        None
    }

    /// Whether a path is watched.
    pub fn contains(&self, path: &str) -> (b: bool)
        ensures
            b == exists|k: int|
                0 <= k < self.entries_view().len() && spec_path_eq(
                    (#[trigger] self.entries_view()[k]).spec_path()@,
                    path@,
                ),
    {
        self.find(path).is_some()
    }

    /// Watches a path not watched yet.
    pub fn insert(&mut self, entry: WatchEntry)
        requires
            old(self).wf(),
            forall|k: int|
                0 <= k < old(self).entries_view().len() ==> !spec_path_eq(
                    (#[trigger] old(self).entries_view()[k]).spec_path()@,
                    entry.spec_path()@,
                ),
        ensures
            final(self).wf(),
            final(self).entries_view() == old(self).entries_view().push(entry),
    {
        let ghost old_e = self.entries@;
        self.entries.push(entry);
        proof {
            let e = self.entries@;
            assert forall|i: int, j: int| 0 <= i < j < e.len() implies !spec_path_eq(
                (#[trigger] e[i]).spec_path()@,
                (#[trigger] e[j]).spec_path()@,
            ) by {
                if j == e.len() - 1 {
                    assert(e[i] == old_e[i]);
                    assert(e[j] == entry);
                    assert(old_e == old(self).entries_view());
                    assert(!spec_path_eq(old(self).entries_view()[i].spec_path()@, entry.spec_path()@));
                } else {
                    assert(e[i] == old_e[i] && e[j] == old_e[j]);
                }
            }
        }
    }

    /// Stops watching a path; returns whether it was watched.
    pub fn remove(&mut self, path: &str) -> (removed: bool)
        requires
            old(self).wf(),
        ensures
            final(self).wf(),
            removed == exists|k: int|
                0 <= k < old(self).entries_view().len() && spec_path_eq(
                    (#[trigger] old(self).entries_view()[k]).spec_path()@,
                    path@,
                ),
            forall|k: int|
                0 <= k < final(self).entries_view().len() ==> !spec_path_eq(
                    (#[trigger] final(self).entries_view()[k]).spec_path()@,
                    path@,
                ) || !removed,
    {
        match self.find(path) {
            Some(i) => {
                let ghost old_e = self.entries@;
                let _ = self.entries.remove(i);
                proof {
                    let e = self.entries@;
                    assert forall|a: int, b: int| 0 <= a < b < e.len() implies !spec_path_eq(
                        (#[trigger] e[a]).spec_path()@,
                        (#[trigger] e[b]).spec_path()@,
                    ) by {
                        let oa = if a < i { a } else { a + 1 };
                        let ob = if b < i { b } else { b + 1 };
                        assert(e[a] == old_e[oa] && e[b] == old_e[ob]);
                    }
                    assert forall|k: int| 0 <= k < e.len() implies !spec_path_eq(
                        (#[trigger] e[k]).spec_path()@,
                        path@,
                    ) by {
                        let ok = if k < i { k } else { k + 1 };
                        assert(e[k] == old_e[ok]);
                        lemma_path_eq_trans_ne(old_e, ok, i as int, path@);
                    }
                }
                true
            },
            None => false,
        }
    }

    /// The time a watched path last changed.
    pub fn get_last_update_time(&self, path: &str) -> (r: Option<u64>)
        ensures
            match r {
                Some(t) => exists|k: int|
                    0 <= k < self.entries_view().len() && spec_path_eq(
                        (#[trigger] self.entries_view()[k]).spec_path()@,
                        path@,
                    ) && self.entries_view()[k].time() == t,
                None => forall|k: int|
                    0 <= k < self.entries_view().len() ==> !spec_path_eq(
                        (#[trigger] self.entries_view()[k]).spec_path()@,
                        path@,
                    ),
            },
    {
        match self.find(path) {
            Some(i) => Some(self.entries[i].last_update_time()),
            None => None,
        }
    }

    /// Records a change at `candidate` at `timestamp`: every watch it
    /// concerns takes that time; the others keep theirs.
    pub fn apply_change(&mut self, candidate: &str, timestamp: u64)
        requires
            old(self).wf(),
        ensures
            final(self).wf(),
            final(self).entries_view().len() == old(self).entries_view().len(),
            forall|k: int|
                0 <= k < old(self).entries_view().len() ==> {
                    let o = old(self).entries_view()[k];
                    let n = #[trigger] final(self).entries_view()[k];
                    &&& n.spec_path() == o.spec_path()
                    &&& n.spec_is_dir() == o.spec_is_dir()
                    &&& n.time() == if spec_matches_watch(o.spec_path()@, o.spec_is_dir(), candidate@) {
                        timestamp
                    } else {
                        o.time()
                    }
                },
    {
        let ghost old_e = self.entries@;
        let mut i: usize = 0;
        while i < self.entries.len()
            invariant
                i <= self.entries@.len(),
                self.entries@.len() == old_e.len(),
                forall|k: int|
                    i <= k < old_e.len() ==> #[trigger] self.entries@[k] == old_e[k],
                forall|k: int|
                    0 <= k < i ==> {
                        let o = old_e[k];
                        let n = #[trigger] self.entries@[k];
                        &&& n.spec_path() == o.spec_path()
                        &&& n.spec_is_dir() == o.spec_is_dir()
                        &&& n.time() == if spec_matches_watch(o.spec_path()@, o.spec_is_dir(), candidate@) {
                            timestamp
                        } else {
                            o.time()
                        }
                    },
            decreases self.entries.len() - i,
        {
            let hit = matches_watch(self.entries[i].path.as_str(), self.entries[i].is_dir, candidate);
            if hit {
                let mut e = self.entries.remove(i);
                e.set_last_update_time(timestamp);
                self.entries.insert(i, e);
            }
            i = i + 1;
        }
        proof {
            let e = self.entries@;
            assert forall|a: int, b: int| 0 <= a < b < e.len() implies !spec_path_eq(
                (#[trigger] e[a]).spec_path()@,
                (#[trigger] e[b]).spec_path()@,
            ) by {
                assert(e[a].spec_path() == old_e[a].spec_path() && e[b].spec_path() == old_e[b].spec_path());
            }
        }
    }
}

/// Path equality is an equivalence on components: an entry equal to `p`
/// and one not equal to the first cannot both equal `p`.
proof fn lemma_path_eq_trans_ne(e: Seq<WatchEntry>, a: int, b: int, p: Seq<char>)
    requires
        0 <= a < e.len(),
        0 <= b < e.len(),
        a != b,
        spec_path_eq(e[b].spec_path()@, p),
        forall|i: int, j: int|
            0 <= i < j < e.len() ==> !spec_path_eq((#[trigger] e[i]).spec_path()@, (#[trigger] e[j]).spec_path()@),
    ensures
        !spec_path_eq(e[a].spec_path()@, p),
{
    if a < b {
        assert(!spec_path_eq(e[a].spec_path()@, e[b].spec_path()@));
    } else {
        assert(!spec_path_eq(e[b].spec_path()@, e[a].spec_path()@));
    }
}

impl WatchSet {
    /// Gives the watch of `path` its first known change time, unless it
    /// has one already; other watches are untouched.
    pub fn try_set_initial_time(&mut self, path: &str, timestamp: u64)
        requires
            old(self).wf(),
        ensures
            final(self).wf(),
            final(self).entries_view().len() == old(self).entries_view().len(),
            forall|k: int|
                0 <= k < old(self).entries_view().len() ==> {
                    let o = old(self).entries_view()[k];
                    let n = #[trigger] final(self).entries_view()[k];
                    &&& n.spec_path() == o.spec_path()
                    &&& n.spec_is_dir() == o.spec_is_dir()
                    &&& n.time() == if spec_path_eq(o.spec_path()@, path@) && o.time() == 0 {
                        timestamp
                    } else {
                        o.time()
                    }
                },
    {
        let ghost old_e = self.entries@;
        match self.find(path) {
            Some(i) => {
                let mut e = self.entries.remove(i);
                e.try_set_initial_update_time(timestamp);
                self.entries.insert(i, e);
                proof {
                    let n = self.entries@;
                    assert forall|k: int| 0 <= k < old_e.len() && k != i implies n[k] == old_e[k]
                        && !spec_path_eq(old_e[k].spec_path()@, path@) by {
                        lemma_path_eq_trans_ne(old_e, k, i as int, path@);
                    }
                    assert forall|a: int, b: int| 0 <= a < b < n.len() implies !spec_path_eq(
                        (#[trigger] n[a]).spec_path()@,
                        (#[trigger] n[b]).spec_path()@,
                    ) by {
                        assert(n[a].spec_path() == old_e[a].spec_path() && n[b].spec_path()
                            == old_e[b].spec_path());
                    }
                }
            },
            None => {},
        }
    }
}

} // verus!
