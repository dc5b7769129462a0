//! Decisions of the task lifecycle: resuming, pausing, removing and
//! scheduling work tasks, and the state a finished run leaves.

use vstd::prelude::*;
use crate::def::{BuckyBackupError, prefixed, spec_error_message};
use crate::rpc_params::{parse_u64_text, spec_parse_u64};
use crate::task_model::{TaskState, TaskStateView, TaskType, spec_is_resumable, spec_is_pausable};
use crate::text::{
    chars_of, chars_eq, extend_chars, is_whitespace, spec_is_whitespace, string_from_chars,
};

verus! {

/// `s` without its leading white space (`str::trim_start`).
pub open spec fn spec_trim_start(s: Seq<char>) -> Seq<char>
    decreases s.len(),
{
    if s.len() > 0 && spec_is_whitespace(s[0]) {
        spec_trim_start(s.drop_first())
    } else {
        s
    }
}

/// `s` without its trailing white space (`str::trim_end`).
pub open spec fn spec_trim_end(s: Seq<char>) -> Seq<char>
    decreases s.len(),
{
    if s.len() > 0 && spec_is_whitespace(s.last()) {
        spec_trim_end(s.drop_last())
    } else {
        s
    }
}

/// `s` without leading and trailing white space (`str::trim`).
pub open spec fn str_trim(s: Seq<char>) -> Seq<char> {
    spec_trim_end(spec_trim_start(s))
}

/// `s` without leading and trailing white space (as `str::trim` gives it).
pub(crate) fn trim_text(s: &str) -> (r: String)
    ensures
        r@ == str_trim(s@),
{
    let v = chars_of(s);
    let mut lo: usize = 0;
    assert(v@.skip(0) =~= v@);
    while lo < v.len() && is_whitespace(v[lo])
        invariant
            lo <= v@.len(),
            v@ == s@,
            spec_trim_start(s@) == spec_trim_start(v@.skip(lo as int)),
        decreases v.len() - lo,
    {
        assert(v@.skip(lo as int).drop_first() =~= v@.skip(lo + 1));
        lo = lo + 1;
    }
    let ghost t = v@.skip(lo as int);
    assert(spec_trim_start(s@) == t) by {
        if lo == v.len() {
            assert(t =~= Seq::<char>::empty());
        }
    }
    let mut hi: usize = v.len();
    while hi > lo && is_whitespace(v[hi - 1])
        invariant
            lo <= hi <= v@.len(),
            t == v@.skip(lo as int),
            spec_trim_end(t) == spec_trim_end(v@.subrange(lo as int, hi as int)),
        decreases hi,
    {
        assert(v@.subrange(lo as int, hi as int).drop_last() =~= v@.subrange(lo as int, hi - 1));
        hi = hi - 1;
    }
    proof {
        assert(t =~= v@.subrange(lo as int, v@.len() as int));
        if hi == lo {
            assert(v@.subrange(lo as int, hi as int) =~= Seq::<char>::empty());
        }
    }
    let mut out: Vec<char> = Vec::new();
    extend_chars(&mut out, &v, lo, hi);
    assert(out@ =~= v@.subrange(lo as int, hi as int));
    string_from_chars(&out)
}

/// Tasks that run at once when nothing else is configured.
pub const DEFAULT_TASK_CONCURRENCY: u64 = 5;
/// How long a failed task waits before the scheduler retries it.
pub const FAILED_RETRY_COOLDOWN_MS: u64 = 300000;

/// The concurrency limit a setting gives: a positive integer (surrounding
/// white space allowed), else the default.
pub open spec fn spec_concurrency_limit(setting: Option<Seq<char>>) -> u64 {
    match setting {
        None => DEFAULT_TASK_CONCURRENCY,
        Some(s) => match spec_parse_u64(str_trim(s)) {
            Some(n) => if n > 0 {
                n
            } else {
                DEFAULT_TASK_CONCURRENCY
            },
            None => DEFAULT_TASK_CONCURRENCY,
        },
    }
}

pub fn task_concurrency_limit(setting: Option<&str>) -> (n: u64)
    ensures
        n == spec_concurrency_limit(
            match setting {
                Some(s) => Some(s@),
                None => None,
            },
        ),
{
    match setting {
        None => DEFAULT_TASK_CONCURRENCY,
        Some(s) => {
            let t = trim_text(s);
            match parse_u64_text(t.as_str()) {
                Some(n) => {
                    if n > 0 {
                        n
                    } else {
                        DEFAULT_TASK_CONCURRENCY
                    }
                },
                None => DEFAULT_TASK_CONCURRENCY,
            }
        },
    }
}

/// Whether the scheduler starts a schedulable task: a pending task, or a
/// failed one whose last failure is older than the cooldown.
pub open spec fn spec_should_schedule(state: TaskStateView, now_ms: u64, update_time: u64) -> bool {
    match state {
        TaskStateView::Pending => true,
        TaskStateView::Failed(_) => (if now_ms >= update_time {
            now_ms - update_time
        } else {
            0
        }) >= FAILED_RETRY_COOLDOWN_MS,
        _ => false,
    }
}

pub fn should_schedule(state: &TaskState, now_ms: u64, update_time: u64) -> (b: bool)
    ensures
        b == spec_should_schedule(state@, now_ms, update_time),
{
    match state {
        TaskState::Pending => true,
        TaskState::Failed(_) => {
            let elapsed = if now_ms >= update_time {
                now_ms - update_time
            } else {
                0
            };
            elapsed >= FAILED_RETRY_COOLDOWN_MS
        },
        _ => false,
    }
}

/// What resuming a task does when `running` tasks run under a limit.
pub enum ResumeGate {
    /// Start the task.
    Proceed,
    /// Too many tasks run: record the task as pending; `becomes_pending`
    /// tells whether its state in memory changes too.
    Defer { becomes_pending: bool },
}

pub fn resume_gate(limit: u64, running: u64, state: &TaskState) -> (r: ResumeGate)
    ensures
        limit > 0 && running >= limit ==> r == (ResumeGate::Defer {
            becomes_pending: state@ is Paused || state@ is Failed,
        }),
        !(limit > 0 && running >= limit) ==> r is Proceed,
{
    if limit > 0 && running >= limit {
        let becomes_pending = match state {
            TaskState::Paused => true,
            TaskState::Failed(_) => true,
            _ => false,
        };
        ResumeGate::Defer { becomes_pending }
    } else {
        ResumeGate::Proceed
    }
}

/// Checks that a task can be resumed as a restore.
pub fn check_resume_restore(task_type: &TaskType, state: &TaskState) -> (r: Result<(), BuckyBackupError>)
    ensures
        !(*task_type is Restore) ==> (r matches Err(BuckyBackupError::Failed(m)) && m@
            == "try resume a BackupTask as Restore"@),
        *task_type is Restore && !spec_is_resumable(state@) ==> (r matches Err(BuckyBackupError::Failed(m)) && m@
            == "restore task is running"@),
        *task_type is Restore && spec_is_resumable(state@) ==> r is Ok,
{
    match task_type {
        TaskType::Restore => {},
        _ => {
            return Err(BuckyBackupError::Failed(String::from_str("try resume a BackupTask as Restore")));
        },
    }
    if !state.is_resumable() {
        return Err(BuckyBackupError::Failed(String::from_str("restore task is running")));
    }
    Ok(())
}

/// Checks that a task can be resumed as a backup.
pub fn check_resume_backup(task_type: &TaskType, state: &TaskState) -> (r: Result<(), BuckyBackupError>)
    ensures
        !(*task_type is Backup) ==> (r matches Err(BuckyBackupError::Failed(m)) && m@
            == "try resume a RestoreTask as Backup"@),
        *task_type is Backup && !spec_is_resumable(state@) ==> (r matches Err(BuckyBackupError::Failed(m)) && m@
            == "task is not paused"@),
        *task_type is Backup && spec_is_resumable(state@) ==> r is Ok,
{
    match task_type {
        TaskType::Backup => {},
        _ => {
            return Err(BuckyBackupError::Failed(String::from_str("try resume a RestoreTask as Backup")));
        },
    }
    if !state.is_resumable() {
        return Err(BuckyBackupError::Failed(String::from_str("task is not paused")));
    }
    Ok(())
}

/// The state a task takes when paused: pausing, if it can be paused.
pub fn pause_state(state: &TaskState) -> (r: Result<TaskState, BuckyBackupError>)
    ensures
        spec_is_pausable(state@) ==> (r matches Ok(s) && s@ is Pausing),
        !spec_is_pausable(state@) ==> (r matches Err(BuckyBackupError::Failed(m)) && m@
            == "task is not running"@),
{
    if state.is_puasable() {
        Ok(TaskState::Pausing)
    } else {
        Err(BuckyBackupError::Failed(String::from_str("task is not running")))
    }
}

/// The steps of removing a task in the given state: pause it first, wait
/// for it to stop, then mark it removed unless it already is.
pub struct RemoveSteps {
    pub pause_first: bool,
    pub wait_stop: bool,
}

pub fn remove_steps(state: &TaskState) -> (r: RemoveSteps)
    ensures
        r.pause_first == (state@ is Running || state@ is Pending),
        r.wait_stop == (state@ is Running || state@ is Pending || state@ is Pausing),
{
    match state {
        TaskState::Running => RemoveSteps { pause_first: true, wait_stop: true },
        TaskState::Pending => RemoveSteps { pause_first: true, wait_stop: true },
        TaskState::Pausing => RemoveSteps { pause_first: false, wait_stop: true },
        _ => RemoveSteps { pause_first: false, wait_stop: false },
    }
}

/// Whether a task is still stopping (so removal keeps waiting).
pub fn is_stopping(state: &TaskState) -> (b: bool)
    ensures
        b == (state@ is Running || state@ is Pending || state@ is Pausing),
{
    match state {
        TaskState::Running => true,
        TaskState::Pending => true,
        TaskState::Pausing => true,
        _ => false,
    }
}

/// The state a restore run leaves: done when everything was restored,
/// paused when it stopped early or failed while pausing, else failed with
/// the error's message (a `Failed` error's own message).
pub open spec fn spec_restore_end_state(result: Result<bool, BuckyBackupError>, current: TaskStateView) -> TaskStateView {
    match result {
        Ok(true) => TaskStateView::Done,
        Ok(false) => TaskStateView::Paused,
        Err(e) => if current is Pausing {
            TaskStateView::Paused
        } else {
            match e {
                BuckyBackupError::Failed(m) => TaskStateView::Failed(m@),
                _ => TaskStateView::Failed("Task failed: "@ + spec_error_message(e)),
            }
        },
    }
}

pub fn restore_end_state(result: Result<bool, BuckyBackupError>, current: &TaskState) -> (r: TaskState)
    ensures
        r@ == spec_restore_end_state(result, current@),
{
    match result {
        Ok(true) => TaskState::Done,
        Ok(false) => TaskState::Paused,
        Err(e) => {
            match current {
                TaskState::Pausing => TaskState::Paused,
                _ => {
                    let msg = e.to_message();
                    match e {
                        BuckyBackupError::Failed(m) => TaskState::Failed(m),
                        _ => TaskState::Failed(prefixed("Task failed: ", msg.as_str())),
                    }
                },
            }
        },
    }
}

/// The state a backup task takes when starting its run failed: failed while
/// running, paused while pausing.
pub fn backup_start_error_state(e: &BuckyBackupError, current: &TaskState) -> (r: Option<TaskState>)
    ensures
        current@ is Running ==> (r matches Some(s) && s@ == TaskStateView::Failed(
            "Prepare source failed: "@ + spec_error_message(*e),
        )),
        current@ is Pausing ==> (r matches Some(s) && s@ is Paused),
        !(current@ is Running || current@ is Pausing) ==> r is None,
{
    match current {
        TaskState::Running => {
            let msg = e.to_message();
            Some(TaskState::Failed(prefixed("Prepare source failed: ", msg.as_str())))
        },
        TaskState::Pausing => Some(TaskState::Paused),
        _ => None,
    }
}

/// Checks that a plan type can run: only chunk-to-chunk plans can.
pub fn check_plan_type(type_str: &str) -> (r: Result<(), BuckyBackupError>)
    ensures
        type_str@ == "c2c"@ ==> r is Ok,
        type_str@ != "c2c"@ ==> (r matches Err(BuckyBackupError::Failed(m)) && m@
            == "unknown plan type: "@ + type_str@),
{
    if chars_eq(&chars_of(type_str), &chars_of("c2c")) {
        Ok(())
    } else {
        Err(BuckyBackupError::Failed(prefixed("unknown plan type: ", type_str)))
    }
}

/// A task that finishes its restore reads back as done; one that stops
/// early reads back as paused.
pub proof fn law_restore_end_state(current: TaskStateView, e: BuckyBackupError)
    ensures
        spec_restore_end_state(Ok(true), current) == TaskStateView::Done,
        spec_restore_end_state(Ok(false), current) == TaskStateView::Paused,
        spec_restore_end_state(Err(e), TaskStateView::Pausing) == TaskStateView::Paused,
        !(current is Pausing) ==> spec_restore_end_state(Err(e), current) is Failed,
{
}

} // verus!
