//! Decisions of a chunk-to-chunk backup run: what the transfer loop does next
//! for each checkpoint state, and which task state a finished thread leaves.

use vstd::prelude::*;
use crate::def::{
    BackupChunkItem, BuckyBackupError, CheckPointState, CheckPointStateView, RemoteBackupCheckPointItemStatus,
    lemma_total_size_prefix_le, prefixed, spec_error_message, spec_items_total_size,
    spec_need_working,
};
use crate::task_model::{TaskState, TaskStateView};

verus! {

impl CheckPointState {
    /// A copy of the state.
    pub fn duplicate(&self) -> (r: CheckPointState)
        ensures
            r@ == self@,
    {
        match self {
            CheckPointState::New => CheckPointState::New,
            CheckPointState::Prepared => CheckPointState::Prepared,
            CheckPointState::WaitTrans => CheckPointState::WaitTrans,
            CheckPointState::Working => CheckPointState::Working,
            CheckPointState::Done => CheckPointState::Done,
            CheckPointState::Failed(m) => CheckPointState::Failed(m.clone()),
        }
    }
}

/// What the transfer loop does after loading the local checkpoint.
pub enum LocalStep {
    /// Stop; the thread reports the checkpoint in the given state.
    Exit(CheckPointState),
    /// The item list is still being prepared: wait a second, then look again.
    WaitPrepare,
    /// Ask the target for its state of the checkpoint.
    QueryRemote,
}

/// What the transfer loop does for the state the target reports.
pub enum RemoteStep {
    /// The target does not have the checkpoint: allocate it there.
    Allocate,
    /// The target can never report this state: stop, reporting the local
    /// state.
    ExitInconsistent,
    /// The target has all items: record the checkpoint done and stop.
    MarkDone,
    /// The target failed the checkpoint: record the failure and stop.
    MarkFailed(String),
    /// The target is still taking the item list: wait five seconds.
    WaitRemote,
    /// Transfer the next waiting item.
    TransferNext,
}

/// How opening the target's writer for an item turned out.
pub enum WriterOutcome {
    /// A writer was opened: copy the item.
    Opened,
    /// The target asks to retry later.
    TryLater,
    /// The target already has the chunk.
    AlreadyDone,
    /// Any other failure.
    Failed,
}

/// What to do with an item after trying to open the target's writer.
pub enum ItemStep {
    /// Copy the item, then complete it.
    CopyThenComplete,
    /// Leave it and go round the loop again.
    Retry,
    /// Record the item as done without copying.
    Complete,
    /// Stop the thread with the error.
    Abort,
}

/// What to do when no item is waiting.
pub enum IdleStep {
    /// Every local item is done and the target cannot check the checkpoint
    /// itself: record the checkpoint done and stop.
    MarkDone,
    /// Go round the loop again.
    Continue,
}

pub open spec fn spec_local_step_exit(local: CheckPointStateView, task: TaskStateView) -> bool {
    !spec_need_working(local) || !(task is Running)
}

/// The step after loading the local checkpoint, given the task's state.
pub fn backup_local_step(local: &CheckPointState, task: &TaskState) -> (r: LocalStep)
    ensures
        spec_local_step_exit(local@, task@) <==> r is Exit,
        r matches LocalStep::Exit(s) ==> s@ == local@,
        !spec_local_step_exit(local@, task@) ==> (local@ is New <==> r is WaitPrepare),
        !spec_local_step_exit(local@, task@) && !(local@ is New) ==> r is QueryRemote,
{
    if !local.need_working() {
        return LocalStep::Exit(local.duplicate());
    }
    match task {
        TaskState::Running => {},
        _ => {
            return LocalStep::Exit(local.duplicate());
        },
    }
    match local {
        CheckPointState::New => LocalStep::WaitPrepare,
        _ => LocalStep::QueryRemote,
    }
}

/// The step for the state the target reports.
pub fn backup_remote_step(remote: &CheckPointState) -> (r: RemoteStep)
    ensures
        match remote@ {
            CheckPointStateView::New => r is Allocate,
            CheckPointStateView::Prepared => r is ExitInconsistent,
            CheckPointStateView::Done => r is MarkDone,
            CheckPointStateView::Failed(m) => r matches RemoteStep::MarkFailed(x) && x@ == m,
            CheckPointStateView::WaitTrans => r is WaitRemote,
            CheckPointStateView::Working => r is TransferNext,
        },
{
    match remote {
        CheckPointState::New => RemoteStep::Allocate,
        CheckPointState::Prepared => RemoteStep::ExitInconsistent,
        CheckPointState::Done => RemoteStep::MarkDone,
        CheckPointState::Failed(m) => RemoteStep::MarkFailed(m.clone()),
        CheckPointState::WaitTrans => RemoteStep::WaitRemote,
        CheckPointState::Working => RemoteStep::TransferNext,
    }
}

/// The step for an item, by how opening the target's writer turned out.
pub open spec fn spec_item_step(outcome: WriterOutcome) -> ItemStep {
    match outcome {
        WriterOutcome::Opened => ItemStep::CopyThenComplete,
        WriterOutcome::TryLater => ItemStep::Retry,
        WriterOutcome::AlreadyDone => ItemStep::Complete,
        WriterOutcome::Failed => ItemStep::Abort,
    }
}

/// The step for an item, by how opening the target's writer turned out.
pub fn backup_item_step(outcome: &WriterOutcome) -> (r: ItemStep)
    ensures
        r == spec_item_step(*outcome),
{
    match outcome {
        WriterOutcome::Opened => ItemStep::CopyThenComplete,
        WriterOutcome::TryLater => ItemStep::Retry,
        WriterOutcome::AlreadyDone => ItemStep::Complete,
        WriterOutcome::Failed => ItemStep::Abort,
    }
}

/// The step when no item is waiting: the checkpoint is recorded done by
/// the local side only when the target cannot check it itself.
pub open spec fn spec_idle_step(items_status: RemoteBackupCheckPointItemStatus) -> IdleStep {
    if items_status is NotSupport {
        IdleStep::MarkDone
    } else {
        IdleStep::Continue
    }
}

/// The step when no item is waiting, by what the target reports of the
/// checkpoint's items.
pub fn backup_idle_step(items_status: &RemoteBackupCheckPointItemStatus) -> (r: IdleStep)
    ensures
        r == spec_idle_step(*items_status),
{
    match items_status {
        RemoteBackupCheckPointItemStatus::NotSupport => IdleStep::MarkDone,
        _ => IdleStep::Continue,
    }
}

/// Where the transfer of a checkpoint's items stands: the items completed,
/// in the order they were completed; the items still waiting, in the order
/// they are taken; the task's progress counters (completed items and their
/// bytes), which each completion raises; whether the checkpoint was
/// recorded done; whether the thread stopped on an error.
pub struct TransferProgress {
    pub completed: Seq<BackupChunkItem>,
    pub waiting: Seq<BackupChunkItem>,
    pub completed_item_count: nat,
    pub completed_size: int,
    pub done: bool,
    pub aborted: bool,
}

/// One round of the transfer loop while the target is working: the writer
/// outcome for the first waiting item, if one waits; otherwise what the
/// target reports of the checkpoint's items.
pub open spec fn spec_transfer_round(
    p: TransferProgress,
    outcome: WriterOutcome,
    items_status: RemoteBackupCheckPointItemStatus,
) -> TransferProgress {
    if p.done || p.aborted {
        p
    } else if p.waiting.len() > 0 {
        let item = p.waiting[0];
        match spec_item_step(outcome) {
            ItemStep::CopyThenComplete | ItemStep::Complete => TransferProgress {
                completed: p.completed.push(item),
                waiting: p.waiting.drop_first(),
                completed_item_count: p.completed_item_count + 1,
                completed_size: p.completed_size + item.size,
                ..p
            },
            ItemStep::Retry => p,
            ItemStep::Abort => TransferProgress { aborted: true, ..p },
        }
    } else {
        match spec_idle_step(items_status) {
            IdleStep::MarkDone => TransferProgress { done: true, ..p },
            IdleStep::Continue => p,
        }
    }
}

/// The transfer of `items` after the given rounds, from nothing completed.
pub open spec fn spec_transfer_run(
    items: Seq<BackupChunkItem>,
    rounds: Seq<(WriterOutcome, RemoteBackupCheckPointItemStatus)>,
) -> TransferProgress
    decreases rounds.len(),
{
    if rounds.len() == 0 {
        TransferProgress {
            completed: Seq::empty(),
            waiting: items,
            completed_item_count: 0,
            completed_size: 0,
            done: false,
            aborted: false,
        }
    } else {
        let r = rounds.last();
        spec_transfer_round(spec_transfer_run(items, rounds.drop_last()), r.0, r.1)
    }
}

/// However the target answers, the transfer loses and repeats no item: the
/// completed items followed by the waiting ones are always the checkpoint's
/// items, so each item is completed at most once and in the order taken.
/// The task's counters always give the number and the total size of the
/// completed items. The local side records the checkpoint done only once
/// every item is completed, when the counters reach the whole checkpoint,
/// and a thread that stopped changes nothing more.
pub proof fn law_backup_completes_every_item_before_done(
    items: Seq<BackupChunkItem>,
    rounds: Seq<(WriterOutcome, RemoteBackupCheckPointItemStatus)>,
)
    ensures
        spec_transfer_run(items, rounds).completed + spec_transfer_run(items, rounds).waiting
            == items,
        spec_transfer_run(items, rounds).completed_item_count == spec_transfer_run(
            items,
            rounds,
        ).completed.len(),
        spec_transfer_run(items, rounds).completed_size == spec_items_total_size(
            spec_transfer_run(items, rounds).completed,
        ),
        spec_transfer_run(items, rounds).done ==> spec_transfer_run(items, rounds).completed
            == items && spec_transfer_run(items, rounds).completed_item_count == items.len()
            && spec_transfer_run(items, rounds).completed_size == spec_items_total_size(items),
        !(spec_transfer_run(items, rounds).done && spec_transfer_run(items, rounds).aborted),
        forall|o: WriterOutcome, st: RemoteBackupCheckPointItemStatus|
            (spec_transfer_run(items, rounds).done || spec_transfer_run(items, rounds).aborted)
                ==> #[trigger] spec_transfer_round(spec_transfer_run(items, rounds), o, st)
                == spec_transfer_run(items, rounds),
    decreases rounds.len(),
{
    if rounds.len() > 0 {
        law_backup_completes_every_item_before_done(items, rounds.drop_last());
        let p = spec_transfer_run(items, rounds.drop_last());
        if p.waiting.len() > 0 {
            assert(p.completed.push(p.waiting[0]) + p.waiting.drop_first() =~= p.completed
                + p.waiting);
            assert(p.completed.push(p.waiting[0]).drop_last() =~= p.completed);
        } else {
            assert(p.completed + p.waiting =~= p.completed);
        }
    } else {
        assert(Seq::<BackupChunkItem>::empty() + items =~= items);
    }
}

/// The transfer of a checkpoint's items as a run keeps it (see
/// `TransferProgress`).
pub struct TransferRun {
    pub completed: Vec<BackupChunkItem>,
    pub waiting: Vec<BackupChunkItem>,
    pub completed_item_count: u64,
    pub completed_size: u64,
    pub done: bool,
    pub aborted: bool,
}

impl TransferRun {
    /// Where the run stands.
    pub open spec fn progress(&self) -> TransferProgress {
        TransferProgress {
            completed: self.completed@,
            waiting: self.waiting@,
            completed_item_count: self.completed_item_count as nat,
            completed_size: self.completed_size as int,
            done: self.done,
            aborted: self.aborted,
        }
    }

    /// A run that has completed nothing yet, with `items` waiting in the
    /// order they are taken.
    pub fn start(items: Vec<BackupChunkItem>) -> (r: TransferRun)
        ensures
            r.progress() == spec_transfer_run(items@, Seq::empty()),
    {
        TransferRun {
            completed: Vec::new(),
            waiting: items,
            completed_item_count: 0,
            completed_size: 0,
            done: false,
            aborted: false,
        }
    }

    /// One round of the transfer loop (see `spec_transfer_round`): the
    /// first waiting item is completed, retried or stops the run by how the
    /// target's writer opened; with nothing waiting, the checkpoint is
    /// recorded done when the target cannot check it itself.
    pub fn round(&mut self, outcome: &WriterOutcome, items_status: &RemoteBackupCheckPointItemStatus)
        requires
            old(self).waiting@.len() > 0 ==> old(self).completed_item_count < u64::MAX
                && old(self).completed_size + old(self).waiting@[0].size <= u64::MAX,
        ensures
            final(self).progress() == spec_transfer_round(
                old(self).progress(),
                *outcome,
                *items_status,
            ),
    {
        if self.done || self.aborted {
            return;
        }
        if self.waiting.len() > 0 {
            match backup_item_step(outcome) {
                ItemStep::CopyThenComplete | ItemStep::Complete => {
                    let item = self.waiting.remove(0);
                    self.completed_item_count = self.completed_item_count + 1;
                    self.completed_size = self.completed_size + item.size;
                    self.completed.push(item);
                    assert(self.waiting@ =~= old(self).waiting@.drop_first());
                },
                ItemStep::Retry => {},
                ItemStep::Abort => {
                    self.aborted = true;
                },
            }
        } else {
            match backup_idle_step(items_status) {
                IdleStep::MarkDone => {
                    self.done = true;
                },
                IdleStep::Continue => {},
            }
        }
    }
}

/// Runs the transfer of `items` through the given rounds, each the writer
/// outcome for the first waiting item and what the target reports of the
/// checkpoint's items. The run is the model's: every law of
/// `law_backup_completes_every_item_before_done` holds of it.
pub fn run_transfer(
    items: Vec<BackupChunkItem>,
    rounds: &Vec<(WriterOutcome, RemoteBackupCheckPointItemStatus)>,
) -> (r: TransferRun)
    requires
        spec_items_total_size(items@) <= u64::MAX,
        items@.len() < u64::MAX,
    ensures
        r.progress() == spec_transfer_run(items@, rounds@),
{
    let ghost all = items@;
    let mut run = TransferRun::start(items);
    let mut i: usize = 0;
    while i < rounds.len()
        invariant
            i <= rounds@.len(),
            spec_items_total_size(all) <= u64::MAX,
            all.len() < u64::MAX,
            run.progress() == spec_transfer_run(all, rounds@.take(i as int)),
        decreases rounds.len() - i,
    {
        proof {
            law_backup_completes_every_item_before_done(all, rounds@.take(i as int));
            let p = run.progress();
            if p.waiting.len() > 0 {
                let next = p.completed.push(p.waiting[0]);
                assert(next =~= all.take(p.completed.len() + 1int));
                lemma_total_size_prefix_le(all, p.completed.len() + 1int);
                assert(next.drop_last() =~= p.completed);
            }
            assert(rounds@.take(i + 1).drop_last() =~= rounds@.take(i as int));
        }
        run.round(&rounds[i].0, &rounds[i].1);
        i = i + 1;
    }
    assert(rounds@.take(rounds@.len() as int) =~= rounds@);
    run
}

/// How a transfer thread ended.
pub enum WorkEnd {
    /// It stopped and reported the checkpoint in this state.
    Finished(CheckPointState),
    /// It failed with this error.
    Error(BuckyBackupError),
}

/// The task state a transfer thread leaves when it ends, if any.
/// `threads_before` is how many threads of the task were running just before
/// this one ended.
pub open spec fn spec_task_state_after_work(
    end: WorkEnd,
    task: TaskStateView,
    threads_before: u32,
) -> Option<TaskStateView> {
    match end {
        WorkEnd::Finished(s) => if s@ is Done {
            Some(TaskStateView::Done)
        } else if !(task is Pausing) {
            Some(TaskStateView::Failed("Run failed and will retry later."@))
        } else if threads_before == 1 {
            Some(TaskStateView::Paused)
        } else {
            None
        },
        WorkEnd::Error(e) => if !(task is Pausing) {
            Some(TaskStateView::Failed("Work failed with "@ + spec_error_message(e)))
        } else if threads_before == 1 {
            Some(TaskStateView::Paused)
        } else {
            None
        },
    }
}

/// The task state a transfer thread leaves when it ends.
pub fn task_state_after_work(end: &WorkEnd, task: &TaskState, threads_before: u32) -> (r: Option<
    TaskState,
>)
    ensures
        match (r, spec_task_state_after_work(*end, task@, threads_before)) {
            (Some(x), Some(y)) => x@ == y,
            (None, None) => true,
            _ => false,
        },
{
    let pausing = match task {
        TaskState::Pausing => true,
        _ => false,
    };
    match end {
        WorkEnd::Finished(s) => {
            let done = match s {
                CheckPointState::Done => true,
                _ => false,
            };
            if done {
                Some(TaskState::Done)
            } else if !pausing {
                Some(TaskState::Failed(String::from_str("Run failed and will retry later.")))
            } else if threads_before == 1 {
                Some(TaskState::Paused)
            } else {
                None
            }
        },
        WorkEnd::Error(e) => {
            if !pausing {
                let msg = e.to_message();
                Some(TaskState::Failed(prefixed("Work failed with ", msg.as_str())))
            } else if threads_before == 1 {
                Some(TaskState::Paused)
            } else {
                None
            }
        },
    }
}

/// The task state the item-list preparing thread leaves when it fails, if
/// any.
pub open spec fn spec_task_state_after_prepare_error(
    e: BuckyBackupError,
    task: TaskStateView,
    threads_before: u32,
) -> Option<TaskStateView> {
    if task is Running {
        Some(TaskStateView::Failed("Prepare source failed: "@ + spec_error_message(e)))
    } else if task is Pausing && threads_before == 1 {
        Some(TaskStateView::Paused)
    } else {
        None
    }
}

/// The task state the item-list preparing thread leaves when it fails.
pub fn task_state_after_prepare_error(
    e: &BuckyBackupError,
    task: &TaskState,
    threads_before: u32,
) -> (r: Option<TaskState>)
    ensures
        match (r, spec_task_state_after_prepare_error(*e, task@, threads_before)) {
            (Some(x), Some(y)) => x@ == y,
            (None, None) => true,
            _ => false,
        },
{
    match task {
        TaskState::Running => {
            let msg = e.to_message();
            Some(TaskState::Failed(prefixed("Prepare source failed: ", msg.as_str())))
        },
        TaskState::Pausing => {
            if threads_before == 1 {
                Some(TaskState::Paused)
            } else {
                None
            }
        },
        _ => None,
    }
}

/// When both threads of a task end while it is pausing, the task ends
/// paused; a run that reached a done checkpoint always ends done.
pub proof fn law_pausing_task_ends_paused(s: CheckPointState, e: BuckyBackupError)
    ensures
        !(s@ is Done) ==> spec_task_state_after_work(WorkEnd::Finished(s), TaskStateView::Pausing, 1)
            == Some(TaskStateView::Paused),
        spec_task_state_after_work(WorkEnd::Error(e), TaskStateView::Pausing, 1) == Some(
            TaskStateView::Paused,
        ),
        spec_task_state_after_prepare_error(e, TaskStateView::Pausing, 1) == Some(
            TaskStateView::Paused,
        ),
        forall|t: TaskStateView, n: u32|
            s@ is Done ==> spec_task_state_after_work(WorkEnd::Finished(s), t, n) == Some(
                TaskStateView::Done,
            ),
{
}

/// A transfer thread never leaves its task done unless it reported the
/// checkpoint done. A thread that stopped with the checkpoint in any other
/// state, or with an error, leaves a task that is not pausing failed: with
/// "Run failed and will retry later." in the first case and with the error's
/// message after "Work failed with " in the second. A thread that reported
/// the checkpoint done leaves the task done, whatever its state. A task
/// that is pausing is left paused by its last thread and untouched by the
/// others.
pub proof fn law_unfinished_run_is_never_done(
    end: WorkEnd,
    task: TaskStateView,
    threads_before: u32,
)
    ensures
        spec_task_state_after_work(end, task, threads_before) == Some(TaskStateView::Done)
            ==> (end matches WorkEnd::Finished(s) && s@ is Done),
        end matches WorkEnd::Finished(s) && !(s@ is Done) && !(task is Pausing) ==> spec_task_state_after_work(
            end,
            task,
            threads_before,
        ) == Some(TaskStateView::Failed("Run failed and will retry later."@)),
        match end {
            WorkEnd::Error(e) => !(task is Pausing) ==> spec_task_state_after_work(
                end,
                task,
                threads_before,
            ) == Some(TaskStateView::Failed("Work failed with "@ + spec_error_message(e))),
            _ => true,
        },
        end matches WorkEnd::Finished(s) && s@ is Done ==> spec_task_state_after_work(
            end,
            task,
            threads_before,
        ) == Some(TaskStateView::Done),
        !(end matches WorkEnd::Finished(s) && s@ is Done) && task is Pausing ==> spec_task_state_after_work(
            end,
            task,
            threads_before,
        ) == (if threads_before == 1 {
            Some(TaskStateView::Paused)
        } else {
            None::<TaskStateView>
        }),
{
}

} // verus!
