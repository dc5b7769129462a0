//! Questions the engine asks of the work tasks it holds: whether a plan
//! has a backup running or still unfinished, and whether a restore request
//! repeats one that is under way.

use vstd::prelude::*;
use crate::def::{BuckyBackupError, RestoreConfig};
use crate::task_model::{TaskState, TaskType, WorkTask};
use crate::task_query::{str_lowercase, to_lowercase};
use crate::text::{chars_of, chars_eq, spec_string_views};
use crate::url_text::{translate_local_path_from_url, spec_local_path_of};

verus! {

/// A backup task of the plan that is running or waiting to run.
pub open spec fn spec_is_running_backup_of(t: WorkTask, plan_id: Seq<char>) -> bool {
    &&& t.owner_plan_id@ == plan_id
    &&& t.task_type is Backup
    &&& (t.state@ is Running || t.state@ is Pending)
}

/// A backup task of the plan that is neither done nor being removed.
pub open spec fn spec_is_unfinished_backup_of(t: WorkTask, plan_id: Seq<char>) -> bool {
    &&& t.owner_plan_id@ == plan_id
    &&& t.task_type is Backup
    &&& !(t.state@ is Done)
    &&& !(t.state@ is Remove)
}

fn is_backup(t: &TaskType) -> (b: bool)
    ensures
        b == (*t is Backup),
{
    match t {
        TaskType::Backup => true,
        TaskType::Restore => false,
    }
}

/// Whether some task is a running or pending backup of the plan.
pub fn plan_has_running_backup_task(tasks: &Vec<WorkTask>, plan_id: &str) -> (b: bool)
    ensures
        b == exists|i: int| 0 <= i < tasks@.len() && spec_is_running_backup_of(#[trigger] tasks@[i], plan_id@),
{
    let pid = chars_of(plan_id);
    let mut i: usize = 0;
    while i < tasks.len()
        invariant
            i <= tasks@.len(),
            pid@ == plan_id@,
            forall|k: int| 0 <= k < i ==> !spec_is_running_backup_of(#[trigger] tasks@[k], plan_id@),
        decreases tasks.len() - i,
    {
        let t = &tasks[i];
        let active = match t.state {
            TaskState::Running => true,
            TaskState::Pending => true,
            _ => false,
        };
        if active && is_backup(&t.task_type) && chars_eq(&chars_of(t.owner_plan_id.as_str()), &pid) {
            assert(spec_is_running_backup_of(tasks@[i as int], plan_id@));
            return true;
        }
        i = i + 1;
    }
    false
}

/// Whether the plan has an unfinished backup: one among the tasks held,
/// or else what the task database said (`stored`; a failed lookup counts
/// as no).
pub fn plan_has_runable_backup_task(tasks: &Vec<WorkTask>, plan_id: &str, stored: Option<bool>) -> (b: bool)
    ensures
        b == ((exists|i: int| 0 <= i < tasks@.len() && spec_is_unfinished_backup_of(#[trigger] tasks@[i], plan_id@))
            || stored == Some(true)),
{
    let pid = chars_of(plan_id);
    let mut i: usize = 0;
    while i < tasks.len()
        invariant
            i <= tasks@.len(),
            pid@ == plan_id@,
            forall|k: int| 0 <= k < i ==> !spec_is_unfinished_backup_of(#[trigger] tasks@[k], plan_id@),
        decreases tasks.len() - i,
    {
        let t = &tasks[i];
        let finished = match t.state {
            TaskState::Done => true,
            TaskState::Remove => true,
            _ => false,
        };
        if !finished && is_backup(&t.task_type) && chars_eq(&chars_of(t.owner_plan_id.as_str()), &pid) {
            assert(spec_is_unfinished_backup_of(tasks@[i as int], plan_id@));
            return true;
        }
        i = i + 1;
    }
    match stored {
        Some(b) => b,
        None => false,
    }
}

/// The local path of a restore location, as restores are compared: the
/// path behind the location in lower case, empty when the location cannot
/// be read.
pub open spec fn spec_restore_location_key(url: Seq<char>) -> Seq<char> {
    str_lowercase(
        match spec_local_path_of(url) {
            Ok(p) => p,
            Err(_) => Seq::empty(),
        },
    )
}

fn restore_location_key(url: &str) -> (r: Vec<char>)
    ensures
        r@ == spec_restore_location_key(url@),
{
    let path = match translate_local_path_from_url(url) {
        Ok(p) => p,
        Err(_) => String::new(),
    };
    chars_of(to_lowercase(path.as_str()).as_str())
}

/// A restore of the plan's checkpoint that is not done and writes to the
/// same place (a task without a restore configuration counts as the same
/// place).
pub open spec fn spec_is_same_restore(
    t: WorkTask,
    plan_id: Seq<char>,
    checkpoint_id: Seq<char>,
    location_key: Seq<char>,
) -> bool {
    &&& t.owner_plan_id@ == plan_id
    &&& t.task_type is Restore
    &&& !(t.state@ is Done)
    &&& t.checkpoint_id@ == checkpoint_id
    &&& match t.restore_config {
        None => true,
        Some(c) => spec_restore_location_key(c.restore_location_url@) == location_key,
    }
}

/// Whether a restore of the plan's checkpoint to the place `cfg` names is
/// already under way (see `spec_is_same_restore`).
pub fn is_restoring_task_dup(
    tasks: &Vec<WorkTask>,
    plan_id: &str,
    checkpoint_id: &str,
    cfg: &RestoreConfig,
) -> (b: bool)
    ensures
        b == exists|i: int|
            0 <= i < tasks@.len() && spec_is_same_restore(
                #[trigger] tasks@[i],
                plan_id@,
                checkpoint_id@,
                spec_restore_location_key(cfg.restore_location_url@),
            ),
{
    let key = restore_location_key(cfg.restore_location_url.as_str());
    let ghost gk = spec_restore_location_key(cfg.restore_location_url@);
    let pid = chars_of(plan_id);
    let cid = chars_of(checkpoint_id);
    let mut i: usize = 0;
    while i < tasks.len()
        invariant
            i <= tasks@.len(),
            pid@ == plan_id@,
            cid@ == checkpoint_id@,
            key@ == gk,
            gk == spec_restore_location_key(cfg.restore_location_url@),
            forall|k: int|
                0 <= k < i ==> !spec_is_same_restore(#[trigger] tasks@[k], plan_id@, checkpoint_id@, gk),
        decreases tasks.len() - i,
    {
        let t = &tasks[i];
        let done = match t.state {
            TaskState::Done => true,
            _ => false,
        };
        if !done && !is_backup(&t.task_type) && chars_eq(&chars_of(t.owner_plan_id.as_str()), &pid)
            && chars_eq(&chars_of(t.checkpoint_id.as_str()), &cid) {
            let same_place = match &t.restore_config {
                None => true,
                Some(c) => chars_eq(&restore_location_key(c.restore_location_url.as_str()), &key),
            };
            if same_place {
                assert(spec_is_same_restore(tasks@[i as int], plan_id@, checkpoint_id@, gk));
                return true;
            }
        }
        i = i + 1;
    }
    false
}

/// Whether a new backup task of the plan may be created: not while the
/// plan has an unfinished backup, and only for a known plan.
pub fn check_new_backup_task(plan_id: &str, has_unfinished: bool, plan_known: bool) -> (r: Result<
    (),
    BuckyBackupError,
>)
    ensures
        has_unfinished ==> (r matches Err(BuckyBackupError::Failed(m)) && m@ == "plan "@ + plan_id@
            + " already has a running backup task"@),
        !has_unfinished && !plan_known ==> (r matches Err(BuckyBackupError::NotFound(m)) && m@
            == "plan "@ + plan_id@ + " not found"@),
        !has_unfinished && plan_known ==> r is Ok,
{
    if has_unfinished {
        return Err(BuckyBackupError::Failed(framed("plan ", plan_id, " already has a running backup task")));
    }
    if !plan_known {
        return Err(BuckyBackupError::NotFound(framed("plan ", plan_id, " not found")));
    }
    Ok(())
}

/// No key occurs twice.
pub open spec fn spec_keys_distinct(keys: Seq<Seq<char>>) -> bool {
    forall|i: int, j: int| 0 <= i < j < keys.len() ==> keys[i] != keys[j]
}

/// Whether a plan with key `plan_key` may be created: not when a plan with
/// the same key (the same type, source and target) exists.
pub fn check_new_plan(existing_keys: &Vec<String>, plan_key: &str) -> (r: Result<(), BuckyBackupError>)
    ensures
        r is Err <==> spec_string_views(existing_keys@).contains(plan_key@),
        r matches Err(e) ==> e matches BuckyBackupError::Failed(m) && m@ == "plan already exists"@,
{
    let key = chars_of(plan_key);
    let mut i: usize = 0;
    while i < existing_keys.len()
        invariant
            i <= existing_keys@.len(),
            key@ == plan_key@,
            forall|k: int| 0 <= k < i ==> existing_keys@[k]@ != plan_key@,
        decreases existing_keys.len() - i,
    {
        if chars_eq(&chars_of(existing_keys[i].as_str()), &key) {
            assert(spec_string_views(existing_keys@)[i as int] == plan_key@);
            return Err(BuckyBackupError::Failed(String::from_str("plan already exists")));
        }
        i = i + 1;
    }
    proof {
        if spec_string_views(existing_keys@).contains(plan_key@) {
            let k = choose|k: int|
                0 <= k < spec_string_views(existing_keys@).len() && spec_string_views(
                    existing_keys@,
                )[k] == plan_key@;
            assert(existing_keys@[k]@ == plan_key@);
        }
    }
    Ok(())
}

/// Plans created only after `check_new_plan` allowed them never share a
/// key: one source and target give one plan.
pub proof fn law_plan_keys_stay_distinct(keys: Seq<Seq<char>>, plan_key: Seq<char>)
    requires
        spec_keys_distinct(keys),
        !keys.contains(plan_key),
    ensures
        spec_keys_distinct(keys.push(plan_key)),
{
    assert forall|i: int, j: int| 0 <= i < j < keys.push(plan_key).len() implies keys.push(
        plan_key,
    )[i] != keys.push(plan_key)[j] by {
        if j == keys.len() {
            assert(keys[i] == keys.push(plan_key)[i]);
        }
    }
}

/// Whether a restore of the plan may be created: not while the same
/// restore is under way (the refusal names the plan as a running task does).
pub fn check_new_restore_task(plan_id: &str, duplicate: bool) -> (r: Result<(), BuckyBackupError>)
    ensures
        duplicate ==> (r matches Err(BuckyBackupError::Failed(m)) && m@ == "plan "@ + plan_id@
            + " already has a running backup task"@),
        !duplicate ==> r is Ok,
{
    if duplicate {
        return Err(BuckyBackupError::Failed(framed("plan ", plan_id, " already has a running backup task")));
    }
    Ok(())
}

/// `head`, then `mid`, then `tail`.
fn framed(head: &str, mid: &str, tail: &str) -> (r: String)
    ensures
        r@ == head@ + mid@ + tail@,
{
    let mut s = String::from_str(head);
    s.append(mid);
    s.append(tail);
    s
}

/// The next step of the check that a checkpoint and all those it builds
/// on are complete.
pub enum CheckpointChainStep {
    /// The check ends with this answer.
    Complete(bool),
    /// Check this earlier checkpoint next.
    Follow(String),
}

/// The next step of the checkpoint-chain check, given whether the current
/// checkpoint is done and the one it builds on: an unfinished checkpoint
/// fails the check, a first checkpoint ends it, any other leads to the
/// earlier one.
pub fn checkpoint_chain_step(done: bool, prev_checkpoint_id: Option<String>) -> (r: CheckpointChainStep)
    ensures
        !done ==> r == CheckpointChainStep::Complete(false),
        done && prev_checkpoint_id is None ==> r == CheckpointChainStep::Complete(true),
        done && prev_checkpoint_id is Some ==> r == CheckpointChainStep::Follow(prev_checkpoint_id->0),
{
    if !done {
        return CheckpointChainStep::Complete(false);
    }
    match prev_checkpoint_id {
        None => CheckpointChainStep::Complete(true),
        Some(p) => CheckpointChainStep::Follow(p),
    }
}

/// How many of the tasks are running.
pub open spec fn spec_running_count(tasks: Seq<WorkTask>) -> nat
    decreases tasks.len(),
{
    if tasks.len() == 0 {
        0
    } else {
        spec_running_count(tasks.drop_last()) + if tasks.last().state@ is Running {
            1nat
        } else {
            0nat
        }
    }
}

proof fn lemma_running_count_bound(tasks: Seq<WorkTask>)
    ensures
        spec_running_count(tasks) <= tasks.len(),
    decreases tasks.len(),
{
    if tasks.len() > 0 {
        lemma_running_count_bound(tasks.drop_last());
    }
}

/// How many of the tasks are running (see `spec_running_count`).
pub fn count_running_tasks(tasks: &Vec<WorkTask>) -> (n: u64)
    ensures
        n == spec_running_count(tasks@),
{
    let mut n: u64 = 0;
    let mut i: usize = 0;
    assert(tasks@.take(0) =~= Seq::<WorkTask>::empty());
    while i < tasks.len()
        invariant
            i <= tasks@.len(),
            tasks@.len() == tasks.len(),
            n == spec_running_count(tasks@.take(i as int)),
        decreases tasks.len() - i,
    {
        proof {
            assert(tasks@.take(i + 1).drop_last() =~= tasks@.take(i as int));
            lemma_running_count_bound(tasks@.take(i as int));
        }
        match tasks[i].state {
            TaskState::Running => {
                n = n + 1;
            },
            _ => {},
        }
        i = i + 1;
    }
    assert(tasks@.take(tasks@.len() as int) =~= tasks@);
    n
}

} // verus!
