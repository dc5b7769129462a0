use buckyos_backup::backup_flow::{
    backup_idle_step, backup_item_step, backup_local_step, backup_remote_step,
    task_state_after_prepare_error, IdleStep, ItemStep, LocalStep, RemoteStep, WriterOutcome,
};
use buckyos_backup::def::{
    BackupChunkItem, BackupItemState, BuckyBackupError, CheckPointState,
    RemoteBackupCheckPointItemStatus,
};
use buckyos_backup::fs_monitor::{is_relevant_event, EventKindClass, WatchEntry, WatchSet};
use buckyos_backup::local_provider::{restore_write_step, RestoreWriteStep};
use buckyos_backup::backup_flow::run_transfer;
use buckyos_backup::restore_flow::run_restore_file;
use buckyos_backup::json::{JsonNumber, JsonValue};
use buckyos_backup::policy::{
    latest_occurrence, latest_period_due_time, parse_plan_policies, plan_wants_auto_start,
    policies_contain_event, should_auto_start, timestamp_to_millis, LocalNow, PlanPolicyPeriod,
    PlanPolicyRule, MIN_YEAR,
};
use buckyos_backup::restore_flow::{
    flush_action, restore_load_limit, restore_result, FlushAction, FlushOutcome,
    RestoreFlushBuffers,
};
use buckyos_backup::rpc_params::{apply_target_update, task_list_query_from_params, RpcError};
use buckyos_backup::task_flow::{
    backup_start_error_state, check_plan_type, check_resume_backup, check_resume_restore,
    is_stopping, pause_state, remove_steps, resume_gate, ResumeGate,
};
use buckyos_backup::task_model::{
    BackupDbError, BackupSource, BackupTargetRecord, TaskState, TaskType,
};

fn failed(e: BuckyBackupError) -> String {
    match e {
        BuckyBackupError::Failed(m) => m,
        _ => panic!("unexpected error kind"),
    }
}

fn obj(members: Vec<(&str, JsonValue)>) -> JsonValue {
    JsonValue::Object(members.into_iter().map(|(k, v)| (k.to_string(), v)).collect())
}

fn num(n: u64) -> JsonValue {
    JsonValue::Number(JsonNumber::PosInt(n))
}

fn item(offset: u64, size: u64) -> BackupChunkItem {
    BackupChunkItem {
        item_id: format!("f/{}:{}", offset, offset + size),
        chunk_id: format!("chunk{}", offset),
        local_chunk_id: None,
        state: BackupItemState::New,
        size,
        last_update_time: 0,
        offset,
    }
}

#[test]
fn backup_loop_steps() {
    assert!(matches!(backup_local_step(&CheckPointState::Done, &TaskState::Running), LocalStep::Exit(CheckPointState::Done)));
    assert!(matches!(backup_local_step(&CheckPointState::Working, &TaskState::Pausing), LocalStep::Exit(CheckPointState::Working)));
    assert!(matches!(backup_local_step(&CheckPointState::New, &TaskState::Running), LocalStep::WaitPrepare));
    assert!(matches!(backup_local_step(&CheckPointState::Prepared, &TaskState::Running), LocalStep::QueryRemote));
    assert!(matches!(backup_remote_step(&CheckPointState::New), RemoteStep::Allocate));
    assert!(matches!(backup_remote_step(&CheckPointState::Prepared), RemoteStep::ExitInconsistent));
    assert!(matches!(backup_remote_step(&CheckPointState::Done), RemoteStep::MarkDone));
    assert!(matches!(backup_remote_step(&CheckPointState::Failed("x".to_string())), RemoteStep::MarkFailed(ref m) if m == "x"));
    assert!(matches!(backup_remote_step(&CheckPointState::WaitTrans), RemoteStep::WaitRemote));
    assert!(matches!(backup_remote_step(&CheckPointState::Working), RemoteStep::TransferNext));
    assert!(matches!(backup_item_step(&WriterOutcome::Opened), ItemStep::CopyThenComplete));
    assert!(matches!(backup_item_step(&WriterOutcome::TryLater), ItemStep::Retry));
    assert!(matches!(backup_item_step(&WriterOutcome::AlreadyDone), ItemStep::Complete));
    assert!(matches!(backup_item_step(&WriterOutcome::Failed), ItemStep::Abort));
    assert!(matches!(backup_idle_step(&RemoteBackupCheckPointItemStatus::NotSupport), IdleStep::MarkDone));
    assert!(matches!(backup_idle_step(&RemoteBackupCheckPointItemStatus::WaitItemList), IdleStep::Continue));
}

#[test]
fn prepare_error_leaves_failed_or_paused() {
    let e = BuckyBackupError::NotFound("dir".to_string());
    assert!(matches!(
        task_state_after_prepare_error(&e, &TaskState::Running, 2),
        Some(TaskState::Failed(ref m)) if m == "Prepare source failed: NotFound: dir"
    ));
    assert!(matches!(task_state_after_prepare_error(&e, &TaskState::Pausing, 1), Some(TaskState::Paused)));
    assert!(task_state_after_prepare_error(&e, &TaskState::Pausing, 2).is_none());
    assert!(task_state_after_prepare_error(&e, &TaskState::Done, 1).is_none());
}

#[test]
fn task_lifecycle_decisions() {
    assert!(matches!(resume_gate(5, 5, &TaskState::Paused), ResumeGate::Defer { becomes_pending: true }));
    assert!(matches!(resume_gate(5, 7, &TaskState::Running), ResumeGate::Defer { becomes_pending: false }));
    assert!(matches!(resume_gate(5, 4, &TaskState::Paused), ResumeGate::Proceed));
    assert!(matches!(resume_gate(0, 100, &TaskState::Paused), ResumeGate::Proceed));
    assert_eq!(failed(check_resume_restore(&TaskType::Backup, &TaskState::Paused).err().unwrap()), "try resume a BackupTask as Restore");
    assert_eq!(failed(check_resume_restore(&TaskType::Restore, &TaskState::Running).err().unwrap()), "restore task is running");
    assert!(check_resume_restore(&TaskType::Restore, &TaskState::Failed("x".to_string())).is_ok());
    assert_eq!(failed(check_resume_backup(&TaskType::Restore, &TaskState::Paused).err().unwrap()), "try resume a RestoreTask as Backup");
    assert_eq!(failed(check_resume_backup(&TaskType::Backup, &TaskState::Done).err().unwrap()), "task is not paused");
    assert!(check_resume_backup(&TaskType::Backup, &TaskState::Paused).is_ok());
    assert!(matches!(pause_state(&TaskState::Pending), Ok(TaskState::Pausing)));
    assert_eq!(failed(pause_state(&TaskState::Paused).err().unwrap()), "task is not running");
    let r = remove_steps(&TaskState::Running);
    assert!(r.pause_first && r.wait_stop);
    let r = remove_steps(&TaskState::Pausing);
    assert!(!r.pause_first && r.wait_stop);
    let r = remove_steps(&TaskState::Done);
    assert!(!r.pause_first && !r.wait_stop);
    assert!(is_stopping(&TaskState::Pending) && !is_stopping(&TaskState::Paused));
    let e = BuckyBackupError::Failed("no source".to_string());
    assert!(matches!(
        backup_start_error_state(&e, &TaskState::Running),
        Some(TaskState::Failed(ref m)) if m == "Prepare source failed: Failed: no source"
    ));
    assert!(matches!(backup_start_error_state(&e, &TaskState::Pausing), Some(TaskState::Paused)));
    assert!(backup_start_error_state(&e, &TaskState::Paused).is_none());
    assert!(check_plan_type("c2c").is_ok());
    assert_eq!(failed(check_plan_type("d2d").err().unwrap()), "unknown plan type: d2d");
}

#[test]
fn restore_chunks_flush_in_offset_order() {
    let path = "/restore/f".to_string();
    let mut b = RestoreFlushBuffers::new();
    assert!(!b.should_buffer(&path, 10));
    b.register_wait(path.clone(), item(20, 10));
    b.register_wait(path.clone(), item(10, 10));
    assert!(b.has_wait(&path, 20) && b.has_wait(&path, 10));
    assert!(b.should_buffer(&path, 30));
    assert!(!b.should_buffer(&path, 10));
    // the lowest chunk has no bytes yet: nothing to flush
    assert!(b.take_first(&path).is_none());
    b.set_buffer(&path, 20, vec![2; 10]);
    assert!(b.take_first(&path).is_none());
    b.set_buffer(&path, 10, vec![1; 10]);
    let (first, data) = b.take_first(&path).unwrap();
    assert_eq!((first.offset, data), (10, vec![1; 10]));
    b.finish_flush(&path, 10, 20);
    assert!(!b.has_wait(&path, 10));
    let (second, data) = b.take_first(&path).unwrap();
    assert_eq!((second.offset, data.len()), (20, 10));
    // the write is refused for now: the bytes go back
    b.retry_flush(&path, 20, 20, data);
    let (again, data) = b.take_first(&path).unwrap();
    assert_eq!((again.offset, data), (20, vec![2; 10]));
    b.finish_flush(&path, 20, 30);
    assert!(!b.has_wait(&path, 20));
    assert!(!b.should_buffer(&path, 40));
}

#[test]
fn restore_run_decisions() {
    assert!(matches!(flush_action(&FlushOutcome::Written), FlushAction::Done { counted: true }));
    assert!(matches!(flush_action(&FlushOutcome::AlreadyDone), FlushAction::Done { counted: false }));
    assert!(matches!(flush_action(&FlushOutcome::TryLater), FlushAction::Retry));
    assert!(matches!(flush_action(&FlushOutcome::Failed), FlushAction::Fail));
    assert_eq!(restore_load_limit(false, 0, &TaskState::Running), Some(16));
    assert_eq!(restore_load_limit(false, 12, &TaskState::Running), Some(4));
    assert_eq!(restore_load_limit(false, 13, &TaskState::Running), None);
    assert_eq!(restore_load_limit(true, 0, &TaskState::Running), None);
    assert_eq!(restore_load_limit(false, 0, &TaskState::Pausing), None);
    assert!(matches!(restore_result(true, None, None), Ok(true)));
    assert!(matches!(restore_result(false, None, None), Ok(false)));
    assert_eq!(
        failed(restore_result(false, None, Some(BackupDbError::DatabaseError("locked".to_string()))).err().unwrap()),
        "Read items failed database error: locked"
    );
    assert!(matches!(
        restore_result(true, Some(BuckyBackupError::TryLater("x".to_string())), None),
        Err(BuckyBackupError::TryLater(_))
    ));
}

#[test]
fn policies_read_and_decide() {
    let policy = JsonValue::Array(vec![
        obj(vec![("minutes", num(90)), ("week", num(2))]),
        obj(vec![("update_delay", num(30))]),
        JsonValue::Array(vec![num(2000)]),
        obj(vec![("update_delay", num(0))]),
    ]);
    let rules = parse_plan_policies(&policy);
    assert_eq!(rules.len(), 2);
    assert!(matches!(&rules[0], PlanPolicyRule::Period(p) if p.minutes == 90 && p.week == Some(2) && p.date.is_none()));
    assert!(matches!(&rules[1], PlanPolicyRule::Event(e) if e.update_delay == 30));
    assert!(policies_contain_event(&rules));
    let bad = JsonValue::Array(vec![obj(vec![("minutes", num(5))]), JsonValue::Bool(true)]);
    assert!(parse_plan_policies(&bad).is_empty());
    assert!(!policies_contain_event(&parse_plan_policies(&JsonValue::Null)));

    // a periodic time that came after the last task and after the plan was made
    assert!(should_auto_start(Some(1000), 2000, Some(500), 100, &vec![], None, None));
    assert!(!should_auto_start(Some(1000), 2000, Some(1000), 100, &vec![], None, None));
    assert!(!should_auto_start(Some(3000), 2000, None, 100, &vec![], None, None));
    assert!(!should_auto_start(Some(1000), 2000, None, 1500, &vec![], None, None));
    assert!(!should_auto_start(None, 2000, None, 100, &vec![], None, None));

    assert!(plan_wants_auto_start(false, &policy, false));
    assert!(!plan_wants_auto_start(true, &policy, false));
    assert!(!plan_wants_auto_start(false, &policy, true));
    assert!(!plan_wants_auto_start(false, &JsonValue::Array(vec![]), false));
}

#[test]
fn task_list_query_reads_paging_and_filter() {
    let q = task_list_query_from_params(&obj(vec![
        ("offset", num(20)),
        ("limit", num(10)),
        ("filter", obj(vec![("owner_plan_title", JsonValue::Array(vec![JsonValue::String("Photos".to_string())]))])),
    ]))
    .ok()
    .unwrap();
    assert_eq!(q.offset, 20);
    assert_eq!(q.limit, Some(10));
    assert_eq!(q.owner_plan_titles, vec!["photos".to_string()]);
    let e = task_list_query_from_params(&obj(vec![("offset", JsonValue::String("x".to_string()))]))
        .err()
        .unwrap();
    assert!(matches!(e, RpcError::ParseRequestError(ref m) if m == "offset must be a non-negative integer"));
    let e = task_list_query_from_params(&obj(vec![("filter", JsonValue::Bool(true))])).err().unwrap();
    assert!(matches!(e, RpcError::ParseRequestError(ref m) if m == "filter must be a string or object"));
}

#[test]
fn target_update_replaces_given_fields() {
    let record = BackupTargetRecord::new("t1".to_string(), "file", "/b", "old", None, None);
    let n = apply_target_update(
        record,
        obj(vec![("name", JsonValue::String("new".to_string())), ("used", JsonValue::String("42".to_string())), ("url", JsonValue::Null)]),
    )
    .ok()
    .unwrap();
    assert_eq!(n.name, "new");
    assert_eq!(n.used, 42);
    assert_eq!(n.url, "/b");
    assert_eq!(n.target_id, "t1");
    let record = BackupTargetRecord::new("t1".to_string(), "file", "/b", "old", None, None);
    let e = apply_target_update(record, obj(vec![("url", num(3))])).err().unwrap();
    assert!(matches!(e, RpcError::ParseRequestError(ref m) if m == "url must be a string"));
}

#[test]
fn watch_set_change_events() {
    assert!(is_relevant_event(&EventKindClass::Create));
    assert!(is_relevant_event(&EventKindClass::Modify));
    assert!(is_relevant_event(&EventKindClass::Remove));
    assert!(!is_relevant_event(&EventKindClass::Access));
    assert!(!is_relevant_event(&EventKindClass::Any));
    let mut set = WatchSet::new();
    set.insert(WatchEntry::new("/data".to_string(), true));
    set.insert(WatchEntry::new("/etc/app.conf".to_string(), false));
    set.apply_change("/data/sub/file.txt", 77);
    assert_eq!(set.get_last_update_time("/data"), Some(77));
    assert_eq!(set.get_last_update_time("/etc/app.conf"), Some(0));
    set.apply_change("/etc/app.conf", 88);
    assert_eq!(set.get_last_update_time("/etc/app.conf"), Some(88));
    assert_eq!(set.get_last_update_time("/data"), Some(77));
}

#[test]
fn source_kinds_and_db_errors() {
    assert_eq!(BackupSource::Directory("/d".to_string()).type_text(), "directory");
    assert_eq!(BackupSource::ChunkList("file:///d".to_string()).type_text(), "chunklist");
    assert!(matches!(
        BackupDbError::InvalidCheckpointId("c9".to_string()).into_backup_error(),
        BuckyBackupError::Failed(ref m) if m == "invalid checkpoint id: c9"
    ));
    assert!(matches!(
        BackupDbError::NotFound("t".to_string()).into_backup_error(),
        BuckyBackupError::NotFound(ref m) if m == "t"
    ));
    assert!(matches!(TaskState::Pending.persisted_state(), TaskState::Running));
    assert!(matches!(TaskState::Pausing.persisted_state(), TaskState::Paused));
    assert!(matches!(TaskState::Done.persisted_state(), TaskState::Done));
}

#[test]
fn occurrences_before_the_calendar_start_are_none() {
    let first_day = LocalNow { year: MIN_YEAR, month: 1, day: 1, weekday: 0, hour: 1, minute: 0, second: 0 };
    // today's time already passed: it stands
    let today = latest_occurrence(&PlanPolicyPeriod { minutes: 30, week: None, date: None }, &first_day).unwrap();
    assert_eq!((today.year, today.month, today.day, today.hour, today.minute), (MIN_YEAR, 1, 1, 0, 30));
    // yesterday would be before the first day
    assert!(latest_occurrence(&PlanPolicyPeriod { minutes: 120, week: None, date: None }, &first_day).is_none());
    assert!(latest_occurrence(&PlanPolicyPeriod { minutes: 120, week: Some(3), date: None }, &first_day).is_none());
    assert!(latest_occurrence(&PlanPolicyPeriod { minutes: 120, week: None, date: Some(1) }, &first_day).is_none());
    // a week rule falls on last week's day when this week's is still to come
    let now = LocalNow { year: 2024, month: 3, day: 6, weekday: 2, hour: 8, minute: 0, second: 0 };
    let w = latest_occurrence(&PlanPolicyPeriod { minutes: 600, week: Some(3), date: None }, &now).unwrap();
    assert_eq!((w.year, w.month, w.day, w.hour), (2024, 2, 28, 10));
    let no_rules: Vec<PlanPolicyRule> = vec![];
    assert!(latest_period_due_time(&no_rules, &now).is_none());
    assert_eq!(timestamp_to_millis(-5), 0);
    assert_eq!(timestamp_to_millis(0), 0);
    assert_eq!(timestamp_to_millis(1700000000000), 1700000000000);
}

#[test]
fn restore_run_writes_each_item_once_in_offset_order() {
    let items = [item(0, 3), item(3, 5), item(8, 2)];
    let attempts = [2usize, 0, 2, 1, 0, 2, 1];
    let mut file_len: u64 = 0;
    let mut written = Vec::new();
    for &k in attempts.iter() {
        match restore_write_step(file_len, items[k].offset, items[k].size) {
            RestoreWriteStep::WriteAt => {
                file_len = items[k].offset + items[k].size;
                written.push(k);
            }
            RestoreWriteStep::TryLater | RestoreWriteStep::VerifyExisting => {}
        }
    }
    assert_eq!(written, vec![0, 1, 2]);
    assert_eq!(file_len, 10);
}

#[test]
fn backup_run_marks_done_only_after_every_item() {
    let items = ["a", "b", "c"];
    let outcomes = [
        WriterOutcome::TryLater,
        WriterOutcome::Opened,
        WriterOutcome::AlreadyDone,
        WriterOutcome::TryLater,
        WriterOutcome::Opened,
        WriterOutcome::Opened,
    ];
    let mut waiting: Vec<&str> = items.to_vec();
    let mut completed: Vec<&str> = Vec::new();
    let mut done = false;
    for o in outcomes.iter() {
        if waiting.is_empty() {
            if matches!(backup_idle_step(&RemoteBackupCheckPointItemStatus::NotSupport), IdleStep::MarkDone) {
                done = true;
                break;
            }
            continue;
        }
        match backup_item_step(o) {
            ItemStep::CopyThenComplete | ItemStep::Complete => completed.push(waiting.remove(0)),
            ItemStep::Retry => {}
            ItemStep::Abort => break,
        }
        assert!(!done);
    }
    assert_eq!(completed, items.to_vec());
    assert!(waiting.is_empty());
    assert!(done);
    assert!(matches!(
        backup_idle_step(&RemoteBackupCheckPointItemStatus::NotComplete(vec![String::from("a")])),
        IdleStep::Continue
    ));
}

#[test]
fn run_restore_file_writes_in_offset_order_whatever_the_arrival_order() {
    let items = vec![item(0, 3), item(3, 5), item(8, 2)];
    let (len, written) = run_restore_file(&items, &vec![2, 0, 2, 1, 0, 2, 1]);
    assert_eq!(written, vec![0, 1, 2]);
    assert_eq!(len, 10);
    let (len, written) = run_restore_file(&items, &vec![1, 2, 0]);
    assert_eq!(written, vec![0]);
    assert_eq!(len, 3);
    let (len, written) = run_restore_file(&items, &vec![]);
    assert!(written.is_empty());
    assert_eq!(len, 0);
}

#[test]
fn run_transfer_completes_items_in_order_and_counts_them() {
    let items = vec![item(0, 3), item(3, 5), item(8, 2)];
    let idle = RemoteBackupCheckPointItemStatus::NotSupport;
    let rounds = vec![
        (WriterOutcome::TryLater, RemoteBackupCheckPointItemStatus::NotSupport),
        (WriterOutcome::Opened, RemoteBackupCheckPointItemStatus::NotSupport),
        (WriterOutcome::AlreadyDone, RemoteBackupCheckPointItemStatus::NotSupport),
        (WriterOutcome::Opened, RemoteBackupCheckPointItemStatus::NotSupport),
        (WriterOutcome::Failed, idle),
        (WriterOutcome::Failed, RemoteBackupCheckPointItemStatus::NotSupport),
    ];
    let run = run_transfer(items, &rounds);
    let offsets: Vec<u64> = run.completed.iter().map(|i| i.offset).collect();
    assert_eq!(offsets, vec![0, 3, 8]);
    assert!(run.waiting.is_empty());
    assert_eq!(run.completed_item_count, 3);
    assert_eq!(run.completed_size, 10);
    assert!(run.done);
    assert!(!run.aborted);

    let stopped = run_transfer(
        vec![item(0, 3), item(3, 5)],
        &vec![
            (WriterOutcome::Opened, RemoteBackupCheckPointItemStatus::NotSupport),
            (WriterOutcome::Failed, RemoteBackupCheckPointItemStatus::NotSupport),
            (WriterOutcome::Opened, RemoteBackupCheckPointItemStatus::NotSupport),
        ],
    );
    assert_eq!(stopped.completed_item_count, 1);
    assert_eq!(stopped.waiting.len(), 1);
    assert!(stopped.aborted && !stopped.done);

    let waiting_on_target = run_transfer(
        vec![],
        &vec![(WriterOutcome::Opened, RemoteBackupCheckPointItemStatus::WaitItemList)],
    );
    assert!(!waiting_on_target.done);
}
