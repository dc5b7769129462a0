use buckyos_backup::backup_flow::{task_state_after_work, WorkEnd};
use buckyos_backup::def::{BackupItemState, BuckyBackupError, CheckPointState};
use buckyos_backup::fs_monitor::{matches_watch, system_time_to_millis, SystemTimeParts, WatchEntry, WatchSet};
use buckyos_backup::json::JsonValue;
use buckyos_backup::path_helper::ChunkInnerPathHelper;
use buckyos_backup::policy::{last_day_of_month, latest_occurrence, policy_weekday, LocalNow, PlanPolicyPeriod};
use buckyos_backup::rpc_params::parse_u64_text;
use buckyos_backup::snapshot_text::{
    ensure_trailing_separator, infer_snapshot_root, metadata_path_for_root, normalize_drive_path,
    sanitize_component, unescape_findmnt_value,
};
use buckyos_backup::task_flow::{should_schedule, task_concurrency_limit, restore_end_state};
use buckyos_backup::task_model::{
    SortOrder, TaskOrderField, TaskState, TaskType, WorkTask,
};
use buckyos_backup::task_query::{build_task_query, SqlParam, TaskListQuery};

#[test]
fn item_state_text_round_trip() {
    for s in [BackupItemState::New, BackupItemState::Done] {
        let t = s.to_sql_text();
        let back = BackupItemState::from_sql_text(&t);
        assert_eq!(back.to_sql_text(), t);
    }
    let f = BackupItemState::Failed(String::from("disk"));
    assert_eq!(f.to_sql_text(), "FAILED:disk");
    assert!(matches!(BackupItemState::from_sql_text("FAILED:disk"), BackupItemState::Failed(ref m) if m == "FAILED:disk"));
    assert!(matches!(BackupItemState::from_sql_text("junk"), BackupItemState::New));
}

#[test]
fn checkpoint_state_text_round_trip() {
    assert_eq!(CheckPointState::WaitTrans.to_sql_text(), "WAIT_TRANS");
    assert!(matches!(CheckPointState::from_sql_text("WORKING"), CheckPointState::Working));
    assert!(matches!(CheckPointState::from_sql_text("odd"), CheckPointState::Failed(ref m) if m == "odd"));
    assert!(CheckPointState::Prepared.need_working());
    assert!(!CheckPointState::Done.need_working());
}

#[test]
fn task_state_text_round_trip() {
    let f = TaskState::Failed(String::from("x:y"));
    assert_eq!(f.to_string(), "FAILED:x:y");
    assert!(matches!(TaskState::from_sql_text("FAILED:x:y"), TaskState::Failed(ref m) if m == "x:y"));
    assert!(matches!(TaskState::from_sql_text("PAUSED"), TaskState::Paused));
    assert_eq!(TaskType::Restore.to_string(), "RESTORE");
}

#[test]
fn new_task_is_paused_with_prefixed_id() {
    let t = WorkTask::new("plan", "chk", TaskType::Backup);
    assert!(t.taskid.starts_with("task_"));
    assert_eq!(t.taskid.len(), 41);
    assert!(matches!(t.state, TaskState::Paused));
    assert_eq!(t.owner_plan_id, "plan");
}

#[test]
fn chunk_paths_are_normalised() {
    assert_eq!(ChunkInnerPathHelper::normalize_virtual_path("a\\.\\b//c/"), "a/b/c");
    assert_eq!(ChunkInnerPathHelper::strip_chunk_suffix("dir/file/0:1048576"), "dir/file");
    assert_eq!(ChunkInnerPathHelper::strip_chunk_suffix("/dir/file/"), "dir/file");
    assert_eq!(ChunkInnerPathHelper::strip_chunk_suffix("10-20:30"), "");
    assert!(ChunkInnerPathHelper::is_chunk_suffix("0:100"));
    assert!(!ChunkInnerPathHelper::is_chunk_suffix("0100"));
}

#[test]
fn snapshot_names_and_paths() {
    assert_eq!(sanitize_component("plan-1/ä"), "plan_1__");
    assert_eq!(metadata_path_for_root("/snap/root.d"), "/snap/root.meta");
    assert_eq!(metadata_path_for_root("/snap/root"), "/snap/root.meta");
    assert_eq!(unescape_findmnt_value("\"/mnt/my\\040disk\""), "/mnt/my disk");
    assert_eq!(infer_snapshot_root("/ws/abc/d/e", "/ws"), Some(String::from("/ws/abc")));
    assert_eq!(infer_snapshot_root("/ws", "/ws"), None);
    assert_eq!(infer_snapshot_root("/other/x", "/ws"), None);
    assert_eq!(normalize_drive_path("\\\\?\\C:\\data"), "C:\\data");
    assert_eq!(ensure_trailing_separator("C:"), "C:\\");
    assert_eq!(ensure_trailing_separator("C:\\"), "C:\\");
}

#[test]
fn concurrency_limit_reads_positive_numbers() {
    assert_eq!(task_concurrency_limit(None), 5);
    assert_eq!(task_concurrency_limit(Some(" 3 ")), 3);
    assert_eq!(task_concurrency_limit(Some("0")), 5);
    assert_eq!(task_concurrency_limit(Some("x")), 5);
}

#[test]
fn failed_tasks_wait_for_cooldown() {
    let f = TaskState::Failed(String::from("e"));
    assert!(!should_schedule(&f, 1000, 900));
    assert!(should_schedule(&f, 400_000, 100_000));
    assert!(should_schedule(&TaskState::Pending, 0, 10));
    assert!(!should_schedule(&TaskState::Running, 0, 10));
}

#[test]
fn pausing_task_ends_paused_when_last_thread_stops() {
    let r = task_state_after_work(&WorkEnd::Error(BuckyBackupError::Failed(String::from("io"))), &TaskState::Pausing, 1);
    assert!(matches!(r, Some(TaskState::Paused)));
    let r = task_state_after_work(&WorkEnd::Error(BuckyBackupError::Failed(String::from("io"))), &TaskState::Pausing, 2);
    assert!(r.is_none());
    let r = task_state_after_work(&WorkEnd::Finished(CheckPointState::Done), &TaskState::Pausing, 2);
    assert!(matches!(r, Some(TaskState::Done)));
    let r = task_state_after_work(&WorkEnd::Error(BuckyBackupError::Failed(String::from("io"))), &TaskState::Running, 1);
    assert!(matches!(r, Some(TaskState::Failed(ref m)) if m == "Work failed with Failed: io"));
}

#[test]
fn restore_end_state_reads_back() {
    assert!(matches!(restore_end_state(Ok(true), &TaskState::Running), TaskState::Done));
    assert!(matches!(restore_end_state(Ok(false), &TaskState::Running), TaskState::Paused));
}

#[test]
fn u64_text_parsing() {
    assert_eq!(parse_u64_text("+42"), Some(42));
    assert_eq!(parse_u64_text("18446744073709551615"), Some(u64::MAX));
    assert_eq!(parse_u64_text("18446744073709551616"), None);
    assert_eq!(parse_u64_text(""), None);
    assert_eq!(parse_u64_text("-1"), None);
}

#[test]
fn calendar_helpers() {
    assert_eq!(last_day_of_month(2024, 2), 29);
    assert_eq!(last_day_of_month(2023, 2), 28);
    assert_eq!(last_day_of_month(2023, 11), 30);
    assert_eq!(policy_weekday(0), Some(6));
    assert_eq!(policy_weekday(1), Some(0));
    assert_eq!(policy_weekday(8), None);
}

#[test]
fn daily_rule_falls_today_or_yesterday() {
    let now = LocalNow { year: 2024, month: 3, day: 1, weekday: 4, hour: 8, minute: 0, second: 0 };
    let later = latest_occurrence(&PlanPolicyPeriod { minutes: 9 * 60, week: None, date: None }, &now).unwrap();
    assert_eq!((later.year, later.month, later.day, later.hour, later.minute), (2024, 2, 29, 9, 0));
    let earlier = latest_occurrence(&PlanPolicyPeriod { minutes: 7 * 60 + 30, week: None, date: None }, &now).unwrap();
    assert_eq!((earlier.day, earlier.hour, earlier.minute), (1, 7, 30));
    assert!(latest_occurrence(&PlanPolicyPeriod { minutes: 1440, week: None, date: None }, &now).is_none());
}

#[test]
fn watch_entries_by_path() {
    let mut set = WatchSet::new();
    set.insert(WatchEntry::new(String::from("/data"), true));
    assert!(set.contains("/data/"));
    assert!(matches_watch("/data", true, "/data/a/b"));
    assert!(!matches_watch("/data", false, "/data/a"));
    assert!(matches_watch("/data/f", false, "/data/./f"));
    assert_eq!(set.get_last_update_time("/data"), Some(0));
    assert!(set.remove("/data"));
    assert!(!set.contains("/data"));
}

#[test]
fn watch_entry_initial_time_is_set_once() {
    let mut e = WatchEntry::new(String::from("/x"), false);
    e.try_set_initial_update_time(5);
    e.try_set_initial_update_time(9);
    assert_eq!(e.last_update_time(), 5);
    e.set_last_update_time(11);
    assert_eq!(e.last_update_time(), 11);
}

#[test]
fn system_time_before_epoch_has_no_millis() {
    assert_eq!(system_time_to_millis(SystemTimeParts { after_epoch: true, secs: 2, nanos: 5_000_000 }).ok(), Some(2005));
    assert!(system_time_to_millis(SystemTimeParts { after_epoch: false, secs: 2, nanos: 0 }).is_err());
}

fn text(p: &SqlParam) -> String {
    match p {
        SqlParam::Text(t) => t.clone(),
        SqlParam::Int(i) => format!("#{}", i),
    }
}

#[test]
fn task_query_builds_conditions_and_paging() {
    let q = TaskListQuery {
        legacy_filter: None,
        states: vec![],
        types: vec![TaskType::Backup],
        owner_plan_ids: vec![String::from("p1")],
        owner_plan_titles: vec![String::from("Photo")],
        order_by: vec![(TaskOrderField::CreateTime, SortOrder::Desc)],
        offset: 5,
        limit: Some(10),
    };
    let sql = build_task_query(&q).ok().unwrap();
    let from = " FROM work_tasks LEFT JOIN backup_plans ON backup_plans.plan_id = work_tasks.owner_plan_id";
    let wh = " WHERE work_tasks.task_type IN (?) AND work_tasks.owner_plan_id IN (?) AND (LOWER(backup_plans.title) LIKE ?)";
    assert_eq!(sql.count_sql, format!("SELECT COUNT(*){}{}", from, wh));
    assert_eq!(sql.select_sql, format!("SELECT work_tasks.taskid{}{} ORDER BY work_tasks.create_time DESC LIMIT ? OFFSET ?", from, wh));
    let p: Vec<String> = sql.select_params.iter().map(text).collect();
    assert_eq!(p, vec!["BACKUP", "p1", "%photo%", "#10", "#5"]);
    assert_eq!(sql.params.len(), 3);
}

#[test]
fn task_query_refuses_huge_limit() {
    let q = TaskListQuery {
        legacy_filter: None,
        states: vec![],
        types: vec![],
        owner_plan_ids: vec![],
        owner_plan_titles: vec![],
        order_by: vec![],
        offset: 0,
        limit: Some(usize::MAX),
    };
    assert!(build_task_query(&q).is_err());
}

#[test]
fn json_copy_keeps_content() {
    let v = JsonValue::Array(vec![JsonValue::Object(vec![(String::from("a"), JsonValue::Bool(true))])]);
    let c = v.copy();
    match c {
        JsonValue::Array(items) => match &items[0] {
            JsonValue::Object(m) => {
                assert_eq!(m[0].0, "a");
                assert!(matches!(m[0].1, JsonValue::Bool(true)));
            }
            _ => panic!("not an object"),
        },
        _ => panic!("not an array"),
    }
}

#[test]
fn normalised_paths_are_stable_and_keep_segment_order() {
    for raw in ["a\\.\\b//c/", "/x/./y/", "", "./.", "\\\\srv\\share\\f.txt", "one"] {
        let once = ChunkInnerPathHelper::normalize_virtual_path(raw);
        assert_eq!(ChunkInnerPathHelper::normalize_virtual_path(&once), once);
        assert!(!once.contains('\\'));
        assert!(!once.starts_with('/') && !once.ends_with('/'));
        assert!(!once.contains("//"));
    }
    assert_eq!(ChunkInnerPathHelper::normalize_virtual_path("\\\\srv\\share\\f.txt"), "srv/share/f.txt");
    assert_eq!(ChunkInnerPathHelper::normalize_virtual_path("./."), "");
}

#[test]
fn chunk_suffix_is_stripped_only_from_the_last_segment() {
    assert_eq!(ChunkInnerPathHelper::strip_chunk_suffix("docs/a.txt/4096:8192"), "docs/a.txt");
    assert_eq!(ChunkInnerPathHelper::strip_chunk_suffix("4096:8192"), "");
    assert_eq!(ChunkInnerPathHelper::strip_chunk_suffix("/docs/a.txt/"), "docs/a.txt");
    assert_eq!(ChunkInnerPathHelper::strip_chunk_suffix("docs/0:1/a.txt"), "docs/0:1/a.txt");
}
