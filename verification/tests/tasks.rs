use buckyos_backup::def::{BuckyBackupError, RestoreConfig};
use buckyos_backup::task_model::{BackupPlanConfig, TaskState, TaskType, WorkTask};
use buckyos_backup::task_set::{
    check_new_backup_task, check_new_restore_task, checkpoint_chain_step, count_running_tasks,
    is_restoring_task_dup,
    plan_has_running_backup_task, plan_has_runable_backup_task, CheckpointChainStep,
};

fn task(plan: &str, checkpoint: &str, t: TaskType, state: TaskState, url: Option<&str>) -> WorkTask {
    WorkTask {
        taskid: format!("task_{}_{}", plan, checkpoint),
        task_type: t,
        owner_plan_id: plan.to_string(),
        checkpoint_id: checkpoint.to_string(),
        total_size: 0,
        completed_size: 0,
        state,
        create_time: 0,
        update_time: 0,
        item_count: 0,
        completed_item_count: 0,
        wait_transfer_item_count: 0,
        restore_config: url.map(|u| RestoreConfig {
            restore_location_url: u.to_string(),
            is_clean_restore: false,
            params: None,
        }),
    }
}

fn cfg(url: &str) -> RestoreConfig {
    RestoreConfig { restore_location_url: url.to_string(), is_clean_restore: false, params: None }
}

#[test]
fn running_backup_needs_running_or_pending_state() {
    let tasks = vec![
        task("p1", "c1", TaskType::Backup, TaskState::Paused, None),
        task("p2", "c2", TaskType::Backup, TaskState::Running, None),
        task("p1", "c3", TaskType::Restore, TaskState::Running, None),
    ];
    assert!(!plan_has_running_backup_task(&tasks, "p1"));
    assert!(plan_has_running_backup_task(&tasks, "p2"));
    let tasks = vec![task("p1", "c1", TaskType::Backup, TaskState::Pending, None)];
    assert!(plan_has_running_backup_task(&tasks, "p1"));
}

#[test]
fn runable_backup_counts_unfinished_tasks_then_the_store() {
    let tasks = vec![
        task("p1", "c1", TaskType::Backup, TaskState::Done, None),
        task("p1", "c2", TaskType::Backup, TaskState::Remove, None),
    ];
    assert!(!plan_has_runable_backup_task(&tasks, "p1", None));
    assert!(!plan_has_runable_backup_task(&tasks, "p1", Some(false)));
    assert!(plan_has_runable_backup_task(&tasks, "p1", Some(true)));
    let tasks = vec![task("p1", "c1", TaskType::Backup, TaskState::Failed("x".to_string()), None)];
    assert!(plan_has_runable_backup_task(&tasks, "p1", Some(false)));
}

#[test]
fn restore_duplicates_compare_lowercase_local_paths() {
    let tasks = vec![
        task("p1", "c1", TaskType::Restore, TaskState::Running, Some("file:///Data/Out")),
        task("p1", "c2", TaskType::Restore, TaskState::Done, Some("/x")),
    ];
    assert!(is_restoring_task_dup(&tasks, "p1", "c1", &cfg("/data/out")));
    assert!(!is_restoring_task_dup(&tasks, "p1", "c1", &cfg("/data/other")));
    assert!(!is_restoring_task_dup(&tasks, "p1", "c2", &cfg("/x")));
    assert!(!is_restoring_task_dup(&tasks, "p2", "c1", &cfg("/data/out")));
    let no_cfg = vec![task("p1", "c1", TaskType::Restore, TaskState::Paused, None)];
    assert!(is_restoring_task_dup(&no_cfg, "p1", "c1", &cfg("/anywhere")));
}

#[test]
fn new_task_checks_and_messages() {
    match check_new_backup_task("p1", true, true) {
        Err(BuckyBackupError::Failed(m)) => assert_eq!(m, "plan p1 already has a running backup task"),
        _ => panic!("expected a refusal"),
    }
    match check_new_backup_task("p1", false, false) {
        Err(BuckyBackupError::NotFound(m)) => assert_eq!(m, "plan p1 not found"),
        _ => panic!("expected not found"),
    }
    assert!(check_new_backup_task("p1", false, true).is_ok());
    assert!(check_new_restore_task("p1", false).is_ok());
    assert!(check_new_restore_task("p1", true).is_err());
}

#[test]
fn checkpoint_chain_walks_back_until_the_first() {
    assert!(matches!(checkpoint_chain_step(false, Some("c0".to_string())), CheckpointChainStep::Complete(false)));
    assert!(matches!(checkpoint_chain_step(true, None), CheckpointChainStep::Complete(true)));
    assert!(matches!(
        checkpoint_chain_step(true, Some("c0".to_string())),
        CheckpointChainStep::Follow(ref p) if p == "c0"
    ));
}

#[test]
fn plan_times_and_checkpoint_index() {
    let mut p = BackupPlanConfig::chunk2chunk("file:///src", "t1", "T", "D");
    p.stamp_times(500);
    assert_eq!((p.create_time, p.update_time), (500, 500));
    let mut q = BackupPlanConfig::chunk2chunk("file:///src", "t1", "T", "D");
    q.create_time = 40;
    q.stamp_times(500);
    assert_eq!((q.create_time, q.update_time), (40, 40));
    let i = q.begin_checkpoint(900);
    assert_eq!(i, 1025);
    assert_eq!(q.last_checkpoint_index, 1025);
    assert_eq!(q.update_time, 900);
}

#[test]
fn running_tasks_are_counted() {
    let tasks = vec![
        task("p1", "c1", TaskType::Backup, TaskState::Running, None),
        task("p2", "c2", TaskType::Restore, TaskState::Running, None),
        task("p3", "c3", TaskType::Backup, TaskState::Pending, None),
    ];
    assert_eq!(count_running_tasks(&tasks), 2);
    assert_eq!(count_running_tasks(&Vec::new()), 0);
}
