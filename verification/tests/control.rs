use buckyos_backup::json::{JsonNumber, JsonValue};
use buckyos_backup::rpc_params::RpcError;
use buckyos_backup::task_model::{BackupPlanConfig, BackupTargetRecord, TaskState, TaskType, WorkTask};
use buckyos_backup::task_requests::{
    control_method, parse_create_backup_task_request, parse_create_restore_task_request,
    parse_restore_config, plan_detail_json, required_str_param, task_detail_json, ControlMethod,
};

fn s(v: &str) -> JsonValue {
    JsonValue::String(v.to_string())
}

fn obj(members: Vec<(&str, JsonValue)>) -> JsonValue {
    JsonValue::Object(members.into_iter().map(|(k, v)| (k.to_string(), v)).collect())
}

fn parse_message(e: RpcError) -> String {
    match e {
        RpcError::ParseRequestError(m) => m,
        RpcError::ReasonError(m) => panic!("unexpected reason error {}", m),
    }
}

fn member<'a>(v: &'a JsonValue, key: &str) -> &'a JsonValue {
    match v {
        JsonValue::Object(m) => &m.iter().find(|(k, _)| k == key).unwrap().1,
        _ => panic!("not an object"),
    }
}

#[test]
fn control_methods_by_name() {
    assert!(matches!(control_method("list_backup_task"), Some(ControlMethod::ListBackupTask)));
    assert!(matches!(control_method("is_plan_running"), Some(ControlMethod::IsPlanRunning)));
    assert!(matches!(control_method("create_backup_plan"), Some(ControlMethod::CreateBackupPlan)));
    assert!(control_method("drop_everything").is_none());
    assert!(control_method("").is_none());
    assert_eq!(ControlMethod::GetTaskInfo.name(), "get_task_info");
}

#[test]
fn required_parameters() {
    let p = obj(vec![("taskid", s("t1"))]);
    assert_eq!(required_str_param(&p, "taskid").ok().unwrap(), "t1");
    assert_eq!(parse_message(required_str_param(&p, "plan_id").err().unwrap()), "plan_id is required");
    let (plan, parent) = parse_create_backup_task_request(&obj(vec![("plan_id", s("p1"))])).ok().unwrap();
    assert_eq!(plan, "p1");
    assert!(parent.is_none());
    let (_, parent) =
        parse_create_backup_task_request(&obj(vec![("plan_id", s("p1")), ("parent_checkpoint_id", s("c0"))])).ok().unwrap();
    assert_eq!(parent.unwrap(), "c0");
}

#[test]
fn restore_config_reads_object_or_array() {
    let c = parse_restore_config(obj(vec![("restore_location_url", s("file:///r")), ("is_clean_restore", JsonValue::Bool(true))])).unwrap();
    assert_eq!(c.restore_location_url, "file:///r");
    assert!(c.is_clean_restore);
    assert!(c.params.is_none());
    let c = parse_restore_config(obj(vec![
        ("restore_location_url", s("/r")),
        ("is_clean_restore", JsonValue::Bool(false)),
        ("params", JsonValue::Number(JsonNumber::PosInt(3))),
    ]))
    .unwrap();
    assert!(matches!(c.params, Some(JsonValue::Number(JsonNumber::PosInt(3)))));
    let c = parse_restore_config(JsonValue::Array(vec![s("/r"), JsonValue::Bool(true), JsonValue::Null])).unwrap();
    assert!(c.is_clean_restore && c.params.is_none());
    assert!(parse_restore_config(JsonValue::Array(vec![s("/r"), JsonValue::Bool(true)])).is_none());
    assert!(parse_restore_config(obj(vec![("restore_location_url", s("/r"))])).is_none());
    assert!(parse_restore_config(obj(vec![("restore_location_url", s("/r")), ("is_clean_restore", s("yes"))])).is_none());
}

#[test]
fn restore_request_errors_in_order() {
    let cfg = obj(vec![("restore_location_url", s("/r")), ("is_clean_restore", JsonValue::Bool(false))]);
    assert_eq!(parse_message(parse_create_restore_task_request(obj(vec![])).err().unwrap()), "plan_id is required");
    assert_eq!(
        parse_message(parse_create_restore_task_request(obj(vec![("plan_id", s("p"))])).err().unwrap()),
        "checkpoint_id is required"
    );
    assert_eq!(
        parse_message(parse_create_restore_task_request(obj(vec![("plan_id", s("p")), ("checkpoint_id", s("c"))])).err().unwrap()),
        "cfg is required"
    );
    assert_eq!(
        parse_message(
            parse_create_restore_task_request(obj(vec![("plan_id", s("p")), ("checkpoint_id", s("c")), ("cfg", s("x"))]))
                .err()
                .unwrap()
        ),
        "cfg format error"
    );
    let (p, c, rc) =
        parse_create_restore_task_request(obj(vec![("plan_id", s("p")), ("checkpoint_id", s("c")), ("cfg", cfg)])).ok().unwrap();
    assert_eq!((p.as_str(), c.as_str(), rc.restore_location_url.as_str()), ("p", "c", "/r"));
}

#[test]
fn task_and_plan_answers() {
    let task = WorkTask {
        taskid: "task_1".to_string(),
        task_type: TaskType::Backup,
        owner_plan_id: "p1".to_string(),
        checkpoint_id: "c1".to_string(),
        total_size: 5,
        completed_size: 1,
        state: TaskState::Running,
        create_time: 10,
        update_time: 20,
        item_count: 3,
        completed_item_count: 1,
        wait_transfer_item_count: 2,
        restore_config: None,
    };
    let v = task_detail_json(task, 4096);
    assert!(matches!(member(&v, "total_size"), JsonValue::Number(JsonNumber::PosInt(4096))));
    assert!(matches!(member(&v, "state"), JsonValue::String(ref x) if x == "RUNNING"));

    let plan = BackupPlanConfig::chunk2chunk("file:///src", "t1", "T", "D");
    let target = BackupTargetRecord::new("t1".to_string(), "file", "/dst", "Disk", None, None);
    let v = plan_detail_json(&plan, true, &target, 100, 3);
    assert!(matches!(member(&v, "is_running"), JsonValue::Bool(true)));
    assert!(matches!(member(&v, "target_url"), JsonValue::String(ref x) if x == "/dst"));
    assert!(matches!(member(&v, "target_name"), JsonValue::String(ref x) if x == "Disk"));
    assert!(matches!(member(&v, "total_backup"), JsonValue::Number(JsonNumber::PosInt(3))));
    assert!(matches!(member(&v, "title"), JsonValue::String(ref x) if x == "T"));
}
