use buckyos_backup::control_requests::{
    parse_create_plan_request, parse_create_target_request, plan_config_for_request,
};
use buckyos_backup::json::{JsonNumber, JsonValue};
use buckyos_backup::rpc_params::{parse_listing_params, RpcError};
use buckyos_backup::task_model::BackupSource;
use buckyos_backup::url_text::{
    check_target_url, resolve_plan_source, resolve_requested_path, translate_local_path_from_url,
};

fn s(v: &str) -> JsonValue {
    JsonValue::String(v.to_string())
}

fn obj(members: Vec<(&str, JsonValue)>) -> JsonValue {
    JsonValue::Object(members.into_iter().map(|(k, v)| (k.to_string(), v)).collect())
}

fn parse_message(e: RpcError) -> String {
    match e {
        RpcError::ParseRequestError(m) => m,
        RpcError::ReasonError(m) => panic!("unexpected reason error {}", m),
    }
}

fn plan_params() -> Vec<(&'static str, JsonValue)> {
    vec![
        ("type_str", s("c2c")),
        ("source_type", s("file")),
        ("source", s("/data/photos")),
        ("target_type", s("file")),
        ("target", s("t1")),
        ("title", s("Photos")),
        ("description", s("daily")),
    ]
}

#[test]
fn create_plan_request_reads_all_fields() {
    let mut p = plan_params();
    p.push(("priority", JsonValue::Number(JsonNumber::PosInt(3))));
    p.push(("policy_disabled", JsonValue::Bool(true)));
    let q = parse_create_plan_request(obj(p)).ok().unwrap();
    assert_eq!(q.type_str, "c2c");
    assert_eq!(q.title, "Photos");
    assert_eq!(q.priority, 3);
    assert_eq!(q.reserved_versions, 0);
    assert!(q.policy_disabled);
    assert!(matches!(q.policy, JsonValue::Array(ref a) if a.is_empty()));
}

#[test]
fn create_plan_request_reports_first_missing_string() {
    let mut p = plan_params();
    p.retain(|(k, _)| *k != "target" && *k != "title");
    let e = parse_create_plan_request(obj(p)).err().unwrap();
    assert_eq!(parse_message(e), "target is required");
    let mut p = plan_params();
    p[2] = ("source", JsonValue::Bool(false));
    let e = parse_create_plan_request(obj(p)).err().unwrap();
    assert_eq!(parse_message(e), "source must be a string");
}

#[test]
fn plan_config_for_unknown_type_is_refused() {
    let mut p = plan_params();
    p[0] = ("type_str", s("d2d"));
    let q = parse_create_plan_request(obj(p)).ok().unwrap();
    let e = plan_config_for_request(q, "file:///data", "t1", 5).err().unwrap();
    assert_eq!(parse_message(e), "unknown type_str: d2d");
}

#[test]
fn plan_config_for_c2c_request() {
    let q = parse_create_plan_request(obj(plan_params())).ok().unwrap();
    let c = plan_config_for_request(q, "file:///data/photos", "t1", 1700).ok().unwrap();
    assert!(matches!(c.source, BackupSource::ChunkList(ref u) if u == "file:///data/photos"));
    assert_eq!(c.target, "t1");
    assert_eq!(c.last_checkpoint_index, 0);
    assert_eq!(c.create_time, 1700);
    assert_eq!(c.update_time, 1700);
    assert_eq!(c.type_str, "c2c");
}

#[test]
fn resolve_requested_path_places_pieces_below_root() {
    assert_eq!(resolve_requested_path("  "), "/");
    assert_eq!(resolve_requested_path("/"), "/");
    assert_eq!(resolve_requested_path(" a\\b//c/ "), "/a/b/c");
    assert_eq!(resolve_requested_path("//x"), "/x");
}

#[test]
fn plan_source_from_plain_path_becomes_file_url() {
    let (u, d) = resolve_plan_source("data/photos").ok().unwrap();
    assert_eq!(d, "/data/photos");
    assert_eq!(u, "file:///data/photos");
}

#[test]
fn plan_source_file_url_is_kept() {
    let (u, d) = resolve_plan_source("file:///srv/a%20b").ok().unwrap();
    assert_eq!(u, "file:///srv/a%20b");
    assert_eq!(d, "/srv/a b");
    let e = resolve_plan_source("file://remote.host/x").err().unwrap();
    assert_eq!(parse_message(e), "source must point to a local filesystem path");
}

#[test]
fn target_url_of_file_target_gets_leading_slash() {
    assert_eq!(check_target_url("file", "backups").ok().unwrap(), "/backups");
    assert_eq!(check_target_url("s3", "backups").ok().unwrap(), "backups");
    assert_eq!(check_target_url("file", "/b").ok().unwrap(), "/b");
    let e = check_target_url("s3", "file://[bad").err().unwrap();
    assert_eq!(parse_message(e), "source must be a valid file URL");
}

#[test]
fn translate_local_path_reads_url_path() {
    assert_eq!(translate_local_path_from_url("/plain/dir").ok().unwrap(), "/plain/dir");
    assert_eq!(translate_local_path_from_url("file:///a/b").ok().unwrap(), "/a/b");
    assert!(translate_local_path_from_url("file://[x").is_err());
}

#[test]
fn create_target_request_checks_presence_and_types() {
    let e = parse_create_target_request(obj(vec![("url", s("/x")), ("name", s("n"))])).err().unwrap();
    assert_eq!(parse_message(e), "target_type, url, name are required");
    let e = parse_create_target_request(obj(vec![
        ("target_type", s("file")),
        ("url", JsonValue::Null),
        ("name", s("n")),
    ]))
    .err()
    .unwrap();
    assert_eq!(parse_message(e), "url must be a string");
    let e = parse_create_target_request(obj(vec![
        ("target_type", s("file")),
        ("url", s("/x")),
        ("name", JsonValue::Bool(true)),
    ]))
    .err()
    .unwrap();
    assert_eq!(parse_message(e), "name must be a string");
}

#[test]
fn create_target_request_reads_fields() {
    let q = parse_create_target_request(obj(vec![
        ("target_type", s("file")),
        ("url", s("mnt/backup")),
        ("name", s("disk")),
        ("description", s("usb")),
        ("config", JsonValue::Null),
    ]))
    .ok()
    .unwrap();
    assert_eq!(q.url, "/mnt/backup");
    assert_eq!(q.name, "disk");
    assert_eq!(q.description, Some(String::from("usb")));
    assert!(q.config.is_none());
}

#[test]
fn listing_params_trim_subdir() {
    let (id, sub) = parse_listing_params(&obj(vec![("taskid", s("t")), ("subdir", s("  a/b "))]))
        .ok()
        .unwrap();
    assert_eq!(id, "t");
    assert_eq!(sub, Some(String::from("a/b")));
    let (_, sub) = parse_listing_params(&obj(vec![("taskid", s("t")), ("subdir", s("   "))])).ok().unwrap();
    assert_eq!(sub, None);
    let e = parse_listing_params(&obj(vec![("taskid", s("t")), ("subdir", JsonValue::Bool(true))]))
        .err()
        .unwrap();
    assert_eq!(parse_message(e), "subdir must be a string or null");
    let e = parse_listing_params(&obj(vec![])).err().unwrap();
    assert_eq!(parse_message(e), "taskid is required");
}
