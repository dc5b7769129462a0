use buckyos_backup::event_watch::{plan_source_path, EventWatchRegistry};
use buckyos_backup::json::{JsonNumber, JsonValue};
use buckyos_backup::task_model::{
    apply_plan_update, BackupPlanConfig, BackupPlanUpdateParams, BackupTargetRecord,
};

#[test]
fn watch_registry_counts_plans_per_path() {
    let mut r = EventWatchRegistry::new();
    assert!(r.attach_plan("p1", String::from("/data")));
    assert!(!r.attach_plan("p2", String::from("/data/")));
    assert!(r.has_path("/data"));
    assert_eq!(r.plan_path("p1"), Some(String::from("/data")));
    assert_eq!(r.detach_plan("p1"), Some((String::from("/data"), false)));
    assert!(r.has_path("/data"));
    assert_eq!(r.detach_plan("p2"), Some((String::from("/data/"), true)));
    assert!(!r.has_path("/data"));
    assert_eq!(r.detach_plan("p2"), None);
}

#[test]
fn watch_registry_rewatch_releases_unused_path() {
    let mut r = EventWatchRegistry::new();
    assert_eq!(r.rewatch_plan("p", String::from("/a")), None);
    assert!(r.watch_unchanged("p", "/a/./"));
    assert!(!r.watch_unchanged("p", "/b"));
    assert_eq!(r.rewatch_plan("p", String::from("/b")), Some(String::from("/a")));
    assert!(!r.has_path("/a"));
    assert!(r.has_path("/b"));
    assert!(r.attach_plan("q", String::from("/c")));
    assert_eq!(r.rewatch_plan("q", String::from("/b")), Some(String::from("/c")));
    assert_eq!(r.detach_plan("p"), Some((String::from("/b"), false)));
}

#[test]
fn watch_detach_right_after_attach_releases_new_path() {
    let mut r = EventWatchRegistry::new();
    let need_add = r.attach_plan("p", String::from("/new"));
    assert_eq!(r.detach_plan("p"), Some((String::from("/new"), need_add)));
}

#[test]
fn plan_source_path_resolves_relative_paths() {
    assert_eq!(plan_source_path("file:///srv/data", Some("/cwd")), Some(String::from("/srv/data")));
    assert_eq!(plan_source_path("rel/dir", Some("/cwd")), Some(String::from("/cwd/rel/dir")));
    assert_eq!(plan_source_path("rel/dir", None), Some(String::from("rel/dir")));
    assert_eq!(plan_source_path("file://[x", Some("/cwd")), None);
}

fn member<'a>(v: &'a JsonValue, key: &str) -> &'a JsonValue {
    match v {
        JsonValue::Object(m) => &m.iter().find(|(k, _)| k == key).unwrap().1,
        _ => panic!("not an object"),
    }
}

#[test]
fn plan_json_lists_fields() {
    let mut p = BackupPlanConfig::chunk2chunk("file:///d", "t", "title", "desc");
    p.priority = -2;
    let v = p.to_json_value();
    assert!(matches!(member(&v, "source"), JsonValue::String(s) if s == "file:///d"));
    assert!(matches!(member(&v, "priority"), JsonValue::Number(JsonNumber::NegInt(-2))));
    assert!(matches!(member(&v, "last_checkpoint_index"), JsonValue::Number(JsonNumber::PosInt(1024))));
    assert!(matches!(member(&v, "policy"), JsonValue::Array(a) if a.is_empty()));
}

#[test]
fn target_json_has_config_only_when_set() {
    let r = BackupTargetRecord::new(String::from("id"), "file", "/b", "n", None, None);
    match r.to_json_value() {
        JsonValue::Object(m) => assert_eq!(m.len(), 9),
        _ => panic!("not an object"),
    }
    let cfg = JsonValue::Object(vec![(String::from("k"), JsonValue::Bool(true))]);
    let r = BackupTargetRecord::new(String::from("id"), "file", "/b", "n", Some("d"), Some(cfg));
    let v = r.to_json_value();
    assert!(matches!(member(&v, "state"), JsonValue::String(s) if s == "UNKNOWN"));
    assert!(matches!(member(&v, "description"), JsonValue::String(s) if s == "d"));
    assert!(matches!(member(member(&v, "config"), "k"), JsonValue::Bool(true)));
}

#[test]
fn plan_update_replaces_given_fields() {
    let mut p = BackupPlanConfig::chunk2chunk("file:///d", "t", "title", "desc");
    apply_plan_update(
        &mut p,
        BackupPlanUpdateParams {
            title: Some(String::from("new")),
            description: None,
            policy: None,
            priority: Some(7),
            policy_disabled: Some(true),
            reserved_versions: None,
        },
        99,
    );
    assert_eq!(p.title, "new");
    assert_eq!(p.description, "desc");
    assert_eq!(p.priority, 7);
    assert!(p.policy_disabled);
    assert_eq!(p.update_time, 99);
}

#[test]
fn attaching_fresh_plans_counts_users_of_each_path() {
    let mut r = EventWatchRegistry::new();
    assert!(r.attach_plan("a", String::from("/x")));
    assert!(r.attach_plan("b", String::from("/y")));
    assert!(!r.attach_plan("c", String::from("/x/")));
    assert_eq!(r.detach_plan("a"), Some((String::from("/x"), false)));
    assert!(r.has_path("/x"));
    assert!(r.has_path("/y"));
    assert_eq!(r.detach_plan("c"), Some((String::from("/x/"), true)));
    assert!(!r.has_path("/x"));
    assert!(r.has_path("/y"));
}
