use buckyos_backup::def::BuckyBackupError;
use buckyos_backup::policy::millis_from_local_instant;
use buckyos_backup::rpc_params::{target_lookup_error, RpcError};
use buckyos_backup::sector::SectorBuilder;
use buckyos_backup::task_model::BackupDbError;
use buckyos_backup::task_set::check_new_plan;
use buckyos_backup::url_text::{file_path_outcome, plan_source_from_file_url, target_url_from_file_url};

#[test]
fn second_plan_with_the_same_key_is_refused() {
    let keys = vec![String::from("c2c-file:///a-t1"), String::from("c2c-file:///b-t1")];
    assert!(check_new_plan(&keys, "c2c-file:///a-t2").is_ok());
    match check_new_plan(&keys, "c2c-file:///b-t1") {
        Err(BuckyBackupError::Failed(m)) => assert_eq!(m, "plan already exists"),
        _ => panic!("expected a refusal"),
    }
    assert!(check_new_plan(&Vec::new(), "c2c-x-y").is_ok());
}

#[test]
fn missing_target_is_named_in_the_answer() {
    match target_lookup_error("t9", &BackupDbError::NotFound(String::from("t9"))) {
        RpcError::ReasonError(m) => assert_eq!(m, "backup target t9 not found"),
        _ => panic!("expected a reason error"),
    }
    match target_lookup_error("t9", &BackupDbError::DatabaseError(String::from("locked"))) {
        RpcError::ReasonError(m) => assert_eq!(m, "database error: locked"),
        _ => panic!("expected a reason error"),
    }
}

#[test]
fn local_instant_becomes_unsigned_millis() {
    assert_eq!(millis_from_local_instant(Some(1_700_000_000_123)), Some(1_700_000_000_123));
    assert_eq!(millis_from_local_instant(Some(-5)), Some(0));
    assert_eq!(millis_from_local_instant(None), None);
}

#[test]
fn keyed_sector_chains_start_from_zero_iv() {
    let plain = SectorBuilder::new().build();
    assert_eq!(plain.iv_on_offset(0), None);
    let keyed = SectorBuilder::new().with_key(vec![7u8; 32]).build();
    assert_eq!(keyed.iv_on_offset(0), Some(vec![0u8; 16]));
    assert_eq!(keyed.iv_on_offset(16384), Some(vec![0u8; 16]));
}

#[test]
fn file_url_outcomes_give_the_path_or_the_refusal() {
    assert_eq!(file_path_outcome(Some(Some(String::from("/srv/a b")))).ok(), Some(String::from("/srv/a b")));
    match file_path_outcome(Some(None)) {
        Err(RpcError::ParseRequestError(m)) => assert_eq!(m, "source must point to a local filesystem path"),
        _ => panic!("expected a refusal"),
    }
    match file_path_outcome(None) {
        Err(RpcError::ParseRequestError(m)) => assert_eq!(m, "source must be a valid file URL"),
        _ => panic!("expected a refusal"),
    }
    let (u, d) = plan_source_from_file_url("file:///srv/a%20b", Some(Some(String::from("/srv/a b")))).ok().unwrap();
    assert_eq!(u, "file:///srv/a%20b");
    assert_eq!(d, "/srv/a b");
    assert!(plan_source_from_file_url("file://h/x", Some(None)).is_err());
    assert_eq!(
        target_url_from_file_url(String::from("file:///t"), Some(Some(String::from("/t")))).ok(),
        Some(String::from("file:///t"))
    );
    assert!(target_url_from_file_url(String::from("file:://"), None).is_err());
}
