use buckyos_backup::def::BuckyBackupError;
use buckyos_backup::fs_path::parent_path;
use buckyos_backup::rpc_params::{parse_u64_text, u64_text};
use buckyos_backup::snapshot_plan::{
    available_backends, backend_by_id, candidate_root, cow_path_for_root, cow_size_bytes,
    dm_snapshot_names, dm_table, locate_step, loop_device_from_output, lvm_snapshot_names,
    plan_snapshot_removal, short_id, snapshot_final_path, snapshot_source_path, snapshot_url, LocateStep, MetadataRead,
    SnapshotAttempts, SnapshotBackendKind, SnapshotPlatform, SnapshotRemoval,
};

fn failed(e: BuckyBackupError) -> String {
    match e {
        BuckyBackupError::Failed(m) => m,
        _ => panic!("unexpected error kind"),
    }
}

#[test]
fn snapshot_backends_per_platform() {
    let linux = available_backends(&SnapshotPlatform::Linux);
    assert_eq!(linux.len(), 2);
    assert_eq!(linux[0].id(), "linux:lvm");
    assert_eq!(linux[1].id(), "linux:dm-snapshot");
    let windows = available_backends(&SnapshotPlatform::Windows);
    assert_eq!(windows.len(), 1);
    assert_eq!(windows[0].id(), "windows:vss");
    assert!(available_backends(&SnapshotPlatform::Other).is_empty());
    assert_eq!(linux[0].description(), "Linux LVM snapshots");
    assert_eq!(linux[1].description(), "Linux device-mapper snapshots");
    assert_eq!(windows[0].description(), "Windows VSS snapshots");
    assert!(matches!(
        backend_by_id("linux:dm-snapshot", &SnapshotPlatform::Linux),
        Some(SnapshotBackendKind::LinuxDmSnapshot)
    ));
    assert!(backend_by_id("windows:vss", &SnapshotPlatform::Linux).is_none());
    assert!(backend_by_id("linux", &SnapshotPlatform::Linux).is_none());
}

#[test]
fn snapshot_candidate_root_names_plan_task_backend() {
    let r = candidate_root("/data/snapshots", "plan-1", "task 2", "linux:lvm", "abcdef012345");
    assert_eq!(r, "/data/snapshots/plan_1_task_2_linux_lvm_abcdef012345");
}

#[test]
fn snapshot_short_id_is_twelve_hex_digits() {
    let a = short_id();
    assert_eq!(a.len(), 12);
    assert!(a.chars().all(|c| c.is_ascii_digit() || ('a'..='f').contains(&c)));
}

#[test]
fn snapshot_dm_table_and_names() {
    assert_eq!(u64_text(0), "0");
    assert_eq!(u64_text(1234567890), "1234567890");
    assert_eq!(u64_text(u64::MAX), "18446744073709551615");
    assert_eq!(
        dm_table(2048, "/dev/sda1", "/dev/loop3"),
        "0 2048 snapshot /dev/sda1 /dev/loop3 P 64"
    );
    let (name, dev) = dm_snapshot_names("0123456789ab");
    assert_eq!(name, "bksdm_0123456789ab");
    assert_eq!(dev, "/dev/mapper/bksdm_0123456789ab");
    let (lv, path) = lvm_snapshot_names("vg0", "0123456789ab");
    assert_eq!(lv, "bksnap_0123456789ab");
    assert_eq!(path, "/dev/vg0/bksnap_0123456789ab");
    assert_eq!(cow_path_for_root("/snap/root_1"), "/snap/root_1.cow");
}

#[test]
fn snapshot_cow_size_and_loop_device() {
    assert_eq!(cow_size_bytes(4).ok(), Some(2048));
    assert_eq!(failed(cow_size_bytes(u64::MAX / 256).err().unwrap()), "cow file size overflow");
    assert_eq!(loop_device_from_output(" /dev/loop7 \nextra").ok().unwrap(), "/dev/loop7");
    assert_eq!(
        failed(loop_device_from_output("").err().unwrap()),
        "losetup returned empty output"
    );
}

#[test]
fn snapshot_final_path_follows_the_source_below_the_mount() {
    assert_eq!(snapshot_final_path("/home/u/photos", "/home", "/snap/r"), "/snap/r/u/photos");
    assert_eq!(snapshot_final_path("/home", "/home", "/snap/r"), "/snap/r");
    assert_eq!(snapshot_final_path("/var/x", "/home", "/snap/r"), "/snap/r");
    assert_eq!(snapshot_final_path("/data/a", "/", "/snap/r"), "/snap/r/data/a");
}

#[test]
fn snapshot_attempts_report_the_last_failure() {
    let none = SnapshotAttempts::new();
    assert_eq!(failed(none.final_error()), "no snapshot backend available on this platform");
    let mut run = SnapshotAttempts::new();
    run.record_failure(BuckyBackupError::Failed("lvm failed".to_string()));
    run.record_failure(BuckyBackupError::Failed("dm failed".to_string()));
    assert_eq!(failed(run.final_error()), "dm failed");
}

#[test]
fn snapshot_removal_plan() {
    let ws = "/data/snapshots";
    assert!(matches!(
        plan_snapshot_removal("/data/snapshots/root1/sub", ws, None, &SnapshotPlatform::Linux),
        SnapshotRemoval::ResetRoot(ref r) if r == "/data/snapshots/root1"
    ));
    assert!(matches!(
        plan_snapshot_removal("/elsewhere", ws, None, &SnapshotPlatform::Linux),
        SnapshotRemoval::Skip
    ));
    let located = Some(("/data/snapshots/root1".to_string(), "linux:lvm".to_string()));
    assert!(matches!(
        plan_snapshot_removal("/x", ws, located, &SnapshotPlatform::Linux),
        SnapshotRemoval::Cleanup(SnapshotBackendKind::LinuxLvm, ref r) if r == "/data/snapshots/root1"
    ));
    let located = Some(("/r".to_string(), "windows:vss".to_string()));
    match plan_snapshot_removal("/x", ws, located, &SnapshotPlatform::Linux) {
        SnapshotRemoval::Refuse(e) => {
            assert_eq!(failed(e), "snapshot backend windows:vss unavailable on current platform")
        }
        _ => panic!("expected a refusal"),
    }
}

#[test]
fn snapshot_locate_climbs_to_parents() {
    assert_eq!(parent_path("/a/b").unwrap(), "/a");
    assert_eq!(parent_path("/a").unwrap(), "/");
    assert!(parent_path("/").is_none());
    assert_eq!(parent_path("a").unwrap(), "");
    assert!(matches!(
        locate_step("/a/b", MetadataRead::Missing),
        LocateStep::Climb(ref p) if p == "/a"
    ));
    assert!(matches!(locate_step("/", MetadataRead::Missing), LocateStep::GiveUp));
    assert!(matches!(
        locate_step("/a/b", MetadataRead::Parsed("linux:lvm".to_string())),
        LocateStep::Found(ref r, ref b) if r == "/a/b" && b == "linux:lvm"
    ));
    assert!(matches!(locate_step("/a/b", MetadataRead::Malformed), LocateStep::GiveUp));
    assert!(matches!(locate_step("/a/b", MetadataRead::Unreadable), LocateStep::GiveUp));
}

#[test]
fn snapshot_source_and_url() {
    assert_eq!(snapshot_source_path("p", "file:///data/x", None).ok().unwrap(), "/data/x");
    assert_eq!(snapshot_source_path("p", "rel/dir", Some("/work")).ok().unwrap(), "/work/rel/dir");
    assert_eq!(
        failed(snapshot_source_path("p9", "file://[bad", None).err().unwrap()),
        "plan p9 uses unsupported source path for snapshot"
    );
    assert_eq!(snapshot_url("/snap/r/data").ok().unwrap(), "file:///snap/r/data");
    assert_eq!(
        failed(snapshot_url("rel").err().unwrap()),
        "failed to convert snapshot path rel to url"
    );
}

#[test]
fn number_text_reads_back() {
    for n in [0u64, 7, 10, 99, 100, 4096, 1234567890123, u64::MAX] {
        assert_eq!(parse_u64_text(u64_text(n).as_str()), Some(n));
    }
}
