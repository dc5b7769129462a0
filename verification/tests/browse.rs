use buckyos_backup::command_output::{
    first_line, parse_blockdev_sectors, parse_findmnt_output, parse_lvs_output,
    parse_shadow_output, split_lines, words,
};
use buckyos_backup::def::BuckyBackupError;
use buckyos_backup::dir_browse::{
    classify_directory_entry, parse_browse_params, root_children, select_children,
    sort_directory_entries, DirectoryEntry, DirectoryEntryType, LinkObservation, LinkResolver,
    ListDirectoryOptions, ListedKind, ResolvedTargetType,
};
use buckyos_backup::fs_monitor::{WatchEntry, WatchSet};
use buckyos_backup::json::JsonValue;
use buckyos_backup::rpc_params::RpcError;

fn entry(name: &str, t: DirectoryEntryType, target: Option<ResolvedTargetType>) -> DirectoryEntry {
    DirectoryEntry { name: name.to_string(), entry_type: t, target_type: target }
}

fn sample() -> Vec<DirectoryEntry> {
    vec![
        entry("zeta.txt", DirectoryEntryType::File, None),
        entry("Beta", DirectoryEntryType::Directory, None),
        entry("link-dir", DirectoryEntryType::Link, Some(ResolvedTargetType::Directory)),
        entry("alpha.md", DirectoryEntryType::File, None),
        entry("link-file", DirectoryEntryType::Link, Some(ResolvedTargetType::File)),
        entry("fifo", DirectoryEntryType::Other, None),
        entry("broken", DirectoryEntryType::Link, None),
    ]
}

fn failed(e: BuckyBackupError) -> String {
    match e {
        BuckyBackupError::Failed(m) => m,
        _ => panic!("unexpected error kind"),
    }
}

fn parse_message(e: RpcError) -> String {
    match e {
        RpcError::ParseRequestError(m) => m,
        RpcError::ReasonError(m) => panic!("unexpected reason error {}", m),
    }
}

fn obj(members: Vec<(&str, JsonValue)>) -> JsonValue {
    JsonValue::Object(members.into_iter().map(|(k, v)| (k.to_string(), v)).collect())
}

#[test]
fn browse_sort_puts_directory_like_entries_first_by_lowercase_name() {
    let sorted = sort_directory_entries(sample());
    let names: Vec<String> = sorted.iter().map(|e| e.name.clone()).collect();
    assert_eq!(names[0], "Beta");
    assert_eq!(names[1], "link-dir");
    assert_eq!(
        names[2..].to_vec(),
        vec!["alpha.md", "broken", "fifo", "link-file", "zeta.txt"]
    );
}

#[test]
fn browse_select_filters_by_kind() {
    let all = select_children(sample(), &ListDirectoryOptions { only_dirs: false, only_files: false });
    assert_eq!(all.len(), 7);
    assert!(all[1].is_directory && all[2].is_directory && !all[4].is_directory);
    let dirs = select_children(sample(), &ListDirectoryOptions { only_dirs: true, only_files: false });
    let names: Vec<String> = dirs.iter().map(|c| c.name.clone()).collect();
    assert_eq!(names, vec!["Beta", "link-dir"]);
    let files = select_children(sample(), &ListDirectoryOptions { only_dirs: false, only_files: true });
    let names: Vec<String> = files.iter().map(|c| c.name.clone()).collect();
    assert_eq!(names, vec!["zeta.txt", "alpha.md", "link-file"]);
    let none = select_children(sample(), &ListDirectoryOptions { only_dirs: true, only_files: true });
    assert!(none.is_empty());
}

#[test]
fn browse_params_trim_path_and_read_options() {
    let p = obj(vec![
        ("path", JsonValue::String("  /home/user ".to_string())),
        ("options", obj(vec![("only_dirs", JsonValue::Bool(true))])),
    ]);
    let (path, o) = parse_browse_params(&p).ok().unwrap();
    assert_eq!(path.unwrap(), "/home/user");
    assert!(o.only_dirs && !o.only_files);

    let blank = obj(vec![("path", JsonValue::String("   ".to_string()))]);
    let (path, o) = parse_browse_params(&blank).ok().unwrap();
    assert!(path.is_none());
    assert!(!o.only_dirs && !o.only_files);

    let arr = obj(vec![(
        "options",
        JsonValue::Array(vec![JsonValue::Bool(false), JsonValue::Bool(true)]),
    )]);
    let (_, o) = parse_browse_params(&arr).ok().unwrap();
    assert!(!o.only_dirs && o.only_files);
}

#[test]
fn browse_params_errors() {
    let bad_path = obj(vec![("path", JsonValue::Bool(true))]);
    assert_eq!(
        parse_message(parse_browse_params(&bad_path).err().unwrap()),
        "path must be a string if provided"
    );
    let bad_opts = obj(vec![("options", obj(vec![("only_dirs", JsonValue::String("yes".to_string()))]))]);
    assert_eq!(
        parse_message(parse_browse_params(&bad_opts).err().unwrap()),
        "options must be an object with boolean fields"
    );
}

#[test]
fn browse_roots_are_the_root_directory() {
    let r = root_children();
    assert_eq!(r.len(), 1);
    assert_eq!(r[0].name, "/");
    assert!(r[0].is_directory_like());
}

#[test]
fn command_output_lines_and_words() {
    assert_eq!(split_lines("a\r\nb\n\nc"), vec!["a", "b", "", "c"]);
    assert_eq!(split_lines("x\n"), vec!["x"]);
    assert!(split_lines("").is_empty());
    assert_eq!(first_line("one\r\ntwo").unwrap(), "one");
    assert!(first_line("").is_none());
    let w: Vec<String> = words("  a  bc\td ").iter().map(|v| v.iter().collect()).collect();
    assert_eq!(w, vec!["a", "bc", "d"]);
}

#[test]
fn findmnt_output_gives_source_and_target() {
    let m = parse_findmnt_output(
        "SOURCE=\"/dev/sda1\" TARGET=\"/mnt/my\\040disk\"\nignored",
        "/mnt/my disk/file",
    )
    .ok()
    .unwrap();
    assert_eq!(m.source, "/dev/sda1");
    assert_eq!(m.target, "/mnt/my disk");
    assert_eq!(
        failed(parse_findmnt_output("", "/p").err().unwrap()),
        "findmnt returned empty result for /p"
    );
    assert_eq!(
        failed(parse_findmnt_output("TARGET=\"/\"", "/p").err().unwrap()),
        "failed to parse mount source from findmnt output: TARGET=\"/\""
    );
    assert_eq!(
        failed(parse_findmnt_output("SOURCE=\"/dev/x\"", "/p").err().unwrap()),
        "failed to parse mount target from findmnt output: SOURCE=\"/dev/x\""
    );
}

#[test]
fn lvs_output_gives_three_trimmed_fields() {
    let lv = parse_lvs_output("  vg0 | data | /dev/vg0/data  \n").ok().unwrap();
    assert_eq!(lv.vg_name, "vg0");
    assert_eq!(lv.lv_name, "data");
    assert_eq!(lv.lv_path, "/dev/vg0/data");
    assert_eq!(failed(parse_lvs_output("").err().unwrap()), "lvs output is empty");
    assert_eq!(
        failed(parse_lvs_output(" vg0|data \nmore").err().unwrap()),
        "unexpected lvs output:  vg0|data "
    );
}

#[test]
fn shadow_output_gives_id_and_volume() {
    let out = "vssadmin 1.1\r\n  Shadow Copy ID: {abc-123}\r\n  Shadow Copy Volume Name: x\r\n   Shadow Copy Volume: \\\\?\\GLOBALROOT\\Device\\HarddiskVolumeShadowCopy3\r\n";
    let s = parse_shadow_output(out).ok().unwrap();
    assert_eq!(s.shadow_id, "{abc-123}");
    assert_eq!(s.shadow_volume_path, "\\\\?\\GLOBALROOT\\Device\\HarddiskVolumeShadowCopy3");
    assert_eq!(
        failed(parse_shadow_output("nothing here").err().unwrap()),
        "failed to parse VSS shadow id"
    );
    assert_eq!(
        failed(parse_shadow_output("Shadow Copy ID: {x}\n").err().unwrap()),
        "failed to parse VSS shadow volume path"
    );
}

#[test]
fn blockdev_output_is_a_trimmed_number() {
    assert_eq!(parse_blockdev_sectors(" 2048\n"), Some(2048));
    assert_eq!(parse_blockdev_sectors("abc"), None);
}

#[test]
fn watch_set_initial_time_only_fills_an_unset_time() {
    let mut set = WatchSet::new();
    set.insert(WatchEntry::new("/data".to_string(), true));
    set.try_set_initial_time("/data", 50);
    assert_eq!(set.get_last_update_time("/data"), Some(50));
    set.try_set_initial_time("/data", 70);
    assert_eq!(set.get_last_update_time("/data"), Some(50));
    set.try_set_initial_time("/other", 70);
    assert_eq!(set.get_last_update_time("/other"), None);
}

#[test]
fn link_resolver_follows_relative_and_absolute_targets() {
    let mut r = LinkResolver::new("/home/u/link", "/home/u");
    assert_eq!(r.next_path().ok().unwrap(), "/home/u/link");
    r.observe(LinkObservation::Link(Some("../data".to_string())));
    assert_eq!(r.next_path().ok().unwrap(), "/home/u/../data");
    r.observe(LinkObservation::Link(Some("/srv/store".to_string())));
    assert_eq!(r.next_path().ok().unwrap(), "/srv/store");
    r.observe(LinkObservation::Directory);
    assert!(matches!(r.next_path(), Err(Some(ResolvedTargetType::Directory))));
}

#[test]
fn link_resolver_stops_on_loops_and_unreadable_targets() {
    let mut r = LinkResolver::new("/a/x", "/a");
    assert_eq!(r.next_path().ok().unwrap(), "/a/x");
    r.observe(LinkObservation::Link(Some("y".to_string())));
    assert_eq!(r.next_path().ok().unwrap(), "/a/y");
    r.observe(LinkObservation::Link(Some("/a//x".to_string())));
    assert!(matches!(r.next_path(), Err(None)));

    let mut r = LinkResolver::new("/a/x", "/a");
    r.next_path().ok().unwrap();
    r.observe(LinkObservation::Link(None));
    assert!(matches!(r.next_path(), Err(None)));

    let mut r = LinkResolver::new("/a/x", "/a");
    let mut steps = 0;
    while let Ok(_) = r.next_path() {
        steps += 1;
        r.observe(LinkObservation::Link(Some(format!("/chain/{}", steps))));
    }
    assert_eq!(steps, 40);
}

#[test]
fn classify_entry_keeps_link_targets_only_for_links() {
    assert!(matches!(
        classify_directory_entry(ListedKind::Link, Some(ResolvedTargetType::File)),
        (DirectoryEntryType::Link, Some(ResolvedTargetType::File))
    ));
    assert!(matches!(
        classify_directory_entry(ListedKind::Directory, Some(ResolvedTargetType::File)),
        (DirectoryEntryType::Directory, None)
    ));
    assert!(matches!(classify_directory_entry(ListedKind::Other, None), (DirectoryEntryType::Other, None)));
}
