use buckyos_backup::def::{BackupChunkItem, BackupItemState};
use buckyos_backup::file_listing::{list_directory, listing_base, place_item, Placement, ListedEntry};

fn item(id: &str, size: u64, time: u64) -> BackupChunkItem {
    BackupChunkItem {
        item_id: id.to_string(),
        chunk_id: String::from("chunk"),
        local_chunk_id: None,
        state: BackupItemState::New,
        size,
        last_update_time: time,
        offset: 0,
    }
}

fn names(entries: &Vec<ListedEntry>) -> Vec<(bool, String)> {
    entries.iter().map(|e| (e.is_dir, e.name.clone())).collect()
}

#[test]
fn listing_root_puts_directories_first_then_names() {
    let items = vec![
        item("b.txt", 10, 5),
        item("Docs/readme.md", 3, 1),
        item("a.txt", 7, 9),
        item("apps/x/0:100", 100, 2),
    ];
    let r = list_directory(&items, None);
    assert_eq!(
        names(&r),
        vec![
            (true, String::from("apps")),
            (true, String::from("Docs")),
            (false, String::from("a.txt")),
            (false, String::from("b.txt")),
        ]
    );
    assert_eq!(r[0].len, 0);
    assert_eq!(r[2].len, 7);
    assert_eq!(r[3].create_time, 5);
}

#[test]
fn listing_sums_chunks_of_one_file() {
    let items = vec![
        item("dir/big.bin/0:100", 100, 30),
        item("dir/big.bin/100:150", 50, 10),
        item("dir/big.bin/150:170", 20, 40),
    ];
    let r = list_directory(&items, Some("dir"));
    assert_eq!(r.len(), 1);
    assert_eq!(r[0].name, "big.bin");
    assert!(!r[0].is_dir);
    assert_eq!(r[0].len, 170);
    assert_eq!(r[0].create_time, 10);
    assert_eq!(r[0].update_time, 40);
}

#[test]
fn listing_size_saturates() {
    let items = vec![item("f", u64::MAX - 1, 1), item("f", 5, 2)];
    let r = list_directory(&items, None);
    assert_eq!(r.len(), 1);
    assert_eq!(r[0].len, u64::MAX);
}

#[test]
fn listing_of_subdirectory_skips_outside_and_base() {
    let items = vec![
        item("dir", 1, 1),
        item("dirx/a", 1, 1),
        item("other/a", 1, 1),
        item("dir\\sub\\f", 4, 1),
        item("./dir//g", 2, 1),
    ];
    let r = list_directory(&items, Some(" dir/ "));
    // spaces belong to names: no item lies below " dir/ "
    assert_eq!(r.len(), 0);
    let r = list_directory(&items, Some("dir/"));
    assert_eq!(names(&r), vec![(true, String::from("sub")), (false, String::from("g"))]);
}

#[test]
fn listing_directory_appears_once() {
    let items = vec![item("d/a", 1, 1), item("d/b", 1, 1), item("d", 3, 1)];
    let r = list_directory(&items, None);
    assert_eq!(names(&r), vec![(true, String::from("d")), (false, String::from("d"))]);
}

#[test]
fn listing_base_of_empty_subdir_is_none() {
    assert_eq!(listing_base(Some("./")), None);
    assert_eq!(listing_base(None), None);
    assert_eq!(listing_base(Some("a//b/")), Some(String::from("a/b")));
}

#[test]
fn place_item_strips_chunk_suffix() {
    match place_item("x/y/10:20", &None) {
        Placement::Dir(n) => assert_eq!(n, "x"),
        _ => panic!("expected a directory"),
    }
    match place_item("x/y/10:20", &Some(String::from("x"))) {
        Placement::File(n) => assert_eq!(n, "y"),
        _ => panic!("expected a file"),
    }
    assert!(matches!(place_item("12:30", &None), Placement::Skip));
}
