use buckyos_backup::chunk::{FullHasher, QuickHasher, Sha256Stream};
use buckyos_backup::chunk_cache::{ChunkCacheNode, ChunkTaskCacheMgr, MAX_CACHE_SIZE};
use crossbeam::queue::SegQueue;
use buckyos_backup::def::BuckyBackupError;
use buckyos_backup::dir_scan::{
    hex_lower, small_file_hash, small_file_status, DirTally, FileScanStep, ScanConfig, ScanStatus,
};
use buckyos_backup::local_provider::{
    backup_item_for_chunk, inner_path_offset, path_join, restore_after_verify, restore_target_path,
    restore_write_step, RestoreWriteStep,
};
use buckyos_backup::sector::SectorBuilder;
use buckyos_backup::sector_store::{
    chunk_write_action, pack_sector, sector_chunk_rows, sector_upload_range, ChunkWriteAction,
    PendingChunk,
};

#[test]
fn full_hash_of_bytes_is_base58_sha256() {
    assert_eq!(FullHasher::calc_from_bytes(b"hello"), "42TEXg1vFAbcJ65y7qdYG9iCPvYfy3NDdVLd75akX2P5");
    assert_eq!(FullHasher::calc_from_bytes(b""), "GKot5hBsd81kMupNCXHaqbhv3huEbxAFMLnpcX2hniwn");
}

#[test]
fn full_hasher_fed_in_pieces_matches_one_shot() {
    let mut h = FullHasher::new();
    h.update_from_bytes(b"hello");
    h.update_from_bytes(b" world");
    assert_eq!(h.finalize(), "DULfJyE3WQqNxy3ymuhAChyNR3yufT88pmqvAazKFMG4");
    assert_eq!(FullHasher::calc_from_bytes(b"hello world"), "DULfJyE3WQqNxy3ymuhAChyNR3yufT88pmqvAazKFMG4");
}

#[test]
fn sha256_stream_digest_is_32_bytes() {
    let mut s = Sha256Stream::new();
    s.update(b"hello");
    let d = s.finalize();
    assert_eq!(hex_lower(&d), "2cf24dba5fb0a30e26e83b2ac5b9e29e1b161e5c1fa7425e73043362938b9824");
}

#[test]
fn quick_hasher_reads_short_content_whole() {
    let q = QuickHasher::default();
    assert_eq!(q.sample_reads(100), vec![(0, 100)]);
}

#[test]
fn quick_hasher_samples_long_content() {
    let q = QuickHasher::default();
    assert_eq!(q.sample_reads(4096), vec![(0, 4096), (4096, 4096)]);
    assert_eq!(q.sample_reads(10000), vec![(0, 10000), (4096, 10000), (8192, 10000), (10000, 10000)]);
    let reads = q.sample_reads(1_000_000);
    assert_eq!(reads[1], (10000, 1_000_000));
    assert_eq!(reads.len(), 101);
}

#[test]
fn hex_is_two_lower_digits_per_byte() {
    assert_eq!(hex_lower(&[0x00, 0xab, 0x0f, 0xf0]), "00ab0ff0");
    assert_eq!(hex_lower(&[]), "");
}

#[test]
fn small_file_hash_covers_mode_and_content_hash() {
    let h = small_file_hash(0, "abc");
    assert_eq!(h, "0a834ab04b1628b0b4ec20ca71e77f96a80431c1da87ebf07276c438b662206a");
    assert_eq!(h.len(), 64);
    assert_eq!(small_file_hash(0o755, "abc"), "5086038aa8caa63c17de4c3e427368a7dc058c7c94440835a30faecbd64c7ce2");
}

#[test]
fn small_file_status_compares_last_hash() {
    assert!(matches!(small_file_status(&None, "h"), ScanStatus::Completed));
    assert!(matches!(small_file_status(&Some(String::from("h")), "h"), ScanStatus::Completed));
    assert!(matches!(small_file_status(&Some(String::from("g")), "h"), ScanStatus::DiffPending));
    assert_eq!(ScanStatus::LargeFilePending.to_text(), "LargeFilePending");
}

#[test]
fn scan_config_default_sorts_files_by_size() {
    let c = ScanConfig::default();
    assert!(matches!(c.classify_file(0), FileScanStep::Small));
    assert!(matches!(c.classify_file(13), FileScanStep::Small));
    assert!(matches!(c.classify_file(1024), FileScanStep::Small));
    assert!(matches!(c.classify_file(100 * 1024 * 1024), FileScanStep::Small));
    assert!(matches!(c.classify_file(100 * 1024 * 1024 + 1), FileScanStep::Large));
    assert!(!c.is_under_root_dir("/tmp/x"));
}

#[test]
fn first_pass_counts_small_and_large_files_with_default_config() {
    let c = ScanConfig::default();
    let mut t = DirTally::new();
    t.add_subdir();
    for size in [13u64, 1024 * 1024, 19] {
        assert!(!matches!(c.classify_file(size), FileScanStep::Skip));
        t.add_file(size);
    }
    assert_eq!(t.files_count, 3);
    assert_eq!(t.subdirs_count, 1);
    assert!(t.total_size > 0);
}

#[test]
fn dir_tally_counts() {
    let mut t = DirTally::new();
    t.add_subdir();
    t.add_file(13);
    t.add_file(7);
    assert_eq!((t.total_size, t.files_count, t.subdirs_count), (20, 2, 1));
}

#[test]
fn chunk_item_takes_relative_path_and_offset() {
    let it = backup_item_for_chunk("/base", "/base/dir/file/1024:2048", String::from("c1"), 1024, 77)
        .ok()
        .unwrap();
    assert_eq!(it.item_id, "dir/file/1024:2048");
    assert_eq!(it.offset, 1024);
    assert_eq!(it.size, 1024);
    assert_eq!(it.last_update_time, 77);
    let small = backup_item_for_chunk("/base", "/base/dir/small", String::from("c2"), 5, 1).ok().unwrap();
    assert_eq!(small.offset, 0);
    let e = backup_item_for_chunk("/base", "/other/x", String::from("c3"), 1, 1).err().unwrap();
    assert_eq!(e, "relative path error: /other/x");
}

#[test]
fn inner_path_offset_reads_number_before_colon() {
    assert_eq!(inner_path_offset("a/b/300:400"), 300);
    assert_eq!(inner_path_offset("a/b/c"), 0);
    assert_eq!(inner_path_offset("noslash:1"), 0);
}

#[test]
fn restore_target_path_joins_location_and_file() {
    assert_eq!(restore_target_path("/restore", "docs/a.txt/0:10").ok().unwrap(), "/restore/docs/a.txt");
    assert_eq!(restore_target_path("file:///restore/", "b.txt").ok().unwrap(), "/restore/b.txt");
    assert_eq!(path_join("/r", "/abs"), "/abs");
    assert_eq!(path_join("", "x"), "x");
    assert_eq!(path_join("a", ""), "a/");
}

#[test]
fn restore_write_steps_follow_file_length() {
    assert!(matches!(restore_write_step(10, 20, 5), RestoreWriteStep::TryLater));
    assert!(matches!(restore_write_step(20, 20, 5), RestoreWriteStep::WriteAt));
    assert!(matches!(restore_write_step(22, 20, 5), RestoreWriteStep::WriteAt));
    assert!(matches!(restore_write_step(25, 20, 5), RestoreWriteStep::VerifyExisting));
    assert!(matches!(restore_after_verify(true, true), Some(BuckyBackupError::AlreadyDone(ref m)) if m.is_empty()));
    assert!(restore_after_verify(true, false).is_none());
    assert!(restore_after_verify(false, true).is_none());
}

#[test]
fn pack_sector_fills_up_to_the_limit() {
    let pending = vec![
        PendingChunk { chunk_id: vec![1u8; 32], allocated: 0, length: 40 },
        PendingChunk { chunk_id: vec![2u8; 32], allocated: 10, length: 100 },
        PendingChunk { chunk_id: vec![3u8; 32], allocated: 0, length: 5 },
    ];
    let b = pack_sector(100, &pending, false).unwrap();
    assert_eq!(b.length(), 100);
    let meta = b.build();
    let rows = sector_chunk_rows(&meta);
    assert_eq!(rows.len(), 2);
    assert_eq!((rows[0].offset_in_chunk, rows[0].length, rows[0].offset_in_sector), (0, 40, 0));
    assert_eq!((rows[1].offset_in_chunk, rows[1].length, rows[1].offset_in_sector), (10, 60, 40));
    assert_eq!(rows[1].chunk_id, vec![2u8; 32]);
}

#[test]
fn pack_sector_keeps_partial_sector_only_when_overtime() {
    let pending = vec![PendingChunk { chunk_id: vec![9u8; 32], allocated: 0, length: 10 }];
    assert!(pack_sector(100, &pending, false).is_none());
    let b = pack_sector(100, &pending, true).unwrap();
    assert_eq!(b.length(), 10);
}

#[test]
fn sector_upload_resumes_where_remote_stopped() {
    assert_eq!(sector_upload_range(100, None), (0, 100));
    assert_eq!(sector_upload_range(100, Some(30)), (30, 70));
    assert!(matches!(chunk_write_action(None), ChunkWriteAction::RegisterAndWrite));
    assert!(matches!(chunk_write_action(Some((true, Some(12)))), ChunkWriteAction::AlreadyWritten(12)));
    assert!(matches!(chunk_write_action(Some((false, None))), ChunkWriteAction::Write));
}

#[test]
fn chunk_cache_frees_what_was_added() {
    let mut m = ChunkTaskCacheMgr::new();
    assert_eq!(m.total_size, 1);
    assert_eq!(m.max_size, MAX_CACHE_SIZE);
    m.create_chunk_cache("c", 100).unwrap();
    assert_eq!(m.create_chunk_cache("c", 0).unwrap_err(), "Chunk cache already exists");
    assert_eq!(m.get_chunk_cache_node("c").unwrap().end_offset, 100);
    m.free_chunk_cache("c").unwrap();
    assert_eq!(m.free_chunk_cache("c").unwrap_err(), "Chunk cache not found");
    assert!(m.get_chunk_cache_node("c").is_none());
    assert_eq!(m.total_size, 1);
}

#[test]
fn chunk_cache_node_pieces_follow_each_other() {
    let mut m = ChunkTaskCacheMgr::new();
    m.create_chunk_cache("c", 10).unwrap();
    let node = m.get_chunk_cache_node("c").unwrap();
    assert_eq!(node.start_offset, 10);
    assert!(node.cache_pieces.is_empty());
    let mut n = ChunkCacheNode { start_offset: 10, end_offset: 10, cache_pieces: SegQueue::new() };
    n.add_piece(vec![1, 2, 3]);
    n.add_piece(vec![4]);
    assert_eq!(n.end_offset, 14);
    assert_eq!(n.free_piece_before_offset(12), 0);
    assert_eq!(n.cache_pieces.pop(), Some((10, vec![1, 2, 3])));
    assert_eq!(n.cache_pieces.pop(), Some((13, vec![4])));
}

#[test]
fn sector_builder_limit_is_kept_by_packing() {
    let b = SectorBuilder::new().with_length_limit(7);
    assert_eq!(b.length_limit(), 7);
}
