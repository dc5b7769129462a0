//! The decisions of a directory scan: which files are skipped, queued as
//! large or hashed at once, how a small file's hash is formed, and whether
//! it changed since the last scan.

use vstd::prelude::*;
use crate::crypto::sha256;
use vstd::string::StringSliceAdditionalSpecFns;
use crate::chunk::{Sha256Stream, sha256_stream_input};
use crate::fs_path::{path_starts_with, spec_path_starts_with};

verus! {

/// Where a file or directory is in the scan.
pub enum ScanStatus {
    Pending,
    SmallFileScanned,
    LargeFilePending,
    DiffPending,
    Completed,
    Failed,
    FirstPassCompleted,
}

/// The stored text of a status: its name.
pub open spec fn spec_scan_status_text(s: ScanStatus) -> Seq<char> {
    match s {
        ScanStatus::Pending => "Pending"@,
        ScanStatus::SmallFileScanned => "SmallFileScanned"@,
        ScanStatus::LargeFilePending => "LargeFilePending"@,
        ScanStatus::DiffPending => "DiffPending"@,
        ScanStatus::Completed => "Completed"@,
        ScanStatus::Failed => "Failed"@,
        ScanStatus::FirstPassCompleted => "FirstPassCompleted"@,
    }
}

impl ScanStatus {
    pub fn to_text(&self) -> (r: &'static str)
        ensures
            r@ == spec_scan_status_text(*self),
    {
        match self {
            ScanStatus::Pending => "Pending",
            ScanStatus::SmallFileScanned => "SmallFileScanned",
            ScanStatus::LargeFilePending => "LargeFilePending",
            ScanStatus::DiffPending => "DiffPending",
            ScanStatus::Completed => "Completed",
            ScanStatus::Failed => "Failed",
            ScanStatus::FirstPassCompleted => "FirstPassCompleted",
        }
    }
}

/// What a scan ignores and how it sorts files by size.
pub struct ScanConfig {
    ignore_patterns: Vec<String>,
    custom_ignore_file: Option<String>,
    respect_gitignore: bool,
    /// Smaller files are skipped.
    min_file_size: u64,
    /// Larger files are queued for the large-file pass.
    max_file_size: u64,
    root_dir: Option<String>,
}

impl ScanConfig {
    pub closed spec fn spec_min_file_size(&self) -> u64 {
        self.min_file_size
    }

    pub closed spec fn spec_max_file_size(&self) -> u64 {
        self.max_file_size
    }

    pub closed spec fn spec_ignore_patterns(&self) -> Seq<Seq<char>> {
        self.ignore_patterns@.map_values(|p: String| p@)
    }

    pub closed spec fn spec_respect_gitignore(&self) -> bool {
        self.respect_gitignore
    }

    pub closed spec fn spec_root_dir(&self) -> Option<Seq<char>> {
        match self.root_dir {
            Some(r) => Some(r@),
            None => None,
        }
    }

    pub closed spec fn spec_custom_ignore_file(&self) -> Option<Seq<char>> {
        match self.custom_ignore_file {
            Some(r) => Some(r@),
            None => None,
        }
    }

    /// Whether a path lies below the root directory; never without one.
    pub fn is_under_root_dir(&self, path: &str) -> (b: bool)
        ensures
            b == match self.spec_root_dir() {
                Some(r) => spec_path_starts_with(path@, r),
                None => false,
            },
    {
        match &self.root_dir {
            Some(root) => path_starts_with(path, root.as_str()),
            None => false,
        }
    }

    /// What the first pass does with a file of `size` bytes.
    pub fn classify_file(&self, size: u64) -> (r: FileScanStep)
        ensures
            size < self.spec_min_file_size() ==> r is Skip,
            size >= self.spec_min_file_size() && size > self.spec_max_file_size() ==> r is Large,
            size >= self.spec_min_file_size() && size <= self.spec_max_file_size() ==> r is Small,
    {
        if size < self.min_file_size {
            FileScanStep::Skip
        } else if size > self.max_file_size {
            FileScanStep::Large
        } else {
            FileScanStep::Small
        }
    }
}

impl Default for ScanConfig {
    /// Ignores `node_modules`, `target`, `.git`, `*.tmp` and `*.log`,
    /// respects `.gitignore`, counts files of every size (a file of a few
    /// bytes is scanned like any other) and queues files over 100 MiB as
    /// large.
    fn default() -> (c: ScanConfig)
        ensures
            c.spec_ignore_patterns() == seq![
                "node_modules"@,
                "target"@,
                ".git"@,
                "*.tmp"@,
                "*.log"@,
            ],
            c.spec_custom_ignore_file() is None,
            c.spec_respect_gitignore(),
            c.spec_min_file_size() == 0,
            c.spec_max_file_size() == 100 * 1024 * 1024,
            c.spec_root_dir() is None,
    {
        let mut ignore_patterns: Vec<String> = Vec::new();
        ignore_patterns.push(String::from_str("node_modules"));
        ignore_patterns.push(String::from_str("target"));
        ignore_patterns.push(String::from_str(".git"));
        ignore_patterns.push(String::from_str("*.tmp"));
        ignore_patterns.push(String::from_str("*.log"));
        let c = ScanConfig {
            ignore_patterns,
            custom_ignore_file: None,
            respect_gitignore: true,
            min_file_size: 0,
            max_file_size: 100 * 1024 * 1024,
            root_dir: None,
        };
        assert(c.spec_ignore_patterns() =~= seq![
            "node_modules"@,
            "target"@,
            ".git"@,
            "*.tmp"@,
            "*.log"@,
        ]);
        c
    }
}

/// What the first pass does with a file.
pub enum FileScanStep {
    /// Too small: not recorded.
    Skip,
    /// Recorded as pending for the large-file pass.
    Large,
    /// Recorded and hashed at once.
    Small,
}

/// The lower-case hexadecimal digit of a value below 16.
pub open spec fn spec_hex_digit(v: u8) -> char {
    if v < 10 {
        ('0' as u8 + v) as char
    } else {
        ('a' as u8 + (v - 10)) as char
    }
}

/// Lower-case hexadecimal text of bytes, two digits each (`{:x}` of a
/// digest).
pub open spec fn spec_hex(bytes: Seq<u8>) -> Seq<char>
    decreases bytes.len(),
{
    if bytes.len() == 0 {
        Seq::empty()
    } else {
        spec_hex(bytes.drop_last()) + seq![
            spec_hex_digit(bytes.last() / 16),
            spec_hex_digit(bytes.last() % 16),
        ]
    }
}

proof fn lemma_hex_len(bytes: Seq<u8>)
    ensures
        spec_hex(bytes).len() == 2 * bytes.len(),
    decreases bytes.len(),
{
    if bytes.len() > 0 {
        lemma_hex_len(bytes.drop_last());
    }
}

fn hex_digit(v: u8) -> (c: char)
    requires
        v < 16,
    ensures
        c == spec_hex_digit(v),
{
    if v < 10 {
        (('0' as u8) + v) as char
    } else {
        (('a' as u8) + (v - 10)) as char
    }
}

/// Hexadecimal text of bytes (see `spec_hex`).
pub fn hex_lower(bytes: &[u8]) -> (r: String)
    ensures
        r@ == spec_hex(bytes@),
        r@.len() == 2 * bytes@.len(),
{
    let mut out: Vec<char> = Vec::new();
    let mut i: usize = 0;
    assert(bytes@.take(0) =~= Seq::<u8>::empty());
    while i < bytes.len()
        invariant
            i <= bytes@.len(),
            out@ == spec_hex(bytes@.take(i as int)),
        decreases bytes.len() - i,
    {
        let b = bytes[i];
        out.push(hex_digit(b / 16));
        out.push(hex_digit(b % 16));
        assert(bytes@.take(i + 1).drop_last() =~= bytes@.take(i as int));
        i = i + 1;
    }
    assert(bytes@.take(bytes@.len() as int) =~= bytes@);
    proof {
        lemma_hex_len(bytes@);
    }
    crate::text::string_from_chars(out.as_slice())
}

/// The little-endian bytes of a mode.
pub open spec fn spec_u32_le(v: u32) -> Seq<u8> {
    seq![
        (v % 256) as u8,
        ((v / 256) % 256) as u8,
        ((v / 65536) % 256) as u8,
        ((v / 16777216) % 256) as u8,
    ]
}

/// The hash of a small file: the hexadecimal SHA-256 of its mode (4 bytes,
/// little-endian) followed by the bytes of its content hash text.
pub open spec fn spec_small_file_hash(mode: u32, content_hash: Seq<u8>) -> Seq<char> {
    spec_hex(sha256(spec_u32_le(mode) + content_hash))
}

/// Computes a small file's hash (see `spec_small_file_hash`).
pub fn small_file_hash(mode: u32, content_hash: &str) -> (r: String)
    ensures
        r@ == spec_small_file_hash(mode, content_hash.spec_bytes()),
        r@.len() == 64,
{
    let mut le: Vec<u8> = Vec::new();
    le.push((mode % 256) as u8);
    le.push(((mode / 256) % 256) as u8);
    le.push(((mode / 65536) % 256) as u8);
    le.push(((mode / 16777216) % 256) as u8);
    assert(le@ =~= spec_u32_le(mode));
    let mut hasher = Sha256Stream::new();
    hasher.update(le.as_slice());
    hasher.update(content_hash.as_bytes());
    assert(sha256_stream_input(hasher) =~= spec_u32_le(mode) + content_hash.spec_bytes());
    let digest = hasher.finalize();
    hex_lower(digest.as_slice())
}

/// The status of a hashed small file: a file whose last recorded hash
/// differs waits for a diff, any other is done.
pub fn small_file_status(last_hash: &Option<String>, final_hash: &str) -> (r: ScanStatus)
    ensures
        (last_hash matches Some(h) && h@ != final_hash@) ==> r is DiffPending,
        !(last_hash matches Some(h) && h@ != final_hash@) ==> r is Completed,
{
    match last_hash {
        Some(h) => {
            if crate::text::chars_eq(&crate::text::chars_of(h.as_str()), &crate::text::chars_of(final_hash)) {
                ScanStatus::Completed
            } else {
                ScanStatus::DiffPending
            }
        },
        None => ScanStatus::Completed,
    }
}

/// The totals of a scanned directory.
pub struct DirTally {
    pub total_size: u64,
    pub files_count: u32,
    pub subdirs_count: u32,
}

impl DirTally {
    pub fn new() -> (t: DirTally)
        ensures
            t.total_size == 0 && t.files_count == 0 && t.subdirs_count == 0,
    {
        DirTally { total_size: 0, files_count: 0, subdirs_count: 0 }
    }

    /// Counts a subdirectory.
    pub fn add_subdir(&mut self)
        requires
            old(self).subdirs_count < u32::MAX,
        ensures
            final(self).subdirs_count == old(self).subdirs_count + 1,
            final(self).total_size == old(self).total_size,
            final(self).files_count == old(self).files_count,
    {
        self.subdirs_count = self.subdirs_count + 1;
    }

    /// Counts a file that the scan keeps.
    pub fn add_file(&mut self, size: u64)
        requires
            old(self).files_count < u32::MAX,
            old(self).total_size + size <= u64::MAX,
        ensures
            final(self).total_size == old(self).total_size + size,
            final(self).files_count == old(self).files_count + 1,
            final(self).subdirs_count == old(self).subdirs_count,
    {
        self.total_size = self.total_size + size;
        self.files_count = self.files_count + 1;
    }
}

} // verus!
