//! One directory level of a backup, listed from the items of a checkpoint:
//! the directories and files directly below a base directory, with the
//! sizes and times of each file summed over its chunks, directories first
//! and then by case-insensitive name.

use vstd::prelude::*;
use crate::text::{
    chars_of, string_from_chars, extend_chars, spec_index_of, index_of_char, spec_string_views,
};
use crate::def::{BackupChunkItem, spec_starts_with, starts_with_chars};
use crate::task_query::{str_lowercase, to_lowercase};
use crate::path_helper::{
    ChunkInnerPathHelper, spec_backslash_to_slash, spec_normalize_virtual_path,
    spec_strip_chunk_suffix, spec_trim_start_slashes,
};

verus! {

/// Where an item lands in a listing.
pub enum Placement {
    /// Not below the base directory, or the base directory itself.
    Skip,
    /// Inside the named directory directly below the base.
    Dir(String),
    /// The named file directly below the base.
    File(String),
}

pub enum PlacementView {
    Skip,
    Dir(Seq<char>),
    File(Seq<char>),
}

impl View for Placement {
    type V = PlacementView;

    open spec fn view(&self) -> PlacementView {
        match self {
            Placement::Skip => PlacementView::Skip,
            Placement::Dir(n) => PlacementView::Dir(n@),
            Placement::File(n) => PlacementView::File(n@),
        }
    }
}

/// The base directory of a listing: the normalised subdirectory, when it
/// names one.
pub open spec fn spec_listing_base(subdir: Option<Seq<char>>) -> Option<Seq<char>> {
    match subdir {
        Some(s) => if spec_normalize_virtual_path(s).len() == 0 {
            None
        } else {
            Some(spec_normalize_virtual_path(s))
        },
        None => None,
    }
}

/// The path of an item relative to the base: its file path (chunk suffix
/// stripped, normalised), with the base and the slash after it removed.
/// Items outside the base, and the base itself, have none.
pub open spec fn spec_relative_path(item_id: Seq<char>, base: Option<Seq<char>>) -> Option<
    Seq<char>,
> {
    let cleaned = spec_strip_chunk_suffix(spec_backslash_to_slash(item_id));
    let normalized = spec_normalize_virtual_path(cleaned);
    if cleaned.len() == 0 || normalized.len() == 0 {
        None
    } else {
        match base {
            Some(b) => if normalized == b {
                None
            } else if spec_starts_with(normalized, b.push('/')) {
                let rest = spec_trim_start_slashes(normalized.skip(b.len() + 1 as int));
                if rest.len() == 0 {
                    None
                } else {
                    Some(rest)
                }
            } else {
                None
            },
            None => Some(normalized),
        }
    }
}

/// A relative path names a directory when a slash follows its first
/// segment, else a file; an empty first segment is skipped.
pub open spec fn spec_place_relative(rel: Seq<char>) -> PlacementView {
    if rel.len() == 0 {
        PlacementView::Skip
    } else {
        match spec_index_of(rel, '/') {
            Some(i) => if i == 0 {
                PlacementView::Skip
            } else {
                PlacementView::Dir(rel.take(i))
            },
            None => PlacementView::File(rel),
        }
    }
}

pub open spec fn spec_place_item(item_id: Seq<char>, base: Option<Seq<char>>) -> PlacementView {
    match spec_relative_path(item_id, base) {
        Some(rel) => spec_place_relative(rel),
        None => PlacementView::Skip,
    }
}

/// `s` from `start` on, without leading slashes.
fn trim_start_slashes_from(s: &Vec<char>, start: usize) -> (r: Vec<char>)
    requires
        start <= s@.len(),
    ensures
        r@ == spec_trim_start_slashes(s@.skip(start as int)),
{
    let n = s.len();
    let mut i = start;
    while i < n && s[i] == '/'
        invariant
            start <= i <= n == s@.len(),
            spec_trim_start_slashes(s@.skip(start as int)) == spec_trim_start_slashes(
                s@.skip(i as int),
            ),
        decreases n - i,
    {
        assert(s@.skip(i as int).drop_first() =~= s@.skip(i + 1));
        i = i + 1;
    }
    let mut r: Vec<char> = Vec::new();
    extend_chars(&mut r, s, i, n);
    assert(r@ =~= s@.skip(i as int));
    r
}

/// Places a relative path (see `spec_place_relative`).
fn place_relative(rel: &Vec<char>) -> (p: Placement)
    ensures
        p@ == spec_place_relative(rel@),
{
    if rel.len() == 0 {
        return Placement::Skip;
    }
    match index_of_char(rel, '/') {
        Some(i) => {
            if i == 0 {
                Placement::Skip
            } else {
                let mut first: Vec<char> = Vec::new();
                extend_chars(&mut first, rel, 0, i);
                assert(first@ =~= rel@.take(i as int));
                Placement::Dir(string_from_chars(&first))
            }
        },
        None => Placement::File(string_from_chars(rel)),
    }
}

/// The base directory of a listing (see `spec_listing_base`).
pub fn listing_base(subdir: Option<&str>) -> (b: Option<String>)
    ensures
        match subdir {
            Some(s) => match b {
                Some(x) => spec_listing_base(Some(s@)) == Some(x@),
                None => spec_listing_base(Some(s@)) is None,
            },
            None => b is None,
        },
{
    match subdir {
        Some(s) => {
            let n = ChunkInnerPathHelper::normalize_virtual_path(s);
            if n.as_str().is_empty() {
                None
            } else {
                Some(n)
            }
        },
        None => None,
    }
}

/// Where an item with this id lands in a listing of `base` (see
/// `spec_place_item`).
pub fn place_item(item_id: &str, base: &Option<String>) -> (p: Placement)
    ensures
        p@ == spec_place_item(
            item_id@,
            match base {
                Some(b) => Some(b@),
                None => None,
            },
        ),
{
    let ghost gbase: Option<Seq<char>> = match base {
        Some(b) => Some(b@),
        None => None,
    };
    let raw = chars_of(item_id);
    let mut slashed: Vec<char> = Vec::new();
    let mut i: usize = 0;
    while i < raw.len()
        invariant
            i <= raw@.len(),
            slashed@ == spec_backslash_to_slash(raw@.take(i as int)),
        decreases raw.len() - i,
    {
        let c = raw[i];
        slashed.push(if c == '\\' { '/' } else { c });
        assert(spec_backslash_to_slash(raw@.take(i + 1)) =~= spec_backslash_to_slash(
            raw@.take(i as int),
        ).push(if c == '\\' { '/' } else { c }));
        i = i + 1;
    }
    assert(raw@.take(raw@.len() as int) =~= raw@);
    let slashed_text = string_from_chars(&slashed);
    let cleaned = ChunkInnerPathHelper::strip_chunk_suffix(slashed_text.as_str());
    if cleaned.as_str().is_empty() {
        return Placement::Skip;
    }
    let normalized = ChunkInnerPathHelper::normalize_virtual_path(cleaned.as_str());
    if normalized.as_str().is_empty() {
        return Placement::Skip;
    }
    let norm = chars_of(normalized.as_str());
    match base {
        Some(b) => {
            if normalized == *b {
                return Placement::Skip;
            }
            let mut prefix = chars_of(b.as_str());
            prefix.push('/');
            if !starts_with_chars(&norm, &prefix) {
                return Placement::Skip;
            }
            let rest = trim_start_slashes_from(&norm, prefix.len());
            if rest.len() == 0 {
                return Placement::Skip;
            }
            assert(spec_relative_path(item_id@, gbase) == Some(rest@));
            place_relative(&rest)
        },
        None => {
            assert(spec_relative_path(item_id@, gbase) == Some(norm@));
            place_relative(&norm)
        },
    }
}

/// One line of a listing: a directory, or a file with the summed size of
/// its chunks and the earliest and latest change time among them.
pub struct ListedEntry {
    pub is_dir: bool,
    pub name: String,
    pub len: u64,
    pub create_time: u64,
    pub update_time: u64,
}

pub struct ListedEntryView {
    pub is_dir: bool,
    pub name: Seq<char>,
    pub len: u64,
    pub create_time: u64,
    pub update_time: u64,
}

impl View for ListedEntry {
    type V = ListedEntryView;

    open spec fn view(&self) -> ListedEntryView {
        ListedEntryView {
            is_dir: self.is_dir,
            name: self.name@,
            len: self.len,
            create_time: self.create_time,
            update_time: self.update_time,
        }
    }
}

pub open spec fn spec_entry_views(s: Seq<ListedEntry>) -> Seq<ListedEntryView> {
    s.map_values(|e: ListedEntry| e@)
}

pub open spec fn spec_option_view(o: Option<String>) -> Option<Seq<char>> {
    match o {
        Some(x) => Some(x@),
        None => None,
    }
}

/// The directories of a listing, each once, in the order their first item
/// comes.
pub open spec fn spec_listed_dirs(items: Seq<BackupChunkItem>, base: Option<Seq<char>>) -> Seq<
    Seq<char>,
>
    decreases items.len(),
{
    if items.len() == 0 {
        Seq::empty()
    } else {
        let prev = spec_listed_dirs(items.drop_last(), base);
        match spec_place_item(items.last().item_id@, base) {
            PlacementView::Dir(n) => if prev.contains(n) {
                prev
            } else {
                prev.push(n)
            },
            _ => prev,
        }
    }
}

/// Index of the first entry named `n`.
pub open spec fn spec_name_index(files: Seq<ListedEntryView>, n: Seq<char>) -> Option<int>
    decreases files.len(),
{
    if files.len() == 0 {
        None
    } else if files[0].name == n {
        Some(0)
    } else {
        match spec_name_index(files.drop_first(), n) {
            Some(i) => Some(i + 1),
            None => None,
        }
    }
}

/// `a + b`, or `u64::MAX` where that overflows (`u64::saturating_add`).
pub open spec fn spec_saturating_add(a: u64, b: u64) -> u64 {
    if a + b > u64::MAX {
        u64::MAX
    } else {
        (a + b) as u64
    }
}

/// The file entries after one more chunk of file `n`: its size is added
/// (saturating) and its time widens the file's time range; a file not
/// listed yet is appended.
pub open spec fn spec_add_chunk(files: Seq<ListedEntryView>, n: Seq<char>, size: u64, time: u64) -> Seq<
    ListedEntryView,
> {
    match spec_name_index(files, n) {
        Some(i) => files.update(
            i,
            ListedEntryView {
                is_dir: false,
                name: n,
                len: spec_saturating_add(files[i].len, size),
                create_time: if time < files[i].create_time {
                    time
                } else {
                    files[i].create_time
                },
                update_time: if time > files[i].update_time {
                    time
                } else {
                    files[i].update_time
                },
            },
        ),
        None => files.push(
            ListedEntryView { is_dir: false, name: n, len: size, create_time: time, update_time: time },
        ),
    }
}

/// The file entries of a listing, each file once, in the order its first
/// chunk comes.
pub open spec fn spec_listed_files(items: Seq<BackupChunkItem>, base: Option<Seq<char>>) -> Seq<
    ListedEntryView,
>
    decreases items.len(),
{
    if items.len() == 0 {
        Seq::empty()
    } else {
        let prev = spec_listed_files(items.drop_last(), base);
        match spec_place_item(items.last().item_id@, base) {
            PlacementView::File(n) => spec_add_chunk(
                prev,
                n,
                items.last().size,
                items.last().last_update_time,
            ),
            _ => prev,
        }
    }
}

/// What `spec_name_index` finds: the first entry with that name.
pub proof fn lemma_name_index(files: Seq<ListedEntryView>, n: Seq<char>)
    ensures
        match spec_name_index(files, n) {
            Some(i) => 0 <= i < files.len() && files[i].name == n && forall|k: int|
                0 <= k < i ==> (#[trigger] files[k]).name != n,
            None => forall|k: int| 0 <= k < files.len() ==> (#[trigger] files[k]).name != n,
        },
    decreases files.len(),
{
    if files.len() > 0 {
        lemma_name_index(files.drop_first(), n);
        if files[0].name != n {
            match spec_name_index(files.drop_first(), n) {
                Some(i) => {
                    assert forall|k: int| 0 <= k < i + 1 implies (#[trigger] files[k]).name != n by {
                        if k > 0 {
                            assert(files[k] == files.drop_first()[k - 1]);
                        }
                    }
                },
                None => {
                    assert forall|k: int| 0 <= k < files.len() implies (#[trigger] files[k]).name
                        != n by {
                        if k > 0 {
                            assert(files[k] == files.drop_first()[k - 1]);
                        }
                    }
                },
            }
        }
    }
}

/// Whether a directory name is listed already.
fn contains_name(dirs: &Vec<String>, n: &String) -> (b: bool)
    ensures
        b == spec_string_views(dirs@).contains(n@),
{
    let mut i: usize = 0;
    while i < dirs.len()
        invariant
            i <= dirs@.len(),
            forall|k: int| 0 <= k < i ==> (#[trigger] dirs@[k])@ != n@,
        decreases dirs.len() - i,
    {
        if dirs[i] == *n {
            assert(spec_string_views(dirs@)[i as int] == n@);
            return true;
        }
        i = i + 1;
    }
    assert forall|k: int| 0 <= k < spec_string_views(dirs@).len() implies spec_string_views(
        dirs@,
    )[k] != n@ by {
        assert(spec_string_views(dirs@)[k] == dirs@[k]@);
    }
    false
}

/// Index of the file entry named `n`.
fn find_file(files: &Vec<ListedEntry>, n: &String) -> (r: Option<usize>)
    ensures
        match r {
            Some(i) => spec_name_index(spec_entry_views(files@), n@) == Some(i as int),
            None => spec_name_index(spec_entry_views(files@), n@) is None,
        },
{
    let ghost v = spec_entry_views(files@);
    proof {
        lemma_name_index(v, n@);
    }
    let mut i: usize = 0;
    while i < files.len()
        invariant
            i <= files@.len(),
            v == spec_entry_views(files@),
            forall|k: int| 0 <= k < i ==> (#[trigger] v[k]).name != n@,
            match spec_name_index(v, n@) {
                Some(j) => 0 <= j < v.len() && v[j].name == n@ && forall|k: int|
                    0 <= k < j ==> (#[trigger] v[k]).name != n@,
                None => forall|k: int| 0 <= k < v.len() ==> (#[trigger] v[k]).name != n@,
            },
        decreases files.len() - i,
    {
        if files[i].name == *n {
            assert(v[i as int].name == n@);
            return Some(i);
        }
        assert(v[i as int].name != n@);
        i = i + 1;
    }
    None
}

/// The directories and file entries of the listing of `base` (see
/// `spec_listed_dirs` and `spec_listed_files`).
pub fn aggregate_listing(items: &Vec<BackupChunkItem>, base: &Option<String>) -> (r: (
    Vec<String>,
    Vec<ListedEntry>,
))
    ensures
        spec_string_views(r.0@) == spec_listed_dirs(items@, spec_option_view(*base)),
        spec_entry_views(r.1@) == spec_listed_files(items@, spec_option_view(*base)),
{
    let ghost gb = spec_option_view(*base);
    let mut dirs: Vec<String> = Vec::new();
    let mut files: Vec<ListedEntry> = Vec::new();
    let mut i: usize = 0;
    assert(items@.take(0) =~= Seq::<BackupChunkItem>::empty());
    assert(spec_string_views(dirs@) =~= Seq::<Seq<char>>::empty());
    assert(spec_entry_views(files@) =~= Seq::<ListedEntryView>::empty());
    while i < items.len()
        invariant
            i <= items@.len(),
            gb == spec_option_view(*base),
            spec_string_views(dirs@) == spec_listed_dirs(items@.take(i as int), gb),
            spec_entry_views(files@) == spec_listed_files(items@.take(i as int), gb),
        decreases items.len() - i,
    {
        let item = &items[i];
        let ghost before = items@.take(i as int);
        let ghost after = items@.take(i + 1);
        assert(after.drop_last() =~= before);
        assert(after.last() == items@[i as int]);
        let p = place_item(item.item_id.as_str(), base);
        match p {
            Placement::Dir(n) => {
                if !contains_name(&dirs, &n) {
                    let ghost old_dirs = dirs@;
                    dirs.push(n);
                    assert(spec_string_views(dirs@) =~= spec_string_views(old_dirs).push(
                        dirs@.last()@,
                    ));
                }
            },
            Placement::File(n) => {
                let ghost old_v = spec_entry_views(files@);
                proof {
                    lemma_name_index(old_v, n@);
                }
                match find_file(&files, &n) {
                    Some(j) => {
                        let cur_len = files[j].len;
                        let cur_min = files[j].create_time;
                        let cur_max = files[j].update_time;
                        let t = item.last_update_time;
                        let updated = ListedEntry {
                            is_dir: false,
                            name: n,
                            len: cur_len.saturating_add(item.size),
                            create_time: if t < cur_min {
                                t
                            } else {
                                cur_min
                            },
                            update_time: if t > cur_max {
                                t
                            } else {
                                cur_max
                            },
                        };
                        files.set(j, updated);
                        assert(spec_entry_views(files@) =~= spec_add_chunk(
                            old_v,
                            n@,
                            item.size,
                            t,
                        ));
                    },
                    None => {
                        let t = item.last_update_time;
                        files.push(
                            ListedEntry {
                                is_dir: false,
                                name: n,
                                len: item.size,
                                create_time: t,
                                update_time: t,
                            },
                        );
                        assert(spec_entry_views(files@) =~= spec_add_chunk(
                            old_v,
                            n@,
                            item.size,
                            t,
                        ));
                    },
                }
            },
            Placement::Skip => {},
        }
        i = i + 1;
    }
    assert(items@.take(items@.len() as int) =~= items@);
    (dirs, files)
}

/// Lexicographic order of character sequences, the order in which
/// `str::cmp` puts strings.
pub open spec fn spec_chars_le(a: Seq<char>, b: Seq<char>) -> bool
    decreases a.len(),
{
    if a.len() == 0 {
        true
    } else if b.len() == 0 {
        false
    } else if a[0] != b[0] {
        a[0] < b[0]
    } else {
        spec_chars_le(a.drop_first(), b.drop_first())
    }
}

pub proof fn lemma_chars_le_total(a: Seq<char>, b: Seq<char>)
    ensures
        spec_chars_le(a, b) || spec_chars_le(b, a),
    decreases a.len(),
{
    if a.len() > 0 && b.len() > 0 && a[0] == b[0] {
        lemma_chars_le_total(a.drop_first(), b.drop_first());
    }
}

pub proof fn lemma_chars_le_trans(a: Seq<char>, b: Seq<char>, c: Seq<char>)
    requires
        spec_chars_le(a, b),
        spec_chars_le(b, c),
    ensures
        spec_chars_le(a, c),
    decreases a.len(),
{
    if a.len() > 0 && b.len() > 0 && c.len() > 0 && a[0] == b[0] && b[0] == c[0] {
        lemma_chars_le_trans(a.drop_first(), b.drop_first(), c.drop_first());
    }
}

/// The order of a listing: directories before files, then by the
/// lower-case name.
pub open spec fn spec_entry_le(a: ListedEntryView, b: ListedEntryView) -> bool {
    if a.is_dir != b.is_dir {
        a.is_dir
    } else {
        spec_chars_le(str_lowercase(a.name), str_lowercase(b.name))
    }
}

pub proof fn lemma_entry_le_total(a: ListedEntryView, b: ListedEntryView)
    ensures
        spec_entry_le(a, b) || spec_entry_le(b, a),
{
    lemma_chars_le_total(str_lowercase(a.name), str_lowercase(b.name));
}

pub proof fn lemma_entry_le_trans(a: ListedEntryView, b: ListedEntryView, c: ListedEntryView)
    requires
        spec_entry_le(a, b),
        spec_entry_le(b, c),
    ensures
        spec_entry_le(a, c),
{
    if a.is_dir == b.is_dir && b.is_dir == c.is_dir {
        lemma_chars_le_trans(str_lowercase(a.name), str_lowercase(b.name), str_lowercase(c.name));
    }
}

/// Every entry is in order with every later one.
pub open spec fn spec_listing_sorted(s: Seq<ListedEntryView>) -> bool {
    forall|i: int, j: int| 0 <= i < j < s.len() ==> spec_entry_le(#[trigger] s[i], #[trigger] s[j])
}

/// Lexicographic comparison of two character vectors (see `spec_chars_le`).
pub(crate) fn chars_le(a: &Vec<char>, b: &Vec<char>) -> (r: bool)
    ensures
        r == spec_chars_le(a@, b@),
{
    let mut i: usize = 0;
    assert(a@.skip(0) =~= a@);
    assert(b@.skip(0) =~= b@);
    while i < a.len() && i < b.len() && a[i] == b[i]
        invariant
            i <= a@.len(),
            i <= b@.len(),
            spec_chars_le(a@, b@) == spec_chars_le(a@.skip(i as int), b@.skip(i as int)),
        decreases a.len() - i,
    {
        assert(a@.skip(i as int).drop_first() =~= a@.skip(i + 1));
        assert(b@.skip(i as int).drop_first() =~= b@.skip(i + 1));
        i = i + 1;
    }
    if i == a.len() {
        true
    } else if i == b.len() {
        false
    } else {
        assert(a@.skip(i as int)[0] == a@[i as int]);
        assert(b@.skip(i as int)[0] == b@[i as int]);
        a[i] < b[i]
    }
}

/// An entry with the lower-case characters of its name.
pub open spec fn spec_keyed_ok(k: (ListedEntry, Vec<char>)) -> bool {
    k.1@ == str_lowercase(k.0.name@)
}

pub open spec fn spec_keyed_views(s: Seq<(ListedEntry, Vec<char>)>) -> Seq<ListedEntryView> {
    s.map_values(|k: (ListedEntry, Vec<char>)| k.0@)
}

/// Whether `a` goes before or together with `b` (see `spec_entry_le`).
fn keyed_le(a: &(ListedEntry, Vec<char>), b: &(ListedEntry, Vec<char>)) -> (r: bool)
    requires
        spec_keyed_ok(*a),
        spec_keyed_ok(*b),
    ensures
        r == spec_entry_le(a.0@, b.0@),
{
    if a.0.is_dir != b.0.is_dir {
        a.0.is_dir
    } else {
        chars_le(&a.1, &b.1)
    }
}

/// Sorts a listing: directories first, then by lower-case name; entries
/// that compare equal keep their order.
pub fn sort_listing(entries: Vec<ListedEntry>) -> (r: Vec<ListedEntry>)
    ensures
        spec_listing_sorted(spec_entry_views(r@)),
        spec_entry_views(r@).to_multiset() == spec_entry_views(entries@).to_multiset(),
{
    let ghost orig = spec_entry_views(entries@);
    let mut work: Vec<(ListedEntry, Vec<char>)> = Vec::new();
    let mut source = entries;
    let ghost src0 = source@;
    // Pair each entry with the characters of its lower-case name.
    let mut i: usize = 0;
    while source.len() > 0
        invariant
            orig == spec_entry_views(src0),
            spec_keyed_views(work@) + spec_entry_views(source@) == orig,
            forall|k: int| 0 <= k < work@.len() ==> spec_keyed_ok(#[trigger] work@[k]),
        decreases source.len(),
    {
        let ghost before_w = work@;
        let ghost before_s = source@;
        let e = source.remove(0);
        let lower = to_lowercase(e.name.as_str());
        let key = chars_of(lower.as_str());
        work.push((e, key));
        assert(spec_keyed_views(work@) =~= spec_keyed_views(before_w).push(e@));
        assert(spec_entry_views(before_s) =~= seq![e@] + spec_entry_views(source@));
        assert(spec_keyed_views(work@) + spec_entry_views(source@) =~= spec_keyed_views(before_w)
            + spec_entry_views(before_s));
    }
    assert(spec_keyed_views(work@) =~= orig);
    let mut out: Vec<ListedEntry> = Vec::new();
    proof {
        vstd::seq_lib::to_multiset_len(spec_entry_views(out@));
        vstd::multiset::lemma_multiset_empty_len(spec_entry_views(out@).to_multiset());
        assert(spec_entry_views(out@).to_multiset().add(spec_keyed_views(work@).to_multiset())
            =~= orig.to_multiset());
    }
    while work.len() > 0
        invariant
            spec_entry_views(out@).to_multiset().add(spec_keyed_views(work@).to_multiset())
                == orig.to_multiset(),
            forall|k: int| 0 <= k < work@.len() ==> spec_keyed_ok(#[trigger] work@[k]),
            spec_listing_sorted(spec_entry_views(out@)),
            forall|a: int, b: int|
                0 <= a < out@.len() && 0 <= b < work@.len() ==> spec_entry_le(
                    #[trigger] out@[a]@,
                    #[trigger] work@[b].0@,
                ),
        decreases work.len(),
    {
        // Find the first smallest entry.
        let mut best: usize = 0;
        let mut j: usize = 1;
        proof {
            lemma_entry_le_total(work@[0].0@, work@[0].0@);
        }
        while j < work.len()
            invariant
                1 <= j <= work@.len(),
                best < j,
                forall|k: int| 0 <= k < work@.len() ==> spec_keyed_ok(#[trigger] work@[k]),
                forall|k: int|
                    0 <= k < j ==> spec_entry_le(work@[best as int].0@, #[trigger] work@[k].0@),
            decreases work.len() - j,
        {
            if !keyed_le(&work[best], &work[j]) {
                proof {
                    lemma_entry_le_total(work@[best as int].0@, work@[j as int].0@);
                    assert forall|k: int| 0 <= k < j + 1 implies spec_entry_le(
                        work@[j as int].0@,
                        #[trigger] work@[k].0@,
                    ) by {
                        if k < j {
                            lemma_entry_le_trans(
                                work@[j as int].0@,
                                work@[best as int].0@,
                                work@[k].0@,
                            );
                        } else {
                            lemma_entry_le_total(work@[j as int].0@, work@[j as int].0@);
                        }
                    }
                }
                best = j;
            } else {
                proof {
                    lemma_entry_le_total(work@[best as int].0@, work@[best as int].0@);
                }
            }
            j = j + 1;
        }
        proof {
            lemma_entry_le_total(work@[best as int].0@, work@[best as int].0@);
        }
        let ghost w = work@;
        let ghost o = out@;
        let (e, _key) = work.remove(best);
        proof {
            assert(spec_keyed_views(work@) =~= spec_keyed_views(w).remove(best as int));
            vstd::seq_lib::to_multiset_remove(spec_keyed_views(w), best as int);
            assert(spec_keyed_views(w)[best as int] == e@);
        }
        out.push(e);
        proof {
            assert(spec_entry_views(out@) =~= spec_entry_views(o).push(e@));
            vstd::seq_lib::to_multiset_build(spec_entry_views(o), e@);
            assert(spec_keyed_views(w).to_multiset().count(e@) > 0) by {
                vstd::seq_lib::to_multiset_contains(spec_keyed_views(w), e@);
                assert(spec_keyed_views(w).contains(e@));
            }
            assert(spec_entry_views(out@).to_multiset().add(spec_keyed_views(work@).to_multiset())
                =~= orig.to_multiset());
            assert forall|a: int, b: int| 0 <= a < b < spec_entry_views(out@).len() implies spec_entry_le(
                #[trigger] spec_entry_views(out@)[a],
                #[trigger] spec_entry_views(out@)[b],
            ) by {
                if b == out@.len() - 1 {
                    assert(spec_entry_views(out@)[b] == w[best as int].0@);
                    assert(spec_entry_views(out@)[a] == o[a]@);
                } else {
                    assert(spec_entry_views(out@)[a] == spec_entry_views(o)[a]);
                    assert(spec_entry_views(out@)[b] == spec_entry_views(o)[b]);
                }
            }
            assert forall|a: int, b: int| 0 <= a < out@.len() && 0 <= b < work@.len() implies spec_entry_le(
                #[trigger] out@[a]@,
                #[trigger] work@[b].0@,
            ) by {
                let ob = if b < best { b } else { b + 1 };
                assert(work@[b] == w[ob]);
                if a < o.len() {
                    assert(out@[a] == o[a]);
                } else {
                    assert(out@[a]@ == w[best as int].0@);
                }
            }
        }
    }
    proof {
        vstd::seq_lib::to_multiset_len(spec_keyed_views(work@));
        vstd::multiset::lemma_multiset_empty_len(spec_keyed_views(work@).to_multiset());
    }
    assert(spec_entry_views(out@).to_multiset() =~= orig.to_multiset());
    out
}

/// The entry of a directory in a listing.
pub open spec fn spec_dir_entry(n: Seq<char>) -> ListedEntryView {
    ListedEntryView { is_dir: true, name: n, len: 0, create_time: 0, update_time: 0 }
}

/// The entries of the listing of `base`, before sorting: its directories,
/// then its files.
pub open spec fn spec_listing_entries(items: Seq<BackupChunkItem>, base: Option<Seq<char>>) -> Seq<
    ListedEntryView,
> {
    spec_listed_dirs(items, base).map_values(|n: Seq<char>| spec_dir_entry(n)) + spec_listed_files(
        items,
        base,
    )
}

pub open spec fn spec_str_option_view(o: Option<&str>) -> Option<Seq<char>> {
    match o {
        Some(x) => Some(x@),
        None => None,
    }
}

/// Lists the directories and files directly below `subdir` (the whole
/// backup when it is `None` or normalises to nothing), directories first,
/// then by lower-case name.
pub fn list_directory(items: &Vec<BackupChunkItem>, subdir: Option<&str>) -> (r: Vec<ListedEntry>)
    ensures
        spec_listing_sorted(spec_entry_views(r@)),
        spec_entry_views(r@).to_multiset() == spec_listing_entries(
            items@,
            spec_listing_base(spec_str_option_view(subdir)),
        ).to_multiset(),
{
    let base = listing_base(subdir);
    let ghost gb = spec_listing_base(spec_str_option_view(subdir));
    assert(spec_option_view(base) == gb);
    let (dirs, files) = aggregate_listing(items, &base);
    let mut entries: Vec<ListedEntry> = Vec::new();
    let mut i: usize = 0;
    while i < dirs.len()
        invariant
            i <= dirs@.len(),
            spec_entry_views(entries@) == spec_string_views(dirs@).take(i as int).map_values(
                |n: Seq<char>| spec_dir_entry(n),
            ),
        decreases dirs.len() - i,
    {
        let ghost before = entries@;
        entries.push(
            ListedEntry {
                is_dir: true,
                name: dirs[i].clone(),
                len: 0,
                create_time: 0,
                update_time: 0,
            },
        );
        assert(before.len() == spec_entry_views(before).len());
        assert(entries@[before.len() as int]@ == spec_dir_entry(dirs@[i as int]@));
        assert(spec_entry_views(entries@) =~= spec_entry_views(before).push(
            spec_dir_entry(dirs@[i as int]@),
        ));
        assert(spec_string_views(dirs@).take(i + 1) =~= spec_string_views(dirs@).take(
            i as int,
        ).push(dirs@[i as int]@));
        assert(spec_entry_views(entries@) =~= spec_string_views(dirs@).take(i + 1).map_values(
            |n: Seq<char>| spec_dir_entry(n),
        ));
        i = i + 1;
    }
    assert(spec_string_views(dirs@).take(dirs@.len() as int) =~= spec_string_views(dirs@));
    let ghost dir_part = spec_entry_views(entries@);
    let mut k: usize = 0;
    while k < files.len()
        invariant
            k <= files@.len(),
            spec_entry_views(entries@) == dir_part + spec_entry_views(files@).take(k as int),
        decreases files.len() - k,
    {
        let f = &files[k];
        let ghost before = entries@;
        entries.push(
            ListedEntry {
                is_dir: f.is_dir,
                name: f.name.clone(),
                len: f.len,
                create_time: f.create_time,
                update_time: f.update_time,
            },
        );
        assert(entries@[entries@.len() - 1]@ == files@[k as int]@);
        assert(spec_entry_views(entries@) =~= spec_entry_views(before).push(files@[k as int]@));
        assert(spec_entry_views(files@).take(k + 1) =~= spec_entry_views(files@).take(k as int).push(
            files@[k as int]@,
        ));
        assert(spec_entry_views(entries@) =~= dir_part + spec_entry_views(files@).take(k + 1));
        k = k + 1;
    }
    assert(spec_entry_views(files@).take(files@.len() as int) =~= spec_entry_views(files@));
    assert(spec_entry_views(entries@) =~= spec_listing_entries(items@, gb));
    sort_listing(entries)
}

/// A listing names each directory once and each file once, and the time
/// range of every file is ordered: its earliest change comes no later than
/// its latest.
pub proof fn law_listing_entries_distinct(items: Seq<BackupChunkItem>, base: Option<Seq<char>>)
    ensures
        forall|i: int, j: int|
            0 <= i < j < spec_listed_dirs(items, base).len() ==> (#[trigger] spec_listed_dirs(
                items,
                base,
            )[i]) != (#[trigger] spec_listed_dirs(items, base)[j]),
        forall|i: int, j: int|
            0 <= i < j < spec_listed_files(items, base).len() ==> (#[trigger] spec_listed_files(
                items,
                base,
            )[i]).name != (#[trigger] spec_listed_files(items, base)[j]).name,
        forall|i: int|
            0 <= i < spec_listed_files(items, base).len() ==> !(#[trigger] spec_listed_files(
                items,
                base,
            )[i]).is_dir && spec_listed_files(items, base)[i].create_time <= spec_listed_files(
                items,
                base,
            )[i].update_time,
    decreases items.len(),
{
    if items.len() > 0 {
        law_listing_entries_distinct(items.drop_last(), base);
        let pd = spec_listed_dirs(items.drop_last(), base);
        let pf = spec_listed_files(items.drop_last(), base);
        let d = spec_listed_dirs(items, base);
        let f = spec_listed_files(items, base);
        match spec_place_item(items.last().item_id@, base) {
            PlacementView::Dir(n) => {
                if !pd.contains(n) {
                    assert forall|i: int, j: int| 0 <= i < j < d.len() implies (#[trigger] d[i])
                        != (#[trigger] d[j]) by {
                        if j == d.len() - 1 {
                            assert(d[i] == pd[i]);
                            assert(pd[i] != n);
                        } else {
                            assert(d[i] == pd[i] && d[j] == pd[j]);
                        }
                    }
                }
                assert(f == pf);
            },
            PlacementView::File(n) => {
                assert(d == pd);
                lemma_name_index(pf, n);
                let it = items.last();
                match spec_name_index(pf, n) {
                    Some(k) => {
                        assert forall|i: int| 0 <= i < f.len() implies (#[trigger] f[i]).name
                            == pf[i].name by {}
                        assert forall|i: int, j: int| 0 <= i < j < f.len() implies (
                        #[trigger] f[i]).name != (#[trigger] f[j]).name by {
                            assert(f[i].name == pf[i].name && f[j].name == pf[j].name);
                        }
                    },
                    None => {
                        assert forall|i: int, j: int| 0 <= i < j < f.len() implies (
                        #[trigger] f[i]).name != (#[trigger] f[j]).name by {
                            if j == f.len() - 1 {
                                assert(f[i] == pf[i]);
                            } else {
                                assert(f[i] == pf[i] && f[j] == pf[j]);
                            }
                        }
                        assert forall|i: int| 0 <= i < f.len() implies !(#[trigger] f[i]).is_dir
                            && f[i].create_time <= f[i].update_time by {
                            if i < f.len() - 1 {
                                assert(f[i] == pf[i]);
                            }
                        }
                    },
                }
            },
            PlacementView::Skip => {
                assert(d == pd);
                assert(f == pf);
            },
        }
    }
}

} // verus!
