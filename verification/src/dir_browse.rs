//! Browsing the local file system for a backup source: the kind of each
//! directory entry, the entries a request asks for, and their order.

use vstd::prelude::*;
use crate::text::{chars_of, spec_string_views};
use crate::fs_path::{path_eq, spec_path_eq, parent_path, spec_parent, spec_is_absolute};
use crate::local_provider::{path_join, spec_path_join};
use crate::json::{JsonValue, spec_get, spec_member};
use crate::rpc_params::{RpcError, RpcErrorView, parse_error};
use crate::task_flow::{str_trim, trim_text};
use crate::task_query::{str_lowercase, to_lowercase};
use crate::file_listing::{spec_chars_le, lemma_chars_le_total, lemma_chars_le_trans};

verus! {

/// What a directory entry is.
pub enum DirectoryEntryType {
    Directory,
    File,
    Link,
    Other,
}

/// What a link finally points to.
#[derive(Clone, Copy, PartialEq, Eq, Structural)]
pub enum ResolvedTargetType {
    Directory,
    File,
}

/// An entry of a directory: its name, kind, and for a link what it points
/// to (when that is known).
pub struct DirectoryEntry {
    pub name: String,
    pub entry_type: DirectoryEntryType,
    pub target_type: Option<ResolvedTargetType>,
}

pub struct DirectoryEntryView {
    pub name: Seq<char>,
    pub entry_type: DirectoryEntryType,
    pub target_type: Option<ResolvedTargetType>,
}

impl View for DirectoryEntry {
    type V = DirectoryEntryView;

    open spec fn view(&self) -> DirectoryEntryView {
        DirectoryEntryView { name: self.name@, entry_type: self.entry_type, target_type: self.target_type }
    }
}

/// A directory, or a link to one.
pub open spec fn spec_is_directory_like(e: DirectoryEntryView) -> bool {
    match e.entry_type {
        DirectoryEntryType::Directory => true,
        DirectoryEntryType::Link => e.target_type matches Some(ResolvedTargetType::Directory),
        _ => false,
    }
}

/// A file, or a link to one.
pub open spec fn spec_is_file_like(e: DirectoryEntryView) -> bool {
    match e.entry_type {
        DirectoryEntryType::File => true,
        DirectoryEntryType::Link => e.target_type matches Some(ResolvedTargetType::File),
        _ => false,
    }
}

/// A child in a browse answer: its name and whether it can be entered.
pub struct DirectoryChild {
    pub name: String,
    pub is_directory: bool,
}

impl DirectoryEntry {
    pub fn is_directory_like(&self) -> (b: bool)
        ensures
            b == spec_is_directory_like(self@),
    {
        match self.entry_type {
            DirectoryEntryType::Directory => true,
            DirectoryEntryType::Link => match self.target_type {
                Some(ResolvedTargetType::Directory) => true,
                _ => false,
            },
            _ => false,
        }
    }

    pub fn is_file_like(&self) -> (b: bool)
        ensures
            b == spec_is_file_like(self@),
    {
        match self.entry_type {
            DirectoryEntryType::File => true,
            DirectoryEntryType::Link => match self.target_type {
                Some(ResolvedTargetType::File) => true,
                _ => false,
            },
            _ => false,
        }
    }

    pub fn into_child(self) -> (c: DirectoryChild)
        ensures
            c.name@ == self.name@,
            c.is_directory == spec_is_directory_like(self@),
    {
        let is_directory = self.is_directory_like();
        DirectoryChild { name: self.name, is_directory }
    }
}

pub open spec fn spec_dir_entry_views(s: Seq<DirectoryEntry>) -> Seq<DirectoryEntryView> {
    s.map_values(|e: DirectoryEntry| e@)
}

/// The order of a browse answer: directory-like entries first, then by the
/// lower-case name.
pub open spec fn spec_dir_entry_le(a: DirectoryEntryView, b: DirectoryEntryView) -> bool {
    if spec_is_directory_like(a) != spec_is_directory_like(b) {
        spec_is_directory_like(a)
    } else {
        spec_chars_le(str_lowercase(a.name), str_lowercase(b.name))
    }
}

pub proof fn lemma_dir_entry_le_total(a: DirectoryEntryView, b: DirectoryEntryView)
    ensures
        spec_dir_entry_le(a, b) || spec_dir_entry_le(b, a),
{
    lemma_chars_le_total(str_lowercase(a.name), str_lowercase(b.name));
}

pub proof fn lemma_dir_entry_le_trans(a: DirectoryEntryView, b: DirectoryEntryView, c: DirectoryEntryView)
    requires
        spec_dir_entry_le(a, b),
        spec_dir_entry_le(b, c),
    ensures
        spec_dir_entry_le(a, c),
{
    if spec_is_directory_like(a) == spec_is_directory_like(b) && spec_is_directory_like(b)
        == spec_is_directory_like(c) {
        lemma_chars_le_trans(str_lowercase(a.name), str_lowercase(b.name), str_lowercase(c.name));
    }
}

/// Every entry is in order with every later one.
pub open spec fn spec_dir_sorted(s: Seq<DirectoryEntryView>) -> bool {
    forall|i: int, j: int| 0 <= i < j < s.len() ==> spec_dir_entry_le(#[trigger] s[i], #[trigger] s[j])
}

/// An entry with the lower-case characters of its name.
pub open spec fn spec_dir_keyed_ok(k: (DirectoryEntry, Vec<char>)) -> bool {
    k.1@ == str_lowercase(k.0.name@)
}

pub open spec fn spec_dir_keyed_views(s: Seq<(DirectoryEntry, Vec<char>)>) -> Seq<DirectoryEntryView> {
    s.map_values(|k: (DirectoryEntry, Vec<char>)| k.0@)
}

/// Whether `a` goes before or together with `b` (see `spec_dir_entry_le`).
fn dir_keyed_le(a: &(DirectoryEntry, Vec<char>), b: &(DirectoryEntry, Vec<char>)) -> (r: bool)
    requires
        spec_dir_keyed_ok(*a),
        spec_dir_keyed_ok(*b),
    ensures
        r == spec_dir_entry_le(a.0@, b.0@),
{
    let da = a.0.is_directory_like();
    let db = b.0.is_directory_like();
    if da != db {
        da
    } else {
        crate::file_listing::chars_le(&a.1, &b.1)
    }
}

/// Sorts directory entries: directory-like ones first, then by lower-case
/// name; entries that compare equal keep their order.
pub fn sort_directory_entries(entries: Vec<DirectoryEntry>) -> (r: Vec<DirectoryEntry>)
    ensures
        spec_dir_sorted(spec_dir_entry_views(r@)),
        spec_dir_entry_views(r@).to_multiset() == spec_dir_entry_views(entries@).to_multiset(),
{
    let ghost orig = spec_dir_entry_views(entries@);
    let mut work: Vec<(DirectoryEntry, Vec<char>)> = Vec::new();
    let mut source = entries;
    let ghost src0 = source@;
    // Pair each entry with the characters of its lower-case name.
    let mut i: usize = 0;
    while source.len() > 0
        invariant
            orig == spec_dir_entry_views(src0),
            spec_dir_keyed_views(work@) + spec_dir_entry_views(source@) == orig,
            forall|k: int| 0 <= k < work@.len() ==> spec_dir_keyed_ok(#[trigger] work@[k]),
        decreases source.len(),
    {
        let ghost before_w = work@;
        let ghost before_s = source@;
        let e = source.remove(0);
        let lower = to_lowercase(e.name.as_str());
        let key = chars_of(lower.as_str());
        work.push((e, key));
        assert(spec_dir_keyed_views(work@) =~= spec_dir_keyed_views(before_w).push(e@));
        assert(spec_dir_entry_views(before_s) =~= seq![e@] + spec_dir_entry_views(source@));
        assert(spec_dir_keyed_views(work@) + spec_dir_entry_views(source@) =~= spec_dir_keyed_views(before_w)
            + spec_dir_entry_views(before_s));
    }
    assert(spec_dir_keyed_views(work@) =~= orig);
    let mut out: Vec<DirectoryEntry> = Vec::new();
    proof {
        vstd::seq_lib::to_multiset_len(spec_dir_entry_views(out@));
        vstd::multiset::lemma_multiset_empty_len(spec_dir_entry_views(out@).to_multiset());
        assert(spec_dir_entry_views(out@).to_multiset().add(spec_dir_keyed_views(work@).to_multiset())
            =~= orig.to_multiset());
    }
    while work.len() > 0
        invariant
            spec_dir_entry_views(out@).to_multiset().add(spec_dir_keyed_views(work@).to_multiset())
                == orig.to_multiset(),
            forall|k: int| 0 <= k < work@.len() ==> spec_dir_keyed_ok(#[trigger] work@[k]),
            spec_dir_sorted(spec_dir_entry_views(out@)),
            forall|a: int, b: int|
                0 <= a < out@.len() && 0 <= b < work@.len() ==> spec_dir_entry_le(
                    #[trigger] out@[a]@,
                    #[trigger] work@[b].0@,
                ),
        decreases work.len(),
    {
        // Find the first smallest entry.
        let mut best: usize = 0;
        let mut j: usize = 1;
        proof {
            lemma_dir_entry_le_total(work@[0].0@, work@[0].0@);
        }
        while j < work.len()
            invariant
                1 <= j <= work@.len(),
                best < j,
                forall|k: int| 0 <= k < work@.len() ==> spec_dir_keyed_ok(#[trigger] work@[k]),
                forall|k: int|
                    0 <= k < j ==> spec_dir_entry_le(work@[best as int].0@, #[trigger] work@[k].0@),
            decreases work.len() - j,
        {
            if !dir_keyed_le(&work[best], &work[j]) {
                proof {
                    lemma_dir_entry_le_total(work@[best as int].0@, work@[j as int].0@);
                    assert forall|k: int| 0 <= k < j + 1 implies spec_dir_entry_le(
                        work@[j as int].0@,
                        #[trigger] work@[k].0@,
                    ) by {
                        if k < j {
                            lemma_dir_entry_le_trans(
                                work@[j as int].0@,
                                work@[best as int].0@,
                                work@[k].0@,
                            );
                        } else {
                            lemma_dir_entry_le_total(work@[j as int].0@, work@[j as int].0@);
                        }
                    }
                }
                best = j;
            } else {
                proof {
                    lemma_dir_entry_le_total(work@[best as int].0@, work@[best as int].0@);
                }
            }
            j = j + 1;
        }
        proof {
            lemma_dir_entry_le_total(work@[best as int].0@, work@[best as int].0@);
        }
        let ghost w = work@;
        let ghost o = out@;
        let (e, _key) = work.remove(best);
        proof {
            assert(spec_dir_keyed_views(work@) =~= spec_dir_keyed_views(w).remove(best as int));
            vstd::seq_lib::to_multiset_remove(spec_dir_keyed_views(w), best as int);
            assert(spec_dir_keyed_views(w)[best as int] == e@);
        }
        out.push(e);
        proof {
            assert(spec_dir_entry_views(out@) =~= spec_dir_entry_views(o).push(e@));
            vstd::seq_lib::to_multiset_build(spec_dir_entry_views(o), e@);
            assert(spec_dir_keyed_views(w).to_multiset().count(e@) > 0) by {
                vstd::seq_lib::to_multiset_contains(spec_dir_keyed_views(w), e@);
                assert(spec_dir_keyed_views(w).contains(e@));
            }
            assert(spec_dir_entry_views(out@).to_multiset().add(spec_dir_keyed_views(work@).to_multiset())
                =~= orig.to_multiset());
            assert forall|a: int, b: int| 0 <= a < b < spec_dir_entry_views(out@).len() implies spec_dir_entry_le(
                #[trigger] spec_dir_entry_views(out@)[a],
                #[trigger] spec_dir_entry_views(out@)[b],
            ) by {
                if b == out@.len() - 1 {
                    assert(spec_dir_entry_views(out@)[b] == w[best as int].0@);
                    assert(spec_dir_entry_views(out@)[a] == o[a]@);
                } else {
                    assert(spec_dir_entry_views(out@)[a] == spec_dir_entry_views(o)[a]);
                    assert(spec_dir_entry_views(out@)[b] == spec_dir_entry_views(o)[b]);
                }
            }
            assert forall|a: int, b: int| 0 <= a < out@.len() && 0 <= b < work@.len() implies spec_dir_entry_le(
                #[trigger] out@[a]@,
                #[trigger] work@[b].0@,
            ) by {
                let ob = if b < best { b } else { b + 1 };
                assert(work@[b] == w[ob]);
                if a < o.len() {
                    assert(out@[a] == o[a]);
                } else {
                    assert(out@[a]@ == w[best as int].0@);
                }
            }
        }
    }
    proof {
        vstd::seq_lib::to_multiset_len(spec_dir_keyed_views(work@));
        vstd::multiset::lemma_multiset_empty_len(spec_dir_keyed_views(work@).to_multiset());
    }
    assert(spec_dir_entry_views(out@).to_multiset() =~= orig.to_multiset());
    out
}


/// Which children a browse request wants.
pub struct ListDirectoryOptions {
    pub only_dirs: bool,
    pub only_files: bool,
}

/// A flag of the options: false when absent; only a boolean is accepted.
pub open spec fn spec_flag(v: Option<JsonValue>) -> Option<bool> {
    match v {
        None => Some(false),
        Some(JsonValue::Bool(b)) => Some(b),
        Some(_) => None,
    }
}

/// The options a value reads as, the way a struct with defaulted boolean
/// fields is deserialised: an object by field name, or an array of at most
/// two booleans in field order; anything else is refused.
pub open spec fn spec_browse_options(v: JsonValue) -> Option<(bool, bool)> {
    match v {
        JsonValue::Object(m) => match (
            spec_flag(spec_member(m@, "only_dirs"@)),
            spec_flag(spec_member(m@, "only_files"@)),
        ) {
            (Some(a), Some(b)) => Some((a, b)),
            _ => None,
        },
        JsonValue::Array(items) => if items@.len() > 2 {
            None
        } else {
            match (
                spec_flag(if items@.len() > 0 { Some(items@[0]) } else { None }),
                spec_flag(if items@.len() > 1 { Some(items@[1]) } else { None }),
            ) {
                (Some(a), Some(b)) => Some((a, b)),
                _ => None,
            }
        },
        _ => None,
    }
}

fn flag(v: Option<&JsonValue>) -> (r: Option<bool>)
    ensures
        r == spec_flag(
            match v {
                Some(x) => Some(*x),
                None => None,
            },
        ),
{
    match v {
        None => Some(false),
        Some(JsonValue::Bool(b)) => Some(*b),
        Some(_) => None,
    }
}

fn browse_options(v: &JsonValue) -> (r: Option<ListDirectoryOptions>)
    ensures
        match r {
            Some(o) => spec_browse_options(*v) == Some((o.only_dirs, o.only_files)),
            None => spec_browse_options(*v) is None,
        },
{
    let (a, b) = match v {
        JsonValue::Object(_) => (flag(v.get("only_dirs")), flag(v.get("only_files"))),
        JsonValue::Array(items) => {
            if items.len() > 2 {
                return None;
            }
            let first = if items.len() > 0 {
                Some(&items[0])
            } else {
                None
            };
            let second = if items.len() > 1 {
                Some(&items[1])
            } else {
                None
            };
            (flag(first), flag(second))
        },
        _ => return None,
    };
    match (a, b) {
        (Some(x), Some(y)) => Some(ListDirectoryOptions { only_dirs: x, only_files: y }),
        _ => None,
    }
}

/// The path of a browse request (trimmed; an empty one names the roots)
/// and its options.
pub open spec fn spec_browse_request(params: JsonValue) -> Result<
    (Option<Seq<char>>, (bool, bool)),
    RpcErrorView,
> {
    let path = match spec_get(params, "path"@) {
        None => Ok(None),
        Some(JsonValue::Null) => Ok(None),
        Some(JsonValue::String(s)) => if str_trim(s@).len() == 0 {
            Ok(None)
        } else {
            Ok(Some(str_trim(s@)))
        },
        Some(_) => Err(parse_error("path must be a string if provided"@)),
    };
    match path {
        Err(e) => Err(e),
        Ok(p) => match spec_get(params, "options"@) {
            None => Ok((p, (false, false))),
            Some(JsonValue::Null) => Ok((p, (false, false))),
            Some(v) => match spec_browse_options(v) {
                Some(o) => Ok((p, o)),
                None => Err(parse_error("options must be an object with boolean fields"@)),
            },
        },
    }
}

/// Reads a browse request (see `spec_browse_request`).
pub fn parse_browse_params(params: &JsonValue) -> (r: Result<(Option<String>, ListDirectoryOptions), RpcError>)
    ensures
        match (r, spec_browse_request(*params)) {
            (Ok((p, o)), Ok((sp, so))) => so == (o.only_dirs, o.only_files) && match (p, sp) {
                (Some(x), Some(y)) => x@ == y,
                (None, None) => true,
                _ => false,
            },
            (Err(e), Err(se)) => e@ == se,
            _ => false,
        },
{
    let path = match params.get("path") {
        None => None,
        Some(JsonValue::Null) => None,
        Some(JsonValue::String(s)) => {
            let t = trim_text(s.as_str());
            if t.as_str().is_empty() {
                None
            } else {
                Some(t)
            }
        },
        Some(_) => {
            return Err(RpcError::ParseRequestError(String::from_str("path must be a string if provided")));
        },
    };
    let options = match params.get("options") {
        None => ListDirectoryOptions { only_dirs: false, only_files: false },
        Some(JsonValue::Null) => ListDirectoryOptions { only_dirs: false, only_files: false },
        Some(v) => match browse_options(v) {
            Some(o) => o,
            None => {
                return Err(
                    RpcError::ParseRequestError(
                        String::from_str("options must be an object with boolean fields"),
                    ),
                );
            },
        },
    };
    Ok((path, options))
}

/// Whether an entry is kept: only directory-like ones, only file-like ones,
/// none when both are asked for, all when neither is.
pub open spec fn spec_keep_entry(e: DirectoryEntryView, only_dirs: bool, only_files: bool) -> bool {
    if only_dirs && !only_files {
        spec_is_directory_like(e)
    } else if !only_dirs && only_files {
        spec_is_file_like(e)
    } else {
        !(only_dirs && only_files)
    }
}

/// The children of the kept entries, in order: name and whether it can be
/// entered.
pub open spec fn spec_children(s: Seq<DirectoryEntryView>, only_dirs: bool, only_files: bool) -> Seq<
    (Seq<char>, bool),
>
    decreases s.len(),
{
    if s.len() == 0 {
        Seq::empty()
    } else {
        let prev = spec_children(s.drop_last(), only_dirs, only_files);
        if spec_keep_entry(s.last(), only_dirs, only_files) {
            prev.push((s.last().name, spec_is_directory_like(s.last())))
        } else {
            prev
        }
    }
}

pub open spec fn spec_child_views(c: Seq<DirectoryChild>) -> Seq<(Seq<char>, bool)> {
    c.map_values(|x: DirectoryChild| (x.name@, x.is_directory))
}

/// The children a browse answers with (see `spec_children`).
pub fn select_children(entries: Vec<DirectoryEntry>, options: &ListDirectoryOptions) -> (r: Vec<
    DirectoryChild,
>)
    ensures
        spec_child_views(r@) == spec_children(
            spec_dir_entry_views(entries@),
            options.only_dirs,
            options.only_files,
        ),
{
    let ghost all = spec_dir_entry_views(entries@);
    let mut out: Vec<DirectoryChild> = Vec::new();
    let mut rest = entries;
    let ghost mut done: Seq<DirectoryEntryView> = Seq::empty();
    proof {
        assert(done + spec_dir_entry_views(rest@) =~= all);
        assert(spec_child_views(out@) =~= Seq::<(Seq<char>, bool)>::empty());
    }
    while rest.len() > 0
        invariant
            done + spec_dir_entry_views(rest@) == all,
            spec_child_views(out@) == spec_children(done, options.only_dirs, options.only_files),
        decreases rest.len(),
    {
        let ghost before = rest@;
        let ghost o = out@;
        let e = rest.remove(0);
        let keep = if options.only_dirs && !options.only_files {
            e.is_directory_like()
        } else if !options.only_dirs && options.only_files {
            e.is_file_like()
        } else {
            !(options.only_dirs && options.only_files)
        };
        proof {
            assert(spec_dir_entry_views(before) =~= seq![e@] + spec_dir_entry_views(rest@));
            assert(done.push(e@).drop_last() =~= done);
        }
        if keep {
            out.push(e.into_child());
            proof {
                assert(spec_child_views(out@) =~= spec_child_views(o).push(
                    (out@.last().name@, out@.last().is_directory),
                ));
            }
        }
        proof {
            assert(done.push(e@) + spec_dir_entry_views(rest@) =~= done + spec_dir_entry_views(
                before,
            ));
            done = done.push(e@);
        }
    }
    proof {
        assert(done =~= all);
    }
    out
}

/// The roots a browse without a path lists: on Unix, the root directory.
pub fn root_children() -> (r: Vec<DirectoryEntry>)
    ensures
        r@.len() == 1,
        r@[0].name@ == "/"@,
        r@[0].entry_type is Directory,
        r@[0].target_type is None,
{
    let mut v: Vec<DirectoryEntry> = Vec::new();
    v.push(
        DirectoryEntry {
            name: String::from_str("/"),
            entry_type: DirectoryEntryType::Directory,
            target_type: None,
        },
    );
    v
}

/// Links followed at most when resolving what a link points to.
pub const MAX_SYMLINK_DEPTH: u64 = 40;

/// What the file system said of a path while a link is resolved.
pub enum LinkObservation {
    /// Its metadata could not be read.
    Unreadable,
    Directory,
    File,
    /// Neither a directory, a file nor a link.
    Other,
    /// A link, with the target it reads as (none when that could not be
    /// read).
    Link(Option<String>),
}

/// The resolution of a link, followed one path at a time: the path to look
/// at next, the paths looked at so far, and the answer once there is one.
pub struct LinkResolver {
    pub current: String,
    pub parent: String,
    pub visited: Vec<String>,
    pub answer: Option<Option<ResolvedTargetType>>,
}

/// The path a link target leads to: a rooted target as it is; otherwise
/// the target below the directory of the link (or `parent` when the link
/// has none).
pub open spec fn spec_link_next(current: Seq<char>, parent: Seq<char>, target: Seq<char>) -> Seq<char> {
    if spec_is_absolute(target) {
        target
    } else {
        spec_path_join(
            match spec_parent(current) {
                Some(p) => p,
                None => parent,
            },
            target,
        )
    }
}

impl LinkResolver {
    /// No two paths looked at are the same path, and no more than the
    /// depth limit were looked at.
    pub open spec fn wf(&self) -> bool {
        &&& self.visited@.len() <= MAX_SYMLINK_DEPTH
        &&& forall|i: int, j: int|
            0 <= i < j < self.visited@.len() ==> !spec_path_eq(
                #[trigger] self.visited@[i]@,
                #[trigger] self.visited@[j]@,
            )
    }

    /// Starts resolving the link at `entry_path`, listed in `parent`.
    pub fn new(entry_path: &str, parent: &str) -> (r: Self)
        ensures
            r.wf(),
            r.current@ == entry_path@,
            r.parent@ == parent@,
            r.visited@.len() == 0,
            r.answer is None,
    {
        LinkResolver {
            current: String::from_str(entry_path),
            parent: String::from_str(parent),
            visited: Vec::new(),
            answer: None,
        }
    }

    fn seen(&self, p: &str) -> (b: bool)
        ensures
            b == exists|i: int| 0 <= i < self.visited@.len() && spec_path_eq(#[trigger] self.visited@[i]@, p@),
    {
        let mut i: usize = 0;
        while i < self.visited.len()
            invariant
                i <= self.visited@.len(),
                forall|k: int| 0 <= k < i ==> !spec_path_eq(#[trigger] self.visited@[k]@, p@),
            decreases self.visited.len() - i,
        {
            if path_eq(self.visited[i].as_str(), p) {
                return true;
            }
            i = i + 1;
        }
        false
    }

    /// The next path to look at, or the answer: known already; none once
    /// the depth limit is reached or the path was looked at before (a link
    /// loop). A path handed out is remembered as looked at.
    pub fn next_path(&mut self) -> (r: Result<String, Option<ResolvedTargetType>>)
        requires
            old(self).wf(),
        ensures
            final(self).wf(),
            final(self).parent == old(self).parent,
            final(self).current == old(self).current,
            match old(self).answer {
                Some(a) => r == Err::<String, Option<ResolvedTargetType>>(a) && *final(self) == *old(self),
                None => if old(self).visited@.len() >= MAX_SYMLINK_DEPTH || exists|i: int|
                    0 <= i < old(self).visited@.len() && spec_path_eq(
                        #[trigger] old(self).visited@[i]@,
                        old(self).current@,
                    ) {
                    r == Err::<String, Option<ResolvedTargetType>>(None) && final(self).answer
                        == Some(None::<ResolvedTargetType>) && final(self).visited@
                        == old(self).visited@
                } else {
                    r matches Ok(p) && p@ == old(self).current@ && final(self).answer is None
                        && spec_string_views(final(self).visited@) == spec_string_views(
                        old(self).visited@,
                    ).push(old(self).current@)
                },
            },
    {
        match self.answer {
            Some(a) => return Err(a),
            None => {},
        }
        if self.visited.len() as u64 >= MAX_SYMLINK_DEPTH || self.seen(self.current.as_str()) {
            self.answer = Some(None);
            return Err(None);
        }
        let p = String::from_str(self.current.as_str());
        let q = String::from_str(self.current.as_str());
        let ghost q_view = q@;
        let ghost before = self.visited@;
        self.visited.push(q);
        assert forall|i: int, j: int| 0 <= i < j < self.visited@.len() implies !spec_path_eq(
            #[trigger] self.visited@[i]@,
            #[trigger] self.visited@[j]@,
        ) by {
            if j == before.len() {
                assert(self.visited@[i] == before[i]);
            } else {
                assert(self.visited@[i] == before[i] && self.visited@[j] == before[j]);
            }
        }
        assert(spec_string_views(self.visited@) =~= spec_string_views(before).push(q_view));
        Ok(p)
    }

    /// Takes in what the file system said of the path last handed out: a
    /// directory or a file is the answer, a readable link moves on to its
    /// target, anything else ends with no answer.
    pub fn observe(&mut self, obs: LinkObservation)
        requires
            old(self).wf(),
        ensures
            final(self).wf(),
            final(self).visited == old(self).visited,
            final(self).parent == old(self).parent,
            match obs {
                LinkObservation::Directory => final(self).answer == Some(
                    Some(ResolvedTargetType::Directory),
                ) && final(self).current == old(self).current,
                LinkObservation::File => final(self).answer == Some(Some(ResolvedTargetType::File))
                    && final(self).current == old(self).current,
                LinkObservation::Link(Some(t)) => final(self).answer == old(self).answer
                    && final(self).current@ == spec_link_next(
                    old(self).current@,
                    old(self).parent@,
                    t@,
                ),
                _ => final(self).answer == Some(None::<ResolvedTargetType>) && final(self).current
                    == old(self).current,
            },
    {
        match obs {
            LinkObservation::Directory => {
                self.answer = Some(Some(ResolvedTargetType::Directory));
            },
            LinkObservation::File => {
                self.answer = Some(Some(ResolvedTargetType::File));
            },
            LinkObservation::Link(Some(t)) => {
                let tv = chars_of(t.as_str());
                if tv.len() > 0 && tv[0] == '/' {
                    self.current = t;
                } else {
                    let base = match parent_path(self.current.as_str()) {
                        Some(p) => p,
                        None => String::from_str(self.parent.as_str()),
                    };
                    self.current = path_join(base.as_str(), t.as_str());
                }
            },
            _ => {
                self.answer = Some(None);
            },
        }
    }
}

/// How a listed entry is classified: a link with what it resolves to, or a
/// directory, a file or something else.
pub enum ListedKind {
    Link,
    Directory,
    File,
    Other,
}

/// The kind and link target of a listed entry.
pub fn classify_directory_entry(kind: ListedKind, resolved: Option<ResolvedTargetType>) -> (r: (
    DirectoryEntryType,
    Option<ResolvedTargetType>,
))
    ensures
        match kind {
            ListedKind::Link => r.0 is Link && r.1 == resolved,
            ListedKind::Directory => r.0 is Directory && r.1 is None,
            ListedKind::File => r.0 is File && r.1 is None,
            ListedKind::Other => r.0 is Other && r.1 is None,
        },
{
    match kind {
        ListedKind::Link => (DirectoryEntryType::Link, resolved),
        ListedKind::Directory => (DirectoryEntryType::Directory, None),
        ListedKind::File => (DirectoryEntryType::File, None),
        ListedKind::Other => (DirectoryEntryType::Other, None),
    }
}

} // verus!
