//! Names and paths of source snapshots.

use vstd::prelude::*;
use crate::fs_path::{
    components, path_starts_with, path_text, spec_components, spec_is_absolute,
    spec_path_starts_with, spec_path_text,
};
use crate::path_helper::{last_index_of_char, spec_last_index_of};
use crate::text::{chars_of, string_from_chars, extend_chars, spec_is_ascii_alphanumeric};
use crate::def::spec_starts_with;

verus! {

/// Extension of the metadata file kept beside a snapshot root.
pub const META_SUFFIX: &'static str = "meta";

/// Where a snapshot of a source lives: the path to read the source from,
/// and the root of the snapshot.
pub struct SnapshotInfo {
    pub final_path: String,
    pub root_path: String,
}

/// What creating a snapshot of a source needs.
pub struct SnapshotCreateContext {
    pub plan_id: String,
    pub task_id: String,
    pub source_path: String,
    pub candidate_root: String,
}

/// A name made safe for a path component: every character that is not an
/// ASCII letter or digit becomes `_`.
pub open spec fn spec_sanitize_component(raw: Seq<char>) -> Seq<char> {
    raw.map_values(|c: char| if spec_is_ascii_alphanumeric(c) { c } else { '_' })
}

pub fn sanitize_component(raw: &str) -> (r: String)
    ensures
        r@ == spec_sanitize_component(raw@),
{
    let v = chars_of(raw);
    let mut out: Vec<char> = Vec::new();
    let mut i: usize = 0;
    while i < v.len()
        invariant
            i <= v@.len(),
            v@ == raw@,
            out@ == spec_sanitize_component(v@.take(i as int)),
        decreases v.len() - i,
    {
        let c = v[i];
        let keep = (c >= '0' && c <= '9') || (c >= 'a' && c <= 'z') || (c >= 'A' && c <= 'Z');
        out.push(if keep { c } else { '_' });
        i = i + 1;
        assert(out@ =~= spec_sanitize_component(v@.take(i as int)));
    }
    assert(v@.take(v@.len() as int) =~= v@);
    string_from_chars(&out)
}

/// The stem of a file name: the name before its last dot, unless that dot
/// starts the name (and `..` is its own stem).
pub open spec fn spec_file_stem(name: Seq<char>) -> Seq<char> {
    if name == seq!['.', '.'] {
        name
    } else {
        match spec_last_index_of(name, '.') {
            Some(i) => if i > 0 {
                name.take(i)
            } else {
                name
            },
            None => name,
        }
    }
}

/// A path with the extension of its last name set to `ext`
/// (`Path::with_extension`); a path without a file name is kept as it is.
pub open spec fn spec_with_extension(p: Seq<char>, ext: Seq<char>) -> Seq<char> {
    let comps = spec_components(p);
    if comps.len() == 0 || comps.last() == seq!['.', '.'] || comps.last() == seq!['.'] {
        p
    } else {
        spec_path_text(
            spec_is_absolute(p),
            comps.drop_last().push(spec_file_stem(comps.last()) + seq!['.'] + ext),
        )
    }
}

fn file_stem(name: &Vec<char>) -> (r: Vec<char>)
    ensures
        r@ == spec_file_stem(name@),
{
    if name.len() == 2 && name[0] == '.' && name[1] == '.' {
        assert(name@ =~= seq!['.', '.']);
        let mut r: Vec<char> = Vec::new();
        extend_chars(&mut r, name, 0, 2);
        assert(name@.subrange(0, 2) =~= name@);
        return r;
    }
    assert(name@ != seq!['.', '.']) by {
        if name@ == seq!['.', '.'] {
            assert(name@.len() == 2 && name@[0] == '.' && name@[1] == '.');
        }
    }
    let n = name.len();
    let mut r: Vec<char> = Vec::new();
    match last_index_of_char(name, '.') {
        Some(i) => {
            if i > 0 {
                extend_chars(&mut r, name, 0, i);
                assert(name@.subrange(0, i as int) =~= name@.take(i as int));
            } else {
                extend_chars(&mut r, name, 0, n);
                assert(name@.subrange(0, n as int) =~= name@);
            }
        },
        None => {
            extend_chars(&mut r, name, 0, n);
            assert(name@.subrange(0, n as int) =~= name@);
        },
    }
    r
}

/// `root` with the extension of its last name set to `extension` (see
/// `spec_with_extension`).
pub fn with_extension(root: &str, extension: &str) -> (r: String)
    ensures
        r@ == spec_with_extension(root@, extension@),
{
    let (absolute, comps) = components(root);
    let ghost cv = comps@.map_values(|s: Vec<char>| s@);
    let n = comps.len();
    if n == 0 {
        return String::from_str(root);
    }
    let last = &comps[n - 1];
    assert(cv.last() == last@);
    let dotdot = last.len() == 2 && last[0] == '.' && last[1] == '.';
    let dot = last.len() == 1 && last[0] == '.';
    assert(dotdot == (last@ == seq!['.', '.'])) by {
        if last@ == seq!['.', '.'] {
            assert(last@.len() == 2);
        }
        if dotdot {
            assert(last@ =~= seq!['.', '.']);
        }
    }
    assert(dot == (last@ == seq!['.'])) by {
        if last@ == seq!['.'] {
            assert(last@.len() == 1);
        }
        if dot {
            assert(last@ =~= seq!['.']);
        }
    }
    if dotdot || dot {
        return String::from_str(root);
    }
    let mut name = file_stem(last);
    let ghost stem = name@;
    name.push('.');
    let ext = chars_of(extension);
    let m = ext.len();
    extend_chars(&mut name, &ext, 0, m);
    assert(ext@.subrange(0, m as int) =~= ext@);
    let ghost new_last = name@;
    assert(new_last =~= spec_file_stem(cv.last()) + seq!['.'] + extension@);
    let mut all: Vec<Vec<char>> = Vec::new();
    let mut k: usize = 0;
    while k < n - 1
        invariant
            k <= n - 1,
            n == comps@.len(),
            all@.map_values(|s: Vec<char>| s@) == cv.take(k as int),
            cv == comps@.map_values(|s: Vec<char>| s@),
        decreases n - 1 - k,
    {
        let mut c: Vec<char> = Vec::new();
        let len = comps[k].len();
        extend_chars(&mut c, &comps[k], 0, len);
        assert(comps@[k as int]@.subrange(0, len as int) =~= comps@[k as int]@);
        let ghost before = all@;
        let ghost cview = c@;
        all.push(c);
        assert(all@.map_values(|s: Vec<char>| s@) =~= before.map_values(|s: Vec<char>| s@).push(
            cview,
        ));
        assert(cview == cv[k as int]);
        k = k + 1;
        assert(cv.take(k as int) =~= cv.take(k - 1).push(cv[k - 1]));
        assert(all@.map_values(|s: Vec<char>| s@) =~= cv.take(k as int));
    }
    let ghost before_all = all@;
    all.push(name);
    assert(all@.map_values(|s: Vec<char>| s@) =~= before_all.map_values(|s: Vec<char>| s@).push(
        new_last,
    ));
    assert(cv.take(n - 1) =~= cv.drop_last());
    let total = all.len();
    let r = path_text(absolute, &all, total);
    assert(all@.map_values(|s: Vec<char>| s@).take(total as int) =~= cv.drop_last().push(new_last));
    assert(cv == spec_components(root@));
    assert(!(cv.len() == 0 || cv.last() == seq!['.', '.'] || cv.last() == seq!['.']));
    r
}

/// The metadata file of a snapshot root: the root with the `meta`
/// extension.
pub fn metadata_path_for_root(root: &str) -> (r: String)
    ensures
        r@ == spec_with_extension(root@, META_SUFFIX@),
{
    with_extension(root, META_SUFFIX)
}

/// `s` with every `\040` replaced by a space, left to right.
pub open spec fn spec_replace_space_escape(s: Seq<char>) -> Seq<char>
    decreases s.len(),
{
    if s.len() == 0 {
        s
    } else if s.len() >= 4 && s.take(4) == seq!['\\', '0', '4', '0'] {
        seq![' '] + spec_replace_space_escape(s.skip(4))
    } else {
        seq![s[0]] + spec_replace_space_escape(s.skip(1))
    }
}

/// `s` without leading and trailing double quotes.
pub open spec fn spec_trim_quotes(s: Seq<char>) -> Seq<char>
    decreases s.len(),
{
    if s.len() > 0 && s[0] == '"' {
        spec_trim_quotes(s.skip(1))
    } else if s.len() > 0 && s.last() == '"' {
        spec_trim_quotes(s.drop_last())
    } else {
        s
    }
}

/// A value printed by `findmnt -P`: quotes removed, `\040` read as a space.
pub open spec fn spec_unescape_findmnt_value(raw: Seq<char>) -> Seq<char> {
    spec_replace_space_escape(spec_trim_quotes(raw))
}

fn trim_quotes(v: &Vec<char>) -> (r: Vec<char>)
    ensures
        r@ == spec_trim_quotes(v@),
{
    let n = v.len();
    let mut a: usize = 0;
    while a < n && v[a] == '"'
        invariant
            a <= n == v@.len(),
            forall|k: int| 0 <= k < a ==> v@[k] == '"',
        decreases n - a,
    {
        a = a + 1;
    }
    let mut b: usize = n;
    while b > a && v[b - 1] == '"'
        invariant
            a <= b <= n == v@.len(),
            forall|k: int| b <= k < n ==> v@[k] == '"',
        decreases b - a,
    {
        b = b - 1;
    }
    let mut r: Vec<char> = Vec::new();
    extend_chars(&mut r, v, a, b);
    proof {
        lemma_trim_quotes_unique(v@, a as int, b as int);
    }
    r
}

/// The trimmed text is the part between the leading and the trailing
/// quotes.
proof fn lemma_trim_quotes_unique(s: Seq<char>, a: int, b: int)
    requires
        0 <= a <= b <= s.len(),
        forall|k: int| 0 <= k < a ==> s[k] == '"',
        forall|k: int| b <= k < s.len() ==> s[k] == '"',
        a < s.len() ==> s[a] != '"' || a == b,
        b > a ==> s[b - 1] != '"',
        a == b ==> forall|k: int| 0 <= k < s.len() ==> s[k] == '"' || k < a,
    ensures
        spec_trim_quotes(s) == s.subrange(a, b),
    decreases s.len(),
{
    if s.len() > 0 && s[0] == '"' {
        if a > 0 {
            let t = s.skip(1);
            assert forall|k: int| 0 <= k < a - 1 implies t[k] == '"' by {
                assert(t[k] == s[k + 1]);
            }
            assert forall|k: int| b - 1 <= k < t.len() implies t[k] == '"' by {
                assert(t[k] == s[k + 1]);
            }
            lemma_trim_quotes_unique(t, a - 1, b - 1);
            assert(t.subrange(a - 1, b - 1) =~= s.subrange(a, b));
        } else {
            // a == 0 and s[0] is a quote: then a == b, and every character is a quote
            assert(a == b);
            let t = s.skip(1);
            assert forall|k: int| 0 <= k < t.len() implies t[k] == '"' by {
                assert(t[k] == s[k + 1]);
            }
            lemma_all_quotes(t);
            assert(s.subrange(a, b) =~= Seq::<char>::empty());
        }
    } else if s.len() > 0 && s.last() == '"' {
        let t = s.drop_last();
        if b == s.len() {
            assert(a == b || s[b - 1] != '"');
            assert(a == b);
            assert(a < s.len() ==> s[a] != '"' || a == b);
            assert(s[a] != '"' || a == b);
            assert forall|k: int| 0 <= k < a implies t[k] == '"' by {}
            lemma_trim_quotes_unique(t, a - 1 + 1, b - 1);
            assert(t.subrange(a, b - 1) =~= s.subrange(a, b));
        } else {
            assert forall|k: int| b <= k < t.len() implies t[k] == '"' by {}
            lemma_trim_quotes_unique(t, a, b);
            assert(t.subrange(a, b) =~= s.subrange(a, b));
        }
    } else {
        if s.len() > 0 {
            assert(a == 0);
            assert(b == s.len());
        }
        assert(s.subrange(a, b) =~= s);
    }
}

proof fn lemma_all_quotes(s: Seq<char>)
    requires
        forall|k: int| 0 <= k < s.len() ==> s[k] == '"',
    ensures
        spec_trim_quotes(s) == Seq::<char>::empty(),
    decreases s.len(),
{
    if s.len() > 0 {
        let t = s.skip(1);
        assert forall|k: int| 0 <= k < t.len() implies t[k] == '"' by {
            assert(t[k] == s[k + 1]);
        }
        lemma_all_quotes(t);
    }
}

/// Replaces every `\040` by a space.
fn replace_space_escape(v: &Vec<char>) -> (r: Vec<char>)
    ensures
        r@ == spec_replace_space_escape(v@),
{
    let n = v.len();
    let mut out: Vec<char> = Vec::new();
    let mut i: usize = 0;
    assert(v@.skip(0) =~= v@);
    assert(out@ + spec_replace_space_escape(v@) =~= spec_replace_space_escape(v@));
    while i < n
        invariant
            i <= n == v@.len(),
            out@ + spec_replace_space_escape(v@.skip(i as int)) == spec_replace_space_escape(v@),
        decreases n - i,
    {
        let ghost rest = v@.skip(i as int);
        if n - i >= 4 && v[i] == '\\' && v[i + 1] == '0' && v[i + 2] == '4' && v[i + 3] == '0' {
            assert(rest.take(4) =~= seq!['\\', '0', '4', '0']);
            assert(rest.skip(4) =~= v@.skip(i + 4));
            out.push(' ');
            i = i + 4;
        } else {
            assert(!(rest.len() >= 4 && rest.take(4) == seq!['\\', '0', '4', '0'])) by {
                if rest.len() >= 4 && rest.take(4) == seq!['\\', '0', '4', '0'] {
                    assert(rest.take(4)[0] == v@[i as int]);
                    assert(rest.take(4)[1] == v@[i + 1]);
                    assert(rest.take(4)[2] == v@[i + 2]);
                    assert(rest.take(4)[3] == v@[i + 3]);
                }
            }
            assert(rest.skip(1) =~= v@.skip(i + 1));
            assert(rest[0] == v@[i as int]);
            out.push(v[i]);
            i = i + 1;
        }
    }
    assert(v@.skip(n as int) =~= Seq::<char>::empty());
    assert(out@ + Seq::<char>::empty() =~= out@);
    out
}

/// A value printed by `findmnt -P`, read back.
pub fn unescape_findmnt_value(raw: &str) -> (r: String)
    ensures
        r@ == spec_unescape_findmnt_value(raw@),
{
    let v = chars_of(raw);
    let t = trim_quotes(&v);
    let r = replace_space_escape(&t);
    string_from_chars(&r)
}

/// The snapshot root a path lies in: the path's prefix one name below the
/// snapshot workspace; none for a path outside the workspace or the
/// workspace itself.
pub open spec fn spec_infer_snapshot_root(path: Seq<char>, workspace: Seq<char>) -> Option<Seq<char>> {
    let cp = spec_components(path);
    let cw = spec_components(workspace);
    if !spec_path_starts_with(path, workspace) || cp.len() <= cw.len() {
        None
    } else {
        Some(spec_path_text(spec_is_absolute(path), cp.take((cw.len() + 1) as int)))
    }
}

pub fn infer_snapshot_root(path: &str, workspace: &str) -> (r: Option<String>)
    ensures
        match (r, spec_infer_snapshot_root(path@, workspace@)) {
            (Some(x), Some(y)) => x@ == y,
            (None, None) => true,
            _ => false,
        },
{
    if !path_starts_with(path, workspace) {
        return None;
    }
    let (absolute, cp) = components(path);
    let (_, cw) = components(workspace);
    assert(cp@.map_values(|s: Vec<char>| s@).len() == cp@.len());
    assert(cw@.map_values(|s: Vec<char>| s@).len() == cw@.len());
    if cp.len() <= cw.len() {
        return None;
    }
    let n = cw.len() + 1;
    Some(path_text(absolute, &cp, n))
}

/// A Windows path without its `\\?\` verbatim prefix.
pub open spec fn spec_normalize_drive_path(p: Seq<char>) -> Seq<char> {
    if spec_starts_with(p, seq!['\\', '\\', '?', '\\']) {
        p.skip(4)
    } else {
        p
    }
}

pub fn normalize_drive_path(path: &str) -> (r: String)
    ensures
        r@ == spec_normalize_drive_path(path@),
{
    let v = chars_of(path);
    let n = v.len();
    if n >= 4 && v[0] == '\\' && v[1] == '\\' && v[2] == '?' && v[3] == '\\' {
        assert(v@.subrange(0, 4) =~= seq!['\\', '\\', '?', '\\']);
        let mut r: Vec<char> = Vec::new();
        extend_chars(&mut r, &v, 4, n);
        assert(v@.subrange(4, n as int) =~= v@.skip(4));
        string_from_chars(&r)
    } else {
        assert(!spec_starts_with(path@, seq!['\\', '\\', '?', '\\'])) by {
            if spec_starts_with(path@, seq!['\\', '\\', '?', '\\']) {
                let p4 = path@.subrange(0, 4);
                assert(p4[0] == v@[0] && p4[1] == v@[1] && p4[2] == v@[2] && p4[3] == v@[3]);
            }
        }
        String::from_str(path)
    }
}

/// A Windows path that ends with a backslash.
pub open spec fn spec_ensure_trailing_separator(p: Seq<char>) -> Seq<char> {
    if p.len() > 0 && p.last() == '\\' {
        p
    } else {
        p.push('\\')
    }
}

pub fn ensure_trailing_separator(path: &str) -> (r: String)
    ensures
        r@ == spec_ensure_trailing_separator(path@),
{
    let mut v = chars_of(path);
    let n = v.len();
    if !(n > 0 && v[n - 1] == '\\') {
        v.push('\\');
    }
    string_from_chars(&v)
}

} // verus!
