//! Reading what the snapshot tools print: the mount source and target
//! `findmnt -P` reports, the logical volume `lvs` describes, the size
//! `blockdev --getsz` gives, and the shadow copy `vssadmin` creates.

use vstd::prelude::*;
use crate::text::{
    chars_of, string_from_chars, extend_chars, spec_is_whitespace, is_whitespace, spec_index_of,
    index_of_char, index_of_char_from,
};
use crate::def::{BuckyBackupError, spec_starts_with, starts_with_chars, prefixed};
use crate::rpc_params::{spec_parse_u64, parse_u64_text};
use crate::snapshot_text::{spec_unescape_findmnt_value, unescape_findmnt_value};
use crate::task_flow::{str_trim, trim_text};
use crate::path_helper::{spec_split, lemma_split_len};

verus! {

/// The first line of a text (`str::lines().next()`): none for an empty
/// text; otherwise what comes before the first line feed, without the
/// carriage return that ends it, or the whole text when there is no line
/// feed.
pub open spec fn spec_first_line(s: Seq<char>) -> Option<Seq<char>> {
    if s.len() == 0 {
        None
    } else {
        match spec_index_of(s, '\n') {
            Some(i) => if i > 0 && s[i - 1] == '\r' {
                Some(s.take(i - 1))
            } else {
                Some(s.take(i))
            },
            None => Some(s),
        }
    }
}

/// The first line of a text (see `spec_first_line`).
pub fn first_line(s: &str) -> (r: Option<String>)
    ensures
        match r {
            Some(l) => spec_first_line(s@) == Some(l@),
            None => spec_first_line(s@) is None,
        },
{
    let v = chars_of(s);
    if v.len() == 0 {
        return None;
    }
    let mut out: Vec<char> = Vec::new();
    match index_of_char(&v, '\n') {
        Some(i) => {
            let end = if i > 0 && v[i - 1] == '\r' {
                i - 1
            } else {
                i
            };
            extend_chars(&mut out, &v, 0, end);
            assert(out@ =~= v@.take(end as int));
        },
        None => {
            let n = v.len();
            extend_chars(&mut out, &v, 0, n);
            assert(out@ =~= v@);
        },
    }
    Some(string_from_chars(&out))
}

/// The words of a text: its maximal runs of characters that are not white
/// space (`str::split_whitespace`).
pub open spec fn spec_words(s: Seq<char>) -> Seq<Seq<char>>
    decreases s.len(),
{
    if s.len() == 0 {
        Seq::empty()
    } else {
        let prev = spec_words(s.drop_last());
        let c = s.last();
        if spec_is_whitespace(c) {
            prev
        } else if s.len() >= 2 && !spec_is_whitespace(s[s.len() - 2]) {
            prev.update(prev.len() - 1, prev.last().push(c))
        } else {
            prev.push(seq![c])
        }
    }
}

/// The words of a text (see `spec_words`).
pub fn words(s: &str) -> (r: Vec<Vec<char>>)
    ensures
        r@.map_values(|w: Vec<char>| w@) == spec_words(s@),
{
    let v = chars_of(s);
    let mut out: Vec<Vec<char>> = Vec::new();
    let mut cur: Vec<char> = Vec::new();
    let mut i: usize = 0;
    assert(v@.take(0) =~= Seq::<char>::empty());
    assert(out@.map_values(|w: Vec<char>| w@) =~= Seq::<Seq<char>>::empty());
    while i < v.len()
        invariant
            i <= v@.len(),
            v@ == s@,
            cur@.len() == 0 ==> out@.map_values(|w: Vec<char>| w@) == spec_words(v@.take(i as int)),
            cur@.len() > 0 ==> out@.map_values(|w: Vec<char>| w@).push(cur@) == spec_words(
                v@.take(i as int),
            ),
            cur@.len() > 0 ==> i > 0 && !spec_is_whitespace(v@[i - 1]),
            cur@.len() == 0 && i > 0 ==> spec_is_whitespace(v@[i - 1]),
        decreases v.len() - i,
    {
        let c = v[i];
        let ghost t = v@.take(i + 1);
        proof {
            assert(t.drop_last() =~= v@.take(i as int));
            assert(t.last() == c);
        }
        if is_whitespace(c) {
            if cur.len() > 0 {
                let n = cur.len();
                let mut w: Vec<char> = Vec::new();
                extend_chars(&mut w, &cur, 0, n);
                assert(w@ =~= cur@);
                let ghost before = out@;
                out.push(w);
                assert(out@.map_values(|w: Vec<char>| w@) =~= before.map_values(|w: Vec<char>| w@).push(
                    cur@,
                ));
                cur = Vec::new();
            }
        } else {
            if cur.len() > 0 {
                proof {
                    assert(t[t.len() - 2] == v@[i - 1]);
                    let p = spec_words(v@.take(i as int));
                    let o = out@.map_values(|w: Vec<char>| w@);
                    assert(p == o.push(cur@));
                    assert(p.update(p.len() - 1, p.last().push(c)) =~= o.push(cur@.push(c)));
                }
                cur.push(c);
            } else {
                proof {
                    if i > 0 {
                        assert(t[t.len() - 2] == v@[i - 1]);
                    }
                }
                cur.push(c);
                assert(cur@ =~= seq![c]);
            }
        }
        i = i + 1;
    }
    assert(v@.take(v@.len() as int) =~= v@);
    if cur.len() > 0 {
        let ghost before = out@;
        out.push(cur);
        assert(out@.map_values(|w: Vec<char>| w@) =~= before.map_values(|w: Vec<char>| w@).push(
            out@.last()@,
        ));
    }
    out
}

/// The value a `findmnt -P` line gives for `key=`: the last word that
/// starts with it, unescaped.
pub open spec fn spec_findmnt_field(ws: Seq<Seq<char>>, key: Seq<char>) -> Option<Seq<char>>
    decreases ws.len(),
{
    if ws.len() == 0 {
        None
    } else if spec_starts_with(ws.last(), key) {
        Some(spec_unescape_findmnt_value(ws.last().skip(key.len() as int)))
    } else {
        spec_findmnt_field(ws.drop_last(), key)
    }
}

fn findmnt_field(ws: &Vec<Vec<char>>, key: &str) -> (r: Option<String>)
    ensures
        match r {
            Some(x) => spec_findmnt_field(ws@.map_values(|w: Vec<char>| w@), key@) == Some(x@),
            None => spec_findmnt_field(ws@.map_values(|w: Vec<char>| w@), key@) is None,
        },
{
    let ghost all = ws@.map_values(|w: Vec<char>| w@);
    let k = chars_of(key);
    let mut j = ws.len();
    assert(all.take(j as int) =~= all);
    while j > 0
        invariant
            j <= ws@.len(),
            k@ == key@,
            all == ws@.map_values(|w: Vec<char>| w@),
            spec_findmnt_field(all, key@) == spec_findmnt_field(all.take(j as int), key@),
        decreases j,
    {
        let ghost t = all.take(j as int);
        assert(t.last() == ws@[j - 1]@);
        assert(t.drop_last() =~= all.take(j - 1));
        if starts_with_chars(&ws[j - 1], &k) {
            let w = &ws[j - 1];
            let mut rest: Vec<char> = Vec::new();
            let n = w.len();
            extend_chars(&mut rest, w, k.len(), n);
            assert(rest@ =~= w@.skip(k@.len() as int));
            let text = string_from_chars(&rest);
            return Some(unescape_findmnt_value(text.as_str()));
        }
        j = j - 1;
    }
    None
}

/// A mount: the device and where it is mounted.
pub struct MountInfo {
    pub source: String,
    pub target: String,
}

/// The mount `findmnt -P -no SOURCE,TARGET --target <path>` printed for
/// `path`: its first line must name both.
pub open spec fn spec_mount_info(output: Seq<char>, path: Seq<char>) -> Result<
    (Seq<char>, Seq<char>),
    Seq<char>,
> {
    match spec_first_line(output) {
        None => Err("findmnt returned empty result for "@ + path),
        Some(line) => {
            let ws = spec_words(line);
            match (spec_findmnt_field(ws, "SOURCE="@), spec_findmnt_field(ws, "TARGET="@)) {
                (None, _) => Err("failed to parse mount source from findmnt output: "@ + line),
                (Some(_), None) => Err("failed to parse mount target from findmnt output: "@ + line),
                (Some(s), Some(t)) => Ok((s, t)),
            }
        },
    }
}

/// Reads the mount `findmnt` printed (see `spec_mount_info`).
pub fn parse_findmnt_output(output: &str, path: &str) -> (r: Result<MountInfo, BuckyBackupError>)
    ensures
        match (r, spec_mount_info(output@, path@)) {
            (Ok(m), Ok((s, t))) => m.source@ == s && m.target@ == t,
            (Err(BuckyBackupError::Failed(e)), Err(m)) => e@ == m,
            _ => false,
        },
{
    let line = match first_line(output) {
        Some(l) => l,
        None => return Err(BuckyBackupError::Failed(prefixed("findmnt returned empty result for ", path))),
    };
    let ws = words(line.as_str());
    let source = findmnt_field(&ws, "SOURCE=");
    let target = findmnt_field(&ws, "TARGET=");
    match (source, target) {
        (Some(s), Some(t)) => Ok(MountInfo { source: s, target: t }),
        (None, _) => Err(
            BuckyBackupError::Failed(
                prefixed("failed to parse mount source from findmnt output: ", line.as_str()),
            ),
        ),
        (Some(_), None) => Err(
            BuckyBackupError::Failed(
                prefixed("failed to parse mount target from findmnt output: ", line.as_str()),
            ),
        ),
    }
}

/// The number `blockdev --getsz` printed: the trimmed text must be an
/// unsigned integer.
pub fn parse_blockdev_sectors(output: &str) -> (r: Option<u64>)
    ensures
        r == spec_parse_u64(str_trim(output@)),
{
    let t = trim_text(output);
    parse_u64_text(t.as_str())
}

/// A line without the carriage return that ended it before its line feed.
pub open spec fn spec_strip_cr(l: Seq<char>) -> Seq<char> {
    if l.len() > 0 && l.last() == '\r' {
        l.drop_last()
    } else {
        l
    }
}

/// The lines of a text (`str::lines`): split at each line feed, a carriage
/// return just before a line feed dropped, and no empty line after a final
/// line feed.
pub open spec fn spec_lines(s: Seq<char>) -> Seq<Seq<char>>
    decreases s.len(),
{
    if s.len() == 0 {
        Seq::empty()
    } else {
        match spec_index_of(s, '\n') {
            Some(i) => if 0 <= i < s.len() {
                seq![spec_strip_cr(s.take(i))] + spec_lines(s.skip(i + 1))
            } else {
                Seq::empty()
            },
            None => seq![s],
        }
    }
}

/// The lines of a text (see `spec_lines`).
pub fn split_lines(s: &str) -> (r: Vec<String>)
    ensures
        r@.map_values(|l: String| l@) == spec_lines(s@),
{
    let v = chars_of(s);
    let mut out: Vec<String> = Vec::new();
    let mut p: usize = 0;
    assert(v@.skip(0) =~= v@);
    while p < v.len()
        invariant
            p <= v@.len(),
            v@ == s@,
            out@.map_values(|l: String| l@) + spec_lines(v@.skip(p as int)) == spec_lines(s@),
        decreases v.len() - p,
    {
        let ghost rest = v@.skip(p as int);
        match index_of_char_from(&v, p, '\n') {
            Some(i) => {
                let mut line: Vec<char> = Vec::new();
                let end = if i > p && v[i - 1] == '\r' {
                    i - 1
                } else {
                    i
                };
                extend_chars(&mut line, &v, p, end);
                proof {
                    assert(rest.take(i - p) =~= v@.subrange(p as int, i as int));
                    assert(line@ =~= spec_strip_cr(rest.take(i - p)));
                    assert(rest.skip(i - p + 1) =~= v@.skip(i + 1));
                }
                let ghost before = out@;
                out.push(string_from_chars(&line));
                assert(out@.map_values(|l: String| l@) =~= before.map_values(|l: String| l@).push(
                    line@,
                ));
                assert(out@.map_values(|l: String| l@) + spec_lines(v@.skip(i + 1)) =~= before.map_values(
                    |l: String| l@,
                ) + spec_lines(rest));
                p = i + 1;
            },
            None => {
                let mut line: Vec<char> = Vec::new();
                let n = v.len();
                extend_chars(&mut line, &v, p, n);
                assert(line@ =~= rest);
                let ghost before = out@;
                out.push(string_from_chars(&line));
                assert(v@.skip(n as int) =~= Seq::<char>::empty());
                assert(out@.map_values(|l: String| l@) + spec_lines(v@.skip(n as int)) =~= before.map_values(
                    |l: String| l@,
                ) + spec_lines(rest));
                p = n;
            },
        }
    }
    assert(v@.skip(p as int) =~= Seq::<char>::empty());
    assert(out@.map_values(|l: String| l@) =~= out@.map_values(|l: String| l@) + spec_lines(
        v@.skip(p as int),
    ));
    out
}

/// The pieces of `v` between the occurrences of `c` (`str::split` with a
/// character; see `spec_split`).
fn split_chars(v: &Vec<char>, c: char) -> (r: Vec<Vec<char>>)
    ensures
        r@.map_values(|w: Vec<char>| w@) == spec_split(v@, c),
{
    let mut out: Vec<Vec<char>> = Vec::new();
    let mut cur: Vec<char> = Vec::new();
    let mut i: usize = 0;
    assert(v@.take(0) =~= Seq::<char>::empty());
    assert(out@.map_values(|w: Vec<char>| w@).push(cur@) =~= spec_split(v@.take(0), c));
    while i < v.len()
        invariant
            i <= v@.len(),
            out@.map_values(|w: Vec<char>| w@).push(cur@) == spec_split(v@.take(i as int), c),
        decreases v.len() - i,
    {
        let x = v[i];
        let ghost t = v@.take(i + 1);
        let ghost o = out@.map_values(|w: Vec<char>| w@);
        assert(t.drop_last() =~= v@.take(i as int));
        assert(t.last() == x);
        if x == c {
            let piece = cur;
            out.push(piece);
            cur = Vec::new();
            assert(out@.map_values(|w: Vec<char>| w@).push(cur@) =~= o.push(out@.last()@).push(
                Seq::<char>::empty(),
            ));
        } else {
            let ghost before = cur@;
            cur.push(x);
            assert(o.push(cur@) =~= o.push(before).update(o.len() as int, before.push(x)));
        }
        i = i + 1;
    }
    assert(v@.take(v@.len() as int) =~= v@);
    let ghost o = out@.map_values(|w: Vec<char>| w@);
    out.push(cur);
    assert(out@.map_values(|w: Vec<char>| w@) =~= o.push(out@.last()@));
    out
}

/// A logical volume: its group, its name and its device path.
pub struct LvmInfo {
    pub vg_name: String,
    pub lv_name: String,
    pub lv_path: String,
}

/// The logical volume `lvs --noheadings --separator=| -o
/// vg_name,lv_name,lv_path` described: its first line, trimmed, must hold
/// exactly three `|`-separated fields, each then trimmed.
pub open spec fn spec_lv_info(output: Seq<char>) -> Result<(Seq<char>, Seq<char>, Seq<char>), Seq<char>> {
    match spec_first_line(output) {
        None => Err("lvs output is empty"@),
        Some(line) => {
            let parts = spec_split(str_trim(line), '|');
            if parts.len() == 3 {
                Ok((str_trim(parts[0]), str_trim(parts[1]), str_trim(parts[2])))
            } else {
                Err("unexpected lvs output: "@ + line)
            }
        },
    }
}

/// Reads the logical volume `lvs` described (see `spec_lv_info`).
pub fn parse_lvs_output(output: &str) -> (r: Result<LvmInfo, BuckyBackupError>)
    ensures
        match (r, spec_lv_info(output@)) {
            (Ok(info), Ok((vg, lv, path))) => info.vg_name@ == vg && info.lv_name@ == lv
                && info.lv_path@ == path,
            (Err(BuckyBackupError::Failed(e)), Err(m)) => e@ == m,
            _ => false,
        },
{
    proof {
        reveal_strlit("lvs output is empty");
    }
    let line = match first_line(output) {
        Some(l) => l,
        None => return Err(BuckyBackupError::Failed(String::from_str("lvs output is empty"))),
    };
    let trimmed = trim_text(line.as_str());
    let tv = chars_of(trimmed.as_str());
    let parts = split_chars(&tv, '|');
    if parts.len() != 3 {
        return Err(BuckyBackupError::Failed(prefixed("unexpected lvs output: ", line.as_str())));
    }
    let ghost ps = parts@.map_values(|w: Vec<char>| w@);
    assert(ps[0] == parts@[0]@ && ps[1] == parts@[1]@ && ps[2] == parts@[2]@);
    let vg = trim_text(string_from_chars(&parts[0]).as_str());
    let lv = trim_text(string_from_chars(&parts[1]).as_str());
    let path = trim_text(string_from_chars(&parts[2]).as_str());
    Ok(LvmInfo { vg_name: vg, lv_name: lv, lv_path: path })
}

/// What the last line of `lines` that starts, once trimmed, with `prefix`
/// gives: its second `:`-separated field, trimmed.
pub open spec fn spec_tagged_value(lines: Seq<Seq<char>>, prefix: Seq<char>) -> Option<Seq<char>>
    decreases lines.len(),
{
    if lines.len() == 0 {
        None
    } else {
        let t = str_trim(lines.last());
        if spec_starts_with(t, prefix) {
            Some(str_trim(spec_split(t, ':')[1]))
        } else {
            spec_tagged_value(lines.drop_last(), prefix)
        }
    }
}

/// What the last line that starts with `prefix` gives (see
/// `spec_tagged_value`); `prefix` holds a `:`.
fn tagged_value(lines: &Vec<String>, prefix: &str) -> (r: Option<String>)
    requires
        prefix@.contains(':'),
    ensures
        match r {
            Some(x) => spec_tagged_value(lines@.map_values(|l: String| l@), prefix@) == Some(x@),
            None => spec_tagged_value(lines@.map_values(|l: String| l@), prefix@) is None,
        },
{
    let ghost all = lines@.map_values(|l: String| l@);
    let pv = chars_of(prefix);
    let mut found: Option<String> = None;
    let mut i: usize = 0;
    assert(all.take(0) =~= Seq::<Seq<char>>::empty());
    while i < lines.len()
        invariant
            i <= lines@.len(),
            pv@ == prefix@,
            prefix@.contains(':'),
            all == lines@.map_values(|l: String| l@),
            match found {
                Some(x) => spec_tagged_value(all.take(i as int), prefix@) == Some(x@),
                None => spec_tagged_value(all.take(i as int), prefix@) is None,
            },
        decreases lines.len() - i,
    {
        let ghost t = all.take(i + 1);
        assert(t.drop_last() =~= all.take(i as int));
        assert(t.last() == lines@[i as int]@);
        let trimmed = trim_text(lines[i].as_str());
        let tv = chars_of(trimmed.as_str());
        if starts_with_chars(&tv, &pv) {
            proof {
                let k = choose|k: int| 0 <= k < prefix@.len() && prefix@[k] == ':';
                assert(tv@[k] == tv@.subrange(0, prefix@.len() as int)[k]);
                assert(tv@.contains(':'));
                lemma_split_len(tv@, ':');
            }
            let parts = split_chars(&tv, ':');
            let ghost ps = parts@.map_values(|w: Vec<char>| w@);
            assert(ps[1] == parts@[1]@);
            found = Some(trim_text(string_from_chars(&parts[1]).as_str()));
        }
        i = i + 1;
    }
    assert(all.take(lines@.len() as int) =~= all);
    found
}

/// A shadow copy: its id and the volume path it is reached under.
pub struct ShadowInfo {
    pub shadow_id: String,
    pub shadow_volume_path: String,
}

/// The shadow copy `vssadmin create shadow` reported: the lines
/// `Shadow Copy ID:` and `Shadow Copy Volume:` must both be there.
pub open spec fn spec_shadow_info(output: Seq<char>) -> Result<(Seq<char>, Seq<char>), Seq<char>> {
    let lines = spec_lines(output);
    match (
        spec_tagged_value(lines, "Shadow Copy ID:"@),
        spec_tagged_value(lines, "Shadow Copy Volume:"@),
    ) {
        (None, _) => Err("failed to parse VSS shadow id"@),
        (Some(_), None) => Err("failed to parse VSS shadow volume path"@),
        (Some(id), Some(vol)) => Ok((id, vol)),
    }
}

/// Reads the shadow copy `vssadmin` reported (see `spec_shadow_info`).
pub fn parse_shadow_output(output: &str) -> (r: Result<ShadowInfo, BuckyBackupError>)
    ensures
        match (r, spec_shadow_info(output@)) {
            (Ok(info), Ok((id, vol))) => info.shadow_id@ == id && info.shadow_volume_path@ == vol,
            (Err(BuckyBackupError::Failed(e)), Err(m)) => e@ == m,
            _ => false,
        },
{
    proof {
        reveal_strlit("Shadow Copy ID:");
        reveal_strlit("Shadow Copy Volume:");
        reveal_strlit("failed to parse VSS shadow id");
        reveal_strlit("failed to parse VSS shadow volume path");
        assert("Shadow Copy ID:"@[14] == ':');
        assert("Shadow Copy Volume:"@[18] == ':');
    }
    let lines = split_lines(output);
    let id = tagged_value(&lines, "Shadow Copy ID:");
    let vol = tagged_value(&lines, "Shadow Copy Volume:");
    match (id, vol) {
        (Some(i), Some(v)) => Ok(ShadowInfo { shadow_id: i, shadow_volume_path: v }),
        (None, _) => Err(BuckyBackupError::Failed(String::from_str("failed to parse VSS shadow id"))),
        (Some(_), None) => Err(
            BuckyBackupError::Failed(String::from_str("failed to parse VSS shadow volume path")),
        ),
    }
}

} // verus!
