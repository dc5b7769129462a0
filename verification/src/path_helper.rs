//! Inner paths of backup items.
//!
//! A backup item of a large file is named `dir/file/<start>:<end>` (the last
//! segment names the byte range of the chunk), a small file is named
//! `dir/file`. These helpers clean such paths and strip the chunk suffix.

use vstd::prelude::*;
use crate::text::{chars_of, string_from_chars, extend_chars, contains_char, spec_is_ascii_digit};

verus! {

/// `s` with every backslash replaced by a forward slash.
pub open spec fn spec_backslash_to_slash(s: Seq<char>) -> Seq<char> {
    s.map_values(|c: char| if c == '\\' { '/' } else { c })
}

/// The pieces of `s` between occurrences of `sep` (as `str::split` yields
/// them: an empty input gives one empty piece).
pub open spec fn spec_split(s: Seq<char>, sep: char) -> Seq<Seq<char>>
    decreases s.len(),
{
    if s.len() == 0 {
        seq![Seq::<char>::empty()]
    } else {
        let prev = spec_split(s.drop_last(), sep);
        if s.last() == sep {
            prev.push(Seq::<char>::empty())
        } else {
            prev.update(prev.len() - 1, prev.last().push(s.last()))
        }
    }
}

/// Splitting gives at least one piece, and two once the separator occurs.
pub proof fn lemma_split_len(s: Seq<char>, sep: char)
    ensures
        spec_split(s, sep).len() >= 1,
        s.contains(sep) ==> spec_split(s, sep).len() >= 2,
    decreases s.len(),
{
    if s.len() > 0 {
        lemma_split_len(s.drop_last(), sep);
        if s.contains(sep) && s.last() != sep {
            let k = choose|k: int| 0 <= k < s.len() && s[k] == sep;
            assert(s.drop_last()[k] == sep);
        }
    }
}

/// A segment that survives normalisation: not empty and not `"."`.
pub open spec fn spec_keep_segment(seg: Seq<char>) -> bool {
    seg.len() > 0 && seg != seq!['.']
}

/// The segments that survive normalisation, in order.
pub open spec fn spec_kept_segments(segs: Seq<Seq<char>>) -> Seq<Seq<char>>
    decreases segs.len(),
{
    if segs.len() == 0 {
        Seq::empty()
    } else {
        let prev = spec_kept_segments(segs.drop_last());
        if spec_keep_segment(segs.last()) {
            prev.push(segs.last())
        } else {
            prev
        }
    }
}

/// The segments joined with `sep` between neighbours.
pub open spec fn spec_join(segs: Seq<Seq<char>>, sep: char) -> Seq<char>
    decreases segs.len(),
{
    if segs.len() == 0 {
        Seq::empty()
    } else if segs.len() == 1 {
        segs[0]
    } else {
        spec_join(segs.drop_last(), sep) + seq![sep] + segs.last()
    }
}

/// The normal form of a virtual path: backslashes become slashes, empty and
/// `"."` segments are dropped, the rest is joined with single slashes.
pub open spec fn spec_normalize_virtual_path(raw: Seq<char>) -> Seq<char> {
    spec_join(spec_kept_segments(spec_split(spec_backslash_to_slash(raw), '/')), '/')
}

/// A chunk suffix segment such as `0:1048576`: it holds a colon, and only
/// ASCII digits, colons and hyphens.
pub open spec fn spec_is_chunk_suffix(seg: Seq<char>) -> bool {
    &&& seg.contains(':')
    &&& forall|k: int|
        0 <= k < seg.len() ==> spec_is_ascii_digit(#[trigger] seg[k]) || seg[k] == ':' || seg[k]
            == '-'
}

/// Index of the last occurrence of `c` in `s`.
pub open spec fn spec_last_index_of(s: Seq<char>, c: char) -> Option<int>
    decreases s.len(),
{
    if s.len() == 0 {
        None
    } else if s.last() == c {
        Some(s.len() - 1)
    } else {
        spec_last_index_of(s.drop_last(), c)
    }
}

/// `s` without its leading slashes.
pub open spec fn spec_trim_start_slashes(s: Seq<char>) -> Seq<char>
    decreases s.len(),
{
    if s.len() > 0 && s[0] == '/' {
        spec_trim_start_slashes(s.drop_first())
    } else {
        s
    }
}

/// `s` without its trailing slashes.
pub open spec fn spec_trim_end_slashes(s: Seq<char>) -> Seq<char>
    decreases s.len(),
{
    if s.len() > 0 && s.last() == '/' {
        spec_trim_end_slashes(s.drop_last())
    } else {
        s
    }
}

/// `s` without leading and trailing slashes (`str::trim_matches('/')`).
pub open spec fn spec_trim_slashes(s: Seq<char>) -> Seq<char> {
    spec_trim_end_slashes(spec_trim_start_slashes(s))
}

/// The file path of a backup item: a trailing chunk suffix segment is
/// removed; a path that is only a chunk suffix becomes empty; otherwise the
/// path loses its leading and trailing slashes.
pub open spec fn spec_strip_chunk_suffix(path: Seq<char>) -> Seq<char> {
    match spec_last_index_of(path, '/') {
        Some(idx) => if spec_is_chunk_suffix(path.subrange(idx + 1, path.len() as int)) {
            path.subrange(0, idx)
        } else {
            spec_trim_slashes(path)
        },
        None => if spec_is_chunk_suffix(path) {
            Seq::empty()
        } else {
            spec_trim_slashes(path)
        },
    }
}

/// Kept segments are never empty, so their join is empty only when there
/// is no segment at all.
proof fn lemma_join_kept_empty(segs: Seq<Seq<char>>)
    ensures
        spec_join(spec_kept_segments(segs), '/').len() == 0 <==> spec_kept_segments(segs).len()
            == 0,
        forall|k: int|
            0 <= k < spec_kept_segments(segs).len() ==> spec_keep_segment(
                #[trigger] spec_kept_segments(segs)[k],
            ),
    decreases segs.len(),
{
    if segs.len() > 0 {
        lemma_join_kept_empty(segs.drop_last());
        let prev = spec_kept_segments(segs.drop_last());
        if spec_keep_segment(segs.last()) {
            let cur = prev.push(segs.last());
            assert(cur.drop_last() =~= prev);
            assert forall|k: int| 0 <= k < cur.len() implies spec_keep_segment(
                #[trigger] cur[k],
            ) by {
                if k < prev.len() {
                    assert(cur[k] == prev[k]);
                }
            }
        }
    }
}

/// Adding one more raw segment to the list extends the join as the
/// normalising loop does.
proof fn lemma_join_push(done: Seq<Seq<char>>, seg: Seq<char>)
    ensures
        spec_kept_segments(done.push(seg)) == (if spec_keep_segment(seg) {
            spec_kept_segments(done).push(seg)
        } else {
            spec_kept_segments(done)
        }),
        spec_keep_segment(seg) ==> spec_join(spec_kept_segments(done.push(seg)), '/') == (if spec_kept_segments(done).len() == 0 {
            seg
        } else {
            spec_join(spec_kept_segments(done), '/') + seq!['/'] + seg
        }),
{
    assert(done.push(seg).drop_last() =~= done);
    if spec_keep_segment(seg) {
        let k = spec_kept_segments(done);
        assert(k.push(seg).drop_last() =~= k);
    }
}

/// Splitting a text that ends with a separator-free tail: the tail extends
/// the last piece.
proof fn lemma_split_append_plain(x: Seq<char>, t: Seq<char>, sep: char)
    requires
        !t.contains(sep),
    ensures
        spec_split(x + t, sep) == spec_split(x, sep).update(
            spec_split(x, sep).len() - 1,
            spec_split(x, sep).last() + t,
        ),
    decreases t.len(),
{
    lemma_split_len(x, sep);
    if t.len() == 0 {
        assert(x + t =~= x);
        let sp = spec_split(x, sep);
        assert(sp.update(sp.len() - 1, sp.last() + t) =~= sp);
    } else {
        let t0 = t.drop_last();
        assert(!t0.contains(sep)) by {
            if t0.contains(sep) {
                let k = choose|k: int| 0 <= k < t0.len() && t0[k] == sep;
                assert(t[k] == sep);
            }
        }
        lemma_split_append_plain(x, t0, sep);
        assert(t[t.len() - 1] != sep);
        assert((x + t).drop_last() =~= x + t0);
        assert((x + t).last() == t.last());
        let sp = spec_split(x, sep);
        let prev = sp.update(sp.len() - 1, sp.last() + t0);
        assert(prev.update(prev.len() - 1, prev.last().push(t.last())) =~= sp.update(
            sp.len() - 1,
            sp.last() + t,
        )) by {
            assert((sp.last() + t0).push(t.last()) =~= sp.last() + t);
        }
    }
}

/// Splitting the join of separator-free pieces gives the pieces back.
proof fn lemma_split_join(segs: Seq<Seq<char>>, sep: char)
    requires
        segs.len() >= 1,
        forall|k: int| 0 <= k < segs.len() ==> !(#[trigger] segs[k]).contains(sep),
    ensures
        spec_split(spec_join(segs, sep), sep) == segs,
    decreases segs.len(),
{
    if segs.len() == 1 {
        lemma_split_append_plain(Seq::empty(), segs[0], sep);
        assert(Seq::<char>::empty() + segs[0] =~= segs[0]);
        let sp = spec_split(Seq::<char>::empty(), sep);
        assert(sp =~= seq![Seq::<char>::empty()]);
        assert(sp.update(0, sp.last() + segs[0]) =~= segs) by {
            assert(Seq::<char>::empty() + segs[0] =~= segs[0]);
        }
    } else {
        let p = segs.drop_last();
        assert forall|k: int| 0 <= k < p.len() implies !(#[trigger] p[k]).contains(sep) by {
            assert(p[k] == segs[k]);
        }
        lemma_split_join(p, sep);
        let jp = spec_join(p, sep);
        let last = segs.last();
        assert(!last.contains(sep));
        assert(spec_join(segs, sep) == jp + seq![sep] + last);
        assert(jp + seq![sep] + last =~= jp.push(sep) + last);
        lemma_split_append_plain(jp.push(sep), last, sep);
        assert(jp.push(sep).drop_last() =~= jp);
        let sq = spec_split(jp.push(sep), sep);
        assert(sq == p.push(Seq::<char>::empty()));
        assert(sq.update(sq.len() - 1, sq.last() + last) =~= segs) by {
            assert(Seq::<char>::empty() + last =~= last);
        }
    }
}

/// Every piece of a split holds characters of the text, none of them the
/// separator.
proof fn lemma_split_pieces(s: Seq<char>, sep: char)
    ensures
        forall|k: int, j: int|
            0 <= k < spec_split(s, sep).len() && 0 <= j < spec_split(s, sep)[k].len() ==> (
            #[trigger] spec_split(s, sep)[k][j]) != sep && s.contains(spec_split(s, sep)[k][j]),
    decreases s.len(),
{
    if s.len() > 0 {
        let d = s.drop_last();
        lemma_split_pieces(d, sep);
        lemma_split_len(d, sep);
        let prev = spec_split(d, sep);
        let cur = spec_split(s, sep);
        assert forall|k: int, j: int| 0 <= k < cur.len() && 0 <= j < cur[k].len() implies (
        #[trigger] cur[k][j]) != sep && s.contains(cur[k][j]) by {
            if s.last() == sep {
                if k < prev.len() {
                    assert(cur[k] == prev[k]);
                    let i = choose|i: int| 0 <= i < d.len() && d[i] == prev[k][j];
                    assert(s[i] == d[i]);
                }
            } else {
                if k < prev.len() - 1 {
                    assert(cur[k] == prev[k]);
                    let i = choose|i: int| 0 <= i < d.len() && d[i] == prev[k][j];
                    assert(s[i] == d[i]);
                } else {
                    assert(cur[k] == prev.last().push(s.last()));
                    if j < prev.last().len() {
                        assert(cur[k][j] == prev[prev.len() - 1][j]);
                        let i = choose|i: int| 0 <= i < d.len() && d[i] == prev[prev.len() - 1][j];
                        assert(s[i] == d[i]);
                    } else {
                        assert(cur[k][j] == s[s.len() - 1]);
                    }
                }
            }
        }
    }
}

/// The kept segments are some of the segments, each of them kept.
proof fn lemma_kept_from(segs: Seq<Seq<char>>)
    ensures
        forall|k: int|
            0 <= k < spec_kept_segments(segs).len() ==> segs.contains(
                #[trigger] spec_kept_segments(segs)[k],
            ) && spec_keep_segment(spec_kept_segments(segs)[k]),
    decreases segs.len(),
{
    if segs.len() > 0 {
        let d = segs.drop_last();
        lemma_kept_from(d);
        let prev = spec_kept_segments(d);
        let cur = spec_kept_segments(segs);
        assert forall|k: int| 0 <= k < cur.len() implies segs.contains(#[trigger] cur[k])
            && spec_keep_segment(cur[k]) by {
            if k < prev.len() {
                assert(cur[k] == prev[k]);
                let i = choose|i: int| 0 <= i < d.len() && d[i] == prev[k];
                assert(segs[i] == d[i]);
            } else {
                assert(cur[k] == segs[segs.len() - 1]);
            }
        }
    }
}

/// Segments that are all kept are kept as they are.
proof fn lemma_kept_all(segs: Seq<Seq<char>>)
    requires
        forall|k: int| 0 <= k < segs.len() ==> spec_keep_segment(#[trigger] segs[k]),
    ensures
        spec_kept_segments(segs) == segs,
    decreases segs.len(),
{
    if segs.len() > 0 {
        let d = segs.drop_last();
        assert forall|k: int| 0 <= k < d.len() implies spec_keep_segment(#[trigger] d[k]) by {
            assert(d[k] == segs[k]);
        }
        lemma_kept_all(d);
        assert(spec_keep_segment(segs[segs.len() - 1]));
        assert(d.push(segs.last()) =~= segs);
    }
}

/// A join holds no character that is neither the separator nor in a
/// segment.
proof fn lemma_join_no_char(segs: Seq<Seq<char>>, sep: char, c: char)
    requires
        c != sep,
        forall|k: int| 0 <= k < segs.len() ==> !(#[trigger] segs[k]).contains(c),
    ensures
        !spec_join(segs, sep).contains(c),
    decreases segs.len(),
{
    if segs.len() > 1 {
        let d = segs.drop_last();
        assert forall|k: int| 0 <= k < d.len() implies !(#[trigger] d[k]).contains(c) by {
            assert(d[k] == segs[k]);
        }
        lemma_join_no_char(d, sep, c);
        let jd = spec_join(d, sep);
        let j = jd + seq![sep] + segs.last();
        assert(!segs[segs.len() - 1].contains(c));
        if j.contains(c) {
            let i = choose|i: int| 0 <= i < j.len() && j[i] == c;
            if i < jd.len() {
                assert(j[i] == jd[i]);
            } else if i > jd.len() {
                assert(j[i] == segs.last()[i - jd.len() - 1]);
            }
        }
    }
}

/// The join of non-empty, separator-free segments neither starts nor ends
/// with the separator and never holds it twice in a row.
proof fn lemma_join_shape(segs: Seq<Seq<char>>, sep: char)
    requires
        segs.len() >= 1,
        forall|k: int| 0 <= k < segs.len() ==> (#[trigger] segs[k]).len() > 0 && !segs[k].contains(sep),
    ensures
        spec_join(segs, sep).len() > 0,
        spec_join(segs, sep)[0] != sep,
        spec_join(segs, sep).last() != sep,
        forall|i: int|
            0 <= i < spec_join(segs, sep).len() - 1 ==> !(#[trigger] spec_join(segs, sep)[i] == sep
                && spec_join(segs, sep)[i + 1] == sep),
    decreases segs.len(),
{
    let j = spec_join(segs, sep);
    if segs.len() == 1 {
        assert(j == segs[0]);
        assert(segs[0].len() > 0);
        assert forall|i: int| 0 <= i < j.len() - 1 implies !(#[trigger] j[i] == sep && j[i + 1] == sep) by {
            if j[i] == sep {
                assert(segs[0].contains(sep));
            }
        }
        if j[0] == sep {
            assert(segs[0].contains(sep));
        }
        if j.last() == sep {
            assert(segs[0][segs[0].len() - 1] == sep);
        }
    } else {
        let d = segs.drop_last();
        assert forall|k: int| 0 <= k < d.len() implies (#[trigger] d[k]).len() > 0 && !d[k].contains(sep) by {
            assert(d[k] == segs[k]);
        }
        lemma_join_shape(d, sep);
        let jd = spec_join(d, sep);
        let l = segs.last();
        assert(l.len() > 0 && !l.contains(sep));
        assert(j == jd + seq![sep] + l);
        let n = jd.len();
        assert(j[0] == jd[0]);
        assert(j.last() == l.last());
        if l.last() == sep {
            assert(l[l.len() - 1] == sep);
        }
        assert forall|i: int| 0 <= i < j.len() - 1 implies !(#[trigger] j[i] == sep && j[i + 1] == sep) by {
            if i < n - 1 {
                assert(j[i] == jd[i] && j[i + 1] == jd[i + 1]);
            } else if i == n - 1 {
                assert(j[i] == jd[n - 1]);
            } else if i == n {
                assert(j[i + 1] == l[0]);
                if l[0] == sep {
                    assert(l.contains(sep));
                }
            } else {
                assert(j[i] == l[i - n - 1]);
                if l[i - n - 1] == sep {
                    assert(l.contains(sep));
                }
            }
        }
    }
}

/// The normal form of a virtual path is already normal; it holds no
/// backslash, does not start or end with a slash and never holds two in a
/// row; and, unless it is empty, splitting it at slashes gives exactly the
/// segments of the raw path (backslashes read as slashes) that are neither
/// empty nor `.`, in their order.
pub proof fn law_normalize_virtual_path(raw: Seq<char>)
    ensures
        spec_normalize_virtual_path(spec_normalize_virtual_path(raw)) == spec_normalize_virtual_path(
            raw,
        ),
        !spec_normalize_virtual_path(raw).contains('\\'),
        spec_normalize_virtual_path(raw).len() > 0 ==> spec_normalize_virtual_path(raw)[0] != '/'
            && spec_normalize_virtual_path(raw).last() != '/',
        forall|i: int|
            0 <= i < spec_normalize_virtual_path(raw).len() - 1 ==> !(
            #[trigger] spec_normalize_virtual_path(raw)[i] == '/' && spec_normalize_virtual_path(
                raw,
            )[i + 1] == '/'),
        spec_normalize_virtual_path(raw).len() > 0 ==> spec_split(
            spec_normalize_virtual_path(raw),
            '/',
        ) == spec_kept_segments(spec_split(spec_backslash_to_slash(raw), '/')),
        forall|k: int|
            0 <= k < spec_kept_segments(spec_split(spec_backslash_to_slash(raw), '/')).len()
                ==> spec_keep_segment(
                #[trigger] spec_kept_segments(spec_split(spec_backslash_to_slash(raw), '/'))[k],
            ),
{
    let b = spec_backslash_to_slash(raw);
    let pieces = spec_split(b, '/');
    let kept = spec_kept_segments(pieces);
    let r = spec_join(kept, '/');
    assert(!b.contains('\\')) by {
        if b.contains('\\') {
            let i = choose|i: int| 0 <= i < b.len() && b[i] == '\\';
            assert(b[i] == (if raw[i] == '\\' { '/' } else { raw[i] }));
        }
    }
    lemma_split_pieces(b, '/');
    lemma_kept_from(pieces);
    assert forall|k: int| 0 <= k < kept.len() implies (#[trigger] kept[k]).len() > 0 && !kept[k].contains('/')
        && !kept[k].contains('\\') by {
        let i = choose|i: int| 0 <= i < pieces.len() && pieces[i] == kept[k];
        if kept[k].contains('/') {
            let j = choose|j: int| 0 <= j < kept[k].len() && kept[k][j] == '/';
            assert(pieces[i][j] == '/');
        }
        if kept[k].contains('\\') {
            let j = choose|j: int| 0 <= j < kept[k].len() && kept[k][j] == '\\';
            assert(b.contains(pieces[i][j]));
        }
    }
    lemma_join_no_char(kept, '/', '\\');
    if kept.len() == 0 {
        assert(r =~= Seq::<char>::empty());
        let b2 = spec_backslash_to_slash(r);
        assert(b2 =~= Seq::<char>::empty());
        assert(spec_split(b2, '/') =~= seq![Seq::<char>::empty()]);
        let e = seq![Seq::<char>::empty()];
        assert(e.drop_last() =~= Seq::<Seq<char>>::empty());
        assert(spec_kept_segments(Seq::<Seq<char>>::empty()) =~= Seq::<Seq<char>>::empty());
        assert(!spec_keep_segment(e.last()));
        assert(spec_kept_segments(e) =~= Seq::<Seq<char>>::empty());
    } else {
        lemma_join_shape(kept, '/');
        lemma_split_join(kept, '/');
        assert(spec_backslash_to_slash(r) =~= r) by {
            assert forall|i: int| 0 <= i < r.len() implies r[i] != '\\' by {
                if r[i] == '\\' {
                    assert(r.contains('\\'));
                }
            }
        }
        lemma_kept_all(kept);
    }
}

/// The last segment of a path: what follows its last slash, or the whole
/// path when it has none (`str::rsplit('/').next()`).
pub open spec fn spec_last_segment(p: Seq<char>) -> Seq<char> {
    match spec_last_index_of(p, '/') {
        Some(i) => p.subrange(i + 1, p.len() as int),
        None => p,
    }
}

proof fn lemma_last_index_none(s: Seq<char>, c: char)
    requires
        !s.contains(c),
    ensures
        spec_last_index_of(s, c) is None,
    decreases s.len(),
{
    if s.len() > 0 {
        assert(s[s.len() - 1] != c);
        assert(!s.drop_last().contains(c)) by {
            if s.drop_last().contains(c) {
                let k = choose|k: int| 0 <= k < s.len() - 1 && s.drop_last()[k] == c;
                assert(s[k] == c);
            }
        }
        lemma_last_index_none(s.drop_last(), c);
    }
}

proof fn lemma_last_index_after(x: Seq<char>, t: Seq<char>, c: char)
    requires
        !t.contains(c),
    ensures
        spec_last_index_of(x.push(c) + t, c) == Some(x.len() as int),
    decreases t.len(),
{
    if t.len() == 0 {
        assert(x.push(c) + t =~= x.push(c));
    } else {
        let t0 = t.drop_last();
        assert(!t0.contains(c)) by {
            if t0.contains(c) {
                let k = choose|k: int| 0 <= k < t0.len() && t0[k] == c;
                assert(t[k] == c);
            }
        }
        lemma_last_index_after(x, t0, c);
        assert((x.push(c) + t).drop_last() =~= x.push(c) + t0);
        assert(t[t.len() - 1] != c);
    }
}

/// A chunk suffix holds no slash.
proof fn lemma_suffix_no_slash(s: Seq<char>)
    requires
        spec_is_chunk_suffix(s),
    ensures
        !s.contains('/'),
{
    if s.contains('/') {
        let k = choose|k: int| 0 <= k < s.len() && s[k] == '/';
        assert(spec_is_ascii_digit(s[k]) || s[k] == ':' || s[k] == '-');
    }
}

/// Stripping the chunk suffix: a path `p/s` whose last segment `s` is a
/// chunk suffix becomes `p`, and a bare chunk suffix becomes empty; a path
/// whose last segment is not a chunk suffix only loses its leading and
/// trailing slashes.
pub proof fn law_strip_chunk_suffix(p: Seq<char>, s: Seq<char>, q: Seq<char>)
    ensures
        spec_is_chunk_suffix(s) ==> spec_strip_chunk_suffix(p + seq!['/'] + s) == p
            && spec_strip_chunk_suffix(s).len() == 0,
        !spec_is_chunk_suffix(spec_last_segment(q)) ==> spec_strip_chunk_suffix(q) == spec_trim_slashes(q),
{
    if spec_is_chunk_suffix(s) {
        lemma_suffix_no_slash(s);
        lemma_last_index_after(p, s, '/');
        let full = p + seq!['/'] + s;
        assert(full =~= p.push('/') + s);
        assert(full.subrange(p.len() + 1int, full.len() as int) =~= s);
        assert(full.subrange(0, p.len() as int) =~= p);
        lemma_last_index_none(s, '/');
    }
}

/// Namespace of the inner-path helpers.
pub struct ChunkInnerPathHelper;

impl ChunkInnerPathHelper {
    /// Normalises a virtual path (see `spec_normalize_virtual_path`).
    pub fn normalize_virtual_path(raw_path: &str) -> (res: String)
        ensures
            res@ == spec_normalize_virtual_path(raw_path@),
    {
        let v = chars_of(raw_path);
        let ghost mapped = spec_backslash_to_slash(v@);
        let mut out: Vec<char> = Vec::new();
        let mut cur: Vec<char> = Vec::new();
        let ghost mut done: Seq<Seq<char>> = Seq::empty();
        let mut i: usize = 0;
        assert(mapped.take(0) =~= Seq::<char>::empty());
        while i < v.len()
            invariant
                i <= v@.len(),
                mapped == spec_backslash_to_slash(v@),
                mapped.len() == v@.len(),
                spec_split(mapped.take(i as int), '/') == done.push(cur@),
                out@ == spec_join(spec_kept_segments(done), '/'),
                out@.len() == 0 <==> spec_kept_segments(done).len() == 0,
            decreases v.len() - i,
        {
            let c = if v[i] == '\\' {
                '/'
            } else {
                v[i]
            };
            assert(mapped[i as int] == c);
            let ghost prev_take = mapped.take(i as int);
            assert(mapped.take(i + 1) =~= prev_take.push(c));
            assert(mapped.take(i + 1).drop_last() =~= prev_take);
            if c == '/' {
                proof {
                    lemma_join_push(done, cur@);
                    lemma_join_kept_empty(done.push(cur@));
                }
                let keep = cur.len() > 0 && !(cur.len() == 1 && cur[0] == '.');
                assert(keep == spec_keep_segment(cur@)) by {
                    if cur@.len() == 1 && cur@[0] == '.' {
                        assert(cur@ =~= seq!['.']);
                    }
                    if cur@ == seq!['.'] {
                        assert(cur@.len() == 1);
                    }
                }
                if keep {
                    if out.len() > 0 {
                        out.push('/');
                    }
                    let n = cur.len();
                    extend_chars(&mut out, &cur, 0, n);
                    assert(cur@.subrange(0, n as int) =~= cur@);
                }
                proof {
                    done = done.push(cur@);
                }
                cur = Vec::new();
                assert(spec_split(mapped.take(i + 1), '/') =~= done.push(cur@));
            } else {
                let ghost old_cur = cur@;
                cur.push(c);
                let ghost sp = done.push(old_cur);
                assert(sp.update(sp.len() - 1, sp.last().push(c)) =~= done.push(cur@));
            }
            i = i + 1;
        }
        assert(mapped.take(v@.len() as int) =~= mapped);
        proof {
            lemma_join_push(done, cur@);
        }
        let keep = cur.len() > 0 && !(cur.len() == 1 && cur[0] == '.');
        assert(keep == spec_keep_segment(cur@)) by {
            if cur@.len() == 1 && cur@[0] == '.' {
                assert(cur@ =~= seq!['.']);
            }
            if cur@ == seq!['.'] {
                assert(cur@.len() == 1);
            }
        }
        if keep {
            if out.len() > 0 {
                out.push('/');
            }
            let n = cur.len();
            extend_chars(&mut out, &cur, 0, n);
            assert(cur@.subrange(0, n as int) =~= cur@);
        }
        string_from_chars(&out)
    }

    /// Removes the chunk suffix of an item path (see `spec_strip_chunk_suffix`).
    pub fn strip_chunk_suffix(path: &str) -> (res: String)
        ensures
            res@ == spec_strip_chunk_suffix(path@),
    {
        let v = chars_of(path);
        let n = v.len();
        match last_index_of_char(&v, '/') {
            Some(idx) => {
                let mut suffix: Vec<char> = Vec::new();
                extend_chars(&mut suffix, &v, idx + 1, n);
                if Self::is_chunk_suffix_chars(&suffix) {
                    let mut head: Vec<char> = Vec::new();
                    extend_chars(&mut head, &v, 0, idx);
                    return string_from_chars(&head);
                }
            },
            None => {
                if Self::is_chunk_suffix_chars(&v) {
                    return string_from_chars(&Vec::new());
                }
            },
        }
        let t = trim_slashes(&v);
        string_from_chars(&t)
    }

    /// Whether a path segment is a chunk suffix (see `spec_is_chunk_suffix`).
    pub fn is_chunk_suffix(segment: &str) -> (b: bool)
        ensures
            b == spec_is_chunk_suffix(segment@),
    {
        let v = chars_of(segment);
        Self::is_chunk_suffix_chars(&v)
    }

    fn is_chunk_suffix_chars(seg: &[char]) -> (b: bool)
        ensures
            b == spec_is_chunk_suffix(seg@),
    {
        if !contains_char(seg, ':') {
            return false;
        }
        let mut i: usize = 0;
        while i < seg.len()
            invariant
                i <= seg@.len(),
                forall|k: int|
                    0 <= k < i ==> spec_is_ascii_digit(#[trigger] seg@[k]) || seg@[k] == ':'
                        || seg@[k] == '-',
            decreases seg.len() - i,
        {
            let c = seg[i];
            if !(('0' <= c && c <= '9') || c == ':' || c == '-') {
                return false;
            }
            i = i + 1;
        }
        true
    }
}

/// Index of the last occurrence of `c` in `s` (`str::rfind`).
pub fn last_index_of_char(s: &[char], c: char) -> (r: Option<usize>)
    ensures
        match r {
            Some(i) => spec_last_index_of(s@, c) == Some(i as int),
            None => spec_last_index_of(s@, c) is None,
        },
        r matches Some(i) ==> i < s@.len(),
{
    let mut j = s.len();
    assert(s@.take(j as int) =~= s@);
    while j > 0
        invariant
            j <= s@.len(),
            spec_last_index_of(s@, c) == spec_last_index_of(s@.take(j as int), c),
        decreases j,
    {
        assert(s@.take(j as int).drop_last() =~= s@.take(j - 1));
        if s[j - 1] == c {
            return Some(j - 1);
        }
        j = j - 1;
    }
    None
}

/// `s` without leading and trailing slashes.
pub fn trim_slashes(s: &[char]) -> (r: Vec<char>)
    ensures
        r@ == spec_trim_slashes(s@),
{
    let n = s.len();
    let mut i: usize = 0;
    assert(s@.subrange(0, n as int) =~= s@);
    while i < n && s[i] == '/'
        invariant
            i <= n == s@.len(),
            spec_trim_start_slashes(s@) == spec_trim_start_slashes(s@.subrange(i as int, n as int)),
        decreases n - i,
    {
        assert(s@.subrange(i as int, n as int).drop_first() =~= s@.subrange(i + 1, n as int));
        i = i + 1;
    }
    let mut j: usize = n;
    while j > i && s[j - 1] == '/'
        invariant
            i <= j <= n == s@.len(),
            spec_trim_start_slashes(s@) == s@.subrange(i as int, n as int),
            spec_trim_slashes(s@) == spec_trim_end_slashes(s@.subrange(i as int, j as int)),
        decreases j,
    {
        assert(s@.subrange(i as int, j as int).drop_last() =~= s@.subrange(i as int, j - 1));
        j = j - 1;
    }
    let mut r: Vec<char> = Vec::new();
    extend_chars(&mut r, s, i, j);
    assert(r@ =~= s@.subrange(i as int, j as int));
    r
}

} // verus!
