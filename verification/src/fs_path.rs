//! File system paths by their components ('/'-separated): a root, then the
//! names; empty names and `.` names are not components, except a leading
//! `.` of a relative path.

use vstd::prelude::*;
use crate::path_helper::{spec_split, spec_kept_segments, spec_keep_segment};
use crate::text::{chars_of, chars_eq, string_from_chars, extend_chars};

verus! {

pub open spec fn spec_is_absolute(p: Seq<char>) -> bool {
    p.len() > 0 && p[0] == '/'
}

/// The names of a path.
pub open spec fn spec_components(p: Seq<char>) -> Seq<Seq<char>> {
    let raw = spec_split(p, '/');
    if !spec_is_absolute(p) && raw[0] == seq!['.'] {
        seq![seq!['.']] + spec_kept_segments(raw)
    } else {
        spec_kept_segments(raw)
    }
}

/// Path `a` starts with path `b`: both rooted or both relative, and the
/// names of `b` begin the names of `a`.
pub open spec fn spec_path_starts_with(a: Seq<char>, b: Seq<char>) -> bool {
    let ca = spec_components(a);
    let cb = spec_components(b);
    spec_is_absolute(a) == spec_is_absolute(b) && cb.len() <= ca.len() && ca.take(cb.len() as int)
        == cb
}

/// Two paths with the same components.
pub open spec fn spec_path_eq(a: Seq<char>, b: Seq<char>) -> bool {
    spec_is_absolute(a) == spec_is_absolute(b) && spec_components(a) == spec_components(b)
}

/// The text of a path made of a root (or none) and names.
pub open spec fn spec_path_text(absolute: bool, comps: Seq<Seq<char>>) -> Seq<char> {
    (if absolute {
        seq!['/']
    } else {
        Seq::empty()
    }) + crate::path_helper::spec_join(comps, '/')
}

proof fn lemma_kept_push(done: Seq<Seq<char>>, seg: Seq<char>)
    ensures
        spec_kept_segments(done.push(seg)) == (if spec_keep_segment(seg) {
            spec_kept_segments(done).push(seg)
        } else {
            spec_kept_segments(done)
        }),
{
    assert(done.push(seg).drop_last() =~= done);
}

/// The kept segments of `v` split at '/', and its first raw segment.
fn kept_segments(v: &Vec<char>) -> (r: (Vec<Vec<char>>, Vec<char>))
    ensures
        r.0@.map_values(|s: Vec<char>| s@) == spec_kept_segments(spec_split(v@, '/')),
        r.1@ == spec_split(v@, '/')[0],
{
    let mut out: Vec<Vec<char>> = Vec::new();
    let mut cur: Vec<char> = Vec::new();
    let mut first: Vec<char> = Vec::new();
    let mut seen_sep = false;
    let ghost mut done: Seq<Seq<char>> = Seq::empty();
    let mut i: usize = 0;
    assert(v@.take(0) =~= Seq::<char>::empty());
    assert(out@.map_values(|s: Vec<char>| s@) =~= spec_kept_segments(done));
    while i < v.len()
        invariant
            i <= v@.len(),
            spec_split(v@.take(i as int), '/') == done.push(cur@),
            out@.map_values(|s: Vec<char>| s@) == spec_kept_segments(done),
            seen_sep ==> done.len() > 0 && first@ == done[0],
            !seen_sep ==> done.len() == 0,
        decreases v.len() - i,
    {
        let c = v[i];
        let ghost prev_take = v@.take(i as int);
        assert(v@.take(i + 1) =~= prev_take.push(c));
        assert(v@.take(i + 1).drop_last() =~= prev_take);
        if c == '/' {
            proof {
                lemma_kept_push(done, cur@);
            }
            let keep = cur.len() > 0 && !(cur.len() == 1 && cur[0] == '.');
            assert(keep == spec_keep_segment(cur@)) by {
                if cur@.len() == 1 && cur@[0] == '.' {
                    assert(cur@ =~= seq!['.']);
                }
                if cur@ == seq!['.'] {
                    assert(cur@.len() == 1);
                }
            }
            if !seen_sep {
                let n = cur.len();
                first = Vec::new();
                extend_chars(&mut first, &cur, 0, n);
                assert(cur@.subrange(0, n as int) =~= cur@);
                seen_sep = true;
            }
            let ghost before = out@;
            if keep {
                let n = cur.len();
                let mut seg: Vec<char> = Vec::new();
                extend_chars(&mut seg, &cur, 0, n);
                assert(cur@.subrange(0, n as int) =~= cur@);
                out.push(seg);
                assert(out@.map_values(|s: Vec<char>| s@) =~= before.map_values(|s: Vec<char>| s@).push(cur@));
            }
            proof {
                done = done.push(cur@);
            }
            cur = Vec::new();
            assert(spec_split(v@.take(i + 1), '/') =~= done.push(cur@));
        } else {
            let ghost old_cur = cur@;
            cur.push(c);
            let ghost sp = done.push(old_cur);
            assert(sp.update(sp.len() - 1, sp.last().push(c)) =~= done.push(cur@));
        }
        i = i + 1;
    }
    assert(v@.take(v@.len() as int) =~= v@);
    proof {
        lemma_kept_push(done, cur@);
    }
    let keep = cur.len() > 0 && !(cur.len() == 1 && cur[0] == '.');
    assert(keep == spec_keep_segment(cur@)) by {
        if cur@.len() == 1 && cur@[0] == '.' {
            assert(cur@ =~= seq!['.']);
        }
        if cur@ == seq!['.'] {
            assert(cur@.len() == 1);
        }
    }
    if !seen_sep {
        let n = cur.len();
        first = Vec::new();
        extend_chars(&mut first, &cur, 0, n);
        assert(cur@.subrange(0, n as int) =~= cur@);
    }
    let ghost before = out@;
    if keep {
        let n = cur.len();
        let mut seg: Vec<char> = Vec::new();
        extend_chars(&mut seg, &cur, 0, n);
        assert(cur@.subrange(0, n as int) =~= cur@);
        out.push(seg);
        assert(out@.map_values(|s: Vec<char>| s@) =~= before.map_values(|s: Vec<char>| s@).push(cur@));
    }
    (out, first)
}

/// Whether a path is rooted, and its names.
pub fn components(p: &str) -> (r: (bool, Vec<Vec<char>>))
    ensures
        r.0 == spec_is_absolute(p@),
        r.1@.map_values(|s: Vec<char>| s@) == spec_components(p@),
{
    let v = chars_of(p);
    let absolute = v.len() > 0 && v[0] == '/';
    let (kept, first) = kept_segments(&v);
    let leading_dot = !absolute && first.len() == 1 && first[0] == '.';
    assert(leading_dot == (!spec_is_absolute(p@) && spec_split(p@, '/')[0] == seq!['.'])) by {
        if first@.len() == 1 && first@[0] == '.' {
            assert(first@ =~= seq!['.']);
        }
    }
    if leading_dot {
        let mut all: Vec<Vec<char>> = Vec::new();
        let mut dot: Vec<char> = Vec::new();
        dot.push('.');
        assert(dot@ =~= seq!['.']);
        all.push(dot);
        let ghost k = kept@;
        let mut kept_mut = kept;
        let ghost a0 = all@;
        all.append(&mut kept_mut);
        assert(all@.map_values(|s: Vec<char>| s@) =~= seq![seq!['.']] + k.map_values(
            |s: Vec<char>| s@,
        ));
        (absolute, all)
    } else {
        (absolute, kept)
    }
}

fn comps_eq(a: &Vec<Vec<char>>, b: &Vec<Vec<char>>, n: usize) -> (r: bool)
    requires
        n <= a@.len(),
        n <= b@.len(),
    ensures
        r == (a@.map_values(|s: Vec<char>| s@).take(n as int) == b@.map_values(|s: Vec<char>| s@).take(
            n as int,
        )),
{
    let ghost av = a@.map_values(|s: Vec<char>| s@);
    let ghost bv = b@.map_values(|s: Vec<char>| s@);
    let mut i: usize = 0;
    while i < n
        invariant
            i <= n <= a@.len(),
            n <= b@.len(),
            av == a@.map_values(|s: Vec<char>| s@),
            bv == b@.map_values(|s: Vec<char>| s@),
            forall|k: int| 0 <= k < i ==> av[k] == bv[k],
        decreases n - i,
    {
        if !chars_eq(&a[i], &b[i]) {
            assert(av.take(n as int)[i as int] != bv.take(n as int)[i as int]);
            return false;
        }
        i = i + 1;
    }
    assert(av.take(n as int) =~= bv.take(n as int));
    true
}

/// Whether path `a` starts with path `b` (`Path::starts_with`).
pub fn path_starts_with(a: &str, b: &str) -> (r: bool)
    ensures
        r == spec_path_starts_with(a@, b@),
{
    let (aa, ca) = components(a);
    let (ab, cb) = components(b);
    if aa != ab || cb.len() > ca.len() {
        return false;
    }
    let n = cb.len();
    let r = comps_eq(&ca, &cb, n);
    assert(cb@.map_values(|s: Vec<char>| s@).take(n as int) =~= cb@.map_values(|s: Vec<char>| s@));
    r
}

/// Whether two paths have the same components (`Path` equality).
pub fn path_eq(a: &str, b: &str) -> (r: bool)
    ensures
        r == spec_path_eq(a@, b@),
{
    let (aa, ca) = components(a);
    let (ab, cb) = components(b);
    if aa != ab || ca.len() != cb.len() {
        assert(ca@.map_values(|s: Vec<char>| s@).len() == ca@.len());
        assert(cb@.map_values(|s: Vec<char>| s@).len() == cb@.len());
        return false;
    }
    let n = ca.len();
    let r = comps_eq(&ca, &cb, n);
    assert(ca@.map_values(|s: Vec<char>| s@).take(n as int) =~= ca@.map_values(|s: Vec<char>| s@));
    assert(cb@.map_values(|s: Vec<char>| s@).take(n as int) =~= cb@.map_values(|s: Vec<char>| s@));
    r
}

/// The text of a path made of a root (or none) and the first `n` names.
pub fn path_text(absolute: bool, comps: &Vec<Vec<char>>, n: usize) -> (r: String)
    requires
        n <= comps@.len(),
    ensures
        r@ == spec_path_text(absolute, comps@.map_values(|s: Vec<char>| s@).take(n as int)),
{
    let ghost cv = comps@.map_values(|s: Vec<char>| s@);
    let mut out: Vec<char> = Vec::new();
    if absolute {
        out.push('/');
    }
    let ghost head = out@;
    let mut i: usize = 0;
    assert(cv.take(0) =~= Seq::<Seq<char>>::empty());
    assert(out@ =~= head + crate::path_helper::spec_join(cv.take(0), '/'));
    while i < n
        invariant
            i <= n <= comps@.len(),
            cv == comps@.map_values(|s: Vec<char>| s@),
            out@ == head + crate::path_helper::spec_join(cv.take(i as int), '/'),
            head == (if absolute {
                seq!['/']
            } else {
                Seq::<char>::empty()
            }),
        decreases n - i,
    {
        proof {
            assert(cv.take(i + 1).drop_last() =~= cv.take(i as int));
            assert(cv.take(i + 1).last() == comps@[i as int]@);
        }
        if i > 0 {
            out.push('/');
        }
        let m = comps[i].len();
        extend_chars(&mut out, &comps[i], 0, m);
        assert(comps@[i as int]@.subrange(0, m as int) =~= comps@[i as int]@);
        i = i + 1;
        proof {
            let t = cv.take(i as int);
            if i == 1 {
                assert(crate::path_helper::spec_join(t, '/') == t[0]);
            }
            assert(out@ =~= head + crate::path_helper::spec_join(t, '/'));
        }
    }
    string_from_chars(&out)
}

/// The parent of a path (`Path::parent`): the path without its last name;
/// none for a root or an empty path.
pub open spec fn spec_parent(p: Seq<char>) -> Option<Seq<char>> {
    let comps = spec_components(p);
    if comps.len() == 0 {
        None
    } else {
        Some(spec_path_text(spec_is_absolute(p), comps.drop_last()))
    }
}

/// The parent of a path (see `spec_parent`).
pub fn parent_path(p: &str) -> (r: Option<String>)
    ensures
        match (r, spec_parent(p@)) {
            (Some(x), Some(y)) => x@ == y,
            (None, None) => true,
            _ => false,
        },
{
    let (absolute, comps) = components(p);
    let ghost cv = comps@.map_values(|s: Vec<char>| s@);
    assert(cv.len() == comps@.len());
    if comps.len() == 0 {
        return None;
    }
    let n = comps.len() - 1;
    let t = path_text(absolute, &comps, n);
    assert(cv.take(n as int) =~= cv.drop_last());
    Some(t)
}

} // verus!
