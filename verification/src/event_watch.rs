//! Which plans watch which source paths for change events, with a count of
//! watching plans per path, so that a path is watched while some plan needs
//! it and released when the last one leaves.

use vstd::prelude::*;
use crate::fs_path::{path_eq, spec_components, spec_is_absolute, spec_path_eq};

use crate::local_provider::{path_join, spec_path_join};
use crate::url_text::{translate_local_path_from_url, spec_local_path_of};

verus! {

/// What identifies a path: whether it is rooted, and its names (paths
/// compare equal exactly when these are equal).
pub open spec fn spec_path_key(p: Seq<char>) -> (bool, Seq<Seq<char>>) {
    (spec_is_absolute(p), spec_components(p))
}

/// How many of the plans watch a path with this key.
pub open spec fn spec_users(plans: Seq<(String, String)>, k: (bool, Seq<Seq<char>>)) -> nat
    decreases plans.len(),
{
    if plans.len() == 0 {
        0
    } else {
        spec_users(plans.drop_last(), k) + if spec_path_key(plans.last().1@) == k {
            1nat
        } else {
            0nat
        }
    }
}

proof fn lemma_users_push(s: Seq<(String, String)>, x: (String, String), k: (bool, Seq<Seq<char>>))
    ensures
        spec_users(s.push(x), k) == spec_users(s, k) + if spec_path_key(x.1@) == k {
            1nat
        } else {
            0nat
        },
{
    assert(s.push(x).drop_last() =~= s);
}

proof fn lemma_users_remove(s: Seq<(String, String)>, i: int, k: (bool, Seq<Seq<char>>))
    requires
        0 <= i < s.len(),
    ensures
        spec_users(s, k) == spec_users(s.remove(i), k) + if spec_path_key(s[i].1@) == k {
            1nat
        } else {
            0nat
        },
    decreases s.len(),
{
    if i == s.len() - 1 {
        assert(s.remove(i) =~= s.drop_last());
    } else {
        lemma_users_remove(s.drop_last(), i, k);
        assert(s.remove(i).drop_last() =~= s.drop_last().remove(i));
        assert(s.remove(i).last() == s.last());
    }
}

proof fn lemma_users_le_len(s: Seq<(String, String)>, k: (bool, Seq<Seq<char>>))
    ensures
        spec_users(s, k) <= s.len(),
    decreases s.len(),
{
    if s.len() > 0 {
        lemma_users_le_len(s.drop_last(), k);
    }
}

proof fn lemma_users_pos(s: Seq<(String, String)>, i: int)
    requires
        0 <= i < s.len(),
    ensures
        spec_users(s, spec_path_key(s[i].1@)) >= 1,
{
    lemma_users_remove(s, i, spec_path_key(s[i].1@));
}

proof fn lemma_users_exists(s: Seq<(String, String)>, k: (bool, Seq<Seq<char>>))
    requires
        spec_users(s, k) > 0,
    ensures
        exists|i: int| 0 <= i < s.len() && spec_path_key(#[trigger] s[i].1@) == k,
    decreases s.len(),
{
    if spec_path_key(s.last().1@) == k {
        assert(spec_path_key(s[s.len() - 1].1@) == k);
    } else {
        lemma_users_exists(s.drop_last(), k);
        let i = choose|i: int|
            0 <= i < s.drop_last().len() && spec_path_key(#[trigger] s.drop_last()[i].1@) == k;
        assert(s[i] == s.drop_last()[i]);
    }
}

/// The plans watching paths and the count of watching plans per path.
pub struct EventWatchRegistry {
    plan_paths: Vec<(String, String)>,
    path_ref_counts: Vec<(String, usize)>,
}

impl EventWatchRegistry {
    /// Each watching plan with its path.
    pub closed spec fn plans(&self) -> Seq<(String, String)> {
        self.plan_paths@
    }

    /// Each watched path with its count.
    pub closed spec fn counts(&self) -> Seq<(String, usize)> {
        self.path_ref_counts@
    }

    /// A plan watches at most one path; each path is counted once; its
    /// count is the number of plans watching it, at least one; every path a
    /// plan watches is counted.
    pub open spec fn wf(&self) -> bool {
        let p = self.plans();
        let c = self.counts();
        &&& forall|i: int, j: int| 0 <= i < j < p.len() ==> (#[trigger] p[i]).0@ != (#[trigger] p[j]).0@
        &&& forall|i: int, j: int|
            0 <= i < j < c.len() ==> spec_path_key((#[trigger] c[i]).0@) != spec_path_key(
                (#[trigger] c[j]).0@,
            )
        &&& forall|i: int|
            0 <= i < c.len() ==> (#[trigger] c[i]).1 >= 1 && c[i].1 == spec_users(
                p,
                spec_path_key(c[i].0@),
            )
        &&& forall|i: int|
            0 <= i < p.len() ==> exists|j: int|
                0 <= j < c.len() && spec_path_key(#[trigger] c[j].0@) == spec_path_key(
                    (#[trigger] p[i]).1@,
                )
    }

    /// How many plans watch the path.
    pub open spec fn path_count(&self, p: Seq<char>) -> nat {
        spec_users(self.plans(), spec_path_key(p))
    }

    /// Whether a plan watches.
    pub open spec fn spec_attached(&self, plan_id: Seq<char>) -> bool {
        exists|i: int| 0 <= i < self.plans().len() && (#[trigger] self.plans()[i]).0@ == plan_id
    }

    pub fn new() -> (r: EventWatchRegistry)
        ensures
            r.wf(),
            r.plans().len() == 0,
            r.counts().len() == 0,
    {
        EventWatchRegistry { plan_paths: Vec::new(), path_ref_counts: Vec::new() }
    }

    fn find_plan(&self, plan_id: &str) -> (r: Option<usize>)
        ensures
            match r {
                Some(i) => i < self.plans().len() && self.plans()[i as int].0@ == plan_id@,
                None => !self.spec_attached(plan_id@),
            },
    {
        let mut i: usize = 0;
        while i < self.plan_paths.len()
            invariant
                i <= self.plan_paths@.len(),
                forall|k: int| 0 <= k < i ==> (#[trigger] self.plan_paths@[k]).0@ != plan_id@,
            decreases self.plan_paths.len() - i,
        {
            if crate::text::chars_eq(
                &crate::text::chars_of(self.plan_paths[i].0.as_str()),
                &crate::text::chars_of(plan_id),
            ) {
                return Some(i);
            }
            i = i + 1;
        }
        None
    }

    fn find_count(&self, path: &str) -> (r: Option<usize>)
        ensures
            match r {
                Some(j) => j < self.counts().len() && spec_path_key(self.counts()[j as int].0@)
                    == spec_path_key(path@),
                None => forall|j: int|
                    0 <= j < self.counts().len() ==> spec_path_key((#[trigger] self.counts()[j]).0@)
                        != spec_path_key(path@),
            },
    {
        let mut j: usize = 0;
        while j < self.path_ref_counts.len()
            invariant
                j <= self.path_ref_counts@.len(),
                forall|k: int|
                    0 <= k < j ==> spec_path_key((#[trigger] self.path_ref_counts@[k]).0@)
                        != spec_path_key(path@),
            decreases self.path_ref_counts.len() - j,
        {
            if path_eq(self.path_ref_counts[j].0.as_str(), path) {
                return Some(j);
            }
            j = j + 1;
        }
        None
    }

    /// The path a plan watches.
    pub fn plan_path(&self, plan_id: &str) -> (r: Option<String>)
        requires
            self.wf(),
        ensures
            match r {
                Some(p) => exists|i: int|
                    0 <= i < self.plans().len() && (#[trigger] self.plans()[i]).0@ == plan_id@
                        && self.plans()[i].1@ == p@,
                None => !self.spec_attached(plan_id@),
            },
    {
        match self.find_plan(plan_id) {
            Some(i) => Some(self.plan_paths[i].1.clone()),
            None => None,
        }
    }

    /// Whether some plan watches the path.
    pub fn has_path(&self, path: &str) -> (b: bool)
        requires
            self.wf(),
        ensures
            b == (spec_users(self.plans(), spec_path_key(path@)) > 0),
    {
        match self.find_count(path) {
            Some(_) => true,
            None => {
                proof {
                    let p = self.plans();
                    if spec_users(p, spec_path_key(path@)) > 0 {
                        lemma_users_exists(p, spec_path_key(path@));
                        let i = choose|i: int|
                            0 <= i < p.len() && spec_path_key(#[trigger] p[i].1@) == spec_path_key(
                                path@,
                            );
                        assert(exists|j: int|
                            0 <= j < self.counts().len() && spec_path_key(
                                #[trigger] self.counts()[j].0@,
                            ) == spec_path_key(p[i].1@));
                    }
                }
                false
            },
        }
    }

    /// A plan stops watching. Gives its path, and whether no plan watches
    /// that path any more (then the path itself is to be released).
    #[verifier::spinoff_prover]
    pub fn detach_plan(&mut self, plan_id: &str) -> (r: Option<(String, bool)>)
        requires
            old(self).wf(),
        ensures
            final(self).wf(),
            !old(self).spec_attached(plan_id@) ==> r is None && final(self).plans() == old(
                self,
            ).plans(),
            old(self).spec_attached(plan_id@) ==> (r matches Some((path, last)) && exists|i: int|
                0 <= i < old(self).plans().len() && (#[trigger] old(self).plans()[i]).0@ == plan_id@
                    && old(self).plans()[i].1@ == path@ && final(self).plans() == old(
                    self,
                ).plans().remove(i) && last == (spec_users(
                    final(self).plans(),
                    spec_path_key(path@),
                ) == 0)),
    {
        let i = match self.find_plan(plan_id) {
            Some(i) => i,
            None => return None,
        };
        let ghost p0 = self.plan_paths@;
        let ghost c0 = self.path_ref_counts@;
        let (_, path) = self.plan_paths.remove(i);
        let ghost k0 = spec_path_key(path@);
        let ghost p1 = self.plan_paths@;
        proof {
            assert(p0[i as int].1 == path);
            lemma_users_remove(p0, i as int, k0);
            assert forall|a: int, b: int| 0 <= a < b < p1.len() implies (#[trigger] p1[a]).0@ != (
            #[trigger] p1[b]).0@ by {
                let oa = if a < i { a } else { a + 1 };
                let ob = if b < i { b } else { b + 1 };
                assert(p1[a] == p0[oa] && p1[b] == p0[ob]);
            }
            assert(exists|j: int|
                0 <= j < c0.len() && spec_path_key(#[trigger] c0[j].0@) == spec_path_key(
                    p0[i as int].1@,
                ));
        }
        let last = match self.find_count(path.as_str()) {
            Some(j) => {
                proof {
                    assert(c0[j as int].1 == spec_users(p0, k0));
                }
                if self.path_ref_counts[j].1 <= 1 {
                    let _ = self.path_ref_counts.remove(j);
                    proof {
                        let c = self.path_ref_counts@;
                        assert(c == c0.remove(j as int));
                        assert(spec_users(p1, k0) == 0);
                        assert forall|a: int, b: int| 0 <= a < b < c.len() implies spec_path_key(
                            (#[trigger] c[a]).0@,
                        ) != spec_path_key((#[trigger] c[b]).0@) by {
                            let oa = if a < j { a } else { a + 1 };
                            let ob = if b < j { b } else { b + 1 };
                            assert(c[a] == c0[oa] && c[b] == c0[ob]);
                        }
                        assert forall|a: int| 0 <= a < c.len() implies (#[trigger] c[a]).1 >= 1
                            && c[a].1 == spec_users(p1, spec_path_key(c[a].0@)) by {
                            let oa = if a < j { a } else { a + 1 };
                            assert(c[a] == c0[oa]);
                            assert(spec_path_key(c0[oa].0@) != spec_path_key(c0[j as int].0@));
                            lemma_users_remove(p0, i as int, spec_path_key(c[a].0@));
                        }
                        assert forall|a: int| 0 <= a < p1.len() implies exists|jj: int|
                            0 <= jj < c.len() && spec_path_key(#[trigger] c[jj].0@) == spec_path_key(
                                (#[trigger] p1[a]).1@,
                            ) by {
                            let oa = if a < i { a } else { a + 1 };
                            assert(p1[a] == p0[oa]);
                            lemma_users_pos(p1, a);
                            let ka = spec_path_key(p1[a].1@);
                            assert(ka != k0);
                            let j0 = choose|jj: int|
                                0 <= jj < c0.len() && spec_path_key(#[trigger] c0[jj].0@)
                                    == spec_path_key(p0[oa].1@);
                            assert(j0 != j);
                            let j1 = if j0 < j { j0 } else { j0 - 1 };
                            assert(c[j1] == c0[j0]);
                        }
                    }
                    true
                } else {
                    let n = self.path_ref_counts[j].1;
                    let key_text = self.path_ref_counts[j].0.clone();
                    self.path_ref_counts.set(j, (key_text, n - 1));
                    proof {
                        let c = self.path_ref_counts@;
                        assert(c == c0.update(j as int, (key_text, (n - 1) as usize)));
                        assert forall|a: int| 0 <= a < c.len() implies spec_path_key(
                            (#[trigger] c[a]).0@,
                        ) == spec_path_key(c0[a].0@) by {
                            if a != j {
                                assert(c[a] == c0[a]);
                            }
                        }
                        assert forall|a: int, b: int| 0 <= a < b < c.len() implies spec_path_key(
                            (#[trigger] c[a]).0@,
                        ) != spec_path_key((#[trigger] c[b]).0@) by {
                            assert(spec_path_key(c[a].0@) == spec_path_key(c0[a].0@));
                            assert(spec_path_key(c[b].0@) == spec_path_key(c0[b].0@));
                        }
                        assert forall|a: int| 0 <= a < c.len() implies (#[trigger] c[a]).1 >= 1
                            && c[a].1 == spec_users(p1, spec_path_key(c[a].0@)) by {
                            if a != j {
                                assert(c[a] == c0[a]);
                                assert(spec_path_key(c0[a].0@) != spec_path_key(c0[j as int].0@));
                                lemma_users_remove(p0, i as int, spec_path_key(c[a].0@));
                            }
                        }
                        assert forall|a: int| 0 <= a < p1.len() implies exists|jj: int|
                            0 <= jj < c.len() && spec_path_key(#[trigger] c[jj].0@) == spec_path_key(
                                (#[trigger] p1[a]).1@,
                            ) by {
                            let oa = if a < i { a } else { a + 1 };
                            assert(p1[a] == p0[oa]);
                            let j0 = choose|jj: int|
                                0 <= jj < c0.len() && spec_path_key(#[trigger] c0[jj].0@)
                                    == spec_path_key(p0[oa].1@);
                            assert(spec_path_key(c[j0].0@) == spec_path_key(c0[j0].0@));
                        }
                    }
                    false
                }
            },
            None => {
                proof {
                    let j0 = choose|j: int|
                        0 <= j < c0.len() && spec_path_key(#[trigger] c0[j].0@) == spec_path_key(
                            p0[i as int].1@,
                        );
                    assert(self.path_ref_counts@ == c0);
                    assert(self.counts()[j0] == c0[j0]);
                    assert(spec_path_key(self.counts()[j0].0@) != spec_path_key(path@));
                    assert(path@ == p0[i as int].1@);
                }
                true
            },
        };
        proof {
            let p = self.plans();
            let c = self.counts();
            assert(forall|i: int, j: int| 0 <= i < j < p.len() ==> (#[trigger] p[i]).0@ != (#[trigger] p[j]).0@);
            assert(forall|i: int, j: int|
                0 <= i < j < c.len() ==> spec_path_key((#[trigger] c[i]).0@) != spec_path_key(
                    (#[trigger] c[j]).0@,
                ));
            assert(forall|i: int|
                0 <= i < c.len() ==> (#[trigger] c[i]).1 >= 1 && c[i].1 == spec_users(
                    p,
                    spec_path_key(c[i].0@),
                ));
            assert(forall|i: int|
                0 <= i < p.len() ==> exists|j: int|
                    0 <= j < c.len() && spec_path_key(#[trigger] c[j].0@) == spec_path_key(
                        (#[trigger] p[i]).1@,
                    ));
        }
        Some((path, last))
    }

    /// A plan starts watching `path`. Gives whether no plan watched that
    /// path before (then the path itself is to be watched). For a plan not
    /// watching yet, the counts stay exact.
    #[verifier::spinoff_prover]
    pub fn attach_plan(&mut self, plan_id: &str, path: String) -> (need_add: bool)
        requires
            old(self).wf(),
            old(self).plans().len() < usize::MAX,
        ensures
            need_add == (spec_users(old(self).plans(), spec_path_key(path@)) == 0),
            !old(self).spec_attached(plan_id@) ==> final(self).wf() && final(self).plans() == old(
                self,
            ).plans().push(final(self).plans().last()) && final(self).plans().last().0@ == plan_id@
                && final(self).plans().last().1@ == path@,
            !old(self).spec_attached(plan_id@) ==> final(self).spec_attached(plan_id@)
                && final(self).path_count(path@) == old(self).path_count(path@) + 1,
            !old(self).spec_attached(plan_id@) ==> forall|q: Seq<char>|
                spec_path_key(q) != spec_path_key(path@) ==> #[trigger] final(self).path_count(q)
                    == old(self).path_count(q),
    {
        let ghost p0 = self.plan_paths@;
        let ghost c0 = self.path_ref_counts@;
        let ghost k = spec_path_key(path@);
        proof {
            lemma_users_le_len(p0, k);
        }
        let found = self.find_count(path.as_str());
        let need_add = match found {
            Some(j) => {
                proof {
                    assert(c0[j as int].1 == spec_users(p0, k));
                }
                let n = self.path_ref_counts[j].1;
                let key_text = self.path_ref_counts[j].0.clone();
                self.path_ref_counts.set(j, (key_text, n + 1));
                false
            },
            None => {
                proof {
                    if spec_users(p0, k) > 0 {
                        lemma_users_exists(p0, k);
                        let i = choose|i: int|
                            0 <= i < p0.len() && spec_path_key(#[trigger] p0[i].1@) == k;
                        let j0 = choose|jj: int|
                            0 <= jj < c0.len() && spec_path_key(#[trigger] c0[jj].0@)
                                == spec_path_key(p0[i].1@);
                        assert(spec_path_key(c0[j0].0@) != k);
                    }
                }
                self.path_ref_counts.push((path.clone(), 1));
                true
            },
        };
        let ghost c1 = self.path_ref_counts@;
        proof {
            assert forall|a: int| 0 <= a < c0.len() implies spec_path_key((#[trigger] c1[a]).0@)
                == spec_path_key(c0[a].0@) by {
                if found is None || a != found->0 {
                    assert(c1[a] == c0[a]);
                }
            }
        }
        match self.find_plan(plan_id) {
            Some(i) => {
                let id = self.plan_paths[i].0.clone();
                self.plan_paths.set(i, (id, path));
            },
            None => {
                let entry = (String::from_str(plan_id), path);
                self.plan_paths.push(entry);
                proof {
                    let p = self.plan_paths@;
                    let c = c1;
                    assert(p == p0.push(p.last()));
                    assert forall|a: int, b: int| 0 <= a < b < p.len() implies (#[trigger] p[a]).0@
                        != (#[trigger] p[b]).0@ by {
                        if b == p.len() - 1 {
                            assert(p[a] == p0[a]);
                        } else {
                            assert(p[a] == p0[a] && p[b] == p0[b]);
                        }
                    }
                    assert forall|a: int, b: int| 0 <= a < b < c.len() implies spec_path_key(
                        (#[trigger] c[a]).0@,
                    ) != spec_path_key((#[trigger] c[b]).0@) by {
                        if b == c0.len() {
                            assert(spec_path_key(c[a].0@) == spec_path_key(c0[a].0@));
                        } else {
                            assert(spec_path_key(c[a].0@) == spec_path_key(c0[a].0@));
                            assert(spec_path_key(c[b].0@) == spec_path_key(c0[b].0@));
                        }
                    }
                    assert forall|a: int| 0 <= a < c.len() implies (#[trigger] c[a]).1 >= 1
                        && c[a].1 == spec_users(p, spec_path_key(c[a].0@)) by {
                        lemma_users_push(p0, p.last(), spec_path_key(c[a].0@));
                        if a < c0.len() && (found is None || a != found->0) {
                            assert(c[a] == c0[a]);
                        }
                    }
                    assert forall|a: int| 0 <= a < p.len() implies exists|jj: int|
                        0 <= jj < c.len() && spec_path_key(#[trigger] c[jj].0@) == spec_path_key(
                            (#[trigger] p[a]).1@,
                        ) by {
                        if a == p.len() - 1 {
                            match found {
                                Some(j) => {
                                    assert(spec_path_key(c[j as int].0@) == k);
                                },
                                None => {
                                    assert(spec_path_key(c[c0.len() as int].0@) == k);
                                },
                            }
                        } else {
                            assert(p[a] == p0[a]);
                            let j0 = choose|jj: int|
                                0 <= jj < c0.len() && spec_path_key(#[trigger] c0[jj].0@)
                                    == spec_path_key(p0[a].1@);
                            assert(spec_path_key(c[j0].0@) == spec_path_key(c0[j0].0@));
                        }
                    }
                    assert(self.plans() == p);
                    assert(self.counts() == c);
                    assert(self.wf());
                }
            },
        }
        proof {
            if !old(self).spec_attached(plan_id@) {
                let p0 = old(self).plans();
                let e = self.plans().last();
                lemma_users_push(p0, e, spec_path_key(path@));
                assert(self.plans()[self.plans().len() - 1].0@ == plan_id@);
                assert forall|q: Seq<char>| spec_path_key(q) != spec_path_key(path@) implies #[trigger] self.path_count(q)
                    == old(self).path_count(q) by {
                    lemma_users_push(p0, e, spec_path_key(q));
                }
            }
        }
        need_add
    }
}

impl EventWatchRegistry {
    /// Whether the plan already watches this very path.
    pub fn watch_unchanged(&self, plan_id: &str, path: &str) -> (b: bool)
        requires
            self.wf(),
        ensures
            b == exists|i: int|
                0 <= i < self.plans().len() && (#[trigger] self.plans()[i]).0@ == plan_id@
                    && spec_path_eq(self.plans()[i].1@, path@),
    {
        match self.find_plan(plan_id) {
            Some(i) => {
                let r = path_eq(self.plan_paths[i].1.as_str(), path);
                proof {
                    if !r {
                        assert forall|k: int|
                            0 <= k < self.plans().len() && (#[trigger] self.plans()[k]).0@
                                == plan_id@ implies !spec_path_eq(self.plans()[k].1@, path@) by {
                            if k != i {
                                if k < i {
                                    assert(self.plans()[k].0@ != self.plans()[i as int].0@);
                                } else {
                                    assert(self.plans()[i as int].0@ != self.plans()[k].0@);
                                }
                            }
                        }
                    }
                }
                r
            },
            None => false,
        }
    }

    /// Moves a plan's watch to `path`: the plan leaves its old path (if
    /// any) and watches the new one. Gives the old path when no plan
    /// watches it any more (then it is to be released).
    #[verifier::spinoff_prover]
    pub fn rewatch_plan(&mut self, plan_id: &str, path: String) -> (released: Option<String>)
        requires
            old(self).wf(),
            old(self).plans().len() < usize::MAX,
        ensures
            final(self).wf(),
            final(self).plans().last().0@ == plan_id@,
            final(self).plans().last().1@ == path@,
            !old(self).spec_attached(plan_id@) ==> released is None && final(self).plans()
                == old(self).plans().push(final(self).plans().last()),
            old(self).spec_attached(plan_id@) ==> exists|i: int|
                0 <= i < old(self).plans().len() && (#[trigger] old(self).plans()[i]).0@ == plan_id@
                    && final(self).plans() == old(self).plans().remove(i).push(
                    final(self).plans().last(),
                ) && match released {
                    Some(p) => p@ == old(self).plans()[i].1@ && spec_users(
                        old(self).plans().remove(i),
                        spec_path_key(p@),
                    ) == 0,
                    None => spec_users(
                        old(self).plans().remove(i),
                        spec_path_key(old(self).plans()[i].1@),
                    ) > 0,
                },
    {
        let previous = self.detach_plan(plan_id);
        proof {
            assert(!self.spec_attached(plan_id@)) by {
                if self.spec_attached(plan_id@) {
                    let k = choose|k: int|
                        0 <= k < self.plans().len() && (#[trigger] self.plans()[k]).0@ == plan_id@;
                    if old(self).spec_attached(plan_id@) {
                        let i = choose|i: int|
                            0 <= i < old(self).plans().len() && (#[trigger] old(self).plans()[i]).0@
                                == plan_id@ && self.plans() == old(self).plans().remove(i) && (
                            previous matches Some((pp, last)) && old(self).plans()[i].1@ == pp@
                                && last == (spec_users(self.plans(), spec_path_key(pp@)) == 0));
                        let ok = if k < i { k } else { k + 1 };
                        assert(self.plans()[k] == old(self).plans()[ok]);
                        if ok < i {
                            assert(old(self).plans()[ok].0@ != old(self).plans()[i].0@);
                        } else {
                            assert(old(self).plans()[i].0@ != old(self).plans()[ok].0@);
                        }
                    }
                }
            }
        }
        let _ = self.attach_plan(plan_id, path);
        match previous {
            Some((old_path, true)) => Some(old_path),
            _ => None,
        }
    }
}

/// The local path of a plan's source that its event watch uses: the local
/// path of its location (none when that cannot be read), below `cwd` when
/// it is relative and a working directory is known.
pub fn plan_source_path(source_url: &str, cwd: Option<&str>) -> (r: Option<String>)
    ensures
        match spec_local_path_of(source_url@) {
            Err(_) => r is None,
            Ok(raw) => r matches Some(p) && p@ == if spec_is_absolute(raw) || cwd is None {
                raw
            } else {
                spec_path_join(cwd->0@, raw)
            },
        },
{
    let raw = match translate_local_path_from_url(source_url) {
        Ok(p) => p,
        Err(_) => return None,
    };
    let v = crate::text::chars_of(raw.as_str());
    if v.len() > 0 && v[0] == '/' {
        return Some(raw);
    }
    match cwd {
        Some(dir) => Some(path_join(dir, raw.as_str())),
        None => Some(raw),
    }
}

/// A plan that starts watching a path and stops again leaves the other
/// plans as they were, and the path is released on leaving exactly when no
/// plan watched it before the plan came (when it was to be watched anew).
pub proof fn law_detach_undoes_attach(plans: Seq<(String, String)>, entry: (String, String))
    ensures
        plans.push(entry).remove(plans.len() as int) == plans,
        (spec_users(plans.push(entry).remove(plans.len() as int), spec_path_key(entry.1@)) == 0)
            == (spec_users(plans, spec_path_key(entry.1@)) == 0),
        spec_users(plans.push(entry), spec_path_key(entry.1@)) == spec_users(
            plans,
            spec_path_key(entry.1@),
        ) + 1,
{
    assert(plans.push(entry).remove(plans.len() as int) =~= plans);
    lemma_users_push(plans, entry, spec_path_key(entry.1@));
}

} // verus!
