//! Middleware scopes and the scope store.
//!
//! A scope bundles, under one id, the middleware candidates of the
//! pre-read-write and post-read-only phases.  The store keys scopes by
//! path pattern; matching a path returns every matching scope id, ordered
//! from least to most specific pattern, which the chain resolver relies on
//! for onion-style composition.

use vstd::prelude::*;

use crate::assoc;
use crate::pattern;
use crate::pattern::{PathPattern, PatternSegView};
use crate::sorting;
use crate::types::{MiddlewareId, MiddlewareScopeId};

verus! {

/// One scope: static candidate lists for the two business phases.  A scope
/// never names the core phase; core membership is fixed by registration.
#[derive(Debug)]
pub struct MiddlewareScope {
    pub id: MiddlewareScopeId,
    /// Candidates for the pre-read-write phase.
    pub pre_rw: Vec<MiddlewareId>,
    /// Candidates for the post-read-only phase.
    pub post_ro: Vec<MiddlewareId>,
}

/// One pattern-to-scope binding of the scope router.
type ScopeBinding = (PathPattern, MiddlewareScopeId);

/// The view of one binding: the parsed pattern and the scope id text.
pub open spec fn binding_views(v: Seq<ScopeBinding>) -> Seq<(Seq<PatternSegView>, Seq<char>)> {
    v.map_values(|e: ScopeBinding| (e.0@, e.1.0@))
}

/// Path-to-scope matching router.
#[derive(Debug)]
pub struct MiddlewareScopeRouter {
    bindings: Vec<ScopeBinding>,
}

/// Ascending specificity on bindings.
pub open spec fn binding_lt(
    a: (Seq<PatternSegView>, Seq<char>),
    b: (Seq<PatternSegView>, Seq<char>),
) -> bool {
    pattern::less_specific(a.0, b.0)
}

/// The ordered scope ids a path matches: keep the matching bindings,
/// sort them by ascending pattern specificity (stable: equally specific
/// patterns keep registration order), then keep the first occurrence of
/// each scope id.
pub open spec fn matched_scope_ids(
    bindings: Seq<(Seq<PatternSegView>, Seq<char>)>,
    segs: Seq<Seq<char>>,
) -> Seq<Seq<char>> {
    let matched = bindings.filter(
        |e: (Seq<PatternSegView>, Seq<char>)| pattern::pattern_matches(e.0, segs),
    );
    let sorted = sorting::stable_sort(
        matched,
        |a: (Seq<PatternSegView>, Seq<char>), b: (Seq<PatternSegView>, Seq<char>)| binding_lt(a, b),
    );
    sorting::dedup_first(sorted.map_values(|e: (Seq<PatternSegView>, Seq<char>)| e.1))
}

/// The matched bindings run from the least to the most specific pattern:
/// the sorted sequence that `matched_scope_ids` deduplicates is ordered,
/// no binding standing after one of a strictly more specific pattern.
pub proof fn lemma_scope_order_ascending(
    bindings: Seq<(Seq<PatternSegView>, Seq<char>)>,
    segs: Seq<Seq<char>>,
)
    ensures
        sorting::sorted_by(
            sorting::stable_sort(
                bindings.filter(
                    |e: (Seq<PatternSegView>, Seq<char>)| pattern::pattern_matches(e.0, segs),
                ),
                |a: (Seq<PatternSegView>, Seq<char>), b: (Seq<PatternSegView>, Seq<char>)|
                    binding_lt(a, b),
            ),
            |a: (Seq<PatternSegView>, Seq<char>), b: (Seq<PatternSegView>, Seq<char>)|
                binding_lt(a, b),
        ),
{
    let blt = |a: (Seq<PatternSegView>, Seq<char>), b: (Seq<PatternSegView>, Seq<char>)|
        binding_lt(a, b);
    assert forall|
        x: (Seq<PatternSegView>, Seq<char>),
        y: (Seq<PatternSegView>, Seq<char>),
        z: (Seq<PatternSegView>, Seq<char>),
    |
        !#[trigger] blt(y, x) && !#[trigger] blt(z, y) implies !blt(z, x) by {
        if pattern::less_specific(z.0, x.0) {
            pattern::lemma_less_specific_total(x.0, y.0, z.0, 0);
        }
    }
    assert forall|x: (Seq<PatternSegView>, Seq<char>), y: (Seq<PatternSegView>, Seq<char>)| #[trigger]
        blt(x, y) implies !blt(y, x) by {
        pattern::lemma_less_specific_asymmetric(x.0, y.0, 0);
    }
    sorting::lemma_stable_sort_sorted(
        bindings.filter(
            |e: (Seq<PatternSegView>, Seq<char>)| pattern::pattern_matches(e.0, segs),
        ),
        blt,
    );
}

/// The views of a vector of scope ids.
pub open spec fn id_views(v: Seq<MiddlewareScopeId>) -> Seq<Seq<char>> {
    v.map_values(|s: MiddlewareScopeId| s.0@)
}

/// Whether a vector of scope ids holds this id text.
fn contains_id(v: &Vec<MiddlewareScopeId>, id: &MiddlewareScopeId) -> (r: bool)
    ensures
        r == id_views(v@).contains(id.0@),
{
    let mut i: usize = 0;
    while i < v.len()
        invariant
            i <= v@.len(),
            forall|j: int| 0 <= j < i ==> id_views(v@)[j] != id.0@,
        decreases v.len() - i,
    {
        if v[i].0 == id.0 {
            proof {
                assert(id_views(v@)[i as int] == id.0@);
            }
            return true;
        }
        i = i + 1;
    }
    proof {
        if id_views(v@).contains(id.0@) {
            let j = choose|j: int| 0 <= j < id_views(v@).len() && id_views(v@)[j] == id.0@;
            assert(false);
        }
    }
    false
}

impl MiddlewareScopeRouter {
    /// The pattern-to-scope bindings, in registration order.
    pub closed spec fn bindings_seq(&self) -> Seq<(Seq<PatternSegView>, Seq<char>)> {
        binding_views(self.bindings@)
    }

    /// Every stored pattern is the parse of its text, with the catch-all
    /// only in last position.
    pub closed spec fn wf(&self) -> bool {
        forall|i: int| 0 <= i < self.bindings@.len() ==> (#[trigger] self.bindings@[i]).0.wf()
    }

    pub fn new() -> (r: MiddlewareScopeRouter)
        ensures
            r.wf(),
            r.bindings_seq() == Seq::<(Seq<PatternSegView>, Seq<char>)>::empty(),
    {
        let r = MiddlewareScopeRouter { bindings: Vec::new() };
        proof {
            assert(r.bindings_seq() =~= Seq::<(Seq<PatternSegView>, Seq<char>)>::empty());
        }
        r
    }

    /// Binds one path pattern to a scope id.
    pub fn bind(&mut self, path_pattern: String, scope: MiddlewareScopeId)
        requires
            old(self).wf(),
        ensures
            final(self).wf(),
            final(self).bindings_seq() == old(self).bindings_seq().push(
                (pattern::pattern_view_of(path_pattern@), scope.0@),
            ),
    {
        let pat = PathPattern::parse(path_pattern);
        let ghost before = binding_views(self.bindings@);
        self.bindings.push((pat, scope));
        proof {
            assert(self.bindings@.drop_last() =~= old(self).bindings@);
            assert(binding_views(self.bindings@) =~= before.push(
                (self.bindings@.last().0@, self.bindings@.last().1.0@),
            ));
        }
    }

    /// All scope ids whose pattern matches the path, from least to most
    /// specific.
    pub fn match_path(&self, path: &str) -> (r: Vec<MiddlewareScopeId>)
        ensures
            id_views(r@) == matched_scope_ids(self.bindings_seq(), pattern::path_segments(path@)),
    {
        let ghost bindings = self.bindings_seq();
        let ghost segs_spec = pattern::path_segments(path@);
        let ghost mpred = |e: (Seq<PatternSegView>, Seq<char>)|
            pattern::pattern_matches(e.0, segs_spec);
        let ghost blt = |a: (Seq<PatternSegView>, Seq<char>), b: (Seq<PatternSegView>, Seq<char>)|
            binding_lt(a, b);
        let segs = pattern::split_path(path);

        // 1. collect the matching bindings, in registration order
        let mut matched: Vec<ScopeBinding> = Vec::new();
        let mut i: usize = 0;
        proof {
            reveal(Seq::filter);
            assert(bindings.take(0) =~= Seq::<(Seq<PatternSegView>, Seq<char>)>::empty());
            assert(binding_views(matched@) =~= bindings.take(0).filter(mpred));
        }
        while i < self.bindings.len()
            invariant
                i <= self.bindings@.len(),
                bindings == self.bindings_seq(),
                segs_spec == pattern::path_segments(path@),
                pattern::seq_views(segs@) == segs_spec,
                mpred == (|e: (Seq<PatternSegView>, Seq<char>)|
                    pattern::pattern_matches(e.0, segs_spec)),
                binding_views(matched@) =~= bindings.take(i as int).filter(mpred),
            decreases self.bindings.len() - i,
        {
            proof {
                assert(bindings.take(i + 1) =~= bindings.take(i as int).push(bindings[i as int]));
                crate::sorting::lemma_filter_push(bindings.take(i as int), mpred, bindings[i as int]);
                assert(bindings[i as int] == (self.bindings@[i as int].0@, self.bindings@[i as int].1.0@));
            }
            let hit = match self.bindings[i].0.match_segments(&segs) {
                Some(_) => true,
                None => false,
            };
            if hit {
                let ghost before = binding_views(matched@);
                let entry = (self.bindings[i].0.clone(), self.bindings[i].1.clone());
                matched.push(entry);
                proof {
                    assert(matched@.drop_last() =~= matched@.take(matched@.len() - 1));
                    assert(binding_views(matched@) =~= before.push(
                        (matched@.last().0@, matched@.last().1.0@),
                    ));
                }
            }
            i = i + 1;
        }
        proof {
            assert(bindings.take(bindings.len() as int) =~= bindings);
        }
        let ghost matched_spec = bindings.filter(mpred);

        // 2. stable insertion sort by ascending specificity
        let mut sorted: Vec<ScopeBinding> = Vec::new();
        let mut k: usize = 0;
        proof {
            assert(binding_views(matched@).take(0) =~= Seq::<(Seq<PatternSegView>, Seq<char>)>::empty());
        }
        while k < matched.len()
            invariant
                k <= matched@.len(),
                binding_views(matched@) == matched_spec,
                blt == (|a: (Seq<PatternSegView>, Seq<char>), b: (Seq<PatternSegView>, Seq<char>)|
                    binding_lt(a, b)),
                binding_views(sorted@) =~= sorting::stable_sort(matched_spec.take(k as int), blt),
            decreases matched.len() - k,
        {
            let mut j: usize = sorted.len();
            while j > 0 && matched[k].0.is_less_specific(&sorted[j - 1].0)
                invariant
                    j <= sorted@.len(),
                    k < matched@.len(),
                    binding_views(matched@) == matched_spec,
                    forall|t: int|
                        j <= t < sorted@.len() ==> pattern::less_specific(
                            matched@[k as int].0@,
                            (#[trigger] sorted@[t]).0@,
                        ),
                decreases j,
            {
                j = j - 1;
            }
            proof {
                let sv = binding_views(sorted@);
                let e = matched_spec[k as int];
                assert(e == (matched@[k as int].0@, matched@[k as int].1.0@));
                assert forall|t: int| j <= t < sv.len() implies blt(e, #[trigger] sv[t]) by {
                    assert(sv[t] == (sorted@[t].0@, sorted@[t].1.0@));
                }
                if j > 0 {
                    assert(sv[j - 1] == (sorted@[j - 1].0@, sorted@[j - 1].1.0@));
                    assert(!blt(e, sv[j - 1]));
                }
                sorting::lemma_stable_insert_at(sv, e, blt, j as int);
                assert(matched_spec.take(k + 1).drop_last() =~= matched_spec.take(k as int));
            }
            let entry = (matched[k].0.clone(), matched[k].1.clone());
            sorted.insert(j, entry);
            proof {
                let sv_new = binding_views(sorted@);
                let prev = sorting::stable_sort(matched_spec.take(k as int), blt);
                assert(sv_new =~= prev.take(j as int) + seq![matched_spec[k as int]] + prev.skip(
                    j as int,
                ));
            }
            k = k + 1;
        }
        proof {
            assert(matched_spec.take(matched_spec.len() as int) =~= matched_spec);
        }
        let ghost sorted_spec = sorting::stable_sort(matched_spec, blt);

        // 3. keep the first occurrence of each scope id
        let ghost all_ids = sorted_spec.map_values(
            |e: (Seq<PatternSegView>, Seq<char>)| e.1,
        );
        let mut out: Vec<MiddlewareScopeId> = Vec::new();
        let mut t: usize = 0;
        proof {
            assert(all_ids.take(0) =~= Seq::<Seq<char>>::empty());
            assert(id_views(out@) =~= sorting::dedup_first(all_ids.take(0)));
        }
        while t < sorted.len()
            invariant
                t <= sorted@.len(),
                binding_views(sorted@) == sorted_spec,
                all_ids == sorted_spec.map_values(|e: (Seq<PatternSegView>, Seq<char>)| e.1),
                id_views(out@) =~= sorting::dedup_first(all_ids.take(t as int)),
            decreases sorted.len() - t,
        {
            proof {
                assert(all_ids.take(t + 1).drop_last() =~= all_ids.take(t as int));
                assert(all_ids[t as int] == sorted@[t as int].1.0@);
                sorting::lemma_dedup_first_contains(all_ids.take(t as int), all_ids[t as int]);
            }
            let present = contains_id(&out, &sorted[t].1);
            if !present {
                let ghost before = id_views(out@);
                out.push(sorted[t].1.clone());
                proof {
                    assert(id_views(out@) =~= before.push(out@.last().0@));
                }
            }
            t = t + 1;
        }
        proof {
            assert(all_ids.take(all_ids.len() as int) =~= all_ids);
        }
        out
    }
}

/// The scope store: the scope configurations keyed by scope id, and the
/// router that matches paths to scope ids.
#[derive(Debug)]
pub struct MiddlewareScopeStore {
    scopes: Vec<(String, MiddlewareScope)>,
    router: MiddlewareScopeRouter,
}

impl MiddlewareScopeStore {
    /// The stored scopes, keyed by id.
    pub closed spec fn scopes_seq(&self) -> Seq<(Seq<char>, MiddlewareScope)> {
        assoc::kv_seq(self.scopes@)
    }

    /// The pattern-to-scope bindings of the router.
    pub closed spec fn bindings_seq(&self) -> Seq<(Seq<PatternSegView>, Seq<char>)> {
        self.router.bindings_seq()
    }

    pub closed spec fn wf(&self) -> bool {
        &&& self.router.wf()
        &&& assoc::kv_unique(self.scopes_seq())
        &&& forall|i: int|
            0 <= i < self.scopes_seq().len() ==> (#[trigger] self.scopes_seq()[i]).0
                == self.scopes_seq()[i].1.id.0@
    }

    pub fn new() -> (r: MiddlewareScopeStore)
        ensures
            r.wf(),
            r.scopes_seq() == Seq::<(Seq<char>, MiddlewareScope)>::empty(),
            r.bindings_seq() == Seq::<(Seq<PatternSegView>, Seq<char>)>::empty(),
    {
        let r = MiddlewareScopeStore { scopes: Vec::new(), router: MiddlewareScopeRouter::new() };
        proof {
            assert(r.scopes_seq() =~= Seq::<(Seq<char>, MiddlewareScope)>::empty());
        }
        r
    }

    /// Registers a scope under the given path patterns.  Re-registering a
    /// scope id replaces its configuration; the patterns are added to the
    /// router in the given order.
    pub fn register_scope(&mut self, scope: MiddlewareScope, path_patterns: Vec<String>)
        requires
            old(self).wf(),
        ensures
            final(self).wf(),
            final(self).scopes_seq() == assoc::kv_put(
                old(self).scopes_seq(),
                scope.id.0@,
                scope,
            ),
            final(self).bindings_seq().len() == old(self).bindings_seq().len()
                + path_patterns@.len(),
            final(self).bindings_seq().take(old(self).bindings_seq().len() as int) == old(
                self,
            ).bindings_seq(),
            forall|i: int|
                0 <= i < path_patterns@.len() ==> final(self).bindings_seq()[old(
                    self,
                ).bindings_seq().len() + i] == (
                    pattern::pattern_view_of((#[trigger] path_patterns@[i])@),
                    scope.id.0@,
                ),
    {
        let ghost scope_snap = scope;
        let ghost before = self.scopes_seq();
        let key = scope.id.0.clone();
        let sid = scope.id.clone();
        proof {
            assoc::lemma_kv_put_map(before, key@, scope);
            assoc::lemma_kv_first_idx(before, key@);
        }
        assoc::kv_insert(&mut self.scopes, key, scope);
        proof {
            let s2 = assoc::kv_put(before, scope_snap.id.0@, scope_snap);
            assert forall|i: int| 0 <= i < s2.len() implies (#[trigger] s2[i]).0
                == s2[i].1.id.0@ by {
                if assoc::kv_first_idx(before, scope_snap.id.0@) == -1 {
                    if i < before.len() {
                        assert(s2[i] == before[i]);
                    }
                } else {
                    if i != assoc::kv_first_idx(before, scope_snap.id.0@) {
                        assert(s2[i] == before[i]);
                    }
                }
            }
        }
        let ghost bindings_before = self.router.bindings_seq();
        let mut i: usize = 0;
        let n = path_patterns.len();
        let mut patterns = path_patterns;
        proof {
            assert(self.router.bindings_seq().take(bindings_before.len() as int)
                =~= bindings_before);
        }
        while i < n
            invariant
                i <= n,
                n == patterns@.len(),
                self.router.wf(),
                sid == scope_snap.id,
                self.scopes_seq() == assoc::kv_put(before, scope_snap.id.0@, scope_snap),
                assoc::kv_unique(self.scopes_seq()),
                forall|t: int|
                    0 <= t < self.scopes_seq().len() ==> (#[trigger] self.scopes_seq()[t]).0
                        == self.scopes_seq()[t].1.id.0@,
                self.router.bindings_seq().len() == bindings_before.len() + i,
                self.router.bindings_seq().take(bindings_before.len() as int) == bindings_before,
                forall|t: int|
                    0 <= t < i ==> self.router.bindings_seq()[bindings_before.len() + t] == (
                        pattern::pattern_view_of((#[trigger] patterns@[t])@),
                        scope_snap.id.0@,
                    ),
            decreases n - i,
        {
            let ghost bprev = self.router.bindings_seq();
            let pat_text = patterns[i].clone();
            self.router.bind(pat_text, sid.clone());
            proof {
                assert(self.router.bindings_seq().take(bindings_before.len() as int)
                    =~= bprev.take(bindings_before.len() as int));
            }
            i = i + 1;
        }
    }

    /// Looks a scope up by id.
    pub fn get_scope<'a>(&'a self, id: &MiddlewareScopeId) -> (r: Option<&'a MiddlewareScope>)
        ensures
            match r {
                Some(s) => assoc::kv_find(self.scopes_seq(), id.0@) == Some(*s),
                None => assoc::kv_find(self.scopes_seq(), id.0@) is None,
            },
    {
        assoc::kv_get(&self.scopes, id.0.as_str())
    }

    /// All scope ids matching the path, least specific first.
    pub fn match_path(&self, path: &str) -> (r: Vec<MiddlewareScopeId>)
        ensures
            id_views(r@) == matched_scope_ids(self.bindings_seq(), pattern::path_segments(path@)),
    {
        self.router.match_path(path)
    }
}

} // verus!
