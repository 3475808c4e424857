//! The chain resolver.
//!
//! For one resolved route it merges the scope store's static candidate
//! lists with per-middleware matcher verdicts into the phase-ordered
//! execution chain.  Candidate collection follows onion semantics: the
//! pre-read-write lists of matched scopes are concatenated from the least
//! to the most specific scope, the post-read-only lists in the reverse
//! order.  Matcher evaluation is the callers' concern (matchers are
//! external capabilities): callers hand one boolean verdict per candidate,
//! and the chain built from them is a pure function of those inputs.

use vstd::prelude::*;

use crate::assoc;
use crate::middleware::{Middleware, MiddlewarePhase};
use crate::registry::MiddlewareRegistry;
use crate::scope;
use crate::scope::MiddlewareScopeStore;
use crate::sorting;
use crate::types::{MiddlewareId, MiddlewareScopeId};

verus! {

/// The phase-ordered middleware chain of one navigation request.
#[derive(Debug, PartialEq, Eq)]
pub struct ResolvedMiddlewareChain {
    /// Business middlewares before the core, read-write.
    pub pre_rw_chain: Vec<MiddlewareId>,
    /// The built-in core middlewares.
    pub core_chain: Vec<MiddlewareId>,
    /// Business middlewares after the core, read-only.
    pub post_ro_chain: Vec<MiddlewareId>,
}

/// The id texts of a vector of middleware ids.
pub open spec fn mw_ids(v: Seq<MiddlewareId>) -> Seq<Seq<char>> {
    v.map_values(|m: MiddlewareId| m.0@)
}

/// Pre-read-write candidates: the `pre_rw` lists of the matched scopes,
/// concatenated in the given (least to most specific) order.
pub open spec fn pre_candidates(
    scopes: Seq<(Seq<char>, scope::MiddlewareScope)>,
    ids: Seq<Seq<char>>,
) -> Seq<Seq<char>>
    decreases ids.len(),
{
    if ids.len() == 0 {
        Seq::empty()
    } else {
        (match assoc::kv_find(scopes, ids[0]) {
            Some(sc) => mw_ids(sc.pre_rw@),
            None => Seq::empty(),
        }) + pre_candidates(scopes, ids.drop_first())
    }
}

/// Post-read-only candidates: the `post_ro` lists of the matched scopes,
/// concatenated in the reverse (most to least specific) order.
pub open spec fn post_candidates(
    scopes: Seq<(Seq<char>, scope::MiddlewareScope)>,
    ids: Seq<Seq<char>>,
) -> Seq<Seq<char>>
    decreases ids.len(),
{
    if ids.len() == 0 {
        Seq::empty()
    } else {
        (match assoc::kv_find(scopes, ids.last()) {
            Some(sc) => mw_ids(sc.post_ro@),
            None => Seq::empty(),
        }) + post_candidates(scopes, ids.drop_last())
    }
}

/// Appends clones of `src` to `acc`.
fn append_ids(acc: &mut Vec<MiddlewareId>, src: &Vec<MiddlewareId>)
    ensures
        mw_ids(final(acc)@) == mw_ids(old(acc)@) + mw_ids(src@),
{
    let mut i: usize = 0;
    while i < src.len()
        invariant
            i <= src@.len(),
            mw_ids(acc@) =~= mw_ids(old(acc)@) + mw_ids(src@).take(i as int),
        decreases src.len() - i,
    {
        let ghost before = mw_ids(acc@);
        acc.push(src[i].clone());
        proof {
            assert(mw_ids(acc@) =~= before.push(acc@.last().0@));
            assert(mw_ids(src@).take(i + 1) =~= mw_ids(src@).take(i as int).push(src@[i as int].0@));
        }
        i = i + 1;
    }
    proof {
        assert(mw_ids(acc@) =~= mw_ids(old(acc)@) + mw_ids(src@));
    }
}

/// Collects the scope-configured candidates for a path: the pre-read-write
/// list in least-to-most-specific scope order, the post-read-only list in
/// the reverse order.
pub fn collect_candidates(store: &MiddlewareScopeStore, path: &str) -> (r: (
    Vec<MiddlewareId>,
    Vec<MiddlewareId>,
))
    ensures
        mw_ids(r.0@) == pre_candidates(
            store.scopes_seq(),
            scope::matched_scope_ids(store.bindings_seq(), crate::pattern::path_segments(path@)),
        ),
        mw_ids(r.1@) == post_candidates(
            store.scopes_seq(),
            scope::matched_scope_ids(store.bindings_seq(), crate::pattern::path_segments(path@)),
        ),
{
    let matched: Vec<MiddlewareScopeId> = store.match_path(path);
    let ghost ids = scope::id_views(matched@);
    let ghost scopes = store.scopes_seq();

    let mut pre: Vec<MiddlewareId> = Vec::new();
    let mut i: usize = 0;
    proof {
        assert(ids.skip(0) =~= ids);
        assert(mw_ids(pre@) =~= Seq::<Seq<char>>::empty());
    }
    while i < matched.len()
        invariant
            i <= matched@.len(),
            ids == scope::id_views(matched@),
            scopes == store.scopes_seq(),
            pre_candidates(scopes, ids) =~= mw_ids(pre@) + pre_candidates(
                scopes,
                ids.skip(i as int),
            ),
        decreases matched.len() - i,
    {
        proof {
            assert(ids.skip(i as int)[0] == matched@[i as int].0@);
            assert(ids.skip(i as int).drop_first() =~= ids.skip(i + 1));
        }
        match store.get_scope(&matched[i]) {
            Some(sc) => {
                append_ids(&mut pre, &sc.pre_rw);
            },
            None => {},
        }
        i = i + 1;
    }
    proof {
        assert(pre_candidates(scopes, ids.skip(ids.len() as int)) =~= Seq::<Seq<char>>::empty());
        assert(mw_ids(pre@) =~= pre_candidates(scopes, ids));
    }

    let mut post: Vec<MiddlewareId> = Vec::new();
    let mut j: usize = matched.len();
    proof {
        assert(ids.take(ids.len() as int) =~= ids);
        assert(mw_ids(post@) =~= Seq::<Seq<char>>::empty());
    }
    while j > 0
        invariant
            j <= matched@.len(),
            ids == scope::id_views(matched@),
            scopes == store.scopes_seq(),
            post_candidates(scopes, ids) =~= mw_ids(post@) + post_candidates(
                scopes,
                ids.take(j as int),
            ),
        decreases j,
    {
        proof {
            assert(ids.take(j as int).last() == matched@[j - 1].0@);
            assert(ids.take(j as int).drop_last() =~= ids.take(j - 1));
        }
        match store.get_scope(&matched[j - 1]) {
            Some(sc) => {
                append_ids(&mut post, &sc.post_ro);
            },
            None => {},
        }
        j = j - 1;
    }
    proof {
        assert(post_candidates(scopes, ids.take(0)) =~= Seq::<Seq<char>>::empty());
        assert(mw_ids(post@) =~= post_candidates(scopes, ids));
    }

    (pre, post)
}

/// The ids of every registered core-phase middleware, in registration
/// order: the fixed candidate set of the core phase.
pub fn core_candidates(registry: &MiddlewareRegistry) -> (r: Vec<MiddlewareId>)
    ensures
        mw_ids(r@) == crate::registry::reg_values(registry@).filter(
            |m: Middleware| m.phase == MiddlewarePhase::Core,
        ).map_values(|m: Middleware| m.id.0@),
{
    let ghost target = crate::registry::reg_values(registry@).filter(
        |m: Middleware| m.phase == MiddlewarePhase::Core,
    );
    let core = registry.by_phase(MiddlewarePhase::Core);
    let mut out: Vec<MiddlewareId> = Vec::new();
    let mut i: usize = 0;
    proof {
        assert(core@.map_values(|m: &Middleware| *m).len() == target.len());
    }
    while i < core.len()
        invariant
            i <= core@.len(),
            core@.map_values(|m: &Middleware| *m) == target,
            mw_ids(out@) =~= target.map_values(|m: Middleware| m.id.0@).take(i as int),
        decreases core.len() - i,
    {
        let ghost before = mw_ids(out@);
        out.push(core[i].id.clone());
        proof {
            assert(mw_ids(out@) =~= before.push(out@.last().0@));
            assert((*core@[i as int]).id.0@ == target[i as int].id.0@);
        }
        i = i + 1;
    }
    proof {
        assert(mw_ids(out@) =~= target.map_values(|m: Middleware| m.id.0@));
    }
    out
}

/// One candidate surviving the dynamic filter: its id and its priority.
pub open spec fn entry_views(v: Seq<(MiddlewareId, i32)>) -> Seq<(Seq<char>, int)> {
    v.map_values(|e: (MiddlewareId, i32)| (e.0.0@, e.1 as int))
}

/// Ascending priority.
pub open spec fn prio_lt(a: (Seq<char>, int), b: (Seq<char>, int)) -> bool {
    a.1 < b.1
}

/// The candidates that survive dynamic filtering for one phase: the id
/// must be known to the registry, its matcher verdict true, and its own
/// declared phase must agree with the phase being built.
pub open spec fn filter_candidates(
    reg: Seq<(Seq<char>, Middleware)>,
    ids: Seq<Seq<char>>,
    verdicts: Seq<bool>,
    phase: MiddlewarePhase,
) -> Seq<(Seq<char>, int)>
    decreases ids.len(),
{
    if ids.len() == 0 {
        Seq::empty()
    } else {
        let rest = filter_candidates(reg, ids.drop_first(), verdicts.drop_first(), phase);
        match assoc::kv_find(reg, ids[0]) {
            Some(m) => if verdicts[0] && m.phase == phase {
                seq![(ids[0], m.priority as int)] + rest
            } else {
                rest
            },
            None => rest,
        }
    }
}

/// The candidates dropped with a warning: ids the registry does not know
/// (dangling), and matching candidates whose declared phase disagrees
/// with the phase being built.
pub open spec fn skipped_candidates(
    reg: Seq<(Seq<char>, Middleware)>,
    ids: Seq<Seq<char>>,
    verdicts: Seq<bool>,
    phase: MiddlewarePhase,
) -> Seq<Seq<char>>
    decreases ids.len(),
{
    if ids.len() == 0 {
        Seq::empty()
    } else {
        let rest = skipped_candidates(reg, ids.drop_first(), verdicts.drop_first(), phase);
        match assoc::kv_find(reg, ids[0]) {
            Some(m) => if verdicts[0] && m.phase != phase {
                seq![ids[0]] + rest
            } else {
                rest
            },
            None => seq![ids[0]] + rest,
        }
    }
}

/// The finished chain of one phase: filter, stable sort by ascending
/// priority (ties keep collection order), keep each id's first occurrence.
pub open spec fn chain_phase(
    reg: Seq<(Seq<char>, Middleware)>,
    ids: Seq<Seq<char>>,
    verdicts: Seq<bool>,
    phase: MiddlewarePhase,
) -> Seq<Seq<char>> {
    let filtered = filter_candidates(reg, ids, verdicts, phase);
    let sorted = sorting::stable_sort(
        filtered,
        |a: (Seq<char>, int), b: (Seq<char>, int)| prio_lt(a, b),
    );
    sorting::dedup_first(sorted).map_values(|e: (Seq<char>, int)| e.0)
}

/// Whether a vector of (id, priority) entries holds this entry.
fn contains_entry(v: &Vec<(MiddlewareId, i32)>, id: &MiddlewareId, prio: i32) -> (r: bool)
    ensures
        r == entry_views(v@).contains((id.0@, prio as int)),
{
    let mut i: usize = 0;
    while i < v.len()
        invariant
            i <= v@.len(),
            forall|j: int| 0 <= j < i ==> entry_views(v@)[j] != (id.0@, prio as int),
        decreases v.len() - i,
    {
        if v[i].0.0 == id.0 && v[i].1 == prio {
            proof {
                assert(entry_views(v@)[i as int] == (id.0@, prio as int));
            }
            return true;
        }
        proof {
            assert(entry_views(v@)[i as int] == (v@[i as int].0.0@, v@[i as int].1 as int));
        }
        i = i + 1;
    }
    proof {
        if entry_views(v@).contains((id.0@, prio as int)) {
            let j = choose|j: int|
                0 <= j < entry_views(v@).len() && entry_views(v@)[j] == (id.0@, prio as int);
            assert(false);
        }
    }
    false
}

/// Builds the chain of one phase from its candidates and their matcher
/// verdicts; also reports the candidates skipped with a warning.
pub fn assemble_phase(
    registry: &MiddlewareRegistry,
    ids: &Vec<MiddlewareId>,
    verdicts: &Vec<bool>,
    phase: MiddlewarePhase,
) -> (r: (Vec<MiddlewareId>, Vec<MiddlewareId>))
    requires
        verdicts@.len() == ids@.len(),
    ensures
        mw_ids(r.0@) == chain_phase(registry@, mw_ids(ids@), verdicts@, phase),
        mw_ids(r.1@) == skipped_candidates(registry@, mw_ids(ids@), verdicts@, phase),
{
    let ghost reg = registry@;
    let ghost idsv = mw_ids(ids@);
    let ghost verds = verdicts@;

    // 1. dynamic filtering
    let mut filtered: Vec<(MiddlewareId, i32)> = Vec::new();
    let mut skipped: Vec<MiddlewareId> = Vec::new();
    let mut i: usize = 0;
    proof {
        assert(idsv.skip(0) =~= idsv);
        assert(verds.skip(0) =~= verds);
        assert(entry_views(filtered@) =~= Seq::<(Seq<char>, int)>::empty());
        assert(mw_ids(skipped@) =~= Seq::<Seq<char>>::empty());
    }
    while i < ids.len()
        invariant
            i <= ids@.len(),
            idsv == mw_ids(ids@),
            verds == verdicts@,
            verds.len() == idsv.len(),
            reg == registry@,
            filter_candidates(reg, idsv, verds, phase) =~= entry_views(filtered@)
                + filter_candidates(reg, idsv.skip(i as int), verds.skip(i as int), phase),
            skipped_candidates(reg, idsv, verds, phase) =~= mw_ids(skipped@)
                + skipped_candidates(reg, idsv.skip(i as int), verds.skip(i as int), phase),
        decreases ids.len() - i,
    {
        proof {
            assert(idsv.skip(i as int)[0] == ids@[i as int].0@);
            assert(verds.skip(i as int)[0] == verdicts@[i as int]);
            assert(idsv.skip(i as int).drop_first() =~= idsv.skip(i + 1));
            assert(verds.skip(i as int).drop_first() =~= verds.skip(i + 1));
        }
        match registry.get(&ids[i]) {
            Some(m) => {
                if verdicts[i] {
                    if m.phase == phase {
                        let ghost before = entry_views(filtered@);
                        filtered.push((ids[i].clone(), m.priority));
                        proof {
                            assert(entry_views(filtered@) =~= before.push(
                                (filtered@.last().0.0@, filtered@.last().1 as int),
                            ));
                        }
                    } else {
                        let ghost before = mw_ids(skipped@);
                        skipped.push(ids[i].clone());
                        proof {
                            assert(mw_ids(skipped@) =~= before.push(skipped@.last().0@));
                        }
                    }
                }
            },
            None => {
                let ghost before = mw_ids(skipped@);
                skipped.push(ids[i].clone());
                proof {
                    assert(mw_ids(skipped@) =~= before.push(skipped@.last().0@));
                }
            },
        }
        i = i + 1;
    }
    proof {
        assert(filter_candidates(reg, idsv.skip(idsv.len() as int), verds.skip(idsv.len() as int), phase)
            =~= Seq::<(Seq<char>, int)>::empty());
        assert(skipped_candidates(reg, idsv.skip(idsv.len() as int), verds.skip(idsv.len() as int), phase)
            =~= Seq::<Seq<char>>::empty());
        assert(entry_views(filtered@) =~= filter_candidates(reg, idsv, verds, phase));
        assert(mw_ids(skipped@) =~= skipped_candidates(reg, idsv, verds, phase));
    }
    let ghost filtered_spec = filter_candidates(reg, idsv, verds, phase);
    let ghost plt = |a: (Seq<char>, int), b: (Seq<char>, int)| prio_lt(a, b);

    // 2. stable sort by ascending priority
    let mut sorted: Vec<(MiddlewareId, i32)> = Vec::new();
    let mut k: usize = 0;
    proof {
        assert(filtered_spec.take(0) =~= Seq::<(Seq<char>, int)>::empty());
    }
    while k < filtered.len()
        invariant
            k <= filtered@.len(),
            entry_views(filtered@) == filtered_spec,
            plt == (|a: (Seq<char>, int), b: (Seq<char>, int)| prio_lt(a, b)),
            entry_views(sorted@) =~= sorting::stable_sort(filtered_spec.take(k as int), plt),
        decreases filtered.len() - k,
    {
        let mut j: usize = sorted.len();
        while j > 0 && filtered[k].1 < sorted[j - 1].1
            invariant
                j <= sorted@.len(),
                k < filtered@.len(),
                forall|t: int|
                    j <= t < sorted@.len() ==> filtered@[k as int].1 < (#[trigger] sorted@[t]).1,
            decreases j,
        {
            j = j - 1;
        }
        proof {
            let sv = entry_views(sorted@);
            let e = filtered_spec[k as int];
            assert(e == (filtered@[k as int].0.0@, filtered@[k as int].1 as int));
            assert forall|t: int| j <= t < sv.len() implies plt(e, #[trigger] sv[t]) by {
                assert(sv[t] == (sorted@[t].0.0@, sorted@[t].1 as int));
            }
            if j > 0 {
                assert(sv[j - 1] == (sorted@[j - 1].0.0@, sorted@[j - 1].1 as int));
                assert(!plt(e, sv[j - 1]));
            }
            sorting::lemma_stable_insert_at(sv, e, plt, j as int);
            assert(filtered_spec.take(k + 1).drop_last() =~= filtered_spec.take(k as int));
        }
        let entry = (filtered[k].0.clone(), filtered[k].1);
        sorted.insert(j, entry);
        proof {
            let prev = sorting::stable_sort(filtered_spec.take(k as int), plt);
            assert(entry_views(sorted@) =~= prev.take(j as int) + seq![filtered_spec[k as int]]
                + prev.skip(j as int));
        }
        k = k + 1;
    }
    proof {
        assert(filtered_spec.take(filtered_spec.len() as int) =~= filtered_spec);
    }
    let ghost sorted_spec = sorting::stable_sort(filtered_spec, plt);

    // 3. keep each id's first occurrence
    let mut chain: Vec<MiddlewareId> = Vec::new();
    let mut kept: Vec<(MiddlewareId, i32)> = Vec::new();
    let mut t: usize = 0;
    proof {
        assert(sorted_spec.take(0) =~= Seq::<(Seq<char>, int)>::empty());
        assert(entry_views(kept@) =~= sorting::dedup_first(sorted_spec.take(0)));
    }
    while t < sorted.len()
        invariant
            t <= sorted@.len(),
            entry_views(sorted@) == sorted_spec,
            entry_views(kept@) =~= sorting::dedup_first(sorted_spec.take(t as int)),
            mw_ids(chain@) =~= entry_views(kept@).map_values(|e: (Seq<char>, int)| e.0),
        decreases sorted.len() - t,
    {
        proof {
            assert(sorted_spec.take(t + 1).drop_last() =~= sorted_spec.take(t as int));
            assert(sorted_spec[t as int] == (sorted@[t as int].0.0@, sorted@[t as int].1 as int));
            sorting::lemma_dedup_first_contains(sorted_spec.take(t as int), sorted_spec[t as int]);
        }
        let present = contains_entry(&kept, &sorted[t].0, sorted[t].1);
        if !present {
            let ghost kbefore = entry_views(kept@);
            let ghost cbefore = mw_ids(chain@);
            kept.push((sorted[t].0.clone(), sorted[t].1));
            chain.push(sorted[t].0.clone());
            proof {
                assert(entry_views(kept@) =~= kbefore.push(
                    (kept@.last().0.0@, kept@.last().1 as int),
                ));
                assert(mw_ids(chain@) =~= cbefore.push(chain@.last().0@));
            }
        }
        t = t + 1;
    }
    proof {
        assert(sorted_spec.take(sorted_spec.len() as int) =~= sorted_spec);
        assert(mw_ids(chain@) =~= sorting::dedup_first(sorted_spec).map_values(
            |e: (Seq<char>, int)| e.0,
        ));
    }
    (chain, skipped)
}

/// Builds the whole chain from the three candidate lists and their
/// verdicts; the second component reports every candidate skipped with a
/// warning (dangling ids and phase disagreements), pre phase first, then
/// core, then post.
pub fn build_chain(
    registry: &MiddlewareRegistry,
    pre_ids: &Vec<MiddlewareId>,
    pre_verdicts: &Vec<bool>,
    core_ids: &Vec<MiddlewareId>,
    core_verdicts: &Vec<bool>,
    post_ids: &Vec<MiddlewareId>,
    post_verdicts: &Vec<bool>,
) -> (r: (ResolvedMiddlewareChain, Vec<MiddlewareId>))
    requires
        pre_verdicts@.len() == pre_ids@.len(),
        core_verdicts@.len() == core_ids@.len(),
        post_verdicts@.len() == post_ids@.len(),
    ensures
        mw_ids(r.0.pre_rw_chain@) == chain_phase(
            registry@,
            mw_ids(pre_ids@),
            pre_verdicts@,
            MiddlewarePhase::PreRW,
        ),
        mw_ids(r.0.core_chain@) == chain_phase(
            registry@,
            mw_ids(core_ids@),
            core_verdicts@,
            MiddlewarePhase::Core,
        ),
        mw_ids(r.0.post_ro_chain@) == chain_phase(
            registry@,
            mw_ids(post_ids@),
            post_verdicts@,
            MiddlewarePhase::PostRO,
        ),
        mw_ids(r.1@) == skipped_candidates(
            registry@,
            mw_ids(pre_ids@),
            pre_verdicts@,
            MiddlewarePhase::PreRW,
        ) + skipped_candidates(
            registry@,
            mw_ids(core_ids@),
            core_verdicts@,
            MiddlewarePhase::Core,
        ) + skipped_candidates(
            registry@,
            mw_ids(post_ids@),
            post_verdicts@,
            MiddlewarePhase::PostRO,
        ),
{
    let (pre_chain, pre_skipped) = assemble_phase(
        registry,
        pre_ids,
        pre_verdicts,
        MiddlewarePhase::PreRW,
    );
    let (core_chain, core_skipped) = assemble_phase(
        registry,
        core_ids,
        core_verdicts,
        MiddlewarePhase::Core,
    );
    let (post_chain, post_skipped) = assemble_phase(
        registry,
        post_ids,
        post_verdicts,
        MiddlewarePhase::PostRO,
    );
    let mut skipped = pre_skipped;
    append_ids(&mut skipped, &core_skipped);
    append_ids(&mut skipped, &post_skipped);
    (
        ResolvedMiddlewareChain {
            pre_rw_chain: pre_chain,
            core_chain,
            post_ro_chain: post_chain,
        },
        skipped,
    )
}

/// Within one phase the chain runs in ascending priority order: the
/// sorted candidate sequence that `chain_phase` deduplicates is ordered,
/// no entry standing after one of strictly larger priority.
pub proof fn lemma_chain_priorities_ascending(
    reg: Seq<(Seq<char>, Middleware)>,
    ids: Seq<Seq<char>>,
    verdicts: Seq<bool>,
    phase: MiddlewarePhase,
)
    ensures
        sorting::sorted_by(
            sorting::stable_sort(
                filter_candidates(reg, ids, verdicts, phase),
                |a: (Seq<char>, int), b: (Seq<char>, int)| prio_lt(a, b),
            ),
            |a: (Seq<char>, int), b: (Seq<char>, int)| prio_lt(a, b),
        ),
{
    sorting::lemma_stable_sort_sorted(
        filter_candidates(reg, ids, verdicts, phase),
        |a: (Seq<char>, int), b: (Seq<char>, int)| prio_lt(a, b),
    );
}

/// Law: chain resolution is deterministic.  The chain is a pure function
/// of the registry, the candidate lists and the matcher verdicts: two
/// resolutions from the same inputs yield identical chains.
pub proof fn lemma_chain_resolution_deterministic(
    reg: Seq<(Seq<char>, Middleware)>,
    ids: Seq<Seq<char>>,
    verdicts: Seq<bool>,
    phase: MiddlewarePhase,
    first: Seq<Seq<char>>,
    second: Seq<Seq<char>>,
)
    requires
        first == chain_phase(reg, ids, verdicts, phase),
        second == chain_phase(reg, ids, verdicts, phase),
    ensures
        first == second,
{
}

} // verus!
