//! Route metadata and the route table.
//!
//! The table owns every registered `RouteMeta`; it rejects duplicate names
//! and duplicate path patterns, resolves a path to the most specific
//! matching route (extracting `:name` parameter bindings), and resolves a
//! name to its route id by exact lookup.

use vstd::prelude::*;

use crate::errors::RouterError;
use crate::pattern;
use crate::pattern::{PathPattern, PatternSegView};
use crate::types::{LifecycleEvent, PresentationMode, RouteId, RuntimeKind, StackId};

verus! {

/// Descriptor of the (externally interpreted) parameter schema of a route.
#[derive(Debug)]
pub struct ParamSchemaSpec {
    /// Identifier of the schema, e.g. a registry key.
    pub schema_id: Option<String>,
    /// Whether path/query/body have separate sub-schemas.
    pub has_sub_schemas: bool,
}

/// Which lifecycle events and custom hooks a route subscribes to.
#[derive(Debug)]
pub struct HookSpec {
    pub enabled_lifecycles: Vec<LifecycleEvent>,
    pub custom_hooks: Vec<String>,
}

/// Presentation and animation preferences of a route.
#[derive(Debug)]
pub struct TransitionSpec {
    pub presentation: PresentationMode,
    /// Animation keyword, interpreted by the rendering adapter.
    pub animation: Option<String>,
    pub gesture_back_enabled: bool,
}

/// Whether a route is an ordinary stack route or coordinates several
/// stacks at once.
#[derive(Debug, Clone, Copy, PartialEq, Eq, Structural)]
pub enum RouteKind {
    StackRoute,
    MultiStackRoute,
}

/// Metadata of one registered route.  Immutable once registered.
#[derive(Debug)]
pub struct RouteMeta {
    /// Identifier of the route inside the table.  Assigned at registration.
    pub id: RouteId,
    /// Path pattern, e.g. "/orders/:orderId/detail".
    pub path: String,
    /// Human-readable unique name, e.g. "orders.detail".
    pub name: String,
    /// Which runtime renders the page.
    pub runtime: RuntimeKind,
    /// Which stack the route prefers to live on.
    pub preferred_stack: StackId,
    pub route_kind: RouteKind,
    pub param_schema: ParamSchemaSpec,
    pub hook_spec: HookSpec,
    pub transition_spec: TransitionSpec,
    /// Free-form tags, e.g. "auth-required".
    pub tags: Vec<String>,
}

/// The result of resolving a path: the route, borrowed from the table,
/// plus the path parameter bindings the match produced.
#[derive(Debug)]
pub struct ResolvedRoute<'a> {
    pub id: RouteId,
    pub meta: &'a RouteMeta,
    /// Bindings of `:name` segments, in pattern order.
    pub path_params: Vec<(String, String)>,
}

/// The pattern views of a table's route metadata, in registration order.
pub open spec fn route_pattern_views(metas: Seq<RouteMeta>) -> Seq<Seq<PatternSegView>> {
    Seq::new(metas.len(), |i: int| pattern::pattern_view_of(metas[i].path@))
}

/// The most specific matching pattern among the first `n`, earlier
/// registration winning ties: fold that replaces the current best only
/// when the candidate is strictly more specific.
pub open spec fn best_upto(
    pats: Seq<Seq<PatternSegView>>,
    segs: Seq<Seq<char>>,
    n: int,
) -> Option<int>
    decreases n,
{
    if n <= 0 {
        None
    } else {
        let prev = best_upto(pats, segs, n - 1);
        if !pattern::pattern_matches(pats[n - 1], segs) {
            prev
        } else {
            match prev {
                None => Some(n - 1),
                Some(b) => if pattern::less_specific(pats[b], pats[n - 1]) {
                    Some(n - 1)
                } else {
                    Some(b)
                },
            }
        }
    }
}

/// The winning pattern index for a segmented path, if any.
pub open spec fn best_route(pats: Seq<Seq<PatternSegView>>, segs: Seq<Seq<char>>) -> Option<int> {
    best_upto(pats, segs, pats.len() as int)
}

/// What `best_upto` returns: nothing when nothing matches, otherwise a
/// matching index.
pub proof fn lemma_best_upto(pats: Seq<Seq<PatternSegView>>, segs: Seq<Seq<char>>, n: int)
    requires
        n <= pats.len(),
    ensures
        best_upto(pats, segs, n) is None ==> forall|j: int|
            0 <= j < n ==> !pattern::pattern_matches(pats[j], segs),
        best_upto(pats, segs, n) is Some ==> {
            let b = best_upto(pats, segs, n)->Some_0;
            &&& 0 <= b < n
            &&& pattern::pattern_matches(pats[b], segs)
        },
    decreases n,
{
    if n > 0 {
        lemma_best_upto(pats, segs, n - 1);
    }
}

/// The static match wins the fold from any point on: once a fully static
/// matching pattern is registered at `i`, no later or earlier distinct
/// candidate replaces it.
proof fn lemma_best_upto_static(
    pats: Seq<Seq<PatternSegView>>,
    segs: Seq<Seq<char>>,
    i: int,
    n: int,
)
    requires
        0 <= i < n <= pats.len(),
        pattern::all_static(pats[i]),
        pattern::pattern_matches(pats[i], segs),
        forall|j: int| 0 <= j < pats.len() && j != i ==> pats[j] != pats[i],
    ensures
        best_upto(pats, segs, n) == Some(i),
    decreases n,
{
    if n == i + 1 {
        lemma_best_upto(pats, segs, i);
        match best_upto(pats, segs, i) {
            None => {},
            Some(b) => {
                pattern::lemma_static_most_specific(pats[i], pats[b], segs);
            },
        }
    } else {
        lemma_best_upto_static(pats, segs, i, n - 1);
        if pattern::pattern_matches(pats[n - 1], segs) {
            pattern::lemma_static_most_specific(pats[i], pats[n - 1], segs);
            pattern::lemma_less_specific_asymmetric(pats[n - 1], pats[i], 0);
        }
    }
}

/// Law: a path that literally matches a registered parameter-free pattern
/// resolves to exactly that route.  Together with the contract of
/// `resolve_by_path` (which also pins the `:name` parameter bindings to
/// `pattern_bindings`), this fixes path resolution on literal matches.
pub proof fn lemma_literal_path_resolution(store: &RouteStore, segs: Seq<Seq<char>>, i: int)
    requires
        store.wf(),
        0 <= i < store.metas_seq().len(),
        pattern::all_static(route_pattern_views(store.metas_seq())[i]),
        pattern::pattern_matches(route_pattern_views(store.metas_seq())[i], segs),
    ensures
        best_route(route_pattern_views(store.metas_seq()), segs) == Some(i),
        store.metas_seq()[i].id == RouteId(i as u32),
{
    let pats = route_pattern_views(store.metas_seq());
    assert forall|j: int| 0 <= j < pats.len() && j != i implies pats[j] != pats[i] by {
        assert(pats[j] == pattern::pattern_view_of(store.metas_seq()[j].path@));
        assert(pats[i] == pattern::pattern_view_of(store.metas_seq()[i].path@));
    }
    lemma_best_upto_static(pats, segs, i, pats.len() as int);
}

/// The route table.
#[derive(Debug)]
pub struct RouteStore {
    metas: Vec<RouteMeta>,
    patterns: Vec<PathPattern>,
}

impl RouteStore {
    /// The registered route metadata, in registration order.
    pub closed spec fn metas_seq(&self) -> Seq<RouteMeta> {
        self.metas@
    }

    /// Table invariant: one well-formed parsed pattern per route, ids equal
    /// indices, and names as well as pattern shapes pairwise distinct.
    pub closed spec fn wf(&self) -> bool {
        &&& self.patterns@.len() == self.metas@.len()
        &&& forall|i: int|
            0 <= i < self.metas@.len() ==> (#[trigger] self.patterns@[i])@
                == pattern::pattern_view_of(self.metas@[i].path@)
        &&& forall|i: int| 0 <= i < self.metas@.len() ==> (#[trigger] self.metas@[i]).id == RouteId(
            i as u32,
        )
        &&& forall|i: int, j: int|
            0 <= i < j < self.metas@.len() ==> self.metas@[i].name@ != self.metas@[j].name@
        &&& forall|i: int, j: int|
            0 <= i < j < self.metas@.len() ==> pattern::pattern_view_of(self.metas@[i].path@)
                != pattern::pattern_view_of(self.metas@[j].path@)
    }

    pub fn new() -> (r: RouteStore)
        ensures
            r.wf(),
            r.metas_seq() == Seq::<RouteMeta>::empty(),
    {
        RouteStore { metas: Vec::new(), patterns: Vec::new() }
    }

    pub fn len(&self) -> (n: usize)
        ensures
            n == self.metas_seq().len(),
    {
        self.metas.len()
    }

    /// Looks a route up by id.
    pub fn get(&self, id: RouteId) -> (r: Option<&RouteMeta>)
        ensures
            (id.0 as int) < self.metas_seq().len() ==> r == Some(&self.metas_seq()[id.0 as int]),
            (id.0 as int) >= self.metas_seq().len() ==> r is None,
    {
        let idx = id.0 as usize;
        if idx < self.metas.len() {
            Some(&self.metas[idx])
        } else {
            None
        }
    }

    /// Registers a route.  The table assigns the returned id; a duplicate
    /// name or a duplicate path pattern is rejected with `RouteConflict`
    /// and leaves the table unchanged.
    pub fn register(&mut self, meta: RouteMeta) -> (r: Result<RouteId, RouterError>)
        requires
            old(self).wf(),
            old(self).metas_seq().len() < u32::MAX,
        ensures
            final(self).wf(),
            match r {
                Ok(rid) => {
                    let n = old(self).metas_seq().len() as int;
                    &&& rid == RouteId(n as u32)
                    &&& final(self).metas_seq().len() == n + 1
                    &&& final(self).metas_seq().take(n) == old(self).metas_seq()
                    &&& final(self).metas_seq()[n].id == rid
                    &&& final(self).metas_seq()[n].path == meta.path
                    &&& final(self).metas_seq()[n].name == meta.name
                    &&& final(self).metas_seq()[n].runtime == meta.runtime
                    &&& final(self).metas_seq()[n].preferred_stack == meta.preferred_stack
                    &&& final(self).metas_seq()[n].route_kind == meta.route_kind
                    &&& final(self).metas_seq()[n].param_schema == meta.param_schema
                    &&& final(self).metas_seq()[n].hook_spec == meta.hook_spec
                    &&& final(self).metas_seq()[n].transition_spec == meta.transition_spec
                    &&& final(self).metas_seq()[n].tags == meta.tags
                    &&& forall|j: int|
                        0 <= j < n ==> old(self).metas_seq()[j].name@ != meta.name@
                            && pattern::pattern_view_of(old(self).metas_seq()[j].path@)
                            != pattern::pattern_view_of(meta.path@)
                },
                Err(e) => {
                    &&& e == RouterError::RouteConflict
                    &&& final(self).metas_seq() == old(self).metas_seq()
                    &&& exists|j: int|
                        0 <= j < old(self).metas_seq().len() && (old(
                            self,
                        ).metas_seq()[j].name@ == meta.name@ || pattern::pattern_view_of(old(
                            self,
                        ).metas_seq()[j].path@) == pattern::pattern_view_of(meta.path@))
                },
            },
    {
        let pat = PathPattern::parse(meta.path.clone());
        let mut i: usize = 0;
        while i < self.metas.len()
            invariant
                i <= self.metas@.len(),
                *self == *old(self),
                self.wf(),
                pat@ == pattern::pattern_view_of(meta.path@),
                forall|k: int|
                    0 <= k < self.metas@.len() ==> (#[trigger] self.patterns@[k])@
                        == pattern::pattern_view_of(self.metas@[k].path@),
                forall|j: int| 0 <= j < i ==> self.metas@[j].name@ != meta.name@,
                forall|j: int|
                    0 <= j < i ==> pattern::pattern_view_of(self.metas@[j].path@)
                        != pattern::pattern_view_of(meta.path@),
            decreases self.metas.len() - i,
        {
            if self.metas[i].name == meta.name {
                return Err(RouterError::RouteConflict);
            }
            if self.patterns[i].same_shape(&pat) {
                return Err(RouterError::RouteConflict);
            }
            i = i + 1;
        }
        let rid = RouteId(self.metas.len() as u32);
        let meta = RouteMeta {
            id: rid,
            path: meta.path,
            name: meta.name,
            runtime: meta.runtime,
            preferred_stack: meta.preferred_stack,
            route_kind: meta.route_kind,
            param_schema: meta.param_schema,
            hook_spec: meta.hook_spec,
            transition_spec: meta.transition_spec,
            tags: meta.tags,
        };
        self.metas.push(meta);
        self.patterns.push(pat);
        proof {
            assert(self.metas@.take(self.metas@.len() - 1) =~= old(self).metas@);
        }
        Ok(rid)
    }

    /// Exact lookup of a route id by route name.
    pub fn resolve_by_name(&self, name: &str) -> (r: Option<RouteId>)
        ensures
            match r {
                Some(id) => exists|j: int|
                    0 <= j < self.metas_seq().len() && (#[trigger] self.metas_seq()[j]).name@
                        == name@ && id == self.metas_seq()[j].id,
                None => forall|j: int|
                    0 <= j < self.metas_seq().len() ==> (#[trigger] self.metas_seq()[j]).name@
                        != name@,
            },
    {
        let owned: String = name.to_owned();
        let mut i: usize = 0;
        while i < self.metas.len()
            invariant
                i <= self.metas@.len(),
                owned@ == name@,
                forall|j: int| 0 <= j < i ==> (#[trigger] self.metas@[j]).name@ != name@,
            decreases self.metas.len() - i,
        {
            if self.metas[i].name == owned {
                return Some(self.metas[i].id);
            }
            i = i + 1;
        }
        None
    }

    /// Resolves a path to the most specific matching route, with its
    /// parameter bindings.  Static segments beat `:name` parameters, which
    /// beat the `**` catch-all; among equally specific matches the earliest
    /// registered route wins.
    pub fn resolve_by_path<'a>(&'a self, path: &str) -> (r: Option<ResolvedRoute<'a>>)
        requires
            self.wf(),
        ensures
            match r {
                None => best_route(
                    route_pattern_views(self.metas_seq()),
                    pattern::path_segments(path@),
                ) is None,
                Some(rr) => {
                    let pats = route_pattern_views(self.metas_seq());
                    let segs = pattern::path_segments(path@);
                    &&& best_route(pats, segs) is Some
                    &&& {
                        let b = best_route(pats, segs)->Some_0;
                        &&& rr.id == self.metas_seq()[b].id
                        &&& *rr.meta == self.metas_seq()[b]
                        &&& pattern::pair_views(rr.path_params@) == pattern::pattern_bindings(
                            pats[b],
                            segs,
                        )
                    }
                },
            },
    {
        let ghost pats = route_pattern_views(self.metas_seq());
        let ghost segs_spec = pattern::path_segments(path@);
        let segs = pattern::split_path(path);
        let mut best: Option<usize> = None;
        let mut i: usize = 0;
        while i < self.patterns.len()
            invariant
                i <= self.patterns@.len(),
                self.wf(),
                pats == route_pattern_views(self.metas_seq()),
                segs_spec == pattern::path_segments(path@),
                pattern::seq_views(segs@) == segs_spec,
                match best {
                    None => best_upto(pats, segs_spec, i as int) is None,
                    Some(b) => best_upto(pats, segs_spec, i as int) == Some(b as int) && b < i,
                },
            decreases self.patterns.len() - i,
        {
            let matched = match self.patterns[i].match_segments(&segs) {
                Some(_) => true,
                None => false,
            };
            proof {
                assert(pats[i as int] == self.patterns@[i as int]@);
            }
            if matched {
                best = match best {
                    None => Some(i),
                    Some(b) => {
                        if self.patterns[b].is_less_specific(&self.patterns[i]) {
                            Some(i)
                        } else {
                            Some(b)
                        }
                    },
                };
            }
            i = i + 1;
        }
        match best {
            None => None,
            Some(b) => {
                proof {
                    assert(pats[b as int] == self.patterns@[b as int]@);
                }
                match self.patterns[b].match_segments(&segs) {
                    Some(bindings) => Some(
                        ResolvedRoute { id: self.metas[b].id, meta: &self.metas[b], path_params: bindings },
                    ),
                    None => {
                        proof {
                            lemma_best_upto(pats, segs_spec, self.patterns@.len() as int);
                            assert(false);
                        }
                        None
                    },
                }
            },
        }
    }
}

} // verus!
