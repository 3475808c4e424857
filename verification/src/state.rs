//! The navigation state machine.
//!
//! The router's navigation world is a set of back-stacks, one of which is
//! foreground.  Every stack always carries a root frame: the type makes an
//! empty stack unrepresentable.  `apply` is a pure function from a state
//! and an ordered list of steps to a new state plus a transition record;
//! it either applies all steps or fails without having touched anything.

use vstd::prelude::*;

use crate::assoc;
use crate::errors::StateMachineError;
use crate::pattern;
use crate::route::RouteStore;
use crate::types::{CanonicalParams, RouteId, RuntimeKind, StackId};

verus! {

/// One page instance on a stack.
#[derive(Debug, PartialEq)]
pub struct StackFrame {
    /// The route this page was opened for.
    pub route_id: RouteId,
    /// Which runtime renders this page instance.
    pub runtime: RuntimeKind,
    /// Snapshot of the canonical parameters the page was opened with.
    pub params_snapshot: Option<CanonicalParams>,
    /// Open time in milliseconds, if recorded.
    pub opened_at_millis: Option<u64>,
    /// Free-form tags.
    pub tags: Vec<String>,
}

/// Spec-level shape of a frame.
#[verifier::ext_equal]
pub ghost struct FrameView {
    pub route_id: RouteId,
    pub runtime: RuntimeKind,
    pub params: Option<Seq<(Seq<char>, serde_json::Value)>>,
    pub opened_at_millis: Option<u64>,
    pub tags: Seq<Seq<char>>,
}

impl View for StackFrame {
    type V = FrameView;

    open spec fn view(&self) -> FrameView {
        FrameView {
            route_id: self.route_id,
            runtime: self.runtime,
            params: match self.params_snapshot {
                Some(p) => Some(p@),
                None => None,
            },
            opened_at_millis: self.opened_at_millis,
            tags: pattern::seq_views(self.tags@),
        }
    }
}

impl Clone for StackFrame {
    fn clone(&self) -> (r: Self)
        ensures
            r@ == self@,
    {
        let r = StackFrame {
            route_id: self.route_id,
            runtime: self.runtime,
            params_snapshot: match &self.params_snapshot {
                Some(p) => Some(p.clone()),
                None => None,
            },
            opened_at_millis: self.opened_at_millis,
            tags: pattern::clone_strings(&self.tags),
        };
        proof {
            assert(r@ =~~= self@);
        }
        r
    }
}

/// One navigation stack: a mandatory root frame plus the frames above it.
#[derive(Debug, PartialEq)]
pub struct StackState {
    pub id: StackId,
    /// The bottom page; always present.
    pub root_frame: StackFrame,
    /// The frames above the root, bottom to top.
    pub additional_frames: Vec<StackFrame>,
}

/// Spec-level shape of a stack.
#[verifier::ext_equal]
pub ghost struct StackView {
    pub id: Seq<char>,
    pub root: FrameView,
    pub frames: Seq<FrameView>,
}

impl StackView {
    /// Total number of frames, root included.
    pub open spec fn depth(self) -> int {
        1 + self.frames.len() as int
    }

    /// The visible top frame: the last additional frame, or the root.
    pub open spec fn top(self) -> FrameView {
        if self.frames.len() > 0 {
            self.frames.last()
        } else {
            self.root
        }
    }
}

/// The frame views of a vector of frames.
pub open spec fn frame_views(v: Seq<StackFrame>) -> Seq<FrameView> {
    v.map_values(|f: StackFrame| f@)
}

impl View for StackState {
    type V = StackView;

    open spec fn view(&self) -> StackView {
        StackView { id: self.id.0@, root: self.root_frame@, frames: frame_views(self.additional_frames@) }
    }
}

/// Clones a vector of frames.
fn clone_frames(v: &Vec<StackFrame>) -> (r: Vec<StackFrame>)
    ensures
        frame_views(r@) == frame_views(v@),
{
    let mut out: Vec<StackFrame> = Vec::new();
    let mut i: usize = 0;
    while i < v.len()
        invariant
            i <= v@.len(),
            frame_views(out@) =~= frame_views(v@).take(i as int),
        decreases v.len() - i,
    {
        let ghost before = frame_views(out@);
        out.push(v[i].clone());
        proof {
            assert(frame_views(out@) =~= before.push(out@.last()@));
            assert(frame_views(v@).take(i + 1) =~= frame_views(v@).take(i as int).push(
                v@[i as int]@,
            ));
        }
        i = i + 1;
    }
    proof {
        assert(frame_views(out@) =~= frame_views(v@));
    }
    out
}

impl Clone for StackState {
    fn clone(&self) -> (r: Self)
        ensures
            r@ == self@,
    {
        let r = StackState {
            id: self.id.clone(),
            root_frame: self.root_frame.clone(),
            additional_frames: clone_frames(&self.additional_frames),
        };
        proof {
            assert(r@ =~~= self@);
        }
        r
    }
}

impl StackState {
    /// All frames, root first, bottom to top.
    pub fn all_frames<'a>(&'a self) -> (r: Vec<&'a StackFrame>)
        ensures
            r@.len() == 1 + self.additional_frames@.len(),
            (*r@[0])@ == self@.root,
            forall|i: int| 1 <= i < r@.len() ==> (*(#[trigger] r@[i]))@ == self@.frames[i - 1],
    {
        let mut out: Vec<&StackFrame> = Vec::new();
        out.push(&self.root_frame);
        let mut i: usize = 0;
        while i < self.additional_frames.len()
            invariant
                i <= self.additional_frames@.len(),
                out@.len() == 1 + i,
                (*out@[0])@ == self@.root,
                forall|k: int| 1 <= k < out@.len() ==> (*(#[trigger] out@[k]))@ == self@.frames[k - 1],
            decreases self.additional_frames.len() - i,
        {
            out.push(&self.additional_frames[i]);
            i = i + 1;
        }
        out
    }

    /// The visible top frame.
    pub fn top_frame<'a>(&'a self) -> (r: &'a StackFrame)
        ensures
            r@ == self@.top(),
    {
        if self.additional_frames.len() > 0 {
            &self.additional_frames[self.additional_frames.len() - 1]
        } else {
            &self.root_frame
        }
    }

    /// Total number of frames, root included.
    pub fn depth(&self) -> (n: usize)
        requires
            self.additional_frames@.len() < usize::MAX,
        ensures
            n == self@.depth(),
    {
        1 + self.additional_frames.len()
    }
}

/// One runtime instance taking part in the visible UI.
#[derive(Debug, PartialEq)]
pub struct RuntimeLayer {
    pub runtime: RuntimeKind,
    /// Instance id, where a runtime can have several parallel instances.
    pub instance_id: Option<String>,
    /// Whether this layer is topmost.
    pub is_top: bool,
}

/// Spec-level shape of a runtime layer.
#[verifier::ext_equal]
pub ghost struct LayerView {
    pub runtime: RuntimeKind,
    pub instance_id: Option<Seq<char>>,
    pub is_top: bool,
}

impl View for RuntimeLayer {
    type V = LayerView;

    open spec fn view(&self) -> LayerView {
        LayerView {
            runtime: self.runtime,
            instance_id: match self.instance_id {
                Some(ref s) => Some(s@),
                None => None,
            },
            is_top: self.is_top,
        }
    }
}

impl Clone for RuntimeLayer {
    fn clone(&self) -> (r: Self)
        ensures
            r@ == self@,
    {
        let r = RuntimeLayer {
            runtime: self.runtime,
            instance_id: match &self.instance_id {
                Some(s) => Some(s.clone()),
                None => None,
            },
            is_top: self.is_top,
        };
        proof {
            assert(r@ =~~= self@);
        }
        r
    }
}

/// The whole navigation world: all stacks, the foreground stack, and the
/// runtime layering.  Stack ids are unique; the foreground stack exists.
#[derive(Debug, PartialEq)]
pub struct RouterState {
    pub stacks: Vec<StackState>,
    pub active_stack: StackId,
    pub runtime_layers: Vec<RuntimeLayer>,
}

/// Spec-level shape of the navigation world.
#[verifier::ext_equal]
pub ghost struct RouterView {
    pub stacks: Seq<StackView>,
    pub active: Seq<char>,
    pub layers: Seq<LayerView>,
}

/// The stack views of a vector of stacks.
pub open spec fn stack_views(v: Seq<StackState>) -> Seq<StackView> {
    v.map_values(|s: StackState| s@)
}

/// The layer views of a vector of layers.
pub open spec fn layer_views(v: Seq<RuntimeLayer>) -> Seq<LayerView> {
    v.map_values(|l: RuntimeLayer| l@)
}

impl View for RouterState {
    type V = RouterView;

    open spec fn view(&self) -> RouterView {
        RouterView {
            stacks: stack_views(self.stacks@),
            active: self.active_stack.0@,
            layers: layer_views(self.runtime_layers@),
        }
    }
}

/// Stacks as an id-keyed association sequence, for index lookup.
pub open spec fn stacks_assoc(stacks: Seq<StackView>) -> Seq<(Seq<char>, StackView)> {
    stacks.map_values(|s: StackView| (s.id, s))
}

/// Index of the stack with this id, or -1.
pub open spec fn stack_idx(stacks: Seq<StackView>, id: Seq<char>) -> int {
    assoc::kv_first_idx(stacks_assoc(stacks), id)
}

impl RouterView {
    /// Stack ids are unique and the foreground stack exists.
    pub open spec fn wf(self) -> bool {
        &&& assoc::kv_unique(stacks_assoc(self.stacks))
        &&& stack_idx(self.stacks, self.active) >= 0
    }
}

impl Clone for RouterState {
    fn clone(&self) -> (r: Self)
        ensures
            r@ == self@,
    {
        let mut stacks: Vec<StackState> = Vec::new();
        let mut i: usize = 0;
        while i < self.stacks.len()
            invariant
                i <= self.stacks@.len(),
                stack_views(stacks@) =~= stack_views(self.stacks@).take(i as int),
            decreases self.stacks.len() - i,
        {
            let ghost before = stack_views(stacks@);
            stacks.push(self.stacks[i].clone());
            proof {
                assert(stack_views(stacks@) =~= before.push(stacks@.last()@));
                assert(stack_views(self.stacks@).take(i + 1) =~= stack_views(
                    self.stacks@,
                ).take(i as int).push(self.stacks@[i as int]@));
            }
            i = i + 1;
        }
        let mut layers: Vec<RuntimeLayer> = Vec::new();
        let mut j: usize = 0;
        while j < self.runtime_layers.len()
            invariant
                j <= self.runtime_layers@.len(),
                layer_views(layers@) =~= layer_views(self.runtime_layers@).take(j as int),
            decreases self.runtime_layers.len() - j,
        {
            let ghost before = layer_views(layers@);
            layers.push(self.runtime_layers[j].clone());
            proof {
                assert(layer_views(layers@) =~= before.push(layers@.last()@));
                assert(layer_views(self.runtime_layers@).take(j + 1) =~= layer_views(
                    self.runtime_layers@,
                ).take(j as int).push(self.runtime_layers@[j as int]@));
            }
            j = j + 1;
        }
        let r = RouterState { stacks, active_stack: self.active_stack.clone(), runtime_layers: layers };
        proof {
            assert(stack_views(r.stacks@) =~= stack_views(self.stacks@));
            assert(layer_views(r.runtime_layers@) =~= layer_views(self.runtime_layers@));
            assert(r@ =~~= self@);
        }
        r
    }
}

/// One elementary navigation step.
#[derive(Debug, PartialEq)]
pub enum TransitionKind {
    /// Pushes a new frame for `route_id` onto an existing stack.
    Push { target_stack: StackId, route_id: RouteId },
    /// Removes the top additional frame, if any; the root is never popped.
    Pop { target_stack: StackId },
    /// Replaces the visible top frame (the root itself when the stack has
    /// no additional frames) with a fresh frame for `route_id`.
    Replace { target_stack: StackId, route_id: RouteId },
    /// Clears the stack and installs a fresh root; creates the stack if it
    /// does not exist yet.
    ResetStack { target_stack: StackId, new_root: RouteId },
    /// Makes `target_stack` the foreground stack; if it is absent, creates
    /// it with `ensure_root` as its root, or fails without one.
    SwitchActiveStack { target_stack: StackId, ensure_root: Option<RouteId> },
    /// A multi-stack behavior, expanded by an external strategy resolver
    /// into elementary steps before the machine applies it.
    MultiStackOperation { behavior_key: String },
}

/// The fresh frame a step creates for a route.
pub open spec fn fresh_frame(route_id: RouteId, runtime: RuntimeKind) -> FrameView {
    FrameView {
        route_id,
        runtime,
        params: None,
        opened_at_millis: None,
        tags: Seq::empty(),
    }
}

/// What one elementary step does to the navigation world.
pub open spec fn apply_step(
    routes: Seq<crate::route::RouteMeta>,
    s: RouterView,
    step: TransitionKind,
) -> Result<RouterView, StateMachineError> {
    match step {
        TransitionKind::Push { target_stack, route_id } => {
            let i = stack_idx(s.stacks, target_stack.0@);
            if i == -1 {
                Err(StateMachineError::UnknownStack { stack: target_stack })
            } else if route_id.0 >= routes.len() {
                Err(StateMachineError::UnknownRoute { route: route_id })
            } else {
                let st = s.stacks[i];
                let frame = fresh_frame(route_id, routes[route_id.0 as int].runtime);
                Ok(
                    RouterView {
                        stacks: s.stacks.update(
                            i,
                            StackView { frames: st.frames.push(frame), ..st },
                        ),
                        ..s
                    },
                )
            }
        },
        TransitionKind::Pop { target_stack } => {
            let i = stack_idx(s.stacks, target_stack.0@);
            if i == -1 {
                Err(StateMachineError::UnknownStack { stack: target_stack })
            } else {
                let st = s.stacks[i];
                if st.frames.len() == 0 {
                    Ok(s)
                } else {
                    Ok(
                        RouterView {
                            stacks: s.stacks.update(
                                i,
                                StackView { frames: st.frames.drop_last(), ..st },
                            ),
                            ..s
                        },
                    )
                }
            }
        },
        TransitionKind::Replace { target_stack, route_id } => {
            let i = stack_idx(s.stacks, target_stack.0@);
            if i == -1 {
                Err(StateMachineError::UnknownStack { stack: target_stack })
            } else if route_id.0 >= routes.len() {
                Err(StateMachineError::UnknownRoute { route: route_id })
            } else {
                let st = s.stacks[i];
                let frame = fresh_frame(route_id, routes[route_id.0 as int].runtime);
                let st2 = if st.frames.len() > 0 {
                    StackView { frames: st.frames.update(st.frames.len() - 1, frame), ..st }
                } else {
                    StackView { root: frame, ..st }
                };
                Ok(RouterView { stacks: s.stacks.update(i, st2), ..s })
            }
        },
        TransitionKind::ResetStack { target_stack, new_root } => {
            if new_root.0 >= routes.len() {
                Err(StateMachineError::UnknownRoute { route: new_root })
            } else {
                let frame = fresh_frame(new_root, routes[new_root.0 as int].runtime);
                let i = stack_idx(s.stacks, target_stack.0@);
                if i == -1 {
                    Ok(
                        RouterView {
                            stacks: s.stacks.push(
                                StackView { id: target_stack.0@, root: frame, frames: Seq::empty() },
                            ),
                            ..s
                        },
                    )
                } else {
                    Ok(
                        RouterView {
                            stacks: s.stacks.update(
                                i,
                                StackView { root: frame, frames: Seq::empty(), ..s.stacks[i] },
                            ),
                            ..s
                        },
                    )
                }
            }
        },
        TransitionKind::SwitchActiveStack { target_stack, ensure_root } => {
            let i = stack_idx(s.stacks, target_stack.0@);
            if i != -1 {
                Ok(RouterView { active: target_stack.0@, ..s })
            } else {
                match ensure_root {
                    Some(root) => {
                        if root.0 >= routes.len() {
                            Err(StateMachineError::UnknownRoute { route: root })
                        } else {
                            let frame = fresh_frame(root, routes[root.0 as int].runtime);
                            Ok(
                                RouterView {
                                    stacks: s.stacks.push(
                                        StackView {
                                            id: target_stack.0@,
                                            root: frame,
                                            frames: Seq::empty(),
                                        },
                                    ),
                                    active: target_stack.0@,
                                    ..s
                                },
                            )
                        }
                    },
                    None => Err(StateMachineError::UnknownStack { stack: target_stack }),
                }
            }
        },
        TransitionKind::MultiStackOperation { behavior_key } => Err(
            StateMachineError::UnexpandedMultiStackOperation { behavior_key },
        ),
    }
}

/// Applying a list of steps, first to last; the first failure aborts.
pub open spec fn apply_steps(
    routes: Seq<crate::route::RouteMeta>,
    s: RouterView,
    steps: Seq<TransitionKind>,
) -> Result<RouterView, StateMachineError>
    decreases steps.len(),
{
    if steps.len() == 0 {
        Ok(s)
    } else {
        match apply_step(routes, s, steps[0]) {
            Ok(s2) => apply_steps(routes, s2, steps.drop_first()),
            Err(e) => Err(e),
        }
    }
}

impl Clone for TransitionKind {
    fn clone(&self) -> (r: Self)
        ensures
            r == *self,
    {
        match self {
            TransitionKind::Push { target_stack, route_id } => TransitionKind::Push {
                target_stack: target_stack.clone(),
                route_id: *route_id,
            },
            TransitionKind::Pop { target_stack } => TransitionKind::Pop {
                target_stack: target_stack.clone(),
            },
            TransitionKind::Replace { target_stack, route_id } => TransitionKind::Replace {
                target_stack: target_stack.clone(),
                route_id: *route_id,
            },
            TransitionKind::ResetStack { target_stack, new_root } => TransitionKind::ResetStack {
                target_stack: target_stack.clone(),
                new_root: *new_root,
            },
            TransitionKind::SwitchActiveStack { target_stack, ensure_root } => TransitionKind::SwitchActiveStack {
                target_stack: target_stack.clone(),
                ensure_root: *ensure_root,
            },
            TransitionKind::MultiStackOperation { behavior_key } => TransitionKind::MultiStackOperation {
                behavior_key: behavior_key.clone(),
            },
        }
    }
}

/// Lightweight snapshot of a stack's top frame.
#[derive(Debug, Clone, Copy, PartialEq, Eq, Structural)]
pub struct StackTopSnapshot {
    pub route_id: RouteId,
    pub runtime: RuntimeKind,
}

/// A lightweight state digest: the foreground stack and, per stack, the
/// top frame's route and runtime.  Linear in the number of stacks, never
/// a full state clone.
#[derive(Debug)]
pub struct StateSummary {
    pub active_stack: StackId,
    pub stack_tops: Vec<(StackId, StackTopSnapshot)>,
}

/// The per-stack top snapshots of a state.
pub open spec fn tops_of(stacks: Seq<StackView>) -> Seq<(Seq<char>, StackTopSnapshot)> {
    stacks.map_values(
        |s: StackView| (s.id, StackTopSnapshot { route_id: s.top().route_id, runtime: s.top().runtime }),
    )
}

/// The view of a summary.
pub open spec fn summary_views(ss: StateSummary) -> (Seq<char>, Seq<(Seq<char>, StackTopSnapshot)>) {
    (ss.active_stack.0@, ss.stack_tops@.map_values(|p: (StackId, StackTopSnapshot)| (p.0.0@, p.1)))
}

/// Digests a state.
pub fn summarize(state: &RouterState) -> (r: StateSummary)
    ensures
        summary_views(r) == (state@.active, tops_of(state@.stacks)),
{
    let mut tops: Vec<(StackId, StackTopSnapshot)> = Vec::new();
    let mut i: usize = 0;
    while i < state.stacks.len()
        invariant
            i <= state.stacks@.len(),
            tops@.map_values(|p: (StackId, StackTopSnapshot)| (p.0.0@, p.1)) =~= tops_of(
                state@.stacks,
            ).take(i as int),
        decreases state.stacks.len() - i,
    {
        let ghost before = tops@.map_values(|p: (StackId, StackTopSnapshot)| (p.0.0@, p.1));
        let st = &state.stacks[i];
        let top = st.top_frame();
        tops.push((st.id.clone(), StackTopSnapshot { route_id: top.route_id, runtime: top.runtime }));
        proof {
            assert(tops@.map_values(|p: (StackId, StackTopSnapshot)| (p.0.0@, p.1)) =~= before.push(
                (tops@.last().0.0@, tops@.last().1),
            ));
            assert(tops_of(state@.stacks)[i as int] == (
                state@.stacks[i as int].id,
                StackTopSnapshot {
                    route_id: state@.stacks[i as int].top().route_id,
                    runtime: state@.stacks[i as int].top().runtime,
                },
            ));
        }
        i = i + 1;
    }
    proof {
        assert(tops@.map_values(|p: (StackId, StackTopSnapshot)| (p.0.0@, p.1)) =~= tops_of(
            state@.stacks,
        ));
    }
    StateSummary { active_stack: state.active_stack.clone(), stack_tops: tops }
}

/// The record of one applied navigation action: state digests before and
/// after, plus the elementary steps that were applied.
#[derive(Debug)]
pub struct Transition {
    pub from_state_summary: StateSummary,
    pub to_state_summary: StateSummary,
    pub steps: Vec<TransitionKind>,
}

/// First indices are a function of the id column only.
proof fn lemma_first_idx_same_keys<V>(
    a: Seq<(Seq<char>, V)>,
    b: Seq<(Seq<char>, V)>,
    key: Seq<char>,
)
    requires
        a.len() == b.len(),
        forall|i: int| 0 <= i < a.len() ==> (#[trigger] a[i]).0 == b[i].0,
    ensures
        assoc::kv_first_idx(a, key) == assoc::kv_first_idx(b, key),
    decreases a.len(),
{
    if a.len() > 0 {
        lemma_first_idx_same_keys(a.drop_first(), b.drop_first(), key);
        assert(forall|i: int|
            0 <= i < a.len() - 1 ==> (#[trigger] a.drop_first()[i]) == a[i + 1]);
        assert(forall|i: int|
            0 <= i < b.len() - 1 ==> (#[trigger] b.drop_first()[i]) == b[i + 1]);
    }
}

/// Replacing one stack by another with the same id preserves uniqueness
/// and every lookup.
proof fn lemma_wf_update_same_id(s: RouterView, i: int, st2: StackView, key: Seq<char>)
    requires
        0 <= i < s.stacks.len(),
        st2.id == s.stacks[i].id,
    ensures
        assoc::kv_unique(stacks_assoc(s.stacks)) ==> assoc::kv_unique(
            stacks_assoc(s.stacks.update(i, st2)),
        ),
        stack_idx(s.stacks.update(i, st2), key) == stack_idx(s.stacks, key),
{
    let a1 = stacks_assoc(s.stacks);
    let a2 = stacks_assoc(s.stacks.update(i, st2));
    assert forall|j: int| 0 <= j < a2.len() implies (#[trigger] a2[j]).0 == a1[j].0 by {
        if j != i {
            assert(s.stacks.update(i, st2)[j] == s.stacks[j]);
        }
    }
    lemma_first_idx_same_keys(a2, a1, key);
    if assoc::kv_unique(a1) {
        assert forall|p: int, q: int| 0 <= p < q < a2.len() implies (#[trigger] a2[p]).0 != (
        #[trigger] a2[q]).0 by {
            assert(a2[p].0 == a1[p].0 && a2[q].0 == a1[q].0);
        }
    }
}

/// Appending a stack whose id is absent preserves uniqueness and keeps
/// every present id findable; the new id is found at the end.
proof fn lemma_wf_push_new(s: RouterView, st2: StackView, key: Seq<char>)
    requires
        assoc::kv_unique(stacks_assoc(s.stacks)),
        stack_idx(s.stacks, st2.id) == -1,
    ensures
        assoc::kv_unique(stacks_assoc(s.stacks.push(st2))),
        stack_idx(s.stacks.push(st2), st2.id) == s.stacks.len(),
        key != st2.id ==> stack_idx(s.stacks.push(st2), key) == stack_idx(s.stacks, key),
{
    let a1 = stacks_assoc(s.stacks);
    let a2 = stacks_assoc(s.stacks.push(st2));
    assoc::lemma_kv_first_idx(a1, st2.id);
    assert forall|j: int| 0 <= j < a1.len() implies (#[trigger] a2[j]) == a1[j] by {
        assert(s.stacks.push(st2)[j] == s.stacks[j]);
    }
    assert(a2[a1.len() as int].0 == st2.id);
    assert forall|p: int, q: int| 0 <= p < q < a2.len() implies (#[trigger] a2[p]).0 != (
    #[trigger] a2[q]).0 by {
        if q < a1.len() {
        } else {
            assert(a2[q].0 == st2.id);
            assert(a2[p].0 == a1[p].0);
        }
    }
    assoc::lemma_kv_first_idx_is(a2, st2.id, a1.len() as int);
    if key != st2.id {
        let i = assoc::kv_first_idx(a1, key);
        assoc::lemma_kv_first_idx(a1, key);
        if i == -1 {
            assoc::lemma_kv_first_idx(a2, key);
            if assoc::kv_first_idx(a2, key) != -1 {
                assert(a2[assoc::kv_first_idx(a2, key)].0 == key);
            }
        } else {
            assoc::lemma_kv_first_idx_is(a2, key, i);
        }
    }
}

/// One elementary step preserves well-formedness.
proof fn lemma_apply_step_wf(
    routes: Seq<crate::route::RouteMeta>,
    s: RouterView,
    step: TransitionKind,
)
    requires
        s.wf(),
    ensures
        apply_step(routes, s, step) is Ok ==> apply_step(routes, s, step)->Ok_0.wf(),
{
    let r = apply_step(routes, s, step);
    if r is Ok {
        let s2 = r->Ok_0;
        match step {
            TransitionKind::Push { target_stack, route_id } => {
                let i = stack_idx(s.stacks, target_stack.0@);
                assoc::lemma_kv_first_idx(stacks_assoc(s.stacks), target_stack.0@);
                lemma_wf_update_same_id(s, i, s2.stacks[i], s.active);
            },
            TransitionKind::Pop { target_stack } => {
                let i = stack_idx(s.stacks, target_stack.0@);
                assoc::lemma_kv_first_idx(stacks_assoc(s.stacks), target_stack.0@);
                if s.stacks[i].frames.len() > 0 {
                    lemma_wf_update_same_id(s, i, s2.stacks[i], s.active);
                }
            },
            TransitionKind::Replace { target_stack, route_id } => {
                let i = stack_idx(s.stacks, target_stack.0@);
                assoc::lemma_kv_first_idx(stacks_assoc(s.stacks), target_stack.0@);
                lemma_wf_update_same_id(s, i, s2.stacks[i], s.active);
            },
            TransitionKind::ResetStack { target_stack, new_root } => {
                let i = stack_idx(s.stacks, target_stack.0@);
                assoc::lemma_kv_first_idx(stacks_assoc(s.stacks), target_stack.0@);
                if i == -1 {
                    let st2 = StackView {
                        id: target_stack.0@,
                        root: fresh_frame(new_root, routes[new_root.0 as int].runtime),
                        frames: Seq::empty(),
                    };
                    lemma_wf_push_new(s, st2, s.active);
                } else {
                    lemma_wf_update_same_id(s, i, s2.stacks[i], s.active);
                }
            },
            TransitionKind::SwitchActiveStack { target_stack, ensure_root } => {
                let i = stack_idx(s.stacks, target_stack.0@);
                assoc::lemma_kv_first_idx(stacks_assoc(s.stacks), target_stack.0@);
                if i != -1 {
                } else {
                    let root = ensure_root->Some_0;
                    let st2 = StackView {
                        id: target_stack.0@,
                        root: fresh_frame(root, routes[root.0 as int].runtime),
                        frames: Seq::empty(),
                    };
                    lemma_wf_push_new(s, st2, s.active);
                }
            },
            TransitionKind::MultiStackOperation { .. } => {},
        }
    }
}

/// Looks a stack up by id.
fn find_stack(stacks: &Vec<StackState>, id: &StackId) -> (r: Option<usize>)
    ensures
        match r {
            Some(i) => i < stacks@.len() && stack_idx(stack_views(stacks@), id.0@) == i as int,
            None => stack_idx(stack_views(stacks@), id.0@) == -1,
        },
{
    let ghost a = stacks_assoc(stack_views(stacks@));
    let mut i: usize = 0;
    while i < stacks.len()
        invariant
            i <= stacks@.len(),
            a == stacks_assoc(stack_views(stacks@)),
            forall|j: int| 0 <= j < i ==> (#[trigger] a[j]).0 != id.0@,
        decreases stacks.len() - i,
    {
        if stacks[i].id.0 == id.0 {
            proof {
                assert(a[i as int].0 == id.0@);
                assoc::lemma_kv_first_idx_is(a, id.0@, i as int);
            }
            return Some(i);
        }
        proof {
            assert(a[i as int].0 == stacks@[i as int].id.0@);
        }
        i = i + 1;
    }
    proof {
        assoc::lemma_kv_first_idx(a, id.0@);
        if assoc::kv_first_idx(a, id.0@) != -1 {
            assert(a[assoc::kv_first_idx(a, id.0@)].0 == id.0@);
        }
    }
    None
}

impl RouterState {
    /// Applies one elementary step in place.
    fn apply_one(
        &mut self,
        routes: &RouteStore,
        step: &TransitionKind,
    ) -> (r: Result<(), StateMachineError>)
        ensures
            match r {
                Ok(()) => apply_step(routes.metas_seq(), old(self)@, *step) == Ok::<RouterView, StateMachineError>(final(self)@),
                Err(e) => apply_step(routes.metas_seq(), old(self)@, *step) == Err::<
                    RouterView,
                    StateMachineError,
                >(e) && final(self)@ == old(self)@,
            },
    {
        match step {
            TransitionKind::Push { target_stack, route_id } => {
                let i = match find_stack(&self.stacks, target_stack) {
                    Some(i) => i,
                    None => {
                        return Err(
                            StateMachineError::UnknownStack { stack: target_stack.clone() },
                        );
                    },
                };
                let meta = match routes.get(*route_id) {
                    Some(m) => m,
                    None => {
                        return Err(StateMachineError::UnknownRoute { route: *route_id });
                    },
                };
                let frame = StackFrame {
                    route_id: *route_id,
                    runtime: meta.runtime,
                    params_snapshot: None,
                    opened_at_millis: None,
                    tags: Vec::new(),
                };
                let mut st = self.stacks[i].clone();
                proof {
                    assert(frame@ =~~= fresh_frame(
                        *route_id,
                        routes.metas_seq()[route_id.0 as int].runtime,
                    ));
                }
                st.additional_frames.push(frame);
                self.stacks.set(i, st);
                proof {
                    assert(frame_views(self.stacks@[i as int].additional_frames@) =~~= old(
                        self,
                    )@.stacks[i as int].frames.push(
                        fresh_frame(*route_id, routes.metas_seq()[route_id.0 as int].runtime),
                    ));
                    assert(self@.stacks[i as int] =~~= apply_step(
                        routes.metas_seq(),
                        old(self)@,
                        *step,
                    )->Ok_0.stacks[i as int]);
                    assert(self@ =~~= apply_step(routes.metas_seq(), old(self)@, *step)->Ok_0);
                }
                Ok(())
            },
            TransitionKind::Pop { target_stack } => {
                let i = match find_stack(&self.stacks, target_stack) {
                    Some(i) => i,
                    None => {
                        return Err(
                            StateMachineError::UnknownStack { stack: target_stack.clone() },
                        );
                    },
                };
                if self.stacks[i].additional_frames.len() == 0 {
                    proof {
                        assert(self@ =~~= apply_step(routes.metas_seq(), old(self)@, *step)->Ok_0);
                    }
                    return Ok(());
                }
                let mut st = self.stacks[i].clone();
                st.additional_frames.pop();
                self.stacks.set(i, st);
                proof {
                    assert(frame_views(self.stacks@[i as int].additional_frames@) =~~= old(
                        self,
                    )@.stacks[i as int].frames.drop_last());
                    assert(self@.stacks[i as int] =~~= apply_step(
                        routes.metas_seq(),
                        old(self)@,
                        *step,
                    )->Ok_0.stacks[i as int]);
                    assert(self@ =~~= apply_step(routes.metas_seq(), old(self)@, *step)->Ok_0);
                }
                Ok(())
            },
            TransitionKind::Replace { target_stack, route_id } => {
                let i = match find_stack(&self.stacks, target_stack) {
                    Some(i) => i,
                    None => {
                        return Err(
                            StateMachineError::UnknownStack { stack: target_stack.clone() },
                        );
                    },
                };
                let meta = match routes.get(*route_id) {
                    Some(m) => m,
                    None => {
                        return Err(StateMachineError::UnknownRoute { route: *route_id });
                    },
                };
                let frame = StackFrame {
                    route_id: *route_id,
                    runtime: meta.runtime,
                    params_snapshot: None,
                    opened_at_millis: None,
                    tags: Vec::new(),
                };
                let mut st = self.stacks[i].clone();
                proof {
                    assert(frame@ =~~= fresh_frame(
                        *route_id,
                        routes.metas_seq()[route_id.0 as int].runtime,
                    ));
                }
                if st.additional_frames.len() > 0 {
                    let last = st.additional_frames.len() - 1;
                    st.additional_frames.set(last, frame);
                } else {
                    st.root_frame = frame;
                }
                self.stacks.set(i, st);
                proof {
                    assert(self@.stacks[i as int] =~~= apply_step(
                        routes.metas_seq(),
                        old(self)@,
                        *step,
                    )->Ok_0.stacks[i as int]);
                    assert(self@ =~~= apply_step(routes.metas_seq(), old(self)@, *step)->Ok_0);
                }
                Ok(())
            },
            TransitionKind::ResetStack { target_stack, new_root } => {
                let meta = match routes.get(*new_root) {
                    Some(m) => m,
                    None => {
                        return Err(StateMachineError::UnknownRoute { route: *new_root });
                    },
                };
                let frame = StackFrame {
                    route_id: *new_root,
                    runtime: meta.runtime,
                    params_snapshot: None,
                    opened_at_millis: None,
                    tags: Vec::new(),
                };
                proof {
                    assert(frame@ =~~= fresh_frame(
                        *new_root,
                        routes.metas_seq()[new_root.0 as int].runtime,
                    ));
                }
                match find_stack(&self.stacks, target_stack) {
                    Some(i) => {
                        let mut st = self.stacks[i].clone();
                        st.root_frame = frame;
                        st.additional_frames = Vec::new();
                        self.stacks.set(i, st);
                        proof {
                            assert(frame_views(self.stacks@[i as int].additional_frames@)
                                =~~= Seq::<FrameView>::empty());
                            assert(self@.stacks[i as int] =~~= apply_step(
                                routes.metas_seq(),
                                old(self)@,
                                *step,
                            )->Ok_0.stacks[i as int]);
                            assert(self@ =~~= apply_step(
                                routes.metas_seq(),
                                old(self)@,
                                *step,
                            )->Ok_0);
                        }
                    },
                    None => {
                        self.stacks.push(
                            StackState {
                                id: target_stack.clone(),
                                root_frame: frame,
                                additional_frames: Vec::new(),
                            },
                        );
                        proof {
                            assert(frame_views(self.stacks@.last().additional_frames@)
                                =~~= Seq::<FrameView>::empty());
                            assert(self@.stacks.last() =~~= apply_step(
                                routes.metas_seq(),
                                old(self)@,
                                *step,
                            )->Ok_0.stacks.last());
                            assert(self@ =~~= apply_step(
                                routes.metas_seq(),
                                old(self)@,
                                *step,
                            )->Ok_0);
                        }
                    },
                }
                Ok(())
            },
            TransitionKind::SwitchActiveStack { target_stack, ensure_root } => {
                match find_stack(&self.stacks, target_stack) {
                    Some(_) => {
                        self.active_stack = target_stack.clone();
                        proof {
                            assert(self@ =~~= apply_step(
                                routes.metas_seq(),
                                old(self)@,
                                *step,
                            )->Ok_0);
                        }
                        Ok(())
                    },
                    None => {
                        match ensure_root {
                            Some(root) => {
                                let meta = match routes.get(*root) {
                                    Some(m) => m,
                                    None => {
                                        return Err(
                                            StateMachineError::UnknownRoute { route: *root },
                                        );
                                    },
                                };
                                let frame = StackFrame {
                                    route_id: *root,
                                    runtime: meta.runtime,
                                    params_snapshot: None,
                                    opened_at_millis: None,
                                    tags: Vec::new(),
                                };
                                proof {
                                    assert(frame@ =~~= fresh_frame(
                                        *root,
                                        routes.metas_seq()[root.0 as int].runtime,
                                    ));
                                }
                                self.stacks.push(
                                    StackState {
                                        id: target_stack.clone(),
                                        root_frame: frame,
                                        additional_frames: Vec::new(),
                                    },
                                );
                                self.active_stack = target_stack.clone();
                                proof {
                                    assert(frame_views(self.stacks@.last().additional_frames@)
                                        =~~= Seq::<FrameView>::empty());
                                    assert(self@.stacks.last() =~~= apply_step(
                                        routes.metas_seq(),
                                        old(self)@,
                                        *step,
                                    )->Ok_0.stacks.last());
                                    assert(self@ =~~= apply_step(
                                        routes.metas_seq(),
                                        old(self)@,
                                        *step,
                                    )->Ok_0);
                                }
                                Ok(())
                            },
                            None => Err(
                                StateMachineError::UnknownStack { stack: target_stack.clone() },
                            ),
                        }
                    },
                }
            },
            TransitionKind::MultiStackOperation { behavior_key } => Err(
                StateMachineError::UnexpandedMultiStackOperation {
                    behavior_key: behavior_key.clone(),
                },
            ),
        }
    }

    /// Applies an ordered list of elementary steps atomically: either all
    /// of them succeed, yielding the new state and a transition record, or
    /// the first failure is returned and this state is untouched (the
    /// machine is a pure function of the input state).
    pub fn apply(
        &self,
        routes: &RouteStore,
        steps: Vec<TransitionKind>,
    ) -> (r: Result<(RouterState, Transition), StateMachineError>)
        requires
            self@.wf(),
        ensures
            match r {
                Ok(p) => {
                    &&& apply_steps(routes.metas_seq(), self@, steps@) == Ok::<
                        RouterView,
                        StateMachineError,
                    >(p.0@)
                    &&& p.0@.wf()
                    &&& p.1.steps@ == steps@
                    &&& summary_views(p.1.from_state_summary) == (
                        self@.active,
                        tops_of(self@.stacks),
                    )
                    &&& summary_views(p.1.to_state_summary) == (p.0@.active, tops_of(p.0@.stacks))
                },
                Err(e) => apply_steps(routes.metas_seq(), self@, steps@) == Err::<
                    RouterView,
                    StateMachineError,
                >(e),
            },
    {
        let from_summary = summarize(self);
        let mut work = self.clone();
        let mut i: usize = 0;
        proof {
            assert(steps@.skip(0) =~= steps@);
        }
        while i < steps.len()
            invariant
                i <= steps@.len(),
                work@.wf(),
                apply_steps(routes.metas_seq(), self@, steps@) == apply_steps(
                    routes.metas_seq(),
                    work@,
                    steps@.skip(i as int),
                ),
            decreases steps.len() - i,
        {
            proof {
                assert(steps@.skip(i as int)[0] == steps@[i as int]);
                assert(steps@.skip(i as int).drop_first() =~= steps@.skip(i + 1));
                lemma_apply_step_wf(routes.metas_seq(), work@, steps@[i as int]);
            }
            match work.apply_one(routes, &steps[i]) {
                Ok(()) => {},
                Err(e) => {
                    return Err(e);
                },
            }
            i = i + 1;
        }
        proof {
            assert(steps@.skip(steps@.len() as int) =~= Seq::<TransitionKind>::empty());
        }
        let to_summary = summarize(&work);
        Ok((work, Transition { from_state_summary: from_summary, to_state_summary: to_summary, steps }))
    }
}

/// Steps free of multi-stack operations: only elementary steps remain.
pub open spec fn expansion_free(steps: Seq<TransitionKind>) -> bool {
    forall|i: int| 0 <= i < steps.len() ==> !((#[trigger] steps[i]) is MultiStackOperation)
}

/// `expanded` is `steps` with every multi-stack operation replaced by some
/// expansion-free list of elementary steps, the other steps kept in order.
pub open spec fn is_expansion_of(
    expanded: Seq<TransitionKind>,
    steps: Seq<TransitionKind>,
) -> bool
    decreases steps.len(),
{
    if steps.len() == 0 {
        expanded.len() == 0
    } else if steps[0] is MultiStackOperation {
        exists|sub: Seq<TransitionKind>, rest: Seq<TransitionKind>|
            expanded == #[trigger] (sub + rest) && expansion_free(sub) && is_expansion_of(
                rest,
                steps.drop_first(),
            )
    } else {
        expanded.len() > 0 && expanded[0] == steps[0] && is_expansion_of(
            expanded.drop_first(),
            steps.drop_first(),
        )
    }
}

/// Splicing one more step's expansion onto the end keeps the relation: a
/// multi-stack step contributes its (expansion-free) substitution, any
/// other step contributes itself.
proof fn lemma_expansion_push(
    expanded: Seq<TransitionKind>,
    steps: Seq<TransitionKind>,
    sub: Seq<TransitionKind>,
    step: TransitionKind,
)
    requires
        is_expansion_of(expanded, steps),
        step is MultiStackOperation ==> expansion_free(sub),
        !(step is MultiStackOperation) ==> sub == seq![step],
    ensures
        is_expansion_of(expanded + sub, steps.push(step)),
    decreases steps.len(),
{
    let empty = Seq::<TransitionKind>::empty();
    assert(steps.push(step)[0] == if steps.len() == 0 {
        step
    } else {
        steps[0]
    });
    if steps.len() == 0 {
        assert(expanded + sub =~= sub);
        assert(steps.push(step).drop_first() =~= empty);
        assert(is_expansion_of(empty, empty));
        if step is MultiStackOperation {
            assert((expanded + sub) == sub + empty) by {
                assert(sub + empty =~= expanded + sub);
            }
        } else {
            assert((expanded + sub)[0] == step);
            assert((expanded + sub).drop_first() =~= empty);
        }
    } else {
        assert(steps.push(step).drop_first() =~= steps.drop_first().push(step));
        if steps[0] is MultiStackOperation {
            let (sub0, rest0) = choose|sub0: Seq<TransitionKind>, rest0: Seq<TransitionKind>|
                expanded == #[trigger] (sub0 + rest0) && expansion_free(sub0) && is_expansion_of(
                    rest0,
                    steps.drop_first(),
                );
            lemma_expansion_push(rest0, steps.drop_first(), sub, step);
            assert((expanded + sub) == sub0 + (rest0 + sub)) by {
                assert(sub0 + (rest0 + sub) =~= expanded + sub);
            }
        } else {
            lemma_expansion_push(expanded.drop_first(), steps.drop_first(), sub, step);
            assert((expanded + sub)[0] == expanded[0]);
            assert((expanded + sub).drop_first() =~= expanded.drop_first() + sub);
        }
    }
}

/// Splices one behavior expansion onto a step list.  Succeeds exactly
/// when the expansion holds no nested multi-stack operation, appending it
/// whole; otherwise fails with the first nested operation's key and
/// leaves the list unchanged.  This is the verified half of strategy
/// expansion: the resolver, an external collaborator, produces the list,
/// and this function decides what becomes of every possible value of it.
pub fn append_expansion(
    expanded: &mut Vec<TransitionKind>,
    sub: &Vec<TransitionKind>,
) -> (r: Result<(), StateMachineError>)
    ensures
        match r {
            Ok(()) => expansion_free(sub@) && final(expanded)@ == old(expanded)@ + sub@,
            Err(e) => {
                &&& final(expanded)@ == old(expanded)@
                &&& exists|k: int|
                    0 <= k < sub@.len() && (#[trigger] sub@[k]) is MultiStackOperation && (
                    forall|j: int| 0 <= j < k ==> !((#[trigger] sub@[j]) is MultiStackOperation))
                        && match sub@[k] {
                        TransitionKind::MultiStackOperation { behavior_key } => e == (
                        StateMachineError::UnexpandedMultiStackOperation { behavior_key }),
                        _ => false,
                    }
            },
        },
{
    let mut i: usize = 0;
    while i < sub.len()
        invariant
            i <= sub@.len(),
            forall|j: int| 0 <= j < i ==> !((#[trigger] sub@[j]) is MultiStackOperation),
        decreases sub.len() - i,
    {
        match &sub[i] {
            TransitionKind::MultiStackOperation { behavior_key } => {
                let e = StateMachineError::UnexpandedMultiStackOperation {
                    behavior_key: behavior_key.clone(),
                };
                proof {
                    assert(sub@[i as int] is MultiStackOperation);
                }
                return Err(e);
            },
            _ => {},
        }
        i = i + 1;
    }
    let ghost before = expanded@;
    let mut j: usize = 0;
    proof {
        assert(expanded@ =~= before + sub@.take(0));
    }
    while j < sub.len()
        invariant
            j <= sub@.len(),
            expanded@ =~= before + sub@.take(j as int),
        decreases sub.len() - j,
    {
        expanded.push(sub[j].clone());
        proof {
            assert(expanded@.last() == sub@[j as int]);
            assert(expanded@ =~= before + sub@.take(j + 1));
        }
        j = j + 1;
    }
    proof {
        assert(sub@.take(sub@.len() as int) =~= sub@);
    }
    Ok(())
}

/// The strategy resolver collaborator: expands a multi-stack behavior key
/// into elementary steps.  Implementations live with the adapters.
pub trait StrategyResolver {
    fn resolve(
        &self,
        behavior_key: &String,
        state: &RouterState,
    ) -> Result<Vec<TransitionKind>, StateMachineError>;
}

impl RouterState {
    /// Executable check of the state invariant: stack ids pairwise
    /// distinct and the foreground stack present.  Lets a driver test a
    /// caller-built state before handing it to the machine.
    pub fn is_well_formed(&self) -> (r: bool)
        ensures
            r == self@.wf(),
    {
        let ghost a = stacks_assoc(self@.stacks);
        let n = self.stacks.len();
        let mut i: usize = 0;
        while i < n
            invariant
                i <= n,
                n == self.stacks@.len(),
                a == stacks_assoc(self@.stacks),
                forall|p: int, q: int|
                    0 <= p < q < n && p < i ==> (#[trigger] a[p]).0 != (#[trigger] a[q]).0,
            decreases n - i,
        {
            let mut j: usize = i + 1;
            while j < n
                invariant
                    i < j <= n,
                    n == self.stacks@.len(),
                    a == stacks_assoc(self@.stacks),
                    forall|q: int| i < q < j ==> (#[trigger] a[q]).0 != a[i as int].0,
                decreases n - j,
            {
                if self.stacks[i].id.0 == self.stacks[j].id.0 {
                    proof {
                        assert(a[i as int].0 == self.stacks@[i as int].id.0@);
                        assert(a[j as int].0 == self.stacks@[j as int].id.0@);
                        assert(!assoc::kv_unique(a));
                    }
                    return false;
                }
                proof {
                    assert(a[j as int].0 == self.stacks@[j as int].id.0@);
                    assert(a[i as int].0 == self.stacks@[i as int].id.0@);
                }
                j = j + 1;
            }
            i = i + 1;
        }
        proof {
            assert(assoc::kv_unique(a));
        }
        match find_stack(&self.stacks, &self.active_stack) {
            Some(_) => true,
            None => false,
        }
    }

    /// Applies steps after expanding every multi-stack operation one level
    /// through the strategy resolver.  The expanded steps are applied
    /// atomically as one transition.  The record carries the elementary
    /// steps that were actually applied: the input list with every
    /// multi-stack operation replaced by what the resolver returned for
    /// it, and the new state is exactly their effect.  On a list that is
    /// already free of multi-stack operations this behaves exactly like
    /// `apply`, errors included.
    pub fn apply_with<S: StrategyResolver>(
        &self,
        routes: &RouteStore,
        steps: Vec<TransitionKind>,
        resolver: &S,
    ) -> (r: Result<(RouterState, Transition), StateMachineError>)
        requires
            self@.wf(),
        ensures
            match r {
                Ok(p) => {
                    &&& is_expansion_of(p.1.steps@, steps@)
                    &&& expansion_free(p.1.steps@)
                    &&& apply_steps(routes.metas_seq(), self@, p.1.steps@) == Ok::<
                        RouterView,
                        StateMachineError,
                    >(p.0@)
                    &&& p.0@.wf()
                    &&& expansion_free(steps@) ==> p.1.steps@ == steps@
                    &&& summary_views(p.1.from_state_summary) == (
                        self@.active,
                        tops_of(self@.stacks),
                    )
                    &&& summary_views(p.1.to_state_summary) == (p.0@.active, tops_of(p.0@.stacks))
                },
                Err(e) => expansion_free(steps@) ==> apply_steps(
                    routes.metas_seq(),
                    self@,
                    steps@,
                ) == Err::<RouterView, StateMachineError>(e),
            },
    {
        let mut expanded: Vec<TransitionKind> = Vec::new();
        let mut i: usize = 0;
        proof {
            assert(steps@.take(0) =~= Seq::<TransitionKind>::empty());
            assert(is_expansion_of(expanded@, steps@.take(0)));
        }
        while i < steps.len()
            invariant
                i <= steps@.len(),
                is_expansion_of(expanded@, steps@.take(i as int)),
                expansion_free(expanded@),
                expansion_free(steps@.take(i as int)) ==> expanded@ == steps@.take(i as int),
            decreases steps.len() - i,
        {
            let ghost base = expanded@;
            proof {
                assert(steps@.take(i + 1) =~= steps@.take(i as int).push(steps@[i as int]));
            }
            match &steps[i] {
                TransitionKind::MultiStackOperation { behavior_key } => {
                    proof {
                        assert(steps@[i as int] is MultiStackOperation);
                        assert(!expansion_free(steps@));
                        assert(steps@.take(i + 1)[i as int] == steps@[i as int]);
                        assert(!expansion_free(steps@.take(i + 1)));
                    }
                    let sub = match resolver.resolve(behavior_key, self) {
                        Ok(s) => s,
                        Err(e) => {
                            return Err(e);
                        },
                    };
                    match append_expansion(&mut expanded, &sub) {
                        Ok(()) => {},
                        Err(e) => {
                            return Err(e);
                        },
                    }
                    proof {
                        lemma_expansion_push(base, steps@.take(i as int), sub@, steps@[i as int]);
                        assert(expansion_free(expanded@)) by {
                            assert forall|k: int|
                                0 <= k < expanded@.len() implies !((#[trigger] expanded@[k])
                                is MultiStackOperation) by {
                                if k < base.len() {
                                    assert(expanded@[k] == base[k]);
                                } else {
                                    assert(expanded@[k] == sub@[k - base.len()]);
                                }
                            }
                        }
                    }
                },
                _ => {
                    expanded.push(steps[i].clone());
                    proof {
                        assert(expanded@.last() == steps@[i as int]);
                        assert(expanded@ =~= base + seq![steps@[i as int]]);
                        lemma_expansion_push(
                            base,
                            steps@.take(i as int),
                            seq![steps@[i as int]],
                            steps@[i as int],
                        );
                        if expansion_free(steps@.take(i + 1)) {
                            assert(expansion_free(steps@.take(i as int))) by {
                                assert forall|k: int|
                                    0 <= k < i implies !((#[trigger] steps@.take(i as int)[k])
                                    is MultiStackOperation) by {
                                    assert(steps@.take(i + 1)[k] == steps@.take(i as int)[k]);
                                }
                            }
                            assert(expanded@ =~= steps@.take(i + 1));
                        }
                    }
                },
            }
            i = i + 1;
        }
        proof {
            assert(steps@.take(steps@.len() as int) =~= steps@);
        }
        self.apply(routes, expanded)
    }
}

/// Law: popping a stack that holds only its root frame is a no-op: the
/// state is unchanged and the stack's depth stays 1.
pub proof fn lemma_pop_on_root_only_stack(
    routes: Seq<crate::route::RouteMeta>,
    s: RouterView,
    target: StackId,
)
    requires
        stack_idx(s.stacks, target.0@) >= 0,
        s.stacks[stack_idx(s.stacks, target.0@)].frames.len() == 0,
    ensures
        apply_step(routes, s, TransitionKind::Pop { target_stack: target }) == Ok::<
            RouterView,
            StateMachineError,
        >(s),
        s.stacks[stack_idx(s.stacks, target.0@)].depth() == 1,
{
}

/// Law: after a stack reset the target stack holds exactly its fresh root
/// frame - depth 1, no additional frames - whatever its depth was before.
pub proof fn lemma_reset_stack_depth_one(
    routes: Seq<crate::route::RouteMeta>,
    s: RouterView,
    target: StackId,
    new_root: RouteId,
)
    requires
        s.wf(),
        (new_root.0 as int) < routes.len(),
    ensures
        apply_step(
            routes,
            s,
            TransitionKind::ResetStack { target_stack: target, new_root },
        ) is Ok,
        ({
            let s2 = apply_step(
                routes,
                s,
                TransitionKind::ResetStack { target_stack: target, new_root },
            )->Ok_0;
            let i = stack_idx(s2.stacks, target.0@);
            &&& i >= 0
            &&& s2.stacks[i].frames.len() == 0
            &&& s2.stacks[i].depth() == 1
            &&& s2.stacks[i].root == fresh_frame(new_root, routes[new_root.0 as int].runtime)
        }),
{
    let step = TransitionKind::ResetStack { target_stack: target, new_root };
    let s2 = apply_step(routes, s, step)->Ok_0;
    let a1 = stacks_assoc(s.stacks);
    let a2 = stacks_assoc(s2.stacks);
    let i = stack_idx(s.stacks, target.0@);
    assoc::lemma_kv_first_idx(a1, target.0@);
    if i == -1 {
        assert forall|j: int| 0 <= j < a2.len() - 1 implies (#[trigger] a2[j]).0 != target.0@ by {
            assert(a2[j] == a1[j]);
        }
        assert(a2[a2.len() - 1].0 == target.0@);
        assoc::lemma_kv_first_idx_is(a2, target.0@, a2.len() - 1);
    } else {
        assert(a2[i].0 == target.0@);
        assert forall|j: int| 0 <= j < i implies (#[trigger] a2[j]).0 != target.0@ by {
            assert(a2[j] == a1[j]);
        }
        assoc::lemma_kv_first_idx_is(a2, target.0@, i);
    }
}

/// Law: switching the foreground to an absent stack without an
/// `ensure_root` fails with `UnknownStack` and yields no new state; the
/// machine being a pure function, the input state is untouched.
pub proof fn lemma_switch_to_absent_stack(
    routes: Seq<crate::route::RouteMeta>,
    s: RouterView,
    target: StackId,
)
    requires
        stack_idx(s.stacks, target.0@) == -1,
    ensures
        apply_step(
            routes,
            s,
            TransitionKind::SwitchActiveStack { target_stack: target, ensure_root: None },
        ) == Err::<RouterView, StateMachineError>(StateMachineError::UnknownStack { stack: target }),
        apply_steps(
            routes,
            s,
            seq![TransitionKind::SwitchActiveStack { target_stack: target, ensure_root: None }],
        ) == Err::<RouterView, StateMachineError>(StateMachineError::UnknownStack { stack: target }),
{
    let step = TransitionKind::SwitchActiveStack { target_stack: target, ensure_root: None };
    assert(seq![step].drop_first() =~= Seq::<TransitionKind>::empty());
    assert(seq![step][0] == step);
}

} // verus!
