//! Navigation state machine behaviour: pushes, pops, replaces, resets,
//! stack switches, multi-stack expansion, and atomic failure.

use umrouter_core::errors::StateMachineError;
use umrouter_core::route::{
    HookSpec, ParamSchemaSpec, RouteKind, RouteMeta, RouteStore, TransitionSpec,
};
use umrouter_core::state::{
    append_expansion, RouterState, StackFrame, StackState, StrategyResolver, TransitionKind,
};
use umrouter_core::types::{PresentationMode, RouteId, RuntimeKind, StackId};

fn meta(path: &str, name: &str, runtime: RuntimeKind) -> RouteMeta {
    RouteMeta {
        id: RouteId(0),
        path: path.to_string(),
        name: name.to_string(),
        runtime,
        preferred_stack: StackId("home".to_string()),
        route_kind: RouteKind::StackRoute,
        param_schema: ParamSchemaSpec { schema_id: None, has_sub_schemas: false },
        hook_spec: HookSpec { enabled_lifecycles: vec![], custom_hooks: vec![] },
        transition_spec: TransitionSpec {
            presentation: PresentationMode::Push,
            animation: None,
            gesture_back_enabled: true,
        },
        tags: vec![],
    }
}

fn routes() -> RouteStore {
    let mut store = RouteStore::new();
    store.register(meta("/home", "home.index", RuntimeKind::Native)).unwrap();
    store.register(meta("/detail", "home.detail", RuntimeKind::ReactNative)).unwrap();
    store.register(meta("/settings", "settings.index", RuntimeKind::Flutter)).unwrap();
    store
}

fn frame(route: u32, runtime: RuntimeKind) -> StackFrame {
    StackFrame {
        route_id: RouteId(route),
        runtime,
        params_snapshot: None,
        opened_at_millis: None,
        tags: vec![],
    }
}

fn sid(s: &str) -> StackId {
    StackId(s.to_string())
}

fn base_state() -> RouterState {
    RouterState {
        stacks: vec![StackState {
            id: sid("home"),
            root_frame: frame(0, RuntimeKind::Native),
            additional_frames: vec![],
        }],
        active_stack: sid("home"),
        runtime_layers: vec![],
    }
}

#[test]
fn push_appends_a_frame() {
    let state = base_state();
    let (next, tr) = state
        .apply(
            &routes(),
            vec![TransitionKind::Push { target_stack: sid("home"), route_id: RouteId(1) }],
        )
        .unwrap();
    assert_eq!(next.stacks[0].depth(), 2);
    assert_eq!(next.stacks[0].top_frame().route_id, RouteId(1));
    assert_eq!(next.stacks[0].top_frame().runtime, RuntimeKind::ReactNative);
    assert_eq!(tr.steps.len(), 1);
    assert_eq!(tr.from_state_summary.active_stack, sid("home"));
    assert_eq!(tr.to_state_summary.stack_tops[0].1.route_id, RouteId(1));
}

#[test]
fn push_to_unknown_stack_fails() {
    let state = base_state();
    let before = state.clone();
    let r = state.apply(
        &routes(),
        vec![TransitionKind::Push { target_stack: sid("ghost"), route_id: RouteId(1) }],
    );
    assert_eq!(r.unwrap_err(), StateMachineError::UnknownStack { stack: sid("ghost") });
    assert_eq!(state, before);
}

#[test]
fn push_of_unknown_route_fails() {
    let state = base_state();
    let r = state.apply(
        &routes(),
        vec![TransitionKind::Push { target_stack: sid("home"), route_id: RouteId(42) }],
    );
    assert_eq!(r.unwrap_err(), StateMachineError::UnknownRoute { route: RouteId(42) });
}

#[test]
fn pop_removes_the_top_frame() {
    let state = base_state();
    let (next, _) = state
        .apply(
            &routes(),
            vec![
                TransitionKind::Push { target_stack: sid("home"), route_id: RouteId(1) },
                TransitionKind::Pop { target_stack: sid("home") },
            ],
        )
        .unwrap();
    assert_eq!(next.stacks[0].depth(), 1);
    assert_eq!(next.stacks[0].top_frame().route_id, RouteId(0));
}

#[test]
fn pop_on_root_only_stack_is_a_no_op() {
    let state = base_state();
    assert_eq!(state.stacks[0].depth(), 1);
    let (next, _) = state
        .apply(&routes(), vec![TransitionKind::Pop { target_stack: sid("home") }])
        .unwrap();
    assert_eq!(next.stacks[0].depth(), 1);
    assert_eq!(next, state);
}

#[test]
fn replace_swaps_the_top_frame_in_place() {
    let state = base_state();
    let (next, _) = state
        .apply(
            &routes(),
            vec![
                TransitionKind::Push { target_stack: sid("home"), route_id: RouteId(1) },
                TransitionKind::Replace { target_stack: sid("home"), route_id: RouteId(2) },
            ],
        )
        .unwrap();
    assert_eq!(next.stacks[0].depth(), 2);
    assert_eq!(next.stacks[0].top_frame().route_id, RouteId(2));
}

#[test]
fn replace_on_root_only_stack_replaces_the_root() {
    let state = base_state();
    let (next, _) = state
        .apply(
            &routes(),
            vec![TransitionKind::Replace { target_stack: sid("home"), route_id: RouteId(2) }],
        )
        .unwrap();
    assert_eq!(next.stacks[0].depth(), 1);
    assert_eq!(next.stacks[0].root_frame.route_id, RouteId(2));
    assert_eq!(next.stacks[0].id, sid("home"));
}

#[test]
fn reset_always_yields_depth_one() {
    let state = base_state();
    let (deep, _) = state
        .apply(
            &routes(),
            vec![
                TransitionKind::Push { target_stack: sid("home"), route_id: RouteId(1) },
                TransitionKind::Push { target_stack: sid("home"), route_id: RouteId(2) },
            ],
        )
        .unwrap();
    assert_eq!(deep.stacks[0].depth(), 3);
    let (next, _) = deep
        .apply(
            &routes(),
            vec![TransitionKind::ResetStack { target_stack: sid("home"), new_root: RouteId(2) }],
        )
        .unwrap();
    assert_eq!(next.stacks[0].depth(), 1);
    assert!(next.stacks[0].additional_frames.is_empty());
    assert_eq!(next.stacks[0].root_frame.route_id, RouteId(2));
}

#[test]
fn reset_creates_a_missing_stack() {
    let state = base_state();
    let (next, _) = state
        .apply(
            &routes(),
            vec![TransitionKind::ResetStack { target_stack: sid("auth"), new_root: RouteId(2) }],
        )
        .unwrap();
    assert_eq!(next.stacks.len(), 2);
    assert_eq!(next.stacks[1].id, sid("auth"));
    assert_eq!(next.stacks[1].depth(), 1);
    // foreground unchanged
    assert_eq!(next.active_stack, sid("home"));
}

#[test]
fn switch_to_existing_stack_changes_foreground_only() {
    let state = RouterState {
        stacks: vec![
            StackState {
                id: sid("home"),
                root_frame: frame(0, RuntimeKind::Native),
                additional_frames: vec![frame(1, RuntimeKind::ReactNative)],
            },
            StackState {
                id: sid("trade"),
                root_frame: frame(2, RuntimeKind::Flutter),
                additional_frames: vec![],
            },
        ],
        active_stack: sid("home"),
        runtime_layers: vec![],
    };
    let (next, _) = state
        .apply(
            &routes(),
            vec![TransitionKind::SwitchActiveStack {
                target_stack: sid("trade"),
                ensure_root: None,
            }],
        )
        .unwrap();
    assert_eq!(next.active_stack, sid("trade"));
    // frames of the background stack are kept
    assert_eq!(next.stacks[0].depth(), 2);
}

#[test]
fn switch_to_absent_stack_without_root_fails_and_state_is_untouched() {
    let state = base_state();
    let before = state.clone();
    let r = state.apply(
        &routes(),
        vec![TransitionKind::SwitchActiveStack { target_stack: sid("ghost"), ensure_root: None }],
    );
    assert_eq!(r.unwrap_err(), StateMachineError::UnknownStack { stack: sid("ghost") });
    assert_eq!(state, before);
}

#[test]
fn switch_with_ensure_root_creates_the_stack() {
    let state = base_state();
    let (next, _) = state
        .apply(
            &routes(),
            vec![TransitionKind::SwitchActiveStack {
                target_stack: sid("settings"),
                ensure_root: Some(RouteId(2)),
            }],
        )
        .unwrap();
    assert_eq!(next.active_stack, sid("settings"));
    assert_eq!(next.stacks.len(), 2);
    assert_eq!(next.stacks[1].root_frame.route_id, RouteId(2));
    assert_eq!(next.stacks[1].root_frame.runtime, RuntimeKind::Flutter);
}

#[test]
fn failure_in_a_later_step_applies_nothing() {
    let state = base_state();
    let before = state.clone();
    let r = state.apply(
        &routes(),
        vec![
            TransitionKind::Push { target_stack: sid("home"), route_id: RouteId(1) },
            TransitionKind::Push { target_stack: sid("ghost"), route_id: RouteId(1) },
        ],
    );
    assert!(r.is_err());
    assert_eq!(state, before);
}

#[test]
fn multi_stack_operation_must_be_expanded() {
    let state = base_state();
    let r = state.apply(
        &routes(),
        vec![TransitionKind::MultiStackOperation { behavior_key: "open_settings".to_string() }],
    );
    assert_eq!(
        r.unwrap_err(),
        StateMachineError::UnexpandedMultiStackOperation {
            behavior_key: "open_settings".to_string()
        }
    );
}

struct SettingsStrategy;

impl StrategyResolver for SettingsStrategy {
    fn resolve(
        &self,
        behavior_key: &String,
        _state: &RouterState,
    ) -> Result<Vec<TransitionKind>, StateMachineError> {
        if behavior_key == "open_settings" {
            Ok(vec![
                TransitionKind::ResetStack {
                    target_stack: StackId("settings".to_string()),
                    new_root: RouteId(2),
                },
                TransitionKind::Push {
                    target_stack: StackId("settings".to_string()),
                    route_id: RouteId(1),
                },
                TransitionKind::SwitchActiveStack {
                    target_stack: StackId("settings".to_string()),
                    ensure_root: None,
                },
            ])
        } else {
            Err(StateMachineError::UnexpandedMultiStackOperation {
                behavior_key: behavior_key.clone(),
            })
        }
    }
}

#[test]
fn multi_stack_operation_expands_and_applies_atomically() {
    let state = base_state();
    let (next, tr) = state
        .apply_with(
            &routes(),
            vec![TransitionKind::MultiStackOperation { behavior_key: "open_settings".to_string() }],
            &SettingsStrategy,
        )
        .unwrap();
    assert_eq!(next.active_stack, sid("settings"));
    assert_eq!(next.stacks.len(), 2);
    assert_eq!(next.stacks[1].depth(), 2);
    // the transition records the expanded elementary steps
    assert_eq!(tr.steps.len(), 3);
    assert!(tr
        .steps
        .iter()
        .all(|s| !matches!(s, TransitionKind::MultiStackOperation { .. })));
}

#[test]
fn stack_accessors_report_frames() {
    let st = StackState {
        id: sid("home"),
        root_frame: frame(0, RuntimeKind::Native),
        additional_frames: vec![frame(1, RuntimeKind::Native), frame(2, RuntimeKind::Flutter)],
    };
    assert_eq!(st.depth(), 3);
    assert_eq!(st.top_frame().route_id, RouteId(2));
    let all = st.all_frames();
    assert_eq!(all.len(), 3);
    assert_eq!(all[0].route_id, RouteId(0));
    assert_eq!(all[2].route_id, RouteId(2));
}

#[test]
fn well_formedness_is_checkable() {
    let state = base_state();
    assert!(state.is_well_formed());
    let duplicate_ids = RouterState {
        stacks: vec![
            StackState {
                id: sid("home"),
                root_frame: frame(0, RuntimeKind::Native),
                additional_frames: vec![],
            },
            StackState {
                id: sid("home"),
                root_frame: frame(1, RuntimeKind::Native),
                additional_frames: vec![],
            },
        ],
        active_stack: sid("home"),
        runtime_layers: vec![],
    };
    assert!(!duplicate_ids.is_well_formed());
    let absent_foreground = RouterState {
        stacks: vec![StackState {
            id: sid("home"),
            root_frame: frame(0, RuntimeKind::Native),
            additional_frames: vec![],
        }],
        active_stack: sid("ghost"),
        runtime_layers: vec![],
    };
    assert!(!absent_foreground.is_well_formed());
}

#[test]
fn expansion_free_steps_pass_through_apply_with() {
    let state = base_state();
    let steps = vec![
        TransitionKind::Push { target_stack: sid("home"), route_id: RouteId(1) },
        TransitionKind::Pop { target_stack: sid("home") },
    ];
    let (next_direct, tr_direct) = state.apply(&routes(), steps.clone()).unwrap();
    let (next_via, tr_via) = state
        .apply_with(&routes(), steps.clone(), &SettingsStrategy)
        .unwrap();
    assert_eq!(next_direct, next_via);
    assert_eq!(tr_direct.steps, tr_via.steps);
    assert_eq!(tr_via.steps, steps);
    // and a failing elementary list fails identically through both
    let bad = vec![TransitionKind::Pop { target_stack: sid("ghost") }];
    assert_eq!(
        state.apply(&routes(), bad.clone()).unwrap_err(),
        state.apply_with(&routes(), bad, &SettingsStrategy).unwrap_err()
    );
}

#[test]
fn expansions_splice_only_elementary_steps() {
    let mut expanded = vec![TransitionKind::Pop { target_stack: sid("home") }];
    let ok_sub = vec![
        TransitionKind::Push { target_stack: sid("home"), route_id: RouteId(1) },
        TransitionKind::SwitchActiveStack { target_stack: sid("home"), ensure_root: None },
    ];
    append_expansion(&mut expanded, &ok_sub).unwrap();
    assert_eq!(expanded.len(), 3);
    assert_eq!(expanded[1], ok_sub[0]);

    let nested = vec![
        TransitionKind::Pop { target_stack: sid("home") },
        TransitionKind::MultiStackOperation { behavior_key: "inner".to_string() },
    ];
    let before = expanded.clone();
    let e = append_expansion(&mut expanded, &nested).unwrap_err();
    assert_eq!(
        e,
        StateMachineError::UnexpandedMultiStackOperation { behavior_key: "inner".to_string() }
    );
    assert_eq!(expanded, before);
}
