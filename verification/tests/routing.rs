//! Route table behaviour: registration, conflicts, path and name lookup.

use umrouter_core::errors::RouterError;
use umrouter_core::route::{
    HookSpec, ParamSchemaSpec, RouteKind, RouteMeta, RouteStore, TransitionSpec,
};
use umrouter_core::types::{PresentationMode, RouteId, RuntimeKind, StackId};

fn meta(path: &str, name: &str, runtime: RuntimeKind, stack: &str) -> RouteMeta {
    RouteMeta {
        id: RouteId(0),
        path: path.to_string(),
        name: name.to_string(),
        runtime,
        preferred_stack: StackId(stack.to_string()),
        route_kind: RouteKind::StackRoute,
        param_schema: ParamSchemaSpec { schema_id: None, has_sub_schemas: false },
        hook_spec: HookSpec { enabled_lifecycles: vec![], custom_hooks: vec![] },
        transition_spec: TransitionSpec {
            presentation: PresentationMode::Push,
            animation: None,
            gesture_back_enabled: true,
        },
        tags: vec![],
    }
}

fn sample_store() -> RouteStore {
    let mut store = RouteStore::new();
    store
        .register(meta("/home", "home.index", RuntimeKind::Native, "home"))
        .unwrap();
    store
        .register(meta(
            "/orders/:orderId/detail",
            "orders.detail",
            RuntimeKind::ReactNative,
            "trade",
        ))
        .unwrap();
    store
        .register(meta("/auth/profile", "auth.profile", RuntimeKind::Flutter, "auth"))
        .unwrap();
    store
        .register(meta("/orders/special/detail", "orders.special", RuntimeKind::Native, "trade"))
        .unwrap();
    store
        .register(meta("/files/**", "files.any", RuntimeKind::Native, "home"))
        .unwrap();
    store
}

#[test]
fn literal_path_resolves_to_its_route() {
    let store = sample_store();
    let hit = store.resolve_by_path("/auth/profile").unwrap();
    assert_eq!(hit.id, RouteId(2));
    assert_eq!(hit.meta.name, "auth.profile");
    assert!(hit.path_params.is_empty());
}

#[test]
fn path_params_are_extracted() {
    let store = sample_store();
    let hit = store.resolve_by_path("/orders/123/detail").unwrap();
    assert_eq!(hit.id, RouteId(1));
    assert_eq!(hit.path_params.len(), 1);
    assert_eq!(hit.path_params[0].0, "orderId");
    assert_eq!(hit.path_params[0].1, "123");
}

#[test]
fn static_segments_beat_parameters() {
    let store = sample_store();
    // both "/orders/:orderId/detail" and "/orders/special/detail" match,
    // the fully static pattern wins even though it was registered later
    let hit = store.resolve_by_path("/orders/special/detail").unwrap();
    assert_eq!(hit.id, RouteId(3));
    assert!(hit.path_params.is_empty());
}

#[test]
fn catch_all_matches_any_remainder() {
    let store = sample_store();
    let deep = store.resolve_by_path("/files/a/b/c").unwrap();
    assert_eq!(deep.id, RouteId(4));
    let shallow = store.resolve_by_path("/files").unwrap();
    assert_eq!(shallow.id, RouteId(4));
}

#[test]
fn unmatched_path_resolves_to_none() {
    let store = sample_store();
    assert!(store.resolve_by_path("/nowhere").is_none());
    assert!(store.resolve_by_path("/orders/1/edit").is_none());
}

#[test]
fn trailing_and_repeated_slashes_are_ignored() {
    let store = sample_store();
    assert_eq!(store.resolve_by_path("/home/").unwrap().id, RouteId(0));
    assert_eq!(store.resolve_by_path("//home").unwrap().id, RouteId(0));
}

#[test]
fn duplicate_name_is_a_conflict() {
    let mut store = sample_store();
    let r = store.register(meta("/other", "home.index", RuntimeKind::Native, "home"));
    assert_eq!(r, Err(RouterError::RouteConflict));
    assert_eq!(store.len(), 5);
}

#[test]
fn duplicate_pattern_is_a_conflict() {
    let mut store = sample_store();
    let r = store.register(meta("/home", "home.other", RuntimeKind::Native, "home"));
    assert_eq!(r, Err(RouterError::RouteConflict));
    // same segments spelt differently still collide
    let r2 = store.register(meta("/home/", "home.slash", RuntimeKind::Native, "home"));
    assert_eq!(r2, Err(RouterError::RouteConflict));
}

#[test]
fn resolve_by_name_is_exact() {
    let store = sample_store();
    assert_eq!(store.resolve_by_name("orders.detail"), Some(RouteId(1)));
    assert_eq!(store.resolve_by_name("orders"), None);
    assert_eq!(store.resolve_by_name(""), None);
}

#[test]
fn get_returns_registered_meta() {
    let store = sample_store();
    let m = store.get(RouteId(2)).unwrap();
    assert_eq!(m.path, "/auth/profile");
    assert!(store.get(RouteId(99)).is_none());
}
