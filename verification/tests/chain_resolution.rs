//! Scope matching and chain resolution: onion ordering, filtering,
//! priority sorting, deduplication, determinism.

use umrouter_core::chain::{build_chain, collect_candidates, core_candidates};
use umrouter_core::errors::RouterError;
use umrouter_core::middleware::{
    Middleware, MiddlewareAccessMode, MiddlewareImplKind, MiddlewarePhase,
};
use umrouter_core::registry::MiddlewareRegistry;
use umrouter_core::scope::{MiddlewareScope, MiddlewareScopeStore};
use umrouter_core::types::{MiddlewareId, MiddlewareScopeId};

fn mw(id: &str, phase: MiddlewarePhase, priority: i32) -> Middleware {
    Middleware {
        id: MiddlewareId(id.to_string()),
        impl_kind: if phase == MiddlewarePhase::Core {
            MiddlewareImplKind::BuiltIn
        } else {
            MiddlewareImplKind::BusinessRust
        },
        phase,
        access_mode: match phase {
            MiddlewarePhase::PostRO => MiddlewareAccessMode::ReadOnly,
            _ => MiddlewareAccessMode::ReadWrite,
        },
        priority,
        tags: vec![],
    }
}

fn ids(v: &[&str]) -> Vec<MiddlewareId> {
    v.iter().map(|s| MiddlewareId(s.to_string())).collect()
}

fn scope(id: &str, pre: &[&str], post: &[&str]) -> MiddlewareScope {
    MiddlewareScope { id: MiddlewareScopeId(id.to_string()), pre_rw: ids(pre), post_ro: ids(post) }
}

#[test]
fn scope_matching_orders_general_before_specific() {
    let mut store = MiddlewareScopeStore::new();
    store.register_scope(scope("scope_auth_required", &[], &[]), vec!["/auth/**".to_string()]);
    store.register_scope(scope("scope_guest_only", &[], &[]), vec!["/auth/login".to_string()]);
    let matched = store.match_path("/auth/login");
    let names: Vec<&str> = matched.iter().map(|s| s.0.as_str()).collect();
    assert_eq!(names, vec!["scope_auth_required", "scope_guest_only"]);
}

#[test]
fn scope_matching_can_be_empty() {
    let mut store = MiddlewareScopeStore::new();
    store.register_scope(scope("sc", &[], &[]), vec!["/auth/**".to_string()]);
    assert!(store.match_path("/public/page").is_empty());
}

#[test]
fn onion_candidate_order() {
    let mut store = MiddlewareScopeStore::new();
    store.register_scope(scope("general", &["A", "B"], &["X"]), vec!["/shop/**".to_string()]);
    store.register_scope(scope("specific", &["C"], &["Y"]), vec!["/shop/cart".to_string()]);
    let (pre, post) = collect_candidates(&store, "/shop/cart");
    let pre_names: Vec<&str> = pre.iter().map(|m| m.0.as_str()).collect();
    let post_names: Vec<&str> = post.iter().map(|m| m.0.as_str()).collect();
    assert_eq!(pre_names, vec!["A", "B", "C"]);
    assert_eq!(post_names, vec!["Y", "X"]);
}

fn onion_registry() -> MiddlewareRegistry {
    let mut reg = MiddlewareRegistry::new();
    for id in ["A", "B", "C"] {
        reg.register(mw(id, MiddlewarePhase::PreRW, 10)).unwrap();
    }
    for id in ["X", "Y"] {
        reg.register(mw(id, MiddlewarePhase::PostRO, 10)).unwrap();
    }
    reg.register(mw("core_validate", MiddlewarePhase::Core, 0)).unwrap();
    reg
}

#[test]
fn chain_keeps_onion_order_on_equal_priorities() {
    let mut store = MiddlewareScopeStore::new();
    store.register_scope(scope("general", &["A", "B"], &["X"]), vec!["/shop/**".to_string()]);
    store.register_scope(scope("specific", &["C"], &["Y"]), vec!["/shop/cart".to_string()]);
    let reg = onion_registry();
    let (pre, post) = collect_candidates(&store, "/shop/cart");
    let core = core_candidates(&reg);
    let (chain, skipped) = build_chain(
        &reg,
        &pre,
        &vec![true; pre.len()],
        &core,
        &vec![true; core.len()],
        &post,
        &vec![true; post.len()],
    );
    let pre_names: Vec<&str> = chain.pre_rw_chain.iter().map(|m| m.0.as_str()).collect();
    let post_names: Vec<&str> = chain.post_ro_chain.iter().map(|m| m.0.as_str()).collect();
    let core_names: Vec<&str> = chain.core_chain.iter().map(|m| m.0.as_str()).collect();
    assert_eq!(pre_names, vec!["A", "B", "C"]);
    assert_eq!(post_names, vec!["Y", "X"]);
    assert_eq!(core_names, vec!["core_validate"]);
    assert!(skipped.is_empty());
}

#[test]
fn priorities_order_the_phase() {
    let mut reg = MiddlewareRegistry::new();
    reg.register(mw("late", MiddlewarePhase::PreRW, 50)).unwrap();
    reg.register(mw("early", MiddlewarePhase::PreRW, 1)).unwrap();
    reg.register(mw("middle", MiddlewarePhase::PreRW, 10)).unwrap();
    let pre = ids(&["late", "early", "middle"]);
    let (chain, _) = build_chain(
        &reg,
        &pre,
        &vec![true; 3],
        &vec![],
        &vec![],
        &vec![],
        &vec![],
    );
    let names: Vec<&str> = chain.pre_rw_chain.iter().map(|m| m.0.as_str()).collect();
    assert_eq!(names, vec!["early", "middle", "late"]);
}

#[test]
fn matcher_verdicts_filter_candidates() {
    let reg = onion_registry();
    let pre = ids(&["A", "B", "C"]);
    let (chain, skipped) = build_chain(
        &reg,
        &pre,
        &vec![true, false, true],
        &vec![],
        &vec![],
        &vec![],
        &vec![],
    );
    let names: Vec<&str> = chain.pre_rw_chain.iter().map(|m| m.0.as_str()).collect();
    assert_eq!(names, vec!["A", "C"]);
    assert!(skipped.is_empty());
}

#[test]
fn dangling_ids_are_skipped_not_fatal() {
    let reg = onion_registry();
    let pre = ids(&["A", "ghost", "C"]);
    let (chain, skipped) = build_chain(
        &reg,
        &pre,
        &vec![true, true, true],
        &vec![],
        &vec![],
        &vec![],
        &vec![],
    );
    let names: Vec<&str> = chain.pre_rw_chain.iter().map(|m| m.0.as_str()).collect();
    assert_eq!(names, vec!["A", "C"]);
    let skipped_names: Vec<&str> = skipped.iter().map(|m| m.0.as_str()).collect();
    assert_eq!(skipped_names, vec!["ghost"]);
}

#[test]
fn phase_disagreement_drops_the_candidate() {
    let reg = onion_registry();
    // X is declared PostRO; offering it as a pre-phase candidate drops it
    let pre = ids(&["A", "X"]);
    let (chain, skipped) = build_chain(
        &reg,
        &pre,
        &vec![true, true],
        &vec![],
        &vec![],
        &vec![],
        &vec![],
    );
    let names: Vec<&str> = chain.pre_rw_chain.iter().map(|m| m.0.as_str()).collect();
    assert_eq!(names, vec!["A"]);
    let skipped_names: Vec<&str> = skipped.iter().map(|m| m.0.as_str()).collect();
    assert_eq!(skipped_names, vec!["X"]);
}

#[test]
fn duplicate_candidates_keep_first_occurrence() {
    let reg = onion_registry();
    let pre = ids(&["A", "B", "A", "B", "A"]);
    let (chain, _) = build_chain(
        &reg,
        &pre,
        &vec![true; 5],
        &vec![],
        &vec![],
        &vec![],
        &vec![],
    );
    let names: Vec<&str> = chain.pre_rw_chain.iter().map(|m| m.0.as_str()).collect();
    assert_eq!(names, vec!["A", "B"]);
}

#[test]
fn chain_resolution_is_deterministic() {
    let mut store = MiddlewareScopeStore::new();
    store.register_scope(scope("general", &["A", "B"], &["X"]), vec!["/shop/**".to_string()]);
    store.register_scope(scope("specific", &["C"], &["Y"]), vec!["/shop/cart".to_string()]);
    let reg = onion_registry();
    let (pre1, post1) = collect_candidates(&store, "/shop/cart");
    let (pre2, post2) = collect_candidates(&store, "/shop/cart");
    assert_eq!(pre1, pre2);
    assert_eq!(post1, post2);
    let core = core_candidates(&reg);
    let (c1, _) = build_chain(
        &reg,
        &pre1,
        &vec![true; pre1.len()],
        &core,
        &vec![true; core.len()],
        &post1,
        &vec![true; post1.len()],
    );
    let (c2, _) = build_chain(
        &reg,
        &pre2,
        &vec![true; pre2.len()],
        &core,
        &vec![true; core.len()],
        &post2,
        &vec![true; post2.len()],
    );
    assert_eq!(c1, c2);
}

#[test]
fn non_builtin_core_declaration_is_rejected() {
    let mut reg = MiddlewareRegistry::new();
    let bad = Middleware {
        id: MiddlewareId("rogue".to_string()),
        impl_kind: MiddlewareImplKind::BusinessRust,
        phase: MiddlewarePhase::Core,
        access_mode: MiddlewareAccessMode::ReadWrite,
        priority: 0,
        tags: vec![],
    };
    assert_eq!(reg.register(bad), Err(RouterError::InvalidMiddlewareDeclaration));
    assert!(reg.is_empty());
}

#[test]
fn non_builtin_protected_mode_is_rejected() {
    let mut reg = MiddlewareRegistry::new();
    let bad = Middleware {
        id: MiddlewareId("rogue2".to_string()),
        impl_kind: MiddlewareImplKind::JsScript {
            script_id: "s".to_string(),
            entry_func: "f".to_string(),
        },
        phase: MiddlewarePhase::PreRW,
        access_mode: MiddlewareAccessMode::ProtectedReadWrite,
        priority: 0,
        tags: vec![],
    };
    assert_eq!(reg.register(bad), Err(RouterError::InvalidMiddlewareDeclaration));
}

#[test]
fn registry_lookup_and_phase_index() {
    let reg = onion_registry();
    assert_eq!(reg.len(), 6);
    assert!(!reg.is_empty());
    let a = reg.get(&MiddlewareId("A".to_string())).unwrap();
    assert_eq!(a.priority, 10);
    assert!(reg.get(&MiddlewareId("nope".to_string())).is_none());
    let core: Vec<&str> = reg
        .by_phase(MiddlewarePhase::Core)
        .iter()
        .map(|m| m.id.0.as_str())
        .collect();
    assert_eq!(core, vec!["core_validate"]);
    assert_eq!(reg.all().len(), 6);
}
