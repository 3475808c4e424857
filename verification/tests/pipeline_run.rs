//! Pipeline execution: phase walking, abort and redirect semantics, the
//! redirect hop bound, and the parameter / extension containers.

use umrouter_core::chain::ResolvedMiddlewareChain;
use umrouter_core::errors::RouterError;
use umrouter_core::middleware::{
    AccessMode, AlwaysMatcher, Extensions, ExecuteContext, FnExecutor, FnMatcher, FnObserver,
    MatchContext, Matcher, Executor, MiddlewarePhase, MiddlewareResult, Observer,
};
use umrouter_core::pipeline::{phase_access, pipeline_failure, PipelineRun, PipelineStatus};
use umrouter_core::route::{
    HookSpec, ParamSchemaSpec, RouteKind, RouteMeta, TransitionSpec,
};
use umrouter_core::types::{
    CanonicalParams, MiddlewareId, PresentationMode, RouteId, RuntimeKind, StackId,
};

fn ids(v: &[&str]) -> Vec<MiddlewareId> {
    v.iter().map(|s| MiddlewareId(s.to_string())).collect()
}

fn chain(pre: &[&str], core: &[&str], post: &[&str]) -> ResolvedMiddlewareChain {
    ResolvedMiddlewareChain {
        pre_rw_chain: ids(pre),
        core_chain: ids(core),
        post_ro_chain: ids(post),
    }
}

#[test]
fn completed_run_walks_all_phases_in_order() {
    let mut run = PipelineRun::start(chain(&["a", "b"], &["core"], &["log"]), 8);
    let mut seen: Vec<(String, MiddlewarePhase)> = vec![];
    while let Some((id, phase)) = run.current() {
        seen.push((id.0.clone(), phase));
        run.apply_result(MiddlewareResult::Continue);
    }
    assert_eq!(*run.status(), PipelineStatus::Completed);
    assert_eq!(
        seen,
        vec![
            ("a".to_string(), MiddlewarePhase::PreRW),
            ("b".to_string(), MiddlewarePhase::PreRW),
            ("core".to_string(), MiddlewarePhase::Core),
            ("log".to_string(), MiddlewarePhase::PostRO),
        ]
    );
}

#[test]
fn empty_chain_completes_immediately() {
    let run = PipelineRun::start(chain(&[], &[], &[]), 8);
    assert_eq!(*run.status(), PipelineStatus::Completed);
    assert!(run.current().is_none());
}

#[test]
fn abort_stops_later_steps_and_phases() {
    // five pre-phase middlewares; the third aborts
    let mut run = PipelineRun::start(chain(&["m1", "m2", "m3", "m4", "m5"], &["core"], &["log"]), 8);
    run.apply_results(&vec![
        MiddlewareResult::Continue,
        MiddlewareResult::Continue,
        MiddlewareResult::Abort { reason: "denied".to_string() },
        MiddlewareResult::Continue,
        MiddlewareResult::Continue,
    ]);
    assert_eq!(*run.status(), PipelineStatus::Aborted { reason: "denied".to_string() });
    // only m1 and m2 were passed; m3 aborted at position 2, so m4, m5,
    // the core phase and the post phase never run
    assert_eq!(run.position(), 2);
    assert!(run.current().is_none());
}

#[test]
fn redirect_interrupts_and_resume_restarts() {
    let mut run = PipelineRun::start(chain(&["guard"], &["core"], &[]), 8);
    run.apply_result(MiddlewareResult::Redirect { target: "/login".to_string() });
    assert_eq!(
        *run.status(),
        PipelineStatus::NeedsRedirect { target: "/login".to_string() }
    );
    assert_eq!(run.redirect_target().unwrap(), "/login");
    run.resume_with(chain(&["other"], &["core"], &[])).unwrap();
    assert_eq!(*run.status(), PipelineStatus::Running);
    assert_eq!(run.position(), 0);
    assert_eq!(run.hops(), 1);
}

#[test]
fn redirect_loop_is_detected_at_the_hop_bound() {
    let mut run = PipelineRun::start(chain(&["guard"], &[], &[]), 2);
    for expected_hops in 1..=2 {
        run.apply_result(MiddlewareResult::Redirect { target: "/again".to_string() });
        run.resume_with(chain(&["guard"], &[], &[])).unwrap();
        assert_eq!(run.hops(), expected_hops);
    }
    run.apply_result(MiddlewareResult::Redirect { target: "/again".to_string() });
    let r = run.resume_with(chain(&["guard"], &[], &[]));
    assert_eq!(r.unwrap_err(), RouterError::RedirectLoopDetected);
    assert_eq!(*run.status(), PipelineStatus::RedirectLoopDetected);
}

#[test]
fn phase_access_grants_write_before_core_only() {
    assert_eq!(phase_access(MiddlewarePhase::PreRW), AccessMode::ReadWrite);
    assert_eq!(phase_access(MiddlewarePhase::Core), AccessMode::ReadWrite);
    assert_eq!(phase_access(MiddlewarePhase::PostRO), AccessMode::ReadOnly);
}

#[test]
fn canonical_params_store_and_replace() {
    let mut params = CanonicalParams::new();
    assert!(params.is_empty());
    params.insert("user".to_string(), serde_json::Value::String("ada".to_string()));
    params.insert("count".to_string(), serde_json::Value::Number(3.into()));
    assert_eq!(params.len(), 2);
    assert!(params.contains_key("user"));
    assert_eq!(params.get("user"), Some(&serde_json::Value::String("ada".to_string())));
    // replacing keeps the key unique
    params.insert("user".to_string(), serde_json::Value::String("bob".to_string()));
    assert_eq!(params.len(), 2);
    assert_eq!(params.get("user"), Some(&serde_json::Value::String("bob".to_string())));
    assert_eq!(params.get("missing"), None);
    // a clone carries the same values
    let copy = params.clone();
    assert_eq!(copy.get("count"), Some(&serde_json::Value::Number(3.into())));
    assert_eq!(copy, params);
}

#[test]
fn extensions_pass_values_between_middlewares() {
    let mut ext = Extensions::new();
    ext.insert("auth.result".to_string(), "ok".to_string());
    assert_eq!(ext.get("auth.result"), Some("ok"));
    ext.insert("auth.result".to_string(), "expired".to_string());
    assert_eq!(ext.get("auth.result"), Some("expired"));
    assert_eq!(ext.get("other"), None);
}

fn sample_meta() -> RouteMeta {
    RouteMeta {
        id: RouteId(0),
        path: "/home".to_string(),
        name: "home.index".to_string(),
        runtime: RuntimeKind::Native,
        preferred_stack: StackId("home".to_string()),
        route_kind: RouteKind::StackRoute,
        param_schema: ParamSchemaSpec { schema_id: None, has_sub_schemas: false },
        hook_spec: HookSpec { enabled_lifecycles: vec![], custom_hooks: vec![] },
        transition_spec: TransitionSpec {
            presentation: PresentationMode::Push,
            animation: None,
            gesture_back_enabled: true,
        },
        tags: vec!["public".to_string()],
    }
}

#[test]
fn matchers_answer_over_the_match_context() {
    let meta = sample_meta();
    let stack = StackId("home".to_string());
    let params = CanonicalParams::new();
    let ctx = MatchContext {
        route: &meta,
        target_stack: &stack,
        runtime: RuntimeKind::Native,
        params: &params,
    };
    assert!(AlwaysMatcher.matches(&ctx));
    assert_eq!(AlwaysMatcher.name(), "always");
    let tagged = FnMatcher::new(
        "tagged_public".to_string(),
        |c: &MatchContext| c.route.tags.iter().any(|t| t == "public"),
    );
    assert!(tagged.matches(&ctx));
    assert!(tagged.evaluate(&ctx));
    assert_eq!(tagged.name(), "tagged_public");
    let native_only = FnMatcher::new(
        "native_only".to_string(),
        |c: &MatchContext| c.runtime == RuntimeKind::Native,
    );
    assert!(native_only.matches(&ctx));
    let ctx_rn = MatchContext { runtime: RuntimeKind::ReactNative, ..ctx };
    assert!(!native_only.matches(&ctx_rn));
}

#[test]
fn executors_work_on_the_execute_context() {
    let meta = sample_meta();
    let stack = StackId("home".to_string());
    let mut ctx = ExecuteContext {
        route: &meta,
        target_stack: &stack,
        runtime: RuntimeKind::Native,
        params: CanonicalParams::new(),
        extensions: Extensions::new(),
    };
    let stamp = FnExecutor::new(
        "stamp".to_string(),
        |mut c: ExecuteContext| {
            c.extensions.insert("seen".to_string(), "yes".to_string());
            c.params.insert("mode".to_string(), serde_json::Value::Bool(true));
            (c, MiddlewareResult::Continue)
        },
    );
    assert_eq!(stamp.name(), "stamp");
    let result = stamp.invoke(&mut ctx);
    assert_eq!(result, MiddlewareResult::Continue);
    let again = stamp.execute(&mut ctx);
    assert_eq!(again, MiddlewareResult::Continue);
    assert_eq!(ctx.extensions.get("seen"), Some("yes"));
    assert_eq!(ctx.params.get("mode"), Some(&serde_json::Value::Bool(true)));
}

#[test]
fn failed_runs_surface_per_request_errors() {
    assert_eq!(
        pipeline_failure(&PipelineStatus::Aborted { reason: "denied".to_string() }),
        Some(RouterError::PipelineAborted { reason: "denied".to_string() })
    );
    assert_eq!(
        pipeline_failure(&PipelineStatus::RedirectLoopDetected),
        Some(RouterError::RedirectLoopDetected)
    );
    assert_eq!(pipeline_failure(&PipelineStatus::Completed), None);
    assert_eq!(pipeline_failure(&PipelineStatus::Running), None);
    assert_eq!(
        pipeline_failure(&PipelineStatus::NeedsRedirect { target: "/x".to_string() }),
        None
    );
}

#[test]
fn path_params_merge_as_json_text_values() {
    let mut params = CanonicalParams::new();
    params.insert("mode".to_string(), serde_json::Value::Bool(true));
    params.insert("orderId".to_string(), serde_json::Value::Null);
    params.merge_path_params(&vec![
        ("orderId".to_string(), "123".to_string()),
        ("section".to_string(), "reviews".to_string()),
    ]);
    assert_eq!(params.len(), 3);
    // the binding overrides the earlier value, as a JSON string
    assert_eq!(
        params.get("orderId"),
        Some(&serde_json::Value::String("123".to_string()))
    );
    assert_eq!(
        params.get("section"),
        Some(&serde_json::Value::String("reviews".to_string()))
    );
    assert_eq!(params.get("mode"), Some(&serde_json::Value::Bool(true)));
}

#[test]
fn observers_see_an_immutable_view() {
    let meta = sample_meta();
    let stack = StackId("home".to_string());
    let mut ctx = ExecuteContext {
        route: &meta,
        target_stack: &stack,
        runtime: RuntimeKind::Native,
        params: CanonicalParams::new(),
        extensions: Extensions::new(),
    };
    ctx.params.insert("mode".to_string(), serde_json::Value::Bool(true));
    ctx.extensions.insert("auth".to_string(), "ok".to_string());
    let audit = FnObserver::new(
        "audit".to_string(),
        |view: &umrouter_core::middleware::ReadOnlyContext| {
            // the observer can read everything but holds no mutable access
            if view.params.contains_key("mode") && view.extensions.get("auth") == Some("ok") {
                MiddlewareResult::Continue
            } else {
                MiddlewareResult::Abort { reason: "missing auth".to_string() }
            }
        },
    );
    assert_eq!(audit.name(), "audit");
    let view = ctx.read_only();
    assert_eq!(audit.observe(&view), MiddlewareResult::Continue);
    assert_eq!(audit.inspect(&view), MiddlewareResult::Continue);
    let empty_ctx = ExecuteContext {
        route: &meta,
        target_stack: &stack,
        runtime: RuntimeKind::Native,
        params: CanonicalParams::new(),
        extensions: Extensions::new(),
    };
    assert_eq!(
        audit.observe(&empty_ctx.read_only()),
        MiddlewareResult::Abort { reason: "missing auth".to_string() }
    );
}
