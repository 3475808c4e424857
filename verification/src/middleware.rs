//! Middleware model: phases, access modes, matcher and executor
//! capabilities, and the per-request extension data container.

use vstd::prelude::*;

use crate::assoc;
use crate::route::RouteMeta;
use crate::types::{CanonicalParams, MiddlewareId, RuntimeKind, StackId};

verus! {

/// When a middleware runs inside the pipeline.
#[derive(Debug, Clone, Copy, PartialEq, Eq, Hash, Structural)]
pub enum MiddlewarePhase {
    /// Before the core work; may read and mutate the request context.
    PreRW,
    /// The built-in core work (parameter validation, hook dispatch).
    Core,
    /// After the core work; observation only.
    PostRO,
}

/// The access a middleware is granted on the execution context.
#[derive(Debug, Clone, Copy, PartialEq, Eq, Structural)]
pub enum AccessMode {
    /// May only observe the context.
    ReadOnly,
    /// May mutate the context.
    ReadWrite,
}

/// The declared access level of a middleware.  The protected level is
/// reserved for built-in, core-supplied middlewares.
#[derive(Debug, Clone, Copy, PartialEq, Eq, Structural)]
pub enum MiddlewareAccessMode {
    ReadOnly,
    ReadWrite,
    ProtectedReadWrite,
}

/// How a middleware is implemented; the core stores this opaquely and the
/// runtime adapters interpret it.
#[derive(Debug)]
pub enum MiddlewareImplKind {
    /// Core-supplied middleware (parameter validation, hook dispatch).
    BuiltIn,
    /// Business middleware linked into the host.
    BusinessRust,
    /// Middleware exported by a compiled Wasm module.
    WasmModule { module_id: String, entry_func: String },
    /// Middleware exported by a dynamically delivered script.
    JsScript { script_id: String, entry_func: String },
}

/// Metadata describing one middleware implementation.
#[derive(Debug)]
pub struct MiddlewareDescriptor {
    pub id: MiddlewareId,
    pub impl_kind: MiddlewareImplKind,
    pub access_mode: MiddlewareAccessMode,
    pub tags: Vec<String>,
}

/// What one middleware execution decides.
#[derive(Debug, PartialEq, Eq)]
pub enum MiddlewareResult {
    /// Proceed with the next middleware.
    Continue,
    /// Terminate the whole pipeline; surfaced as a navigation failure.
    Abort { reason: String },
    /// Restart resolution against another target path.
    Redirect { target: String },
}

/// What a matcher may look at when deciding whether a middleware applies.
#[derive(Debug, Clone, Copy)]
pub struct MatchContext<'a> {
    pub route: &'a RouteMeta,
    pub target_stack: &'a StackId,
    pub runtime: RuntimeKind,
    pub params: &'a CanonicalParams,
}

/// Per-request extension data: scoped key/value pairs passed between the
/// middlewares of one request.
#[derive(Debug)]
pub struct Extensions {
    data: Vec<(String, String)>,
}

impl View for Extensions {
    type V = Seq<(Seq<char>, String)>;

    closed spec fn view(&self) -> Seq<(Seq<char>, String)> {
        assoc::kv_seq(self.data@)
    }
}

impl Extensions {
    /// The extension data as a mathematical map.
    pub open spec fn as_map(&self) -> Map<Seq<char>, String> {
        assoc::kv_map(self@)
    }

    pub open spec fn wf(&self) -> bool {
        assoc::kv_unique(self@)
    }

    pub fn new() -> (r: Extensions)
        ensures
            r.wf(),
            r@ == Seq::<(Seq<char>, String)>::empty(),
    {
        let e = Extensions { data: Vec::new() };
        proof {
            assert(e@ =~= Seq::<(Seq<char>, String)>::empty());
        }
        e
    }

    /// Stores `value` under `key`, replacing any present value in place.
    pub fn insert(&mut self, key: String, value: String)
        requires
            old(self).wf(),
        ensures
            final(self).wf(),
            final(self)@ == assoc::kv_put(old(self)@, key@, value),
            final(self).as_map() == old(self).as_map().insert(key@, value),
    {
        proof {
            assoc::lemma_kv_put_map(self@, key@, value);
        }
        assoc::kv_insert(&mut self.data, key, value);
    }

    /// Looks the key up.
    pub fn get<'a>(&'a self, key: &str) -> (r: Option<&'a str>)
        ensures
            match r {
                Some(v) => assoc::kv_find(self@, key@) is Some && assoc::kv_find(
                    self@,
                    key@,
                )->Some_0@ == v@,
                None => assoc::kv_find(self@, key@) is None,
            },
    {
        match assoc::kv_get(&self.data, key) {
            Some(v) => Some(v.as_str()),
            None => None,
        }
    }
}

/// What an executor may read and write while it runs.  The pipeline hands
/// the same context through the whole chain: parameter mutations made in
/// the pre-read-write phase are visible to every later middleware.
#[derive(Debug)]
pub struct ExecuteContext<'a> {
    pub route: &'a RouteMeta,
    pub target_stack: &'a StackId,
    pub runtime: RuntimeKind,
    pub params: CanonicalParams,
    pub extensions: Extensions,
}

/// The matcher capability: decides whether a middleware applies to one
/// request.  Implementations are polymorphic (built-in, business, module
/// or script backed); the core relies only on the boolean answer.
pub trait Matcher {
    /// When the matcher may be consulted; `true` for total matchers.
    spec fn ready(&self, ctx: &MatchContext) -> bool;

    fn matches(&self, ctx: &MatchContext) -> bool
        requires
            self.ready(ctx),
    ;

    fn name(&self) -> &str;
}

/// The executor capability: the effectful logic of one middleware.
/// An executor receives the execution context, works on it, and hands it
/// back together with its decision.
pub trait Executor {
    /// When the executor may be invoked; `true` for total executors.
    spec fn ready(&self, ctx: &ExecuteContext) -> bool;

    fn execute(&self, ctx: &mut ExecuteContext) -> MiddlewareResult
        requires
            self.ready(&*old(ctx)),
    ;

    fn name(&self) -> &str;
}

/// A genuinely immutable view of the execution context, for the
/// post-read-only phase: it borrows the parameters and the extension data,
/// so an observer cannot mutate either.
#[derive(Debug, Clone, Copy)]
pub struct ReadOnlyContext<'a> {
    pub route: &'a RouteMeta,
    pub target_stack: &'a StackId,
    pub runtime: RuntimeKind,
    pub params: &'a CanonicalParams,
    pub extensions: &'a Extensions,
}

impl<'a> ExecuteContext<'a> {
    /// The immutable view of this context, to hand to post-read-only
    /// middlewares instead of the mutable context itself.
    pub fn read_only<'b>(&'b self) -> (r: ReadOnlyContext<'b>)
        ensures
            r.route == self.route,
            r.target_stack == self.target_stack,
            r.runtime == self.runtime,
            r.params@ == self.params@,
            r.extensions@ == self.extensions@,
    {
        ReadOnlyContext {
            route: self.route,
            target_stack: self.target_stack,
            runtime: self.runtime,
            params: &self.params,
            extensions: &self.extensions,
        }
    }
}

/// The observation capability of the post-read-only phase: it sees the
/// immutable view only, so it can decide but not mutate.
pub trait Observer {
    /// When the observer may be consulted; `true` for total observers.
    spec fn ready(&self, ctx: &ReadOnlyContext) -> bool;

    fn observe(&self, ctx: &ReadOnlyContext) -> MiddlewareResult
        requires
            self.ready(ctx),
    ;

    fn name(&self) -> &str;
}

/// Adapter that turns a closure into an `Observer`.
pub struct FnObserver<F> {
    name: String,
    func: F,
}

impl<F: for <'a, 'b> Fn(&'a ReadOnlyContext<'b>) -> MiddlewareResult> FnObserver<F> {
    /// The descriptive name given at construction.
    pub closed spec fn spec_name(&self) -> Seq<char> {
        self.name@
    }

    /// The wrapped closure.
    pub closed spec fn spec_func(&self) -> F {
        self.func
    }

    pub fn new(name: String, func: F) -> (r: FnObserver<F>)
        ensures
            r.spec_name() == name@,
            r.spec_func() == func,
    {
        FnObserver { name, func }
    }

    /// Consults the wrapped closure on the immutable view.  Verified
    /// callers use this entry point; the `Observer` impl serves
    /// trait-object dispatch in the adapters.
    pub fn inspect(&self, ctx: &ReadOnlyContext) -> (r: MiddlewareResult)
        requires
            call_requires(self.spec_func(), (ctx,)),
        ensures
            call_ensures(self.spec_func(), (ctx,), r),
    {
        (self.func)(ctx)
    }
}

impl<F: for <'a, 'b> Fn(&'a ReadOnlyContext<'b>) -> MiddlewareResult> Observer for FnObserver<F> {
    open spec fn ready(&self, ctx: &ReadOnlyContext) -> bool {
        call_requires(self.spec_func(), (ctx,))
    }

    fn observe(&self, ctx: &ReadOnlyContext) -> (r: MiddlewareResult)
        ensures
            call_ensures(self.spec_func(), (ctx,), r),
    {
        (self.func)(ctx)
    }

    fn name(&self) -> (r: &str)
        ensures
            r@ == self.spec_name(),
    {
        self.name.as_str()
    }
}

/// A matcher that applies to every request.
#[derive(Debug)]
pub struct AlwaysMatcher;

impl Matcher for AlwaysMatcher {
    open spec fn ready(&self, ctx: &MatchContext) -> bool {
        true
    }

    fn matches(&self, ctx: &MatchContext) -> (r: bool)
        ensures
            r,
    {
        true
    }

    fn name(&self) -> (r: &str)
        ensures
            r@ == "always"@,
    {
        "always"
    }
}

/// Adapter that turns a closure into a `Matcher`.
pub struct FnMatcher<F> {
    name: String,
    func: F,
}

impl<F: for <'a, 'b> Fn(&'a MatchContext<'b>) -> bool> FnMatcher<F> {
    /// The descriptive name given at construction.
    pub closed spec fn spec_name(&self) -> Seq<char> {
        self.name@
    }

    /// The wrapped closure.
    pub closed spec fn spec_func(&self) -> F {
        self.func
    }

    pub fn new(name: String, func: F) -> (r: FnMatcher<F>)
        ensures
            r.spec_name() == name@,
            r.spec_func() == func,
    {
        FnMatcher { name, func }
    }

    /// Consults the wrapped closure.  Verified callers use this entry
    /// point: its contract speaks of the closure directly, where the
    /// `Matcher` impl (meant for trait-object dispatch in the adapters)
    /// gates the call behind the trait-level `ready` predicate.
    pub fn evaluate(&self, ctx: &MatchContext) -> (r: bool)
        requires
            call_requires(self.spec_func(), (ctx,)),
        ensures
            call_ensures(self.spec_func(), (ctx,), r),
    {
        (self.func)(ctx)
    }
}

impl<F: for <'a, 'b> Fn(&'a MatchContext<'b>) -> bool> Matcher for FnMatcher<F> {
    open spec fn ready(&self, ctx: &MatchContext) -> bool {
        call_requires(self.spec_func(), (ctx,))
    }

    fn matches(&self, ctx: &MatchContext) -> (r: bool)
        ensures
            call_ensures(self.spec_func(), (ctx,), r),
    {
        (self.func)(ctx)
    }

    fn name(&self) -> (r: &str)
        ensures
            r@ == self.spec_name(),
    {
        self.name.as_str()
    }
}

/// Adapter that turns a closure into an `Executor`.
pub struct FnExecutor<F> {
    name: String,
    func: F,
}

impl<F: for <'b> Fn(ExecuteContext<'b>) -> (ExecuteContext<'b>, MiddlewareResult)> FnExecutor<F> {
    /// The descriptive name given at construction.
    pub closed spec fn spec_name(&self) -> Seq<char> {
        self.name@
    }

    /// The wrapped closure.
    pub closed spec fn spec_func(&self) -> F {
        self.func
    }

    pub fn new(name: String, func: F) -> (r: FnExecutor<F>)
        ensures
            r.spec_name() == name@,
            r.spec_func() == func,
    {
        FnExecutor { name, func }
    }

    /// Runs the wrapped closure on the context.  Verified callers use
    /// this entry point: its contract speaks of the closure directly,
    /// where the `Executor` impl (meant for trait-object dispatch in the
    /// adapters) gates the call behind the trait-level `ready` predicate.
    pub fn invoke(&self, ctx: &mut ExecuteContext) -> (r: MiddlewareResult)
        requires
            call_requires(self.spec_func(), (*old(ctx),)),
        ensures
            call_ensures(self.spec_func(), (*old(ctx),), (*final(ctx), r)),
    {
        let mut taken = ExecuteContext {
            route: ctx.route,
            target_stack: ctx.target_stack,
            runtime: ctx.runtime,
            params: CanonicalParams::new(),
            extensions: Extensions::new(),
        };
        core::mem::swap(ctx, &mut taken);
        let (ctx2, result) = (self.func)(taken);
        *ctx = ctx2;
        result
    }
}

impl<F: for <'b> Fn(ExecuteContext<'b>) -> (ExecuteContext<'b>, MiddlewareResult)> Executor for FnExecutor<F> {
    open spec fn ready(&self, ctx: &ExecuteContext) -> bool {
        call_requires(self.spec_func(), (*ctx,))
    }

    fn execute(&self, ctx: &mut ExecuteContext) -> (r: MiddlewareResult)
        ensures
            call_ensures(self.spec_func(), (*old(ctx),), (*final(ctx), r)),
    {
        let mut taken = ExecuteContext {
            route: ctx.route,
            target_stack: ctx.target_stack,
            runtime: ctx.runtime,
            params: CanonicalParams::new(),
            extensions: Extensions::new(),
        };
        core::mem::swap(ctx, &mut taken);
        let (ctx2, result) = (self.func)(taken);
        *ctx = ctx2;
        result
    }

    fn name(&self) -> (r: &str)
        ensures
            r@ == self.spec_name(),
    {
        self.name.as_str()
    }
}

/// One registered middleware: identity, implementation shape, phase,
/// access level, priority (lower runs earlier) and tags.  Matching and
/// execution logic stay with the runtime adapters; the registry stores
/// and indexes only this record.
#[derive(Debug)]
pub struct Middleware {
    pub id: MiddlewareId,
    pub impl_kind: MiddlewareImplKind,
    pub phase: MiddlewarePhase,
    pub access_mode: MiddlewareAccessMode,
    pub priority: i32,
    pub tags: Vec<String>,
}

impl Clone for MiddlewareImplKind {
    fn clone(&self) -> (r: Self)
        ensures
            r == *self,
    {
        match self {
            MiddlewareImplKind::BuiltIn => MiddlewareImplKind::BuiltIn,
            MiddlewareImplKind::BusinessRust => MiddlewareImplKind::BusinessRust,
            MiddlewareImplKind::WasmModule { module_id, entry_func } => MiddlewareImplKind::WasmModule {
                module_id: module_id.clone(),
                entry_func: entry_func.clone(),
            },
            MiddlewareImplKind::JsScript { script_id, entry_func } => MiddlewareImplKind::JsScript {
                script_id: script_id.clone(),
                entry_func: entry_func.clone(),
            },
        }
    }
}

impl Clone for Middleware {
    fn clone(&self) -> (r: Self)
        ensures
            r.id == self.id,
            r.impl_kind == self.impl_kind,
            r.phase == self.phase,
            r.access_mode == self.access_mode,
            r.priority == self.priority,
            crate::pattern::seq_views(r.tags@) == crate::pattern::seq_views(self.tags@),
    {
        Middleware {
            id: self.id.clone(),
            impl_kind: self.impl_kind.clone(),
            phase: self.phase,
            access_mode: self.access_mode,
            priority: self.priority,
            tags: crate::pattern::clone_strings(&self.tags),
        }
    }
}

} // verus!
