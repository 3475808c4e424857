//! The middleware registry: owns every registered middleware record and
//! indexes it by id and by phase.

use vstd::prelude::*;

use crate::assoc;
use crate::errors::RouterError;
use crate::middleware::{Middleware, MiddlewareAccessMode, MiddlewareImplKind, MiddlewarePhase};
use crate::types::MiddlewareId;

verus! {

/// Whether a middleware declaration is acceptable: only built-in,
/// core-supplied middlewares may claim the core phase or the protected
/// read-write access mode.
pub open spec fn valid_declaration(m: Middleware) -> bool {
    ||| m.impl_kind is BuiltIn
    ||| (!(m.phase is Core) && !(m.access_mode is ProtectedReadWrite))
}

/// The middleware values of a registry view, in registration order.
pub open spec fn reg_values(s: Seq<(Seq<char>, Middleware)>) -> Seq<Middleware> {
    s.map_values(|p: (Seq<char>, Middleware)| p.1)
}

/// The middleware registry.
#[derive(Debug)]
pub struct MiddlewareRegistry {
    middlewares: Vec<(String, Middleware)>,
}

impl View for MiddlewareRegistry {
    type V = Seq<(Seq<char>, Middleware)>;

    /// The registered middlewares keyed by id, in registration order.
    closed spec fn view(&self) -> Seq<(Seq<char>, Middleware)> {
        assoc::kv_seq(self.middlewares@)
    }
}

impl MiddlewareRegistry {
    /// Ids are unique and each entry is keyed by the id of the middleware
    /// it holds; every stored declaration is valid.
    pub open spec fn wf(&self) -> bool {
        &&& assoc::kv_unique(self@)
        &&& forall|i: int| 0 <= i < self@.len() ==> (#[trigger] self@[i]).0 == self@[i].1.id.0@
        &&& forall|i: int| 0 <= i < self@.len() ==> valid_declaration((#[trigger] self@[i]).1)
    }

    /// Creates an empty registry.
    pub fn new() -> (r: MiddlewareRegistry)
        ensures
            r.wf(),
            r@ == Seq::<(Seq<char>, Middleware)>::empty(),
    {
        let r = MiddlewareRegistry { middlewares: Vec::new() };
        proof {
            assert(r@ =~= Seq::<(Seq<char>, Middleware)>::empty());
        }
        r
    }

    /// Registers a middleware; re-registering an id replaces its record in
    /// place.  A non-built-in middleware claiming the core phase or the
    /// protected read-write mode is rejected, and the registry unchanged.
    pub fn register(&mut self, middleware: Middleware) -> (r: Result<(), RouterError>)
        requires
            old(self).wf(),
        ensures
            final(self).wf(),
            match r {
                Ok(()) => valid_declaration(middleware) && final(self)@ == assoc::kv_put(
                    old(self)@,
                    middleware.id.0@,
                    middleware,
                ),
                Err(e) => !valid_declaration(middleware) && e
                    == RouterError::InvalidMiddlewareDeclaration && final(self)@ == old(self)@,
            },
    {
        let builtin = matches!(middleware.impl_kind, MiddlewareImplKind::BuiltIn);
        if !builtin && (middleware.phase == MiddlewarePhase::Core || middleware.access_mode
            == MiddlewareAccessMode::ProtectedReadWrite) {
            return Err(RouterError::InvalidMiddlewareDeclaration);
        }
        let ghost before = self@;
        let key = middleware.id.0.clone();
        proof {
            assoc::lemma_kv_put_map(before, key@, middleware);
            assoc::lemma_kv_first_idx(before, key@);
        }
        assoc::kv_insert(&mut self.middlewares, key, middleware);
        proof {
            let s2 = assoc::kv_put(before, key@, middleware);
            assert forall|i: int| 0 <= i < s2.len() implies (#[trigger] s2[i]).0 == s2[i].1.id.0@
                && valid_declaration(s2[i].1) by {
                if assoc::kv_first_idx(before, key@) == -1 {
                    if i < before.len() {
                        assert(s2[i] == before[i]);
                    }
                } else {
                    if i != assoc::kv_first_idx(before, key@) {
                        assert(s2[i] == before[i]);
                    }
                }
            }
        }
        Ok(())
    }

    /// Looks a middleware up by id.
    pub fn get<'a>(&'a self, id: &MiddlewareId) -> (r: Option<&'a Middleware>)
        ensures
            match r {
                Some(m) => assoc::kv_find(self@, id.0@) == Some(*m),
                None => assoc::kv_find(self@, id.0@) is None,
            },
    {
        assoc::kv_get(&self.middlewares, id.0.as_str())
    }

    /// All registered middlewares, in registration order.
    pub fn all<'a>(&'a self) -> (r: Vec<&'a Middleware>)
        ensures
            r@.len() == self@.len(),
            forall|k: int| 0 <= k < r@.len() ==> *(#[trigger] r@[k]) == self@[k].1,
    {
        let mut out: Vec<&Middleware> = Vec::new();
        let mut i: usize = 0;
        while i < self.middlewares.len()
            invariant
                i <= self.middlewares@.len(),
                self@.len() == self.middlewares@.len(),
                out@.len() == i,
                forall|k: int| 0 <= k < i ==> *(#[trigger] out@[k]) == self@[k].1,
            decreases self.middlewares.len() - i,
        {
            out.push(&self.middlewares[i].1);
            i = i + 1;
        }
        out
    }

    /// The middlewares of one phase, in registration order.  Ordering
    /// within the phase is decided later, per request, by priority.
    pub fn by_phase<'a>(&'a self, phase: MiddlewarePhase) -> (r: Vec<&'a Middleware>)
        ensures
            r@.map_values(|m: &Middleware| *m) == reg_values(self@).filter(
                |m: Middleware| m.phase == phase,
            ),
    {
        let ghost vals = reg_values(self@);
        let ghost pred = |m: Middleware| m.phase == phase;
        let mut out: Vec<&Middleware> = Vec::new();
        let mut i: usize = 0;
        proof {
            assert(vals.take(0) =~= Seq::<Middleware>::empty());
            reveal(Seq::filter);
        }
        while i < self.middlewares.len()
            invariant
                i <= self.middlewares@.len(),
                vals == reg_values(self@),
                pred == (|m: Middleware| m.phase == phase),
                self@.len() == self.middlewares@.len(),
                vals.len() == self@.len(),
                out@.map_values(|m: &Middleware| *m) =~= vals.take(i as int).filter(pred),
            decreases self.middlewares.len() - i,
        {
            proof {
                assert(vals.take(i + 1) =~= vals.take(i as int).push(vals[i as int]));
                crate::sorting::lemma_filter_push(vals.take(i as int), pred, vals[i as int]);
                assert(vals[i as int] == self@[i as int].1);
            }
            if self.middlewares[i].1.phase == phase {
                out.push(&self.middlewares[i].1);
            }
            i = i + 1;
        }
        proof {
            assert(vals.take(vals.len() as int) =~= vals);
        }
        out
    }

    /// How many middlewares are registered.
    pub fn len(&self) -> (n: usize)
        ensures
            n == self@.len(),
    {
        self.middlewares.len()
    }

    pub fn is_empty(&self) -> (b: bool)
        ensures
            b == (self@.len() == 0),
    {
        self.middlewares.len() == 0
    }
}

} // verus!
