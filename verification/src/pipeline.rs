//! The pipeline execution loop.
//!
//! A resolved chain runs in three ordered phases: pre-read-write, core,
//! post-read-only.  Executors are external capabilities, so the loop is a
//! state machine: it names the middleware to run next, and the driver
//! hands back that middleware's result.  `Continue` advances, `Abort`
//! terminates the whole pipeline, `Redirect` asks the driver to resolve a
//! new target and resume; redirect hops are bounded, and exceeding the
//! bound fails with `RedirectLoopDetected` instead of looping forever.

use vstd::prelude::*;

use crate::chain;
use crate::chain::ResolvedMiddlewareChain;
use crate::errors::RouterError;
use crate::middleware::{AccessMode, MiddlewarePhase, MiddlewareResult};
use crate::route::ResolvedRoute;
use crate::state::RouterState;
use crate::types::{CanonicalParams, MiddlewareId};

verus! {

/// Plain extension data container shared along one pipeline run.
#[derive(Debug)]
pub struct ExtensionsMap {
    pub inner: Vec<(String, String)>,
}

impl ExtensionsMap {
    pub fn new() -> (r: ExtensionsMap)
        ensures
            r.inner@ == Seq::<(String, String)>::empty(),
    {
        ExtensionsMap { inner: Vec::new() }
    }
}

impl Default for ExtensionsMap {
    fn default() -> (r: ExtensionsMap)
        ensures
            r.inner@ == Seq::<(String, String)>::empty(),
    {
        ExtensionsMap { inner: Vec::new() }
    }
}

/// Everything one middleware execution may see: the resolved route, the
/// (pre-transition) navigation state, the mutable canonical parameters and
/// the extension data of this request, and the chain being executed.
#[derive(Debug)]
pub struct MiddlewareContext<'a> {
    pub resolved_route: &'a ResolvedRoute<'a>,
    pub router_state: &'a RouterState,
    pub params: CanonicalParams,
    pub middleware_chain: &'a ResolvedMiddlewareChain,
    pub extensions: ExtensionsMap,
}

/// A finished resolution, ready for the pipeline: the route, the merged
/// canonical parameters, and the phase-ordered chain.
#[derive(Debug)]
pub struct NavResolution<'a> {
    pub route: ResolvedRoute<'a>,
    pub canonical_params: CanonicalParams,
    pub middleware_chain: ResolvedMiddlewareChain,
}

impl Clone for MiddlewareResult {
    fn clone(&self) -> (r: Self)
        ensures
            r == *self,
    {
        match self {
            MiddlewareResult::Continue => MiddlewareResult::Continue,
            MiddlewareResult::Abort { reason } => MiddlewareResult::Abort {
                reason: reason.clone(),
            },
            MiddlewareResult::Redirect { target } => MiddlewareResult::Redirect {
                target: target.clone(),
            },
        }
    }
}

/// Where a pipeline run stands.
#[derive(Debug, PartialEq, Eq)]
pub enum PipelineStatus {
    /// A middleware is pending; `current` names it.
    Running,
    /// A middleware redirected; the driver must resolve `target` and
    /// resume with the new chain (or give the run up).
    NeedsRedirect { target: String },
    /// Every middleware of every phase ran and continued.
    Completed,
    /// A middleware aborted; nothing after it has run and no navigation
    /// transition may be applied.
    Aborted { reason: String },
    /// One redirect too many; the run is failed.
    RedirectLoopDetected,
}

/// What repeatedly feeding results to a running pipeline yields: the final
/// status and how many results were consumed (the position reached).
pub open spec fn replay(total: int, pos: int, results: Seq<MiddlewareResult>) -> (
    PipelineStatus,
    int,
)
    decreases results.len(),
{
    if pos >= total {
        (PipelineStatus::Completed, pos)
    } else if results.len() == 0 {
        (PipelineStatus::Running, pos)
    } else {
        match results[0] {
            MiddlewareResult::Continue => replay(total, pos + 1, results.drop_first()),
            MiddlewareResult::Abort { reason } => (PipelineStatus::Aborted { reason }, pos),
            MiddlewareResult::Redirect { target } => (
                PipelineStatus::NeedsRedirect { target },
                pos,
            ),
        }
    }
}

/// The recommended default bound on redirect hops.
pub const DEFAULT_REDIRECT_HOP_LIMIT: usize = 8;

/// One run of the pipeline over a resolved chain.
#[derive(Debug)]
pub struct PipelineRun {
    chain: ResolvedMiddlewareChain,
    pos: usize,
    hops: usize,
    hop_limit: usize,
    status: PipelineStatus,
}

/// The execution order of a chain: pre-read-write, then core, then
/// post-read-only.
pub open spec fn chain_order(c: &ResolvedMiddlewareChain) -> Seq<Seq<char>> {
    chain::mw_ids(c.pre_rw_chain@) + chain::mw_ids(c.core_chain@) + chain::mw_ids(c.post_ro_chain@)
}

/// The phase of the step at one position of the order.
pub open spec fn phase_at(c: &ResolvedMiddlewareChain, i: int) -> MiddlewarePhase {
    if i < c.pre_rw_chain@.len() {
        MiddlewarePhase::PreRW
    } else if i < c.pre_rw_chain@.len() + c.core_chain@.len() {
        MiddlewarePhase::Core
    } else {
        MiddlewarePhase::PostRO
    }
}

impl PipelineRun {
    /// The execution order of the chain under execution.
    pub open spec fn order(&self) -> Seq<Seq<char>> {
        chain_order(self.chain_spec())
    }

    /// The chain under execution.
    pub closed spec fn chain_spec(&self) -> &ResolvedMiddlewareChain {
        &self.chain
    }

    /// How many middlewares of the current chain have run.
    pub closed spec fn pos_spec(&self) -> int {
        self.pos as int
    }

    /// How many redirect hops were taken so far.
    pub closed spec fn hops_spec(&self) -> int {
        self.hops as int
    }

    /// The configured redirect hop bound.
    pub closed spec fn hop_limit_spec(&self) -> int {
        self.hop_limit as int
    }

    pub closed spec fn status_spec(&self) -> PipelineStatus {
        self.status
    }

    pub open spec fn wf(&self) -> bool {
        &&& self.order().len() < usize::MAX
        &&& self.pos_spec() <= self.order().len()
        &&& self.hops_spec() <= self.hop_limit_spec()
        &&& self.status_spec() is Running ==> self.pos_spec() < self.order().len()
    }

    /// Starts a run over a chain; an empty chain completes immediately.
    pub fn start(chain: ResolvedMiddlewareChain, hop_limit: usize) -> (r: PipelineRun)
        requires
            chain.pre_rw_chain@.len() + chain.core_chain@.len() + chain.post_ro_chain@.len()
                < usize::MAX,
        ensures
            r.wf(),
            r.chain_spec() == &chain,
            r.pos_spec() == 0,
            r.hops_spec() == 0,
            r.hop_limit_spec() == hop_limit as int,
            r.status_spec() == if chain_order(&chain).len() == 0 {
                PipelineStatus::Completed
            } else {
                PipelineStatus::Running
            },
    {
        let total = chain.pre_rw_chain.len() + chain.core_chain.len() + chain.post_ro_chain.len();
        let status = if total == 0 {
            PipelineStatus::Completed
        } else {
            PipelineStatus::Running
        };
        PipelineRun { chain, pos: 0, hops: 0, hop_limit, status }
    }

    pub fn status(&self) -> (r: &PipelineStatus)
        ensures
            *r == self.status_spec(),
    {
        &self.status
    }

    /// How many middlewares of the current chain have run.
    pub fn position(&self) -> (n: usize)
        ensures
            n as int == self.pos_spec(),
    {
        self.pos
    }

    /// How many redirect hops were taken so far.
    pub fn hops(&self) -> (n: usize)
        ensures
            n as int == self.hops_spec(),
    {
        self.hops
    }

    /// The middleware to run next, with its phase; nothing is pending
    /// unless the run is running.
    pub fn current<'a>(&'a self) -> (r: Option<(&'a MiddlewareId, MiddlewarePhase)>)
        requires
            self.wf(),
        ensures
            match r {
                Some(p) => {
                    &&& self.status_spec() is Running
                    &&& p.0.0@ == self.order()[self.pos_spec()]
                    &&& p.1 == phase_at(self.chain_spec(), self.pos_spec())
                },
                None => !(self.status_spec() is Running),
            },
    {
        if !matches!(self.status, PipelineStatus::Running) {
            return None;
        }
        let npre = self.chain.pre_rw_chain.len();
        let ncore = self.chain.core_chain.len();
        if self.pos < npre {
            Some((&self.chain.pre_rw_chain[self.pos], MiddlewarePhase::PreRW))
        } else if self.pos - npre < ncore {
            Some((&self.chain.core_chain[self.pos - npre], MiddlewarePhase::Core))
        } else {
            Some((&self.chain.post_ro_chain[self.pos - npre - ncore], MiddlewarePhase::PostRO))
        }
    }

    /// Feeds the pending middleware's result to the run.  `Continue`
    /// advances (completing the run after the last step); `Abort` and
    /// `Redirect` freeze the position: nothing after the deciding
    /// middleware runs.
    pub fn apply_result(&mut self, result: MiddlewareResult)
        requires
            old(self).wf(),
            old(self).status_spec() is Running,
        ensures
            final(self).wf(),
            final(self).chain_spec() == old(self).chain_spec(),
            final(self).hops_spec() == old(self).hops_spec(),
            final(self).hop_limit_spec() == old(self).hop_limit_spec(),
            match result {
                MiddlewareResult::Continue => {
                    &&& final(self).pos_spec() == old(self).pos_spec() + 1
                    &&& final(self).status_spec() == if old(self).pos_spec() + 1
                        == old(self).order().len() {
                        PipelineStatus::Completed
                    } else {
                        PipelineStatus::Running
                    }
                },
                MiddlewareResult::Abort { reason } => {
                    &&& final(self).pos_spec() == old(self).pos_spec()
                    &&& final(self).status_spec() == (PipelineStatus::Aborted { reason })
                },
                MiddlewareResult::Redirect { target } => {
                    &&& final(self).pos_spec() == old(self).pos_spec()
                    &&& final(self).status_spec() == (PipelineStatus::NeedsRedirect { target })
                },
            },
    {
        match result {
            MiddlewareResult::Continue => {
                self.pos = self.pos + 1;
                let total = self.chain.pre_rw_chain.len() + self.chain.core_chain.len()
                    + self.chain.post_ro_chain.len();
                if self.pos == total {
                    self.status = PipelineStatus::Completed;
                }
            },
            MiddlewareResult::Abort { reason } => {
                self.status = PipelineStatus::Aborted { reason };
            },
            MiddlewareResult::Redirect { target } => {
                self.status = PipelineStatus::NeedsRedirect { target };
            },
        }
    }

    /// Feeds a list of results in order, stopping at the first one that
    /// ends the run.  The outcome is exactly `replay`.
    pub fn apply_results(&mut self, results: &Vec<MiddlewareResult>)
        requires
            old(self).wf(),
            old(self).status_spec() is Running,
        ensures
            final(self).wf(),
            final(self).chain_spec() == old(self).chain_spec(),
            final(self).hops_spec() == old(self).hops_spec(),
            final(self).hop_limit_spec() == old(self).hop_limit_spec(),
            (final(self).status_spec(), final(self).pos_spec()) == replay(
                old(self).order().len() as int,
                old(self).pos_spec(),
                results@,
            ),
    {
        let ghost total = old(self).order().len() as int;
        let ghost goal = replay(total, old(self).pos_spec(), results@);
        let mut i: usize = 0;
        proof {
            assert(results@.skip(0) =~= results@);
        }
        #[verifier::loop_isolation(false)]
        while i < results.len() && matches!(self.status, PipelineStatus::Running)
            invariant
                i <= results@.len(),
                self.wf(),
                self.chain_spec() == old(self).chain_spec(),
                self.hops_spec() == old(self).hops_spec(),
                self.hop_limit_spec() == old(self).hop_limit_spec(),
                total == self.order().len() as int,
                goal == replay(total, old(self).pos_spec(), results@),
                self.status_spec() is Running ==> goal == replay(
                    total,
                    self.pos_spec(),
                    results@.skip(i as int),
                ),
                !(self.status_spec() is Running) ==> goal == (
                    self.status_spec(),
                    self.pos_spec(),
                ),
            decreases results.len() - i,
        {
            proof {
                assert(results@.skip(i as int)[0] == results@[i as int]);
                assert(results@.skip(i as int).drop_first() =~= results@.skip(i + 1));
            }
            let ghost prev_pos = self.pos_spec();
            let step = results[i].clone();
            self.apply_result(step);
            proof {
                match results@[i as int] {
                    MiddlewareResult::Continue => {
                        assert(replay(total, prev_pos, results@.skip(i as int)) == replay(
                            total,
                            prev_pos + 1,
                            results@.skip(i + 1),
                        ));
                        if !(self.status_spec() is Running) {
                            assert(self.pos_spec() >= total);
                            assert(replay(total, self.pos_spec(), results@.skip(i + 1)) == (
                                PipelineStatus::Completed,
                                self.pos_spec(),
                            ));
                        }
                    },
                    MiddlewareResult::Abort { reason } => {
                        assert(replay(total, prev_pos, results@.skip(i as int)) == (
                            PipelineStatus::Aborted { reason },
                            prev_pos,
                        ));
                    },
                    MiddlewareResult::Redirect { target } => {
                        assert(replay(total, prev_pos, results@.skip(i as int)) == (
                            PipelineStatus::NeedsRedirect { target },
                            prev_pos,
                        ));
                    },
                }
            }
            i = i + 1;
        }
        proof {
            if self.status_spec() is Running {
                assert(results@.skip(i as int) =~= Seq::<MiddlewareResult>::empty());
            }
        }
    }

    /// The redirect target the run is waiting on, if any.
    pub fn redirect_target<'a>(&'a self) -> (r: Option<&'a String>)
        ensures
            match r {
                Some(t) => self.status_spec() == (PipelineStatus::NeedsRedirect { target: *t }),
                None => !(self.status_spec() is NeedsRedirect),
            },
    {
        match &self.status {
            PipelineStatus::NeedsRedirect { target } => Some(target),
            _ => None,
        }
    }

    /// Restarts the run over the chain resolved for a redirect target.
    /// Every hop is counted; one more redirect than the configured bound
    /// fails with `RedirectLoopDetected` instead of restarting.
    pub fn resume_with(&mut self, chain: ResolvedMiddlewareChain) -> (r: Result<
        (),
        RouterError,
    >)
        requires
            old(self).wf(),
            old(self).status_spec() is NeedsRedirect,
            chain.pre_rw_chain@.len() + chain.core_chain@.len() + chain.post_ro_chain@.len()
                < usize::MAX,
        ensures
            final(self).wf(),
            final(self).hop_limit_spec() == old(self).hop_limit_spec(),
            match r {
                Ok(()) => {
                    &&& old(self).hops_spec() < old(self).hop_limit_spec()
                    &&& final(self).hops_spec() == old(self).hops_spec() + 1
                    &&& final(self).pos_spec() == 0
                    &&& final(self).chain_spec() == &chain
                    &&& final(self).status_spec() == if chain_order(&chain).len() == 0 {
                        PipelineStatus::Completed
                    } else {
                        PipelineStatus::Running
                    }
                },
                Err(e) => {
                    &&& old(self).hops_spec() == old(self).hop_limit_spec()
                    &&& e == RouterError::RedirectLoopDetected
                    &&& final(self).status_spec() == PipelineStatus::RedirectLoopDetected
                },
            },
    {
        if self.hops >= self.hop_limit {
            self.status = PipelineStatus::RedirectLoopDetected;
            return Err(RouterError::RedirectLoopDetected);
        }
        self.hops = self.hops + 1;
        self.pos = 0;
        let total = chain.pre_rw_chain.len() + chain.core_chain.len() + chain.post_ro_chain.len();
        self.chain = chain;
        self.status = if total == 0 {
            PipelineStatus::Completed
        } else {
            PipelineStatus::Running
        };
        Ok(())
    }
}

/// The redirect budget a run still has.
pub open spec fn remaining_redirects(r: &PipelineRun) -> int {
    r.hop_limit_spec() - r.hops_spec()
}

/// Law: redirects cannot loop forever.  `remaining_redirects` is a
/// non-negative variant bounded by the configured hop limit, every
/// successful `resume_with` strictly decreases it (its contract: the hop
/// count rises by one under a fixed limit), and at zero `resume_with` can
/// only fail with `RedirectLoopDetected`.  A run therefore restarts at
/// most `hop_limit` times after its first chain, whatever the executors
/// keep answering.
pub proof fn lemma_redirect_restarts_bounded(r: &PipelineRun)
    requires
        r.wf(),
    ensures
        0 <= remaining_redirects(r) <= r.hop_limit_spec(),
{
}

/// The access a phase grants on the execution context: the two earlier
/// phases may write, the post phase only observes (drivers should hand
/// post-read-only executors an immutable view).
pub fn phase_access(phase: MiddlewarePhase) -> (r: AccessMode)
    ensures
        r == match phase {
            MiddlewarePhase::PreRW => AccessMode::ReadWrite,
            MiddlewarePhase::Core => AccessMode::ReadWrite,
            MiddlewarePhase::PostRO => AccessMode::ReadOnly,
        },
{
    match phase {
        MiddlewarePhase::PreRW => AccessMode::ReadWrite,
        MiddlewarePhase::Core => AccessMode::ReadWrite,
        MiddlewarePhase::PostRO => AccessMode::ReadOnly,
    }
}

/// The per-request error a failed run surfaces to the caller: an abort
/// becomes `PipelineAborted` (an expected outcome, not a crash), one
/// redirect too many becomes `RedirectLoopDetected`.  A run that is still
/// running, waiting on a redirect, or completed carries no failure.
pub fn pipeline_failure(status: &PipelineStatus) -> (r: Option<RouterError>)
    ensures
        match *status {
            PipelineStatus::Aborted { reason } => r == Some(
                RouterError::PipelineAborted { reason },
            ),
            PipelineStatus::RedirectLoopDetected => r == Some(RouterError::RedirectLoopDetected),
            _ => r is None,
        },
{
    match status {
        PipelineStatus::Aborted { reason } => Some(
            RouterError::PipelineAborted { reason: reason.clone() },
        ),
        PipelineStatus::RedirectLoopDetected => Some(RouterError::RedirectLoopDetected),
        _ => None,
    }
}

/// Law: one abort stops everything after it.  If the first `k` results
/// continue and the next aborts while steps remain, the run ends aborted
/// with exactly `k` further middlewares executed: the steps after the
/// aborting one - later chain entries, later phases - never run, and the
/// run never completes (so no navigation transition follows from it).
pub proof fn lemma_abort_stops_pipeline(
    total: int,
    pos: int,
    results: Seq<MiddlewareResult>,
    k: int,
)
    requires
        0 <= pos,
        0 <= k < results.len(),
        pos + k < total,
        forall|j: int| 0 <= j < k ==> (#[trigger] results[j]) is Continue,
        results[k] is Abort,
    ensures
        ({
            let (st, p) = replay(total, pos, results);
            &&& p == pos + k
            &&& match results[k] {
                MiddlewareResult::Abort { reason } => st == (PipelineStatus::Aborted { reason }),
                _ => false,
            }
            &&& !(st is Completed)
        }),
    decreases k,
{
    if k == 0 {
    } else {
        assert(results[0] is Continue);
        lemma_abort_stops_pipeline(total, pos + 1, results.drop_first(), k - 1);
        assert(results.drop_first()[k - 1] == results[k]);
        assert(forall|j: int|
            0 <= j < k - 1 ==> (#[trigger] results.drop_first()[j]) == results[j + 1]);
    }
}

} // verus!
