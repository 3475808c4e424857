//! Error taxonomy of the router core.

use vstd::prelude::*;

use crate::types::{MiddlewareId, RouteId, StackId};

verus! {

/// Errors surfaced by registration and per-request processing.
///
/// Registration-time errors (`RouteConflict`, `InvalidMiddlewareDeclaration`)
/// are fatal to the registration call.  Per-request errors are recoverable:
/// the navigation state is guaranteed untouched when one is returned.
#[derive(Debug, PartialEq, Eq)]
pub enum RouterError {
    /// A route registration clashed with an already registered name or
    /// path pattern.
    RouteConflict,
    /// No registered route matches the requested path or name.
    RouteNotFound,
    /// A middleware registration claimed the core phase or the protected
    /// read-write mode without being built in.
    InvalidMiddlewareDeclaration,
    /// A scope names a middleware id that the registry does not know.
    /// Recovered during chain resolution: the candidate is skipped.
    DanglingMiddlewareId { id: MiddlewareId },
    /// A redirect chain exceeded the configured hop limit.
    RedirectLoopDetected,
    /// A middleware aborted the pipeline; a normal, expected outcome.
    PipelineAborted { reason: String },
}

/// Errors of the navigation state machine.  Every failure is atomic: the
/// state the machine was applied to is left untouched.
#[derive(Debug, PartialEq, Eq)]
pub enum StateMachineError {
    /// The step names a stack that does not exist (and may not be created).
    UnknownStack { stack: StackId },
    /// The step names a route id outside the route table.
    UnknownRoute { route: RouteId },
    /// A multi-stack operation reached the machine without having been
    /// expanded into elementary steps by a strategy resolver.
    UnexpandedMultiStackOperation { behavior_key: String },
}

} // verus!
