//! Decision core of a cross-runtime application-navigation router.
//!
//! Given a requested path (or route name) and parameters, the core resolves
//! which route applies, computes the phase-ordered middleware chain that must
//! run around it, and computes the resulting change to the app's navigation
//! state (a set of back-stacks, one of which is foreground).  Rendering,
//! animation and the actual invocation of externally hosted middleware code
//! are left to thin adapter layers; the core only defines and verifies the
//! contracts those collaborators must satisfy.

pub mod assoc;
pub mod chain;
pub mod errors;
pub mod middleware;
pub mod pattern;
pub mod pipeline;
pub mod registry;
pub mod route;
pub mod scope;
pub mod sorting;
pub mod state;
pub mod types;
