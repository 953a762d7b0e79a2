//! Error values returned across the library's public surface.
//!
//! Every failure is reported as a value; nothing here aborts the process,
//! and no failure leaves a context unusable for later, independent runs.

use vstd::prelude::*;

verus! {

/// Construction-time failure while assembling a bundle of host operations.
#[derive(Debug)]
pub enum BundleError {
    /// Two operations in the same bundle carry the same name.
    DuplicateOperationName { name: String },
    /// An operation was declared under an empty name, which no script
    /// could call.
    EmptyOperationName,
}

/// Failure while initializing an execution context from a set of bundles.
#[derive(Debug)]
pub enum InitError {
    /// Two bundles in the set carry the same name.
    DuplicateBundleName { name: String },
    /// A bundle declares a dependency on a bundle name that is not in the
    /// set being installed.
    MissingDependency { name: String },
    /// The declared dependencies contain a cycle, so no install order can
    /// satisfy them all.
    DependencyCycle,
}

/// Where in an operation call a value failed to cross the boundary.
#[derive(Debug)]
pub enum MarshalSite {
    /// The script supplied a different number of arguments than the
    /// operation declares parameters; the payload is the declared count.
    Arity { expected: usize },
    /// The argument at this position does not fit its declared shape.
    Parameter { index: usize },
    /// The value the host returned does not fit the declared result shape.
    Return,
}

/// A value crossing the host/script boundary could not be converted to
/// its declared shape. Raised at call time; it fails only the current
/// run, never the context.
#[derive(Debug)]
pub struct MarshalError {
    /// The name of the operation whose call failed.
    pub operation: String,
    /// Which value of the call failed to convert.
    pub site: MarshalSite,
}

/// The source position of a failing script construct, when the engine
/// reported one.
#[derive(Debug)]
pub struct SourcePosition {
    /// The module identifier the script was executed under.
    pub module: String,
    /// One-based line within the script text.
    pub line: u64,
    /// One-based column within that line.
    pub column: u64,
}

/// A script-level failure surfaced by `run`: either the context was never
/// initialized (this library requires explicit initialization and fails
/// fast rather than installing an empty engine silently), or the engine
/// reported a parse error or an uncaught exception.
#[derive(Debug)]
pub enum EngineError {
    /// `run` was called on a context that is still uninitialized.
    NotInitialized,
    /// The engine reported a failure while parsing or executing the
    /// script: a diagnostic message and, where available, the source
    /// position of the failing construct.
    Script { message: String, position: Option<SourcePosition> },
}

} // verus!
