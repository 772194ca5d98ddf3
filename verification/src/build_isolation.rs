//! Selection of the build-isolation mode: whether build-time dependencies are
//! installed into an isolated environment, shared with the target
//! environment, or shared for a named subset of packages.
//!
//! A pure mapping from the caller's preference and the optional target
//! environment handle; it fails only when a shared mode is requested and no
//! environment handle is present. Exactly one mode is active per pipeline
//! run, fixed before resolution begins.

use vstd::prelude::*;

verus! {

/// A resolved reference to the target environment, by its root path.
pub struct EnvironmentRef {
    /// Root directory of the environment.
    pub root: String,
}

/// The mathematical content of an [`EnvironmentRef`].
pub ghost struct EnvironmentRefView {
    pub root: Seq<char>,
}

impl View for EnvironmentRef {
    type V = EnvironmentRefView;

    open spec fn view(&self) -> EnvironmentRefView {
        EnvironmentRefView { root: self.root@ }
    }
}

/// The caller's isolation preference, before an environment is attached.
pub enum BuildIsolationRequest {
    /// Isolate build-time dependencies from the target environment.
    Isolate,
    /// Share the target environment with build-time dependencies.
    Shared,
    /// Share the target environment for the named packages only.
    SharedPackage(Vec<String>),
}

/// The active isolation mode, with the environment attached where shared.
pub enum BuildIsolationMode {
    /// Build-time dependencies live in an isolated environment.
    Isolated,
    /// Build-time dependencies share the target environment.
    SharedWithEnvironment(EnvironmentRef),
    /// The named packages share the target environment; the rest isolate.
    SharedForPackages(EnvironmentRef, Vec<String>),
}

/// Error raised when a shared mode is requested without an environment.
#[derive(Debug)]
pub enum IsolationError {
    /// A shared mode needs a target environment handle, and none was given.
    MissingEnvironment,
}

/// Choose the build-isolation mode from the preference and the optional
/// target environment.
///
/// Isolation needs no environment; either shared mode demands one and fails
/// without it. The named package set is carried over unchanged.
pub fn select_build_isolation(
    request: BuildIsolationRequest,
    environment: Option<EnvironmentRef>,
) -> (r: Result<BuildIsolationMode, IsolationError>)
    ensures
        request is Isolate ==> (r matches Ok(m) && m is Isolated),
        request is Shared && environment is Some ==> (r matches Ok(
            BuildIsolationMode::SharedWithEnvironment(e),
        ) && e@ == environment.unwrap()@),
        (match request {
            BuildIsolationRequest::SharedPackage(names) => environment is Some ==> (r matches Ok(
                BuildIsolationMode::SharedForPackages(e, kept),
            ) && e@ == environment.unwrap()@ && kept.deep_view() == names.deep_view()),
            _ => true,
        }),
        r is Err <==> !(request is Isolate) && environment is None,
        r is Err ==> (r matches Err(IsolationError::MissingEnvironment)),
{
    match request {
        BuildIsolationRequest::Isolate => Ok(BuildIsolationMode::Isolated),
        BuildIsolationRequest::Shared => match environment {
            Option::Some(e) => Ok(BuildIsolationMode::SharedWithEnvironment(e)),
            Option::None => Err(IsolationError::MissingEnvironment),
        },
        BuildIsolationRequest::SharedPackage(names) => match environment {
            Option::Some(e) => Ok(BuildIsolationMode::SharedForPackages(e, names)),
            Option::None => Err(IsolationError::MissingEnvironment),
        },
    }
}

} // verus!
