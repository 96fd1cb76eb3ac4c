//! Preconditions that explicit commands check before doing any work.
use vstd::prelude::*;

verus! {

/// Why a command refused to run.
#[derive(Debug, Clone, Copy, PartialEq, Eq)]
pub enum ValidationError {
    /// No initialized project directory was found.
    ProjectNotInitialized,
}

impl ValidationError {
    /// A short description, for callers that report failures.
    pub fn message(&self) -> (r: &'static str)
        ensures
            r@ == "project not initialized; run 'off-context init' first"@,
    {
        "project not initialized; run 'off-context init' first"
    }
}

/// Explicit commands require an initialized project; the caller resolves
/// the project root and passes the outcome in.
pub fn ensure_project_initialized(project_root: &Option<String>) -> (r: Result<
    (),
    ValidationError,
>)
    ensures
        r is Ok <==> project_root is Some,
        r is Err ==> r->Err_0 == ValidationError::ProjectNotInitialized,
{
    match project_root {
        Some(_) => Ok(()),
        None => Err(ValidationError::ProjectNotInitialized),
    }
}

} // verus!
