//! Configuration errors raised by the build pipeline and the resolved app.
//!
//! Every variant names the offending token, so a failure always identifies
//! what was asked for and was not there.

use vstd::prelude::*;

verus! {

/// A deterministic configuration error: the declared graph shape does not
/// support the requested operation. These are detected at build time (or at
/// top-level lookup) and carry the tokens involved.
#[derive(Debug)]
pub enum DiError {
    /// No provider with this token is reachable from the named module.
    ProviderNotFound { token: String, module: String },
    /// No module with this token is registered in the container.
    ModuleNotFound { token: String },
    /// The provider exists but the scope-appropriate instance cell was
    /// never populated.
    InstanceNotFound { token: String },
    /// The provider's scope is not one the operation supports.
    InvalidScope { token: String },
    /// A provider was marked exported without being registered in the
    /// exporting module.
    ExportOfUnregistered { token: String, module: String },
    /// The resolved instance could not be cast to the requested interface.
    CastFailed { token: String, target: u64, source: u64 },
    /// A provider with this token was already declared in the module.
    DuplicateProvider { token: String, module: String },
    /// The dependent's instance record has no slot for this token.
    SlotNotFound { token: String },
    /// The id space was exhausted while processing this token.
    IdOverflow { token: String },
}

impl DiError {
    /// The provider or module token this error is about.
    pub fn token(&self) -> (t: &String)
        ensures
            t@ == self.spec_token(),
    {
        match self {
            DiError::ProviderNotFound { token, .. } => token,
            DiError::ModuleNotFound { token } => token,
            DiError::InstanceNotFound { token } => token,
            DiError::InvalidScope { token } => token,
            DiError::ExportOfUnregistered { token, .. } => token,
            DiError::CastFailed { token, .. } => token,
            DiError::DuplicateProvider { token, .. } => token,
            DiError::SlotNotFound { token } => token,
            DiError::IdOverflow { token } => token,
        }
    }

    pub open spec fn spec_token(self) -> Seq<char> {
        match self {
            DiError::ProviderNotFound { token, .. } => token@,
            DiError::ModuleNotFound { token } => token@,
            DiError::InstanceNotFound { token } => token@,
            DiError::InvalidScope { token } => token@,
            DiError::ExportOfUnregistered { token, .. } => token@,
            DiError::CastFailed { token, .. } => token@,
            DiError::DuplicateProvider { token, .. } => token@,
            DiError::SlotNotFound { token } => token@,
            DiError::IdOverflow { token } => token@,
        }
    }
}

} // verus!
