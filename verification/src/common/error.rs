use vstd::prelude::*;

verus! {

use crate::permission::error::PermissionError;
use crate::scope::error::ScopeError;

/// The one error surface of the engine: every fallible operation reports
/// either a permission-level or a scope-level failure.
pub enum ErrorKind {
    PermissionError(PermissionError),
    ScopeError(ScopeError),
}

} // verus!
