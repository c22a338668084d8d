use vstd::prelude::*;

verus! {

use crate::common::error::ErrorKind;

/// Details attached to a permission-level failure. `shift` is filled only
/// when a requested bit shift exceeded the safe-integer ceiling, so the
/// caller can report the offending shift.
pub struct PermissionErrorMetadata {
    pub shift: Option<u8>,
}

impl PermissionErrorMetadata {
    /// Empty metadata, for failures that carry no shift.
    pub fn new() -> (res: PermissionErrorMetadata)
        ensures
            res.shift is None,
    {
        PermissionErrorMetadata { shift: None }
    }
}

/// The ways a permission operation can fail.
pub enum PermissionErrorCase {
    /// The requested bit shift would push the value past the safe ceiling.
    MaxValue,
    /// A computed bit value is neither `1` nor a power of two.
    InvalidValue,
    /// The permission was already granted.
    GrantError,
    /// The permission was not granted in the first place.
    RevocationError,
}

/// A permission-level failure, carrying the offending permission's name.
pub struct PermissionError {
    pub name: String,
    pub case: PermissionErrorCase,
    pub metadata: PermissionErrorMetadata,
}

impl PermissionError {
    pub fn new(
        case: PermissionErrorCase,
        permission_name: &String,
        error_metadata: PermissionErrorMetadata,
    ) -> (res: PermissionError)
        ensures
            res.name@ == permission_name@,
            res.case == case,
            res.metadata == error_metadata,
    {
        PermissionError { name: permission_name.clone(), case, metadata: error_metadata }
    }
}

/// The error reported for a shift past the safe ceiling: it names the
/// permission and records the attempted shift.
pub open spec fn is_max_value_error(e: ErrorKind, name: Seq<char>, shift: u8) -> bool {
    e matches ErrorKind::PermissionError(pe)
        && pe.name@ == name
        && pe.case == PermissionErrorCase::MaxValue
        && pe.metadata.shift == Some(shift)
}

/// The error reported for a computed value that is neither 1 nor a power of two.
pub open spec fn is_invalid_value_error(e: ErrorKind, name: Seq<char>) -> bool {
    e matches ErrorKind::PermissionError(pe)
        && pe.name@ == name
        && pe.case == PermissionErrorCase::InvalidValue
        && pe.metadata.shift is None
}

/// The error reported when granting an already granted permission.
pub open spec fn is_grant_error(e: ErrorKind, name: Seq<char>) -> bool {
    e matches ErrorKind::PermissionError(pe)
        && pe.name@ == name
        && pe.case == PermissionErrorCase::GrantError
        && pe.metadata.shift is None
}

/// The error reported when revoking a permission that is not granted.
pub open spec fn is_revocation_error(e: ErrorKind, name: Seq<char>) -> bool {
    e matches ErrorKind::PermissionError(pe)
        && pe.name@ == name
        && pe.case == PermissionErrorCase::RevocationError
        && pe.metadata.shift is None
}

} // verus!
