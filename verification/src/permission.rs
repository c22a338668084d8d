//! Permissions: named single-bit capabilities with a grant/revoke lifecycle.

use vstd::prelude::*;

pub mod error;

verus! {

use crate::common::error::ErrorKind;
use crate::permission::error::{
    is_grant_error, is_invalid_value_error, is_max_value_error, is_revocation_error,
    PermissionError, PermissionErrorCase, PermissionErrorMetadata,
};

/// Largest integer guaranteed to round-trip exactly through limited-precision
/// numeric interchange (2^53 - 1); it caps a scope at 53 permission bits.
pub const MAX_VALUE: u64 = 9007199254740991;

/// Largest shift whose bit value stays at or under [`MAX_VALUE`].
pub const MAX_SHIFT: u8 = 52;

/// A named boolean capability backed by one fixed bit of a scope's aggregate.
pub struct Permission {
    pub name: String,
    pub value: u64,
    pub has_permission: bool,
}

/// Exactly one bit of `v` is set.
pub open spec fn is_single_bit(v: u64) -> bool {
    v != 0 && v & ((v - 1) as u64) == 0
}

impl Permission {
    /// A grant succeeds exactly when the permission is not yet granted.
    pub open spec fn grant_succeeds(self) -> bool {
        !self.has_permission
    }

    /// A revoke succeeds exactly when the permission is currently granted.
    pub open spec fn revoke_succeeds(self) -> bool {
        self.has_permission
    }

    /// The state a successful grant leaves behind: only the flag changes.
    pub open spec fn after_grant(self) -> Permission {
        Permission { has_permission: true, ..self }
    }

    /// The state a successful revoke leaves behind: only the flag changes.
    pub open spec fn after_revoke(self) -> Permission {
        Permission { has_permission: false, ..self }
    }

    /// Creates a permission whose bit is `1 << shift`, ungranted. Fails with
    /// the max-value error exactly when the shift exceeds [`MAX_SHIFT`].
    pub fn new(name: &str, shift: u8) -> (res: Result<Permission, ErrorKind>)
        ensures
            shift <= MAX_SHIFT ==> (res matches Ok(p)
                && p.name@ == name@
                && p.value == (1u64 << (shift as u64))
                && !p.has_permission),
            shift > MAX_SHIFT ==> (res matches Err(e) && is_max_value_error(e, name@, shift)),
    {
        let validated_shift = match validate_shift(&name.to_string(), &shift) {
            Ok(result) => result,
            Err(err) => {
                return Err(err);
            },
        };

        proof {
            let s = validated_shift as u64;
            assert(s <= 52 ==> (1u64 << s) != 0) by (bit_vector);
            assert(s <= 52 ==> ((1u64 << s) & (((1u64 << s) - 1) as u64)) == 0) by (bit_vector);
        }

        match validate_value(&name.to_string(), &(1u64 << (validated_shift as u64))) {
            Ok(_) => Ok(
                Permission {
                    name: name.to_string(),
                    value: 1u64 << (validated_shift as u64),
                    has_permission: false,
                },
            ),
            Err(err) => Err(err),
        }
    }

    /// Grants the permission. Fails exactly when it is already granted, and
    /// then changes nothing; on success only the flag flips, and the returned
    /// handle is the permission itself, for chaining.
    pub fn grant(&mut self) -> (res: Result<&mut Permission, ErrorKind>)
        ensures
            old(self).grant_succeeds() ==> (res matches Ok(p)
                && *p == old(self).after_grant()
                && *final(self) == *final(p)),
            !old(self).grant_succeeds() ==> (res matches Err(e)
                && is_grant_error(e, old(self).name@)
                && *final(self) == *old(self)),
    {
        if self.has_permission {
            return Err(
                ErrorKind::PermissionError(
                    PermissionError::new(
                        PermissionErrorCase::GrantError,
                        &self.name,
                        PermissionErrorMetadata::new(),
                    ),
                ),
            );
        }

        self.has_permission = true;

        Ok(self)
    }

    /// Revokes the permission. Fails exactly when it is not granted, and then
    /// changes nothing; on success only the flag flips.
    pub fn revoke(&mut self) -> (res: Result<&mut Permission, ErrorKind>)
        ensures
            old(self).revoke_succeeds() ==> (res matches Ok(p)
                && *p == old(self).after_revoke()
                && *final(self) == *final(p)),
            !old(self).revoke_succeeds() ==> (res matches Err(e)
                && is_revocation_error(e, old(self).name@)
                && *final(self) == *old(self)),
    {
        if !self.has_permission {
            return Err(
                ErrorKind::PermissionError(
                    PermissionError::new(
                        PermissionErrorCase::RevocationError,
                        &self.name,
                        PermissionErrorMetadata::new(),
                    ),
                ),
            );
        }

        self.has_permission = false;

        Ok(self)
    }

    /// The current grant state; no side effects.
    pub fn has(&mut self) -> (res: bool)
        ensures
            res == old(self).has_permission,
            *final(self) == *old(self),
    {
        self.has_permission
    }
}

/// Accepts a shift exactly when its bit value stays within the safe ceiling,
/// so that the value survives interchange with 53-bit numeric environments.
fn validate_shift(name: &String, shift: &u8) -> (res: Result<u8, ErrorKind>)
    ensures
        *shift <= MAX_SHIFT ==> (res matches Ok(s) && s == *shift),
        *shift > MAX_SHIFT ==> (res matches Err(e) && is_max_value_error(e, name@, *shift)),
{
    let s = *shift as u64;
    proof {
        assert(s < 64 ==> (((1u64 << s) <= 9007199254740991u64) <==> s <= 52)) by (bit_vector);
    }
    if s < 64 && (1u64 << s) <= MAX_VALUE {
        Ok(*shift)
    } else {
        Err(
            ErrorKind::PermissionError(
                PermissionError::new(
                    PermissionErrorCase::MaxValue,
                    name,
                    PermissionErrorMetadata { shift: Some(*shift) },
                ),
            ),
        )
    }
}

/// Accepts a value exactly when it is `1` or a power of two, the only values
/// a permission bit may take. Defensive companion of [`validate_shift`].
pub fn validate_value(name: &String, value: &u64) -> (res: Result<(), ErrorKind>)
    ensures
        (*value == 1 || is_single_bit(*value)) ==> res is Ok,
        !(*value == 1 || is_single_bit(*value)) ==> (res matches Err(e)
            && is_invalid_value_error(e, name@)),
{
    if *value == 1 || (*value != 0 && (*value & (*value - 1)) == 0) {
        Ok(())
    } else {
        Err(
            ErrorKind::PermissionError(
                PermissionError::new(
                    PermissionErrorCase::InvalidValue,
                    name,
                    PermissionErrorMetadata::new(),
                ),
            ),
        )
    }
}

/// A grant that just succeeded leaves the permission granted, so an
/// immediate second grant must fail.
pub proof fn lemma_grant_then_grant_fails(p: Permission)
    requires
        p.grant_succeeds(),
    ensures
        !p.after_grant().grant_succeeds(),
{
}

/// A revoke that just succeeded leaves the permission ungranted, so an
/// immediate second revoke must fail.
pub proof fn lemma_revoke_then_revoke_fails(p: Permission)
    requires
        p.revoke_succeeds(),
    ensures
        !p.after_revoke().revoke_succeeds(),
{
}

/// Granting an ungranted permission and then revoking it restores the
/// original state exactly; in particular `has()` reports false again.
pub proof fn lemma_grant_then_revoke_restores(p: Permission)
    requires
        p.grant_succeeds(),
    ensures
        p.after_grant().revoke_succeeds(),
        p.after_grant().after_revoke() == p,
        !p.after_grant().after_revoke().has_permission,
{
}

} // verus!
