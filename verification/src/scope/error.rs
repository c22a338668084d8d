use vstd::prelude::*;

verus! {

use crate::common::error::ErrorKind;

/// The three mutually exclusive name-collision cases inside one scope's
/// combined namespace of permission names and child-scope names.
pub enum ScopeErrorCase {
    /// The name is already used by a permission of this scope.
    PermissionExists,
    /// The name is already used by a child scope of this scope.
    ScopeExists,
    /// The name is used by both a permission and a child scope.
    BothExist,
}

/// A scope-level failure: the offending name and the namespace it collided with.
pub struct ScopeError {
    pub name: String,
    pub case: ScopeErrorCase,
}

impl ScopeError {
    pub fn new(case: ScopeErrorCase, name: &String) -> (res: ScopeError)
        ensures
            res.name@ == name@,
            res.case == case,
    {
        ScopeError { name: name.clone(), case }
    }
}

/// The error reported when `name` collides as `case`.
pub open spec fn is_name_collision(e: ErrorKind, name: Seq<char>, case: ScopeErrorCase) -> bool {
    e matches ErrorKind::ScopeError(se) && se.name@ == name && se.case == case
}

} // verus!
