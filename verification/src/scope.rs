//! Scopes: named owners of permissions and child scopes.
//!
//! A scope keeps one combined namespace for its permission names and its
//! child-scope names, allocates each new permission the next power-of-two
//! bit, aggregates the granted bits into one integer, and collapses to /
//! expands from a tuple snapshot.

use vstd::prelude::*;

pub mod error;

verus! {

use crate::common::error::ErrorKind;
use crate::permission::error::is_max_value_error;
use crate::permission::{Permission, MAX_SHIFT};
use crate::scope::error::{is_name_collision, ScopeError, ScopeErrorCase};

/// A named node of the permission tree: it owns its permissions and its
/// child scopes, and counts up the shift for the next permission bit.
pub struct Scope {
    pub name: String,
    pub permissions: Vec<Permission>,
    pub next_permission_shift: u8,
    pub scopes: Vec<Scope>,
}

/// The flattened snapshot of a scope: its name, the aggregate of its granted
/// direct permissions, its permission names in order, and the snapshots of
/// its children in order.
pub struct ScopeTuple(pub String, pub u64, pub Vec<String>, pub Vec<ScopeTuple>);

/// Bitwise OR of the values of the granted permissions in `perms`.
pub open spec fn mask_of(perms: Seq<Permission>) -> u64
    decreases perms.len(),
{
    if perms.len() == 0 {
        0u64
    } else {
        mask_of(perms.drop_last()) | (if perms.last().has_permission {
            perms.last().value
        } else {
            0u64
        })
    }
}

impl Scope {
    /// The permission names, in storage order.
    pub open spec fn perm_names(self) -> Seq<Seq<char>> {
        self.permissions@.map(|i: int, p: Permission| p.name@)
    }

    /// The child-scope names, in storage order.
    pub open spec fn child_names(self) -> Seq<Seq<char>> {
        self.scopes@.map(|i: int, s: Scope| s.name@)
    }

    /// Some direct permission is named `n`.
    pub open spec fn has_permission_named(self, n: Seq<char>) -> bool {
        exists|i: int|
            0 <= i < self.permissions@.len() && (#[trigger] self.permissions@[i]).name@ == n
    }

    /// Some direct child scope is named `n`.
    pub open spec fn has_child_named(self, n: Seq<char>) -> bool {
        exists|i: int| 0 <= i < self.scopes@.len() && (#[trigger] self.scopes@[i]).name@ == n
    }

    /// The index of the permission named `n` (meaningful when present and
    /// names are unique).
    pub open spec fn perm_index(self, n: Seq<char>) -> int {
        choose|i: int|
            0 <= i < self.permissions@.len() && (#[trigger] self.permissions@[i]).name@ == n
    }

    /// The index of the child scope named `n` (meaningful when present and
    /// names are unique).
    pub open spec fn child_index(self, n: Seq<char>) -> int {
        choose|i: int| 0 <= i < self.scopes@.len() && (#[trigger] self.scopes@[i]).name@ == n
    }

    /// Well-formedness of a scope tree, established by the constructor and
    /// preserved by every mutation:
    /// the shift counter equals the permission count, which never exceeds 53;
    /// permission `i` owns exactly bit `i`; permission names and child names
    /// are pairwise distinct and the two namespaces are disjoint; and every
    /// child is well-formed in turn.
    pub open spec fn wf(self) -> bool
        decreases self,
    {
        &&& self.next_permission_shift as int == self.permissions@.len()
        &&& self.permissions@.len() <= MAX_SHIFT as int + 1
        &&& (forall|i: int|
            0 <= i < self.permissions@.len() ==> (#[trigger] self.permissions@[i]).value == (
            1u64 << (i as u64)))
        &&& (forall|i: int, j: int|
            #![trigger self.permissions@[i], self.permissions@[j]]
            0 <= i < j < self.permissions@.len()
                ==> self.permissions@[i].name@ != self.permissions@[j].name@)
        &&& (forall|i: int, j: int|
            #![trigger self.scopes@[i], self.scopes@[j]]
            0 <= i < j < self.scopes@.len() ==> self.scopes@[i].name@ != self.scopes@[j].name@)
        &&& (forall|i: int, j: int|
            #![trigger self.permissions@[i], self.scopes@[j]]
            0 <= i < self.permissions@.len() && 0 <= j < self.scopes@.len()
                ==> self.permissions@[i].name@ != self.scopes@[j].name@)
        &&& (forall|i: int| 0 <= i < self.scopes@.len() ==> (#[trigger] self.scopes@[i]).wf())
    }

    /// `t` is the collapse of `self`: same name, the aggregate of the direct
    /// permissions, the permission names in storage order, and the collapse
    /// of every child, in order.
    pub open spec fn collapses_to(self, t: ScopeTuple) -> bool
        decreases self,
    {
        &&& t.0@ == self.name@
        &&& t.1 == mask_of(self.permissions@)
        &&& t.2@.len() == self.permissions@.len()
        &&& (forall|i: int|
            0 <= i < self.permissions@.len() ==> (#[trigger] t.2@[i])@
                == self.permissions@[i].name@)
        &&& t.3@.len() == self.scopes@.len()
        &&& (forall|i: int|
            0 <= i < self.scopes@.len() ==> (#[trigger] self.scopes@[i]).collapses_to(t.3@[i]))
    }

    /// `self` is the expansion of `t`: permission `i` owns bit `i` and is
    /// granted exactly when bit `i` of the stored aggregate is set; the
    /// shift counter continues after the rebuilt permissions; the children
    /// are the expansions of the child tuples, in order.
    pub open spec fn expands_from(self, t: ScopeTuple) -> bool
        decreases t,
    {
        &&& self.name@ == t.0@
        &&& self.permissions@.len() == t.2@.len()
        &&& self.next_permission_shift as int == t.2@.len()
        &&& (forall|i: int|
            0 <= i < t.2@.len() ==> {
                let p = #[trigger] self.permissions@[i];
                &&& p.name@ == t.2@[i]@
                &&& p.value == (1u64 << (i as u64))
                &&& p.has_permission == (t.1 & (1u64 << (i as u64)) != 0)
            })
        &&& self.scopes@.len() == t.3@.len()
        &&& (forall|i: int|
            0 <= i < t.3@.len() ==> (#[trigger] self.scopes@[i]).expands_from(t.3@[i]))
    }

    /// Observational equivalence of two scope trees: same name, same
    /// aggregate, same permission names, same child names, and pairwise
    /// equivalent children.
    pub open spec fn equivalent_to(self, other: Scope) -> bool
        decreases self,
    {
        &&& self.name@ == other.name@
        &&& mask_of(self.permissions@) == mask_of(other.permissions@)
        &&& self.perm_names() == other.perm_names()
        &&& self.child_names() == other.child_names()
        &&& self.scopes@.len() == other.scopes@.len()
        &&& (forall|i: int|
            0 <= i < self.scopes@.len() ==> (#[trigger] self.scopes@[i]).equivalent_to(
                other.scopes@[i],
            ))
    }
}

impl ScopeTuple {
    /// Every permission-name count in the snapshot tree stays within the
    /// 53-bit cap, so expansion never needs a shift past the ceiling.
    pub open spec fn expandable(self) -> bool
        decreases self,
    {
        &&& self.2@.len() <= MAX_SHIFT as int + 1
        &&& (forall|i: int| 0 <= i < self.3@.len() ==> (#[trigger] self.3@[i]).expandable())
    }

    /// What collapsing a well-formed scope guarantees of the snapshot:
    /// at most 53 permission names, all distinct and disjoint from the
    /// child names, an aggregate that fits in the named bits, distinct
    /// child names, and well-formed children.
    pub open spec fn wf(self) -> bool
        decreases self,
    {
        &&& self.2@.len() <= MAX_SHIFT as int + 1
        &&& self.1 < (1u64 << (self.2@.len() as u64))
        &&& (forall|i: int, j: int|
            #![trigger self.2@[i], self.2@[j]]
            0 <= i < j < self.2@.len() ==> self.2@[i]@ != self.2@[j]@)
        &&& (forall|i: int, j: int|
            #![trigger self.3@[i], self.3@[j]]
            0 <= i < j < self.3@.len() ==> self.3@[i].0@ != self.3@[j].0@)
        &&& (forall|i: int, j: int|
            #![trigger self.2@[i], self.3@[j]]
            0 <= i < self.2@.len() && 0 <= j < self.3@.len() ==> self.2@[i]@ != self.3@[j].0@)
        &&& (forall|i: int| 0 <= i < self.3@.len() ==> (#[trigger] self.3@[i]).wf())
    }
}

/// The state a successful `add_permission` of name `n` leaves behind: one
/// new ungranted permission at the end, owning the bit of the old shift
/// counter, with everything else unchanged and the counter one higher.
pub open spec fn add_permission_post(pre: Scope, post: Scope, n: Seq<char>) -> bool {
    &&& post.name == pre.name
    &&& post.scopes@ == pre.scopes@
    &&& post.next_permission_shift as int == pre.next_permission_shift as int + 1
    &&& post.permissions@.len() == pre.permissions@.len() + 1
    &&& post.permissions@ == pre.permissions@.push(post.permissions@.last())
    &&& post.permissions@.last().name@ == n
    &&& post.permissions@.last().value == (1u64 << (pre.next_permission_shift as u64))
    &&& !post.permissions@.last().has_permission
}

/// The state a successful `add_scope` of name `n` leaves behind: one new
/// empty child scope at the end, with everything else unchanged.
pub open spec fn add_scope_post(pre: Scope, post: Scope, n: Seq<char>) -> bool {
    &&& post.name == pre.name
    &&& post.permissions@ == pre.permissions@
    &&& post.next_permission_shift == pre.next_permission_shift
    &&& post.scopes@.len() == pre.scopes@.len() + 1
    &&& post.scopes@ == pre.scopes@.push(post.scopes@.last())
    &&& post.scopes@.last().name@ == n
    &&& post.scopes@.last().permissions@.len() == 0
    &&& post.scopes@.last().scopes@.len() == 0
    &&& post.scopes@.last().next_permission_shift == 0
}

impl Scope {
    /// An empty, well-formed scope under `name`.
    pub fn new(name: &str) -> (res: Scope)
        ensures
            res.name@ == name@,
            res.permissions@.len() == 0,
            res.scopes@.len() == 0,
            res.next_permission_shift == 0,
            res.wf(),
    {
        Scope {
            name: name.to_string(),
            permissions: Vec::new(),
            next_permission_shift: 0,
            scopes: Vec::new(),
        }
    }

    /// Adds a permission under `name` at the next free bit, after checking
    /// the combined namespace; on success the scope itself is returned, for
    /// chaining. Succeeds exactly when the name is free and the shift
    /// counter is still within the ceiling; on failure nothing changes and
    /// the collision or max-value error is passed through unchanged.
    pub fn add_permission(&mut self, name: &str) -> (res: Result<&mut Scope, ErrorKind>)
        requires
            old(self).wf(),
        ensures
            ({
                let pre = *old(self);
                let free = !pre.has_permission_named(name@) && !pre.has_child_named(name@);
                &&& ((free && pre.next_permission_shift <= MAX_SHIFT) ==> (res matches Ok(s)
                    && add_permission_post(pre, *s, name@)
                    && (*s).wf()
                    && *final(self) == *final(s)))
                &&& (!(free && pre.next_permission_shift <= MAX_SHIFT) ==> *final(self) == pre)
                &&& ((pre.has_permission_named(name@) && !pre.has_child_named(name@)) ==> (
                res matches Err(e) && is_name_collision(
                    e,
                    name@,
                    ScopeErrorCase::PermissionExists,
                )))
                &&& ((!pre.has_permission_named(name@) && pre.has_child_named(name@)) ==> (
                res matches Err(e) && is_name_collision(e, name@, ScopeErrorCase::ScopeExists)))
                &&& ((pre.has_permission_named(name@) && pre.has_child_named(name@)) ==> (
                res matches Err(e) && is_name_collision(e, name@, ScopeErrorCase::BothExist)))
                &&& ((free && pre.next_permission_shift > MAX_SHIFT) ==> (res matches Err(e)
                    && is_max_value_error(e, name@, pre.next_permission_shift)))
            }),
    {
        let name_string = name.to_string();
        match self.validate_name(&name_string) {
            Ok(_) => {},
            Err(err) => {
                return Err(err);
            },
        }

        let new_perm = match Permission::new(name, self.next_permission_shift) {
            Ok(perm) => perm,
            Err(err) => {
                return Err(err);
            },
        };

        self.permissions.push(new_perm);
        self.next_permission_shift = self.next_permission_shift + 1;

        proof {
            let pre = *old(self);
            let post = *self;
            assert forall|i: int| 0 <= i < pre.permissions@.len() implies post.permissions@[i]
                == pre.permissions@[i] by {}
            assert(post.permissions@.last() == new_perm);
            assert(post.wf());
        }

        Ok(self)
    }

    /// Adds a fresh empty child scope under `name`, after checking the
    /// combined namespace; on success the scope itself is returned, for
    /// chaining. Succeeds exactly when the name is free; on failure nothing
    /// changes and the collision error is passed through unchanged.
    pub fn add_scope(&mut self, name: &str) -> (res: Result<&mut Scope, ErrorKind>)
        requires
            old(self).wf(),
        ensures
            ({
                let pre = *old(self);
                let free = !pre.has_permission_named(name@) && !pre.has_child_named(name@);
                &&& (free ==> (res matches Ok(s)
                    && add_scope_post(pre, *s, name@)
                    && (*s).wf()
                    && *final(self) == *final(s)))
                &&& (!free ==> *final(self) == pre)
                &&& ((pre.has_permission_named(name@) && !pre.has_child_named(name@)) ==> (
                res matches Err(e) && is_name_collision(
                    e,
                    name@,
                    ScopeErrorCase::PermissionExists,
                )))
                &&& ((!pre.has_permission_named(name@) && pre.has_child_named(name@)) ==> (
                res matches Err(e) && is_name_collision(e, name@, ScopeErrorCase::ScopeExists)))
                &&& ((pre.has_permission_named(name@) && pre.has_child_named(name@)) ==> (
                res matches Err(e) && is_name_collision(e, name@, ScopeErrorCase::BothExist)))
            }),
    {
        let name_string = name.to_string();
        match self.validate_name(&name_string) {
            Ok(_) => {},
            Err(err) => {
                return Err(err);
            },
        }

        let new_scope = Scope::new(name);
        self.scopes.push(new_scope);

        proof {
            let pre = *old(self);
            let post = *self;
            assert forall|i: int| 0 <= i < pre.scopes@.len() implies post.scopes@[i]
                == pre.scopes@[i] by {}
            assert(post.scopes@.last() == new_scope);
            assert(post.wf());
        }

        Ok(self)
    }

    /// The uniqueness gate over the combined namespace: succeeds exactly
    /// when `name` is neither a permission name nor a child-scope name, and
    /// otherwise reports which of the two (or both) it collided with.
    pub fn validate_name(&self, name: &String) -> (res: Result<(), ErrorKind>)
        ensures
            res is Ok <==> (!self.has_permission_named(name@) && !self.has_child_named(name@)),
            (self.has_permission_named(name@) && !self.has_child_named(name@)) ==> (res matches Err(
                e,
            ) && is_name_collision(e, name@, ScopeErrorCase::PermissionExists)),
            (!self.has_permission_named(name@) && self.has_child_named(name@)) ==> (res matches Err(
                e,
            ) && is_name_collision(e, name@, ScopeErrorCase::ScopeExists)),
            (self.has_permission_named(name@) && self.has_child_named(name@)) ==> (res matches Err(
                e,
            ) && is_name_collision(e, name@, ScopeErrorCase::BothExist)),
    {
        let perm_exists = contains_permission_named(&self.permissions, name);
        let scope_exists = contains_scope_named(&self.scopes, name);

        match (!perm_exists, !scope_exists) {
            (true, true) => Ok(()),
            (false, true) => Err(
                ErrorKind::ScopeError(ScopeError::new(ScopeErrorCase::PermissionExists, name)),
            ),
            (true, false) => Err(
                ErrorKind::ScopeError(ScopeError::new(ScopeErrorCase::ScopeExists, name)),
            ),
            (false, false) => Err(
                ErrorKind::ScopeError(ScopeError::new(ScopeErrorCase::BothExist, name)),
            ),
        }
    }

    /// Looks up a direct permission by name: a mutable handle when present,
    /// `None` exactly when absent (in particular on an empty scope). Only
    /// the looked-up permission can change through the handle.
    pub fn permission(&mut self, name: &str) -> (res: Option<&mut Permission>)
        requires
            old(self).wf(),
        ensures
            res is Some <==> old(self).has_permission_named(name@),
            res matches Some(p) ==> ({
                let i = old(self).perm_index(name@);
                &&& 0 <= i < old(self).permissions@.len()
                &&& old(self).permissions@[i].name@ == name@
                &&& *p == old(self).permissions@[i]
                &&& final(self).permissions@ == old(self).permissions@.update(i, *final(p))
                &&& final(self).name == old(self).name
                &&& final(self).scopes == old(self).scopes
                &&& final(self).next_permission_shift == old(self).next_permission_shift
            }),
            res is None ==> *final(self) == *old(self),
    {
        let name_string = name.to_string();
        let mut idx: usize = 0;

        while idx < self.permissions.len()
            invariant
                *self == *old(self),
                old(self).wf(),
                name_string@ == name@,
                idx <= self.permissions@.len(),
                forall|i: int| 0 <= i < idx ==> (#[trigger] self.permissions@[i]).name@ != name@,
            decreases self.permissions@.len() - idx,
        {
            if self.permissions[idx].name == name_string {
                proof {
                    assert(old(self).permissions@ == self.permissions@);
                    assert(old(self).permissions@[idx as int].name@ == name@);
                    assert(old(self).has_permission_named(name@));
                    let i = old(self).perm_index(name@);
                    assert(0 <= i < old(self).permissions@.len()
                        && old(self).permissions@[i].name@ == name@);
                    assert(i == idx as int) by {
                        if i < idx as int {
                            assert(old(self).permissions@[i].name@
                                != old(self).permissions@[idx as int].name@);
                        }
                        if i > idx as int {
                            assert(old(self).permissions@[idx as int].name@
                                != old(self).permissions@[i].name@);
                        }
                    }
                }
                return Some(&mut self.permissions[idx]);
            }
            idx = idx + 1;
        }

        None
    }

    /// Looks up a direct child scope by name: a mutable handle when present,
    /// `None` exactly when absent (in particular on an empty scope). Only
    /// the looked-up child can change through the handle.
    pub fn scope(&mut self, name: &str) -> (res: Option<&mut Scope>)
        requires
            old(self).wf(),
        ensures
            res is Some <==> old(self).has_child_named(name@),
            res matches Some(c) ==> ({
                let i = old(self).child_index(name@);
                &&& 0 <= i < old(self).scopes@.len()
                &&& old(self).scopes@[i].name@ == name@
                &&& *c == old(self).scopes@[i]
                &&& final(self).scopes@ == old(self).scopes@.update(i, *final(c))
                &&& final(self).name == old(self).name
                &&& final(self).permissions == old(self).permissions
                &&& final(self).next_permission_shift == old(self).next_permission_shift
            }),
            res is None ==> *final(self) == *old(self),
    {
        let name_string = name.to_string();
        let mut idx: usize = 0;

        while idx < self.scopes.len()
            invariant
                *self == *old(self),
                old(self).wf(),
                name_string@ == name@,
                idx <= self.scopes@.len(),
                forall|i: int| 0 <= i < idx ==> (#[trigger] self.scopes@[i]).name@ != name@,
            decreases self.scopes@.len() - idx,
        {
            if self.scopes[idx].name == name_string {
                proof {
                    assert(old(self).scopes@ == self.scopes@);
                    assert(old(self).scopes@[idx as int].name@ == name@);
                    assert(old(self).has_child_named(name@));
                    let i = old(self).child_index(name@);
                    assert(0 <= i < old(self).scopes@.len()
                        && old(self).scopes@[i].name@ == name@);
                    assert(i == idx as int) by {
                        if i < idx as int {
                            assert(old(self).scopes@[i].name@
                                != old(self).scopes@[idx as int].name@);
                        }
                        if i > idx as int {
                            assert(old(self).scopes@[idx as int].name@
                                != old(self).scopes@[i].name@);
                        }
                    }
                }
                return Some(&mut self.scopes[idx]);
            }
            idx = idx + 1;
        }

        None
    }

    /// Aggregate of the granted direct permissions as one integer; ungranted
    /// permissions and child scopes contribute nothing.
    pub fn as_u64(&self) -> (value: u64)
        ensures
            value == mask_of(self.permissions@),
    {
        let mut value: u64 = 0;
        let mut idx: usize = 0;

        while idx < self.permissions.len()
            invariant
                idx <= self.permissions@.len(),
                value == mask_of(self.permissions@.take(idx as int)),
            decreases self.permissions@.len() - idx,
        {
            if self.permissions[idx].has_permission {
                value = value | self.permissions[idx].value;
            }
            idx = idx + 1;
            proof {
                let taken = self.permissions@.take(idx as int);
                assert(taken.drop_last() =~= self.permissions@.take(idx - 1));
                assert(taken.last() == self.permissions@[idx - 1]);
                let m0 = mask_of(taken.drop_last());
                assert(m0 | 0u64 == m0) by (bit_vector);
            }
        }

        proof {
            assert(self.permissions@.take(self.permissions@.len() as int) =~= self.permissions@);
        }

        value
    }

    /// Collapses the scope tree into its tuple snapshot: name, aggregate,
    /// permission names in storage order, and the children's snapshots.
    /// Of a well-formed scope the snapshot is well-formed, and in
    /// particular safe to expand again.
    #[verifier::loop_isolation(false)]
    pub fn as_tuple(&self) -> (res: ScopeTuple)
        ensures
            self.collapses_to(res),
            self.wf() ==> res.wf() && res.expandable(),
        decreases *self,
    {
        let mut permissions_vector: Vec<String> = Vec::new();
        let mut i: usize = 0;

        while i < self.permissions.len()
            invariant
                i <= self.permissions@.len(),
                permissions_vector@.len() == i,
                forall|k: int|
                    0 <= k < i ==> (#[trigger] permissions_vector@[k])@
                        == self.permissions@[k].name@,
            decreases self.permissions@.len() - i,
        {
            permissions_vector.push(self.permissions[i].name.clone());
            i = i + 1;
        }

        let mut scopes_vector: Vec<ScopeTuple> = Vec::new();
        let mut j: usize = 0;

        while j < self.scopes.len()
            invariant
                j <= self.scopes@.len(),
                scopes_vector@.len() == j,
                forall|k: int|
                    0 <= k < j ==> (#[trigger] self.scopes@[k]).collapses_to(scopes_vector@[k]),
            decreases self.scopes@.len() - j,
        {
            scopes_vector.push(self.scopes[j].as_tuple());
            j = j + 1;
        }

        let res = ScopeTuple(self.name.clone(), self.as_u64(), permissions_vector, scopes_vector);

        proof {
            if self.wf() {
                lemma_collapse_well_formed(*self, res);
            }
        }

        res
    }

    /// Rebuilds a live scope from a tuple snapshot. Every snapshot that
    /// `as_tuple` takes of a well-formed scope is accepted; one whose
    /// permission count would push a shift past the safe ceiling is corrupt
    /// and lies outside this function's domain.
    pub fn from(tuple: ScopeTuple) -> (res: Scope)
        requires
            tuple.expandable(),
        ensures
            res.expands_from(tuple),
    {
        Scope::expand(&tuple)
    }

    /// Recursive worker of [`Scope::from`], expanding by reference.
    #[verifier::loop_isolation(false)]
    fn expand(tuple: &ScopeTuple) -> (res: Scope)
        requires
            tuple.expandable(),
        ensures
            res.expands_from(*tuple),
        decreases *tuple,
    {
        let mut permissions: Vec<Permission> = Vec::new();
        let mut i: usize = 0;

        while i < tuple.2.len()
            invariant
                i <= tuple.2@.len(),
                permissions@.len() == i,
                forall|k: int|
                    0 <= k < i ==> {
                        let p = #[trigger] permissions@[k];
                        &&& p.name@ == tuple.2@[k]@
                        &&& p.value == (1u64 << (k as u64))
                        &&& p.has_permission == (tuple.1 & (1u64 << (k as u64)) != 0)
                    },
            decreases tuple.2@.len() - i,
        {
            let mut perm = match Permission::new(tuple.2[i].as_str(), i as u8) {
                Ok(p) => p,
                Err(_) => {
                    // the shift is at most 52 here, so creation cannot fail
                    vstd::pervasive::unreached()
                },
            };

            proof {
                let a = tuple.1;
                let k = i as u64;
                assert((a & (1u64 << k) == (1u64 << k)) == (a & (1u64 << k) != 0))
                    by (bit_vector)
                    requires
                        k <= 52,
                ;
            }

            if tuple.1 & (1u64 << (i as u64)) == (1u64 << (i as u64)) {
                let _ = perm.grant();
            }

            permissions.push(perm);
            i = i + 1;
        }

        let mut scopes: Vec<Scope> = Vec::new();
        let mut j: usize = 0;

        while j < tuple.3.len()
            invariant
                j <= tuple.3@.len(),
                scopes@.len() == j,
                forall|k: int| 0 <= k < j ==> (#[trigger] scopes@[k]).expands_from(tuple.3@[k]),
            decreases tuple.3@.len() - j,
        {
            scopes.push(Scope::expand(&tuple.3[j]));
            j = j + 1;
        }

        let mut scope = Scope::new(tuple.0.as_str());
        scope.permissions = permissions;
        scope.next_permission_shift = tuple.2.len() as u8;
        scope.scopes = scopes;

        scope
    }
}

/// In a list where permission `i` owns bit `i`, the aggregate keeps one bit
/// per permission: it stays below `1 << len`, and bit `i` is set exactly
/// when permission `i` is granted.
pub proof fn lemma_mask_bits(perms: Seq<Permission>)
    requires
        perms.len() <= 53,
        forall|i: int|
            0 <= i < perms.len() ==> (#[trigger] perms[i]).value == (1u64 << (i as u64)),
    ensures
        mask_of(perms) < (1u64 << (perms.len() as u64)),
        forall|i: int|
            0 <= i < perms.len() ==> ((mask_of(perms) & (1u64 << (i as u64)) != 0) == (
            #[trigger] perms[i]).has_permission),
    decreases perms.len(),
{
    if perms.len() == 0 {
        assert(mask_of(perms) == 0);
        assert(0u64 < (1u64 << 0u64)) by (bit_vector);
    } else {
        let prefix = perms.drop_last();
        assert(forall|i: int| 0 <= i < prefix.len() ==> #[trigger] prefix[i] == perms[i]);
        lemma_mask_bits(prefix);

        let n = (perms.len() - 1) as u64;
        let l = perms.len() as u64;
        let m0 = mask_of(prefix);
        let m = mask_of(perms);
        assert(perms.last() == perms[perms.len() - 1]);
        assert(perms.last().value == (1u64 << n));

        if perms.last().has_permission {
            assert(m == m0 | (1u64 << n));
            assert((m0 | (1u64 << n)) < (1u64 << l) && ((m0 | (1u64 << n)) & (1u64 << n)) != 0)
                by (bit_vector)
                requires
                    n <= 52,
                    l == n + 1,
                    m0 < (1u64 << n),
            ;
        } else {
            assert(m == m0 | 0u64);
            assert((m0 | 0u64) == m0 && m0 < (1u64 << l) && (m0 & (1u64 << n)) == 0)
                by (bit_vector)
                requires
                    n <= 52,
                    l == n + 1,
                    m0 < (1u64 << n),
            ;
        }

        assert forall|i: int| 0 <= i < perms.len() implies ((m & (1u64 << (i as u64)) != 0) == (
        #[trigger] perms[i]).has_permission) by {
            let ki = i as u64;
            if i < perms.len() - 1 {
                assert((m0 & (1u64 << ki) != 0) == prefix[i].has_permission);
                if perms.last().has_permission {
                    assert(((m0 | (1u64 << n)) & (1u64 << ki)) == (m0 & (1u64 << ki)))
                        by (bit_vector)
                        requires
                            ki < n,
                            n <= 52,
                    ;
                } else {
                    assert((m0 | 0u64) == m0) by (bit_vector);
                }
            }
        }
    }
}

/// A list whose permission `i` owns bit `i` and is granted exactly at the
/// set bits of `a` aggregates back to `a` itself, provided `a` fits within
/// the listed bits.
pub proof fn lemma_mask_matches_bits(perms: Seq<Permission>, a: u64)
    requires
        perms.len() <= 53,
        a < (1u64 << (perms.len() as u64)),
        forall|i: int|
            0 <= i < perms.len() ==> ((#[trigger] perms[i]).value == (1u64 << (i as u64))
                && perms[i].has_permission == (a & (1u64 << (i as u64)) != 0)),
    ensures
        mask_of(perms) == a,
    decreases perms.len(),
{
    if perms.len() == 0 {
        assert(mask_of(perms) == 0);
        assert(a < (1u64 << 0u64) ==> a == 0) by (bit_vector);
    } else {
        let n = (perms.len() - 1) as u64;
        let l = perms.len() as u64;
        let prefix = perms.drop_last();
        let a0 = a & (((1u64 << n) - 1) as u64);
        assert(forall|i: int| 0 <= i < prefix.len() ==> #[trigger] prefix[i] == perms[i]);

        assert(a0 < (1u64 << n))
            by (bit_vector)
            requires
                n <= 52,
                a0 == a & (((1u64 << n) - 1) as u64),
        ;
        assert forall|i: int| 0 <= i < prefix.len() implies ((#[trigger] prefix[i]).value == (
        1u64 << (i as u64)) && prefix[i].has_permission == (a0 & (1u64 << (i as u64)) != 0)) by {
            let ki = i as u64;
            assert(((a & (((1u64 << n) - 1) as u64)) & (1u64 << ki)) == (a & (1u64 << ki)))
                by (bit_vector)
                requires
                    ki < n,
                    n <= 52,
            ;
        }
        lemma_mask_matches_bits(prefix, a0);

        let m0 = mask_of(prefix);
        let m = mask_of(perms);
        assert(perms.last() == perms[perms.len() - 1]);
        assert(perms.last().value == (1u64 << n));

        if perms.last().has_permission {
            assert(a & (1u64 << n) != 0);
            assert(m == m0 | (1u64 << n));
            assert((a0 | (1u64 << n)) == a)
                by (bit_vector)
                requires
                    n <= 52,
                    l == n + 1,
                    a < (1u64 << l),
                    a0 == a & (((1u64 << n) - 1) as u64),
                    a & (1u64 << n) != 0,
            ;
        } else {
            assert(a & (1u64 << n) == 0);
            assert(m == m0 | 0u64);
            assert((a0 | 0u64) == a0 && a0 == a)
                by (bit_vector)
                requires
                    n <= 52,
                    l == n + 1,
                    a < (1u64 << l),
                    a0 == a & (((1u64 << n) - 1) as u64),
                    a & (1u64 << n) == 0,
            ;
        }
    }
}

/// Mutating a looked-up permission preserves scope well-formedness as long
/// as the permission's name and bit value stay unchanged, which is all that
/// `grant` and `revoke` touch.
pub proof fn lemma_wf_after_permission_update(pre: Scope, post: Scope, i: int, p: Permission)
    requires
        pre.wf(),
        0 <= i < pre.permissions@.len(),
        p.name@ == pre.permissions@[i].name@,
        p.value == pre.permissions@[i].value,
        post.permissions@ == pre.permissions@.update(i, p),
        post.name == pre.name,
        post.scopes == pre.scopes,
        post.next_permission_shift == pre.next_permission_shift,
    ensures
        post.wf(),
{
    assert(forall|k: int|
        0 <= k < post.permissions@.len() ==> (#[trigger] post.permissions@[k]).name@
            == pre.permissions@[k].name@ && post.permissions@[k].value
            == pre.permissions@[k].value);
}

/// In a well-formed scope a name can collide with a permission or with a
/// child scope, never with both: the combined namespace stays disjoint.
pub proof fn lemma_no_double_collision(s: Scope, n: Seq<char>)
    requires
        s.wf(),
    ensures
        !(s.has_permission_named(n) && s.has_child_named(n)),
{
    if s.has_permission_named(n) && s.has_child_named(n) {
        let i = s.perm_index(n);
        let j = s.child_index(n);
        assert(s.permissions@[i].name@ == n && s.scopes@[j].name@ == n);
        assert(false);
    }
}

/// After a permission named `n` is added, `n` is taken by a permission and
/// still free among the child scopes, so adding `n` again, as a permission
/// or as a scope, collides with the existing permission.
pub proof fn lemma_duplicate_name_collides_with_permission(pre: Scope, post: Scope, n: Seq<char>)
    requires
        !pre.has_child_named(n),
        add_permission_post(pre, post, n),
    ensures
        post.has_permission_named(n),
        !post.has_child_named(n),
{
    assert(post.permissions@[post.permissions@.len() - 1].name@ == n);
}

/// After a child scope named `n` is added, `n` is taken by a child scope
/// and still free among the permissions, so adding `n` again, as a
/// permission or as a scope, collides with the existing child scope.
pub proof fn lemma_duplicate_name_collides_with_scope(pre: Scope, post: Scope, n: Seq<char>)
    requires
        !pre.has_permission_named(n),
        add_scope_post(pre, post, n),
    ensures
        post.has_child_named(n),
        !post.has_permission_named(n),
{
    assert(post.scopes@[post.scopes@.len() - 1].name@ == n);
}

/// The snapshot that `as_tuple` takes of a well-formed scope is itself
/// well-formed, and in particular safe to expand: no permission count in
/// the tree exceeds the 53-bit cap.
pub proof fn lemma_collapse_well_formed(s: Scope, t: ScopeTuple)
    requires
        s.wf(),
        s.collapses_to(t),
    ensures
        t.expandable(),
        t.wf(),
    decreases s,
{
    lemma_mask_bits(s.permissions@);
    assert forall|i: int| 0 <= i < t.3@.len() implies (#[trigger] t.3@[i]).expandable()
        && t.3@[i].wf() by {
        assert(s.scopes@[i].wf());
        assert(s.scopes@[i].collapses_to(t.3@[i]));
        lemma_collapse_well_formed(s.scopes@[i], t.3@[i]);
    }
    assert forall|i: int, j: int|
        #![trigger t.3@[i], t.3@[j]]
        0 <= i < j < t.3@.len() implies t.3@[i].0@ != t.3@[j].0@ by {
        assert(s.scopes@[i].collapses_to(t.3@[i]));
        assert(s.scopes@[j].collapses_to(t.3@[j]));
        assert(s.scopes@[i].name@ != s.scopes@[j].name@);
    }
    assert forall|i: int, j: int|
        #![trigger t.2@[i], t.3@[j]]
        0 <= i < t.2@.len() && 0 <= j < t.3@.len() implies t.2@[i]@ != t.3@[j].0@ by {
        assert(s.scopes@[j].collapses_to(t.3@[j]));
        assert(s.permissions@[i].name@ != s.scopes@[j].name@);
    }
}

/// Round trip: expanding the collapse of any well-formed scope yields a
/// well-formed scope that is observationally equivalent to the original,
/// recursively through all descendants.
pub proof fn lemma_collapse_then_expand_round_trip(s: Scope, t: ScopeTuple, r: Scope)
    requires
        s.wf(),
        s.collapses_to(t),
        r.expands_from(t),
    ensures
        r.equivalent_to(s),
        r.wf(),
    decreases s,
{
    lemma_mask_bits(s.permissions@);
    lemma_mask_matches_bits(r.permissions@, t.1);

    assert(r.perm_names() =~= s.perm_names());
    assert forall|i: int| 0 <= i < r.scopes@.len() implies (#[trigger] r.scopes@[i]).name@
        == s.scopes@[i].name@ by {
        assert(s.scopes@[i].collapses_to(t.3@[i]));
        assert(r.scopes@[i].expands_from(t.3@[i]));
    }
    assert(r.child_names() =~= s.child_names());

    assert forall|i: int| 0 <= i < r.scopes@.len() implies (#[trigger] r.scopes@[i]).equivalent_to(
        s.scopes@[i],
    ) && r.scopes@[i].wf() by {
        assert(s.scopes@[i].wf());
        assert(s.scopes@[i].collapses_to(t.3@[i]));
        assert(r.scopes@[i].expands_from(t.3@[i]));
        lemma_collapse_then_expand_round_trip(s.scopes@[i], t.3@[i], r.scopes@[i]);
    }

    assert forall|i: int, j: int|
        #![trigger r.permissions@[i], r.permissions@[j]]
        0 <= i < j < r.permissions@.len() implies r.permissions@[i].name@
        != r.permissions@[j].name@ by {
        assert(r.permissions@[i].name@ == s.permissions@[i].name@);
        assert(r.permissions@[j].name@ == s.permissions@[j].name@);
        assert(s.permissions@[i].name@ != s.permissions@[j].name@);
    }
    assert forall|i: int, j: int|
        #![trigger r.scopes@[i], r.scopes@[j]]
        0 <= i < j < r.scopes@.len() implies r.scopes@[i].name@ != r.scopes@[j].name@ by {
        assert(s.scopes@[i].name@ != s.scopes@[j].name@);
    }
    assert forall|i: int, j: int|
        #![trigger r.permissions@[i], r.scopes@[j]]
        0 <= i < r.permissions@.len() && 0 <= j < r.scopes@.len() implies r.permissions@[i].name@
        != r.scopes@[j].name@ by {
        assert(r.permissions@[i].name@ == s.permissions@[i].name@);
        assert(s.permissions@[i].name@ != s.scopes@[j].name@);
    }
}


/// Whether some permission in `perms` is named `name`.
fn contains_permission_named(perms: &Vec<Permission>, name: &String) -> (res: bool)
    ensures
        res == exists|i: int| 0 <= i < perms@.len() && (#[trigger] perms@[i]).name@ == name@,
{
    let mut idx: usize = 0;

    while idx < perms.len()
        invariant
            idx <= perms@.len(),
            forall|i: int| 0 <= i < idx ==> (#[trigger] perms@[i]).name@ != name@,
        decreases perms@.len() - idx,
    {
        if perms[idx].name == *name {
            return true;
        }
        idx = idx + 1;
    }

    false
}

/// Whether some scope in `scopes` is named `name`.
fn contains_scope_named(scopes: &Vec<Scope>, name: &String) -> (res: bool)
    ensures
        res == exists|i: int| 0 <= i < scopes@.len() && (#[trigger] scopes@[i]).name@ == name@,
{
    let mut idx: usize = 0;

    while idx < scopes.len()
        invariant
            idx <= scopes@.len(),
            forall|i: int| 0 <= i < idx ==> (#[trigger] scopes@[i]).name@ != name@,
        decreases scopes@.len() - idx,
    {
        if scopes[idx].name == *name {
            return true;
        }
        idx = idx + 1;
    }

    false
}

} // verus!
