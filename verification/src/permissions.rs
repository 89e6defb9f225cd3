//! Capability model: a bit mask over the five user permissions.

use vstd::prelude::*;

verus! {

/// One capability a role can grant.
#[derive(Copy, Clone, PartialEq, Eq, Structural, Debug)]
pub enum UserPermission {
    AddUser,
    RemoveUser,
    AddMessage,
    ManageChannel,
    ManageRole,
}

/// The wire bit assigned to each permission.
pub open spec fn spec_permission_bit(p: UserPermission) -> u8 {
    match p {
        UserPermission::AddUser => 1,
        UserPermission::RemoveUser => 2,
        UserPermission::AddMessage => 4,
        UserPermission::ManageChannel => 8,
        UserPermission::ManageRole => 16,
    }
}

/// Whether the mask grants the permission: its bit is set.
pub open spec fn spec_has_permission(mask: u8, p: UserPermission) -> bool {
    mask & spec_permission_bit(p) == spec_permission_bit(p)
}

/// An 8-bit mask over the permissions; undefined bits are ignored, never
/// rejected.
#[derive(Copy, Clone, PartialEq, Eq, Structural, Debug)]
pub struct UserPermissions(pub u8);

impl UserPermission {
    /// The wire bit of this permission.
    pub fn bit(self) -> (r: u8)
        ensures
            r == spec_permission_bit(self),
    {
        match self {
            UserPermission::AddUser => 1,
            UserPermission::RemoveUser => 2,
            UserPermission::AddMessage => 4,
            UserPermission::ManageChannel => 8,
            UserPermission::ManageRole => 16,
        }
    }
}

impl UserPermissions {
    /// Bitwise containment test; no error path.
    pub fn has(&self, permission: UserPermission) -> (r: bool)
        ensures
            r == spec_has_permission(self.0, permission),
    {
        let bit = permission.bit();
        self.0 & bit == bit
    }
}

/// A permission is granted exactly when its own bit is set, whatever the
/// other bits of the mask hold.
pub proof fn lemma_has_permission_independent(m1: u8, m2: u8, p: UserPermission)
    requires
        m1 & spec_permission_bit(p) == m2 & spec_permission_bit(p),
    ensures
        spec_has_permission(m1, p) == spec_has_permission(m2, p),
{
}

/// The containment test is equivalent to the granted bit being non-zero.
pub proof fn lemma_has_permission_nonzero(mask: u8, p: UserPermission)
    ensures
        spec_has_permission(mask, p) == (mask & spec_permission_bit(p) != 0),
{
    let b = spec_permission_bit(p);
    assert((mask & 1 == 1) == (mask & 1 != 0)) by (bit_vector);
    assert((mask & 2 == 2) == (mask & 2 != 0)) by (bit_vector);
    assert((mask & 4 == 4) == (mask & 4 != 0)) by (bit_vector);
    assert((mask & 8 == 8) == (mask & 8 != 0)) by (bit_vector);
    assert((mask & 16 == 16) == (mask & 16 != 0)) by (bit_vector);
}

} // verus!
