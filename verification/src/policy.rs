//! Group-wide role policy: roles, channels, and the replicated policy table
//! carried as a group-context extension.

use vstd::prelude::*;
use crate::permissions::UserPermissions;

verus! {

/// A named role: its id, display name (UTF-8 bytes), and granted permissions.
#[derive(Clone, PartialEq, Eq, Debug)]
pub struct GroupRole {
    pub id: u8,
    pub name: Vec<u8>,
    pub permissions: UserPermissions,
}

/// Mathematical model of a role.
#[verifier::ext_equal]
pub struct GroupRoleView {
    pub id: u8,
    pub name: Seq<u8>,
    pub permissions: u8,
}

impl View for GroupRole {
    type V = GroupRoleView;

    open spec fn view(&self) -> GroupRoleView {
        GroupRoleView { id: self.id, name: self.name@, permissions: self.permissions.0 }
    }
}

/// The kind of a channel.
#[derive(Copy, Clone, PartialEq, Eq, Structural, Debug)]
pub enum ChannelType {
    Media,
    Text,
}

/// A named channel: its id, display name (UTF-8 bytes), and kind.
#[derive(Clone, PartialEq, Eq, Debug)]
pub struct GroupChannel {
    pub id: u8,
    pub name: Vec<u8>,
    pub ty: ChannelType,
}

/// Mathematical model of a channel.
#[verifier::ext_equal]
pub struct GroupChannelView {
    pub id: u8,
    pub name: Seq<u8>,
    pub ty: ChannelType,
}

impl View for GroupChannel {
    type V = GroupChannelView;

    open spec fn view(&self) -> GroupChannelView {
        GroupChannelView { id: self.id, name: self.name@, ty: self.ty }
    }
}

/// The group-wide policy table: ordered roles and ordered channels,
/// replicated identically to all members by the engine.
#[derive(Clone, PartialEq, Eq, Debug)]
pub struct FireflyGroupContext {
    pub roles: Vec<GroupRole>,
    pub channels: Vec<GroupChannel>,
}

/// Mathematical model of the policy table.
#[verifier::ext_equal]
pub struct FireflyGroupContextView {
    pub roles: Seq<GroupRoleView>,
    pub channels: Seq<GroupChannelView>,
}

impl View for FireflyGroupContext {
    type V = FireflyGroupContextView;

    open spec fn view(&self) -> FireflyGroupContextView {
        FireflyGroupContextView {
            roles: self.roles@.map_values(|r: GroupRole| r@),
            channels: self.channels@.map_values(|c: GroupChannel| c@),
        }
    }
}

/// The policy table in its extension framing.
#[derive(Clone, PartialEq, Eq, Debug)]
pub struct FireflyGroupExtension {
    pub context: FireflyGroupContext,
}

impl View for FireflyGroupExtension {
    type V = FireflyGroupContextView;

    open spec fn view(&self) -> FireflyGroupContextView {
        self.context@
    }
}

} // verus!
