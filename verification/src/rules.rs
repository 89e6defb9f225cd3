//! The proposal authorizer: given the current policy, roster, and a batch
//! of candidate proposals, returns the admissible subset or fails the
//! whole call. Permission denials only shrink the batch; structural
//! failures abort it with no partial result.

use vstd::prelude::*;
use crate::codec::decode_group_extension;
use crate::codec::decode_member_credential;
use crate::codec::spec_decode_context;
use crate::codec::spec_decode_credential;
use crate::credential::FireflyMemberCredential;
use crate::credential::FireflyMemberCredentialView;
use crate::engine::CommitDirection;
use crate::engine::CommitSource;
use crate::engine::FIREFLY_ROSTER_EXTENSION_TYPE;
use crate::engine::GroupContext;
use crate::engine::MemberView;
use crate::engine::ProposalBundle;
use crate::engine::ProposalEntry;
use crate::engine::ProposalEntryView;
use crate::engine::ProposalView;
use crate::engine::Roster;
use crate::engine::Sender;
use crate::engine::bytes_eq;
use crate::engine::spec_find_extension;
use crate::engine::spec_member_with_index;
use crate::engine::EngineCredentialView;
use crate::engine::EngineCredential;
use crate::error::AuthorizationError;
use crate::error::FireflyError;
use crate::permissions::UserPermission;
use crate::permissions::UserPermissions;
use crate::permissions::spec_has_permission;
use crate::policy::FireflyGroupContext;
use crate::policy::FireflyGroupContextView;

verus! {

/// How a packet is padded before encryption.
#[derive(Copy, Clone, PartialEq, Eq, Structural, Debug)]
pub enum PaddingMode {
    NoPadding,
    StepFunction,
}

/// Packaging choices made when preparing a commit.
#[derive(Copy, Clone, PartialEq, Eq, Structural, Debug)]
pub struct CommitOptions {
    pub path_required: bool,
    pub ratchet_tree_extension: bool,
    pub single_welcome_message: bool,
    pub allow_external_commit: bool,
}

/// Packaging choices made when sending any packet.
#[derive(Copy, Clone, PartialEq, Eq, Structural, Debug)]
pub struct EncryptionOptions {
    pub encrypt_control_messages: bool,
    pub padding_mode: PaddingMode,
}

/// The policy table read out of the group context: the first extension
/// carrying this system's tag, decoded strictly.
pub open spec fn spec_policy_of(exts: Seq<crate::engine::ExtensionView>) -> Result<
    FireflyGroupContextView,
    AuthorizationError,
> {
    match spec_find_extension(exts, FIREFLY_ROSTER_EXTENSION_TYPE) {
        None => Err(AuthorizationError::PolicyMissing),
        Some(e) => {
            match spec_decode_context(e.extension_data) {
                Some(p) => {
                    if p.1 == e.extension_data.len() {
                        Ok(p.0)
                    } else {
                        Err(AuthorizationError::DecodeError)
                    }
                },
                None => Err(AuthorizationError::DecodeError),
            }
        },
    }
}

/// The member credential decoded out of a roster slot: the slot must hold
/// a custom credential whose payload decodes exactly.
pub open spec fn spec_credential_of(m: MemberView) -> Result<
    FireflyMemberCredentialView,
    AuthorizationError,
> {
    match m.credential {
        EngineCredentialView::Custom { credential_type, data } => {
            match spec_decode_credential(data) {
                Some(p) => {
                    if p.1 == data.len() {
                        Ok(p.0)
                    } else {
                        Err(AuthorizationError::DecodeError)
                    }
                },
                None => Err(AuthorizationError::DecodeError),
            }
        },
        _ => Err(AuthorizationError::DecodeError),
    }
}

/// Resolves a proposal sender against roster and policy: the sender must
/// be a member reference, present in the roster, with a decodable
/// credential, a default role entry, and a role index inside the policy
/// table. The result is the credential and the resolved permission mask.
pub open spec fn spec_sender_resolution(
    policy: FireflyGroupContextView,
    roster: Seq<MemberView>,
    sender: Sender,
) -> Result<(FireflyMemberCredentialView, u8), AuthorizationError> {
    match sender {
        Sender::Member(idx) => {
            match spec_member_with_index(roster, idx) {
                None => Err(AuthorizationError::UnauthorizedSender),
                Some(m) => {
                    match spec_credential_of(m) {
                        Err(e) => Err(e),
                        Ok(cred) => {
                            if cred.channels_and_roles.len() == 0 {
                                Err(AuthorizationError::RoleResolutionFailure)
                            } else if cred.channels_and_roles[0] >= policy.roles.len() {
                                Err(AuthorizationError::RoleResolutionFailure)
                            } else {
                                Ok((cred, policy.roles[cred.channels_and_roles[0] as int].permissions))
                            }
                        },
                    }
                },
            }
        },
        _ => Err(AuthorizationError::UnauthorizedSender),
    }
}

/// The per-kind rule table: whether a resolved sender's entry is kept.
pub open spec fn spec_kind_rule(
    proposal: ProposalView,
    cred: FireflyMemberCredentialView,
    perms: u8,
) -> bool {
    match proposal {
        ProposalView::Add { key_package } => spec_has_permission(
            perms,
            UserPermission::AddUser,
        ),
        ProposalView::Remove { to_remove } => spec_has_permission(
            perms,
            UserPermission::RemoveUser,
        ),
        ProposalView::Update { new_public_key } => new_public_key == cred.user_public_key,
        ProposalView::Psk { psk_id } => false,
        ProposalView::ReInit { group_id } => false,
        ProposalView::ExternalInit { kem_output } => false,
        ProposalView::GroupContextExtensions { extensions } => spec_has_permission(
            perms,
            UserPermission::ManageChannel,
        ),
        ProposalView::Custom { proposal_type, data } => false,
    }
}

/// The decision for one batch entry: kept, dropped, or whole-batch fatal.
pub open spec fn spec_entry_check(
    policy: FireflyGroupContextView,
    roster: Seq<MemberView>,
    entry: ProposalEntryView,
) -> Result<bool, AuthorizationError> {
    match spec_sender_resolution(policy, roster, entry.sender) {
        Err(e) => Err(e),
        Ok(res) => Ok(spec_kind_rule(entry.proposal, res.0, res.1)),
    }
}

/// Filters a batch entry by entry, in order: the first fatal entry aborts
/// the whole batch; otherwise exactly the kept entries remain, in their
/// original order and untouched.
pub open spec fn spec_filter_entries(
    policy: FireflyGroupContextView,
    roster: Seq<MemberView>,
    entries: Seq<ProposalEntryView>,
) -> Result<Seq<ProposalEntryView>, AuthorizationError>
    decreases entries.len(),
{
    if entries.len() == 0 {
        Ok(Seq::empty())
    } else {
        match spec_entry_check(policy, roster, entries[0]) {
            Err(e) => Err(e),
            Ok(keep) => {
                match spec_filter_entries(policy, roster, entries.skip(1)) {
                    Err(e) => Err(e),
                    Ok(rest) => {
                        if keep {
                            Ok(seq![entries[0]] + rest)
                        } else {
                            Ok(rest)
                        }
                    },
                }
            },
        }
    }
}

/// The whole-call decision procedure: a non-member author or an absent or
/// malformed policy extension fails the call; otherwise the batch is
/// filtered entry by entry.
pub open spec fn spec_filter(
    source: CommitSource,
    roster: Seq<MemberView>,
    exts: Seq<crate::engine::ExtensionView>,
    entries: Seq<ProposalEntryView>,
) -> Result<Seq<ProposalEntryView>, AuthorizationError> {
    match source {
        CommitSource::NewMember => Err(AuthorizationError::UnauthorizedSender),
        CommitSource::ExistingMember(author) => {
            match spec_policy_of(exts) {
                Err(e) => Err(e),
                Ok(policy) => spec_filter_entries(policy, roster, entries),
            }
        },
    }
}

/// A resolved sender: its decoded credential and permission mask.
pub struct SenderResolution {
    pub credential: FireflyMemberCredential,
    pub permissions: UserPermissions,
}

/// Resolves a proposal sender against roster and policy.
pub fn resolve_sender(policy: &FireflyGroupContext, roster: &Roster, sender: Sender) -> (r: Result<
    SenderResolution,
    AuthorizationError,
>)
    ensures
        match r {
            Ok(res) => spec_sender_resolution(policy@, roster@, sender) == Ok::<
                _,
                AuthorizationError,
            >((res.credential@, res.permissions.0)),
            Err(e) => spec_sender_resolution(policy@, roster@, sender) == Err::<
                (FireflyMemberCredentialView, u8),
                _,
            >(e),
        },
{
    let idx = match sender {
        Sender::Member(idx) => idx,
        _ => {
            return Err(AuthorizationError::UnauthorizedSender);
        },
    };
    let member = match roster.member_with_index(idx) {
        Some(m) => m,
        None => {
            return Err(AuthorizationError::UnauthorizedSender);
        },
    };
    let data = match &member.credential {
        EngineCredential::Custom { credential_type, data } => data,
        _ => {
            return Err(AuthorizationError::DecodeError);
        },
    };
    let cred = match decode_member_credential(data) {
        Ok(c) => c,
        Err(_) => {
            return Err(AuthorizationError::DecodeError);
        },
    };
    let role = match cred.channels_and_roles.get(0) {
        Some(role) => role.0,
        None => {
            return Err(AuthorizationError::RoleResolutionFailure);
        },
    };
    proof {
        assert(cred@.channels_and_roles[0] == cred.channels_and_roles.arr@[0].0);
    }
    if role as usize >= policy.roles.len() {
        return Err(AuthorizationError::RoleResolutionFailure);
    }
    let permissions = policy.roles[role as usize].permissions;
    proof {
        assert(policy@.roles[role as int] == policy.roles@[role as int]@);
    }
    Ok(SenderResolution { credential: cred, permissions })
}

/// The decision for one batch entry: kept, dropped, or whole-batch fatal.
pub fn check_entry(policy: &FireflyGroupContext, roster: &Roster, entry: &ProposalEntry) -> (r:
    Result<bool, AuthorizationError>)
    ensures
        match r {
            Ok(keep) => spec_entry_check(policy@, roster@, entry@) == Ok::<
                _,
                AuthorizationError,
            >(keep),
            Err(e) => spec_entry_check(policy@, roster@, entry@) == Err::<bool, _>(e),
        },
{
    let res = match resolve_sender(policy, roster, entry.sender) {
        Ok(res) => res,
        Err(e) => {
            return Err(e);
        },
    };
    let keep = match &entry.proposal {
        crate::engine::Proposal::Add { key_package } => res.permissions.has(
            UserPermission::AddUser,
        ),
        crate::engine::Proposal::Remove { to_remove } => res.permissions.has(
            UserPermission::RemoveUser,
        ),
        crate::engine::Proposal::Update { new_public_key } => bytes_eq(
            new_public_key,
            &res.credential.user_public_key,
        ),
        crate::engine::Proposal::Psk { psk_id } => false,
        crate::engine::Proposal::ReInit { group_id } => false,
        crate::engine::Proposal::ExternalInit { kem_output } => false,
        crate::engine::Proposal::GroupContextExtensions { extensions } => res.permissions.has(
            UserPermission::ManageChannel,
        ),
        crate::engine::Proposal::Custom { proposal_type, data } => false,
    };
    Ok(keep)
}

/// The authorization rule set the engine consults around each epoch
/// transition. The pending-invites table is ambient state the rules do
/// not read yet.
pub struct FireflyMlsRules {
    pub pending_invites: Vec<String>,
}

impl FireflyMlsRules {
    /// A rule set with no pending invites.
    pub fn new() -> (r: Self)
        ensures
            r.pending_invites@.len() == 0,
    {
        FireflyMlsRules { pending_invites: Vec::new() }
    }

    /// Filters a batch of candidate proposals. The whole call fails on a
    /// non-member author, an absent or malformed policy extension, a
    /// non-member proposal sender, a sender absent from the roster, a
    /// malformed credential, or an unresolvable role; otherwise exactly
    /// the entries the rule table keeps come back, in their original
    /// order, senders and payloads untouched.
    #[verifier::loop_isolation(false)]
    pub fn filter_proposals(
        &self,
        direction: CommitDirection,
        source: CommitSource,
        current_roster: &Roster,
        current_context: &GroupContext,
        proposals: ProposalBundle,
    ) -> (r: Result<ProposalBundle, AuthorizationError>)
        ensures
            match r {
                Ok(out) => spec_filter(source, current_roster@, current_context@, proposals@)
                    == Ok::<_, AuthorizationError>(out@),
                Err(e) => spec_filter(source, current_roster@, current_context@, proposals@)
                    == Err::<Seq<ProposalEntryView>, _>(e),
            },
    {
        match source {
            CommitSource::ExistingMember(_) => (),
            CommitSource::NewMember => {
                return Err(AuthorizationError::UnauthorizedSender);
            },
        }
        let ext = match current_context.find_extension(FIREFLY_ROSTER_EXTENSION_TYPE) {
            Some(e) => e,
            None => {
                return Err(AuthorizationError::PolicyMissing);
            },
        };
        let policy = match decode_group_extension(&ext.extension_data) {
            Ok(e) => e.context,
            Err(_) => {
                return Err(AuthorizationError::DecodeError);
            },
        };
        let ghost policyv = policy@;
        let ghost rosterv = current_roster@;
        let ghost entriesv = proposals@;
        proof {
            assert(spec_policy_of(current_context@) == Ok::<_, AuthorizationError>(policyv));
            assert(spec_filter(source, rosterv, current_context@, entriesv)
                == spec_filter_entries(policyv, rosterv, entriesv));
        }
        let mut remaining = proposals.entries;
        let mut kept: Vec<ProposalEntry> = Vec::new();
        proof {
            assert(remaining@.map_values(|e: ProposalEntry| e@) == entriesv);
            assert(kept@.map_values(|e: ProposalEntry| e@) =~= Seq::<ProposalEntryView>::empty());
        }
        while remaining.len() > 0
            invariant
                (match spec_filter_entries(
                    policyv,
                    rosterv,
                    remaining@.map_values(|e: ProposalEntry| e@),
                ) {
                    Ok(rest) => spec_filter_entries(policyv, rosterv, entriesv) == Ok::<
                        _,
                        AuthorizationError,
                    >(kept@.map_values(|e: ProposalEntry| e@) + rest),
                    Err(e) => spec_filter_entries(policyv, rosterv, entriesv) == Err::<
                        Seq<ProposalEntryView>,
                        _,
                    >(e),
                }),
            decreases remaining@.len(),
        {
            let ghost remv = remaining@.map_values(|e: ProposalEntry| e@);
            let ghost keptv = kept@.map_values(|e: ProposalEntry| e@);
            let entry = remaining.remove(0);
            proof {
                assert(remaining@.map_values(|e: ProposalEntry| e@) =~= remv.skip(1));
                assert(remv[0] == entry@);
                assert(remv.len() > 0);
            }
            match check_entry(&policy, current_roster, &entry) {
                Err(e) => {
                    proof {
                        assert(spec_entry_check(policyv, rosterv, remv[0]) == Err::<bool, _>(e));
                        assert(spec_filter_entries(policyv, rosterv, remv) == Err::<
                            Seq<ProposalEntryView>,
                            _,
                        >(e));
                    }
                    return Err(e);
                },
                Ok(true) => {
                    proof {
                        assert(spec_entry_check(policyv, rosterv, remv[0]) == Ok::<_, AuthorizationError>(true));
                        match spec_filter_entries(policyv, rosterv, remv.skip(1)) {
                            Ok(rest2) => {
                                assert(spec_filter_entries(policyv, rosterv, remv) == Ok::<
                                    _,
                                    AuthorizationError,
                                >(seq![remv[0]] + rest2));
                                assert(keptv + (seq![entry@] + rest2) =~= keptv.push(entry@)
                                    + rest2);
                            },
                            Err(e2) => {
                                assert(spec_filter_entries(policyv, rosterv, remv) == Err::<
                                    Seq<ProposalEntryView>,
                                    _,
                                >(e2));
                            },
                        }
                    }
                    kept.push(entry);
                    proof {
                        assert(kept@.map_values(|e: ProposalEntry| e@) =~= keptv.push(entry@));
                    }
                },
                Ok(false) => {
                    proof {
                        assert(spec_entry_check(policyv, rosterv, remv[0]) == Ok::<_, AuthorizationError>(false));
                        match spec_filter_entries(policyv, rosterv, remv.skip(1)) {
                            Ok(rest2) => {
                                assert(spec_filter_entries(policyv, rosterv, remv) == Ok::<
                                    _,
                                    AuthorizationError,
                                >(rest2));
                            },
                            Err(e2) => {
                                assert(spec_filter_entries(policyv, rosterv, remv) == Err::<
                                    Seq<ProposalEntryView>,
                                    _,
                                >(e2));
                            },
                        }
                    }
                },
            }
        }
        proof {
            assert(remaining@.map_values(|e: ProposalEntry| e@) =~= Seq::<
                ProposalEntryView,
            >::empty());
            assert(kept@.map_values(|e: ProposalEntry| e@) + Seq::<ProposalEntryView>::empty()
                =~= kept@.map_values(|e: ProposalEntry| e@));
        }
        Ok(ProposalBundle { entries: kept })
    }

    /// Constant packaging defaults for a commit.
    pub fn commit_options(
        &self,
        _new_roster: &Roster,
        _new_context: &GroupContext,
        _proposals: &ProposalBundle,
    ) -> (r: Result<CommitOptions, FireflyError>)
        ensures
            match r {
                Ok(o) => o == (CommitOptions {
                    path_required: false,
                    ratchet_tree_extension: true,
                    single_welcome_message: true,
                    allow_external_commit: false,
                }),
                Err(_) => false,
            },
    {
        Ok(
            CommitOptions {
                path_required: false,
                ratchet_tree_extension: true,
                single_welcome_message: true,
                allow_external_commit: false,
            },
        )
    }

    /// Constant packaging defaults for any packet: no encryption of
    /// control messages, no padding.
    pub fn encryption_options(
        &self,
        _current_roster: &Roster,
        _current_context: &GroupContext,
    ) -> (r: Result<EncryptionOptions, FireflyError>)
        ensures
            match r {
                Ok(o) => o == (EncryptionOptions {
                    encrypt_control_messages: false,
                    padding_mode: PaddingMode::NoPadding,
                }),
                Err(_) => false,
            },
    {
        Ok(EncryptionOptions { encrypt_control_messages: false, padding_mode: PaddingMode::NoPadding })
    }
}

} // verus!
