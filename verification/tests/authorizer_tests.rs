use firefly_mls::codec::encode_group_extension;
use firefly_mls::codec::encode_member_credential;
use firefly_mls::credential::ArrayMap;
use firefly_mls::credential::FireflyMemberCredential;
use firefly_mls::credential::UserRole;
use firefly_mls::engine::CommitDirection;
use firefly_mls::engine::CommitSource;
use firefly_mls::engine::EngineCredential;
use firefly_mls::engine::Extension;
use firefly_mls::engine::GroupContext;
use firefly_mls::engine::Member;
use firefly_mls::engine::Proposal;
use firefly_mls::engine::ProposalBundle;
use firefly_mls::engine::ProposalEntry;
use firefly_mls::engine::ProposalSource;
use firefly_mls::engine::Roster;
use firefly_mls::engine::Sender;
use firefly_mls::engine::FIREFLY_CREDENTIAL_TYPE;
use firefly_mls::engine::FIREFLY_ROSTER_EXTENSION_TYPE;
use firefly_mls::error::AuthorizationError;
use firefly_mls::permissions::UserPermissions;
use firefly_mls::policy::FireflyGroupContext;
use firefly_mls::policy::FireflyGroupExtension;
use firefly_mls::policy::GroupRole;
use firefly_mls::rules::FireflyMlsRules;

fn credential_with_roles(roles: Vec<u8>) -> FireflyMemberCredential {
    FireflyMemberCredential {
        signature: vec![1, 2, 3],
        username: b"alice".to_vec(),
        user_public_key: vec![10, 20, 30],
        channels_and_roles: ArrayMap { arr: roles.into_iter().map(UserRole).collect() },
    }
}

fn roster_with(index: u32, cred: &FireflyMemberCredential) -> Roster {
    Roster {
        members: vec![Member {
            index,
            credential: EngineCredential::Custom {
                credential_type: FIREFLY_CREDENTIAL_TYPE,
                data: encode_member_credential(cred).unwrap(),
            },
        }],
    }
}

fn context_with_roles(role_masks: Vec<u8>) -> GroupContext {
    let roles = role_masks
        .into_iter()
        .enumerate()
        .map(|(i, mask)| GroupRole {
            id: i as u8,
            name: b"role".to_vec(),
            permissions: UserPermissions(mask),
        })
        .collect();
    let ext = FireflyGroupExtension {
        context: FireflyGroupContext { roles, channels: Vec::new() },
    };
    GroupContext {
        extensions: vec![Extension {
            extension_type: FIREFLY_ROSTER_EXTENSION_TYPE,
            extension_data: encode_group_extension(&ext).unwrap(),
        }],
    }
}

fn batch(proposals: Vec<Proposal>) -> ProposalBundle {
    let mut bundle = ProposalBundle::new();
    for p in proposals {
        bundle.add(p, Sender::Member(0), ProposalSource::ByValue);
    }
    bundle
}

fn add_proposal() -> Proposal {
    Proposal::Add { key_package: vec![42] }
}

fn run(
    roster: &Roster,
    context: &GroupContext,
    bundle: ProposalBundle,
) -> Result<ProposalBundle, AuthorizationError> {
    let rules = FireflyMlsRules::new();
    rules.filter_proposals(
        CommitDirection::Send,
        CommitSource::ExistingMember(0),
        roster,
        context,
        bundle,
    )
}

#[test]
fn scenario_add_permitted_is_kept() {
    let cred = credential_with_roles(vec![0]);
    let roster = roster_with(0, &cred);
    let context = context_with_roles(vec![1]);
    let out = run(&roster, &context, batch(vec![add_proposal()])).unwrap();
    assert_eq!(out.len(), 1);
    assert_eq!(out.get(0).unwrap().proposal, add_proposal());
}

#[test]
fn scenario_add_unpermitted_is_dropped_without_error() {
    let cred = credential_with_roles(vec![0]);
    let roster = roster_with(0, &cred);
    let context = context_with_roles(vec![0]);
    let out = run(&roster, &context, batch(vec![add_proposal()])).unwrap();
    assert_eq!(out.len(), 0);
}

#[test]
fn scenario_no_default_role_fails_whole_batch() {
    let cred = credential_with_roles(Vec::new());
    let roster = roster_with(0, &cred);
    let context = context_with_roles(vec![1]);
    let r = run(&roster, &context, batch(vec![add_proposal()]));
    assert_eq!(r, Err(AuthorizationError::RoleResolutionFailure));
}

#[test]
fn scenario_psk_always_dropped() {
    let cred = credential_with_roles(vec![0]);
    let roster = roster_with(0, &cred);
    let context = context_with_roles(vec![1]);
    let out = run(
        &roster,
        &context,
        batch(vec![Proposal::Psk { psk_id: vec![5] }, add_proposal()]),
    )
    .unwrap();
    assert_eq!(out.len(), 1);
    assert_eq!(out.get(0).unwrap().proposal, add_proposal());
}

#[test]
fn scenario_update_kept_iff_key_matches() {
    let cred = credential_with_roles(vec![0]);
    let roster = roster_with(0, &cred);
    let context = context_with_roles(vec![0]);

    let mismatching = Proposal::Update { new_public_key: vec![9, 9, 9] };
    let out = run(&roster, &context, batch(vec![mismatching])).unwrap();
    assert_eq!(out.len(), 0);

    let matching = Proposal::Update { new_public_key: vec![10, 20, 30] };
    let out = run(&roster, &context, batch(vec![matching.clone()])).unwrap();
    assert_eq!(out.len(), 1);
    assert_eq!(out.get(0).unwrap().proposal, matching);
}

#[test]
fn remove_kept_iff_remove_user_granted() {
    let cred = credential_with_roles(vec![0]);
    let roster = roster_with(0, &cred);
    let remove = Proposal::Remove { to_remove: 7 };

    let granted = context_with_roles(vec![2]);
    let out = run(&roster, &granted, batch(vec![remove.clone()])).unwrap();
    assert_eq!(out.len(), 1);

    let denied = context_with_roles(vec![1 | 4 | 8 | 16]);
    let out = run(&roster, &denied, batch(vec![remove])).unwrap();
    assert_eq!(out.len(), 0);
}

#[test]
fn extension_update_kept_iff_manage_channel_granted() {
    let cred = credential_with_roles(vec![0]);
    let roster = roster_with(0, &cred);
    let gce = Proposal::GroupContextExtensions { extensions: Vec::new() };

    let granted = context_with_roles(vec![8]);
    let out = run(&roster, &granted, batch(vec![gce.clone()])).unwrap();
    assert_eq!(out.len(), 1);

    let denied = context_with_roles(vec![1 | 2 | 4 | 16]);
    let out = run(&roster, &denied, batch(vec![gce])).unwrap();
    assert_eq!(out.len(), 0);
}

#[test]
fn reinit_external_init_and_custom_always_dropped() {
    let cred = credential_with_roles(vec![0]);
    let roster = roster_with(0, &cred);
    let context = context_with_roles(vec![31]);
    let out = run(
        &roster,
        &context,
        batch(vec![
            Proposal::ReInit { group_id: vec![1] },
            Proposal::ExternalInit { kem_output: vec![2] },
            Proposal::Custom { proposal_type: 30001, data: vec![3] },
        ]),
    )
    .unwrap();
    assert_eq!(out.len(), 0);
}

#[test]
fn missing_policy_extension_fails_whole_batch() {
    let cred = credential_with_roles(vec![0]);
    let roster = roster_with(0, &cred);
    let context = GroupContext { extensions: Vec::new() };
    let r = run(&roster, &context, batch(vec![add_proposal()]));
    assert_eq!(r, Err(AuthorizationError::PolicyMissing));
}

#[test]
fn malformed_policy_extension_fails_whole_batch() {
    let cred = credential_with_roles(vec![0]);
    let roster = roster_with(0, &cred);
    let context = GroupContext {
        extensions: vec![Extension {
            extension_type: FIREFLY_ROSTER_EXTENSION_TYPE,
            extension_data: vec![0xc0],
        }],
    };
    let r = run(&roster, &context, batch(vec![add_proposal()]));
    assert_eq!(r, Err(AuthorizationError::DecodeError));
}

#[test]
fn sender_absent_from_roster_fails_whole_batch() {
    let cred = credential_with_roles(vec![0]);
    let roster = roster_with(5, &cred);
    let context = context_with_roles(vec![1]);
    let r = run(&roster, &context, batch(vec![add_proposal()]));
    assert_eq!(r, Err(AuthorizationError::UnauthorizedSender));
}

#[test]
fn non_member_sender_fails_whole_batch() {
    let cred = credential_with_roles(vec![0]);
    let roster = roster_with(0, &cred);
    let context = context_with_roles(vec![1]);
    let mut bundle = ProposalBundle::new();
    bundle.add(add_proposal(), Sender::External(0), ProposalSource::ByValue);
    let rules = FireflyMlsRules::new();
    let r = rules.filter_proposals(
        CommitDirection::Receive,
        CommitSource::ExistingMember(0),
        &roster,
        &context,
        bundle,
    );
    assert_eq!(r, Err(AuthorizationError::UnauthorizedSender));
}

#[test]
fn new_member_author_fails_whole_batch() {
    let cred = credential_with_roles(vec![0]);
    let roster = roster_with(0, &cred);
    let context = context_with_roles(vec![1]);
    let rules = FireflyMlsRules::new();
    let r = rules.filter_proposals(
        CommitDirection::Send,
        CommitSource::NewMember,
        &roster,
        &context,
        batch(vec![add_proposal()]),
    );
    assert_eq!(r, Err(AuthorizationError::UnauthorizedSender));
}

#[test]
fn non_custom_credential_fails_whole_batch() {
    let roster = Roster {
        members: vec![Member {
            index: 0,
            credential: EngineCredential::Basic { identity: b"alice".to_vec() },
        }],
    };
    let context = context_with_roles(vec![1]);
    let r = run(&roster, &context, batch(vec![add_proposal()]));
    assert_eq!(r, Err(AuthorizationError::DecodeError));
}

#[test]
fn malformed_credential_fails_whole_batch() {
    let roster = Roster {
        members: vec![Member {
            index: 0,
            credential: EngineCredential::Custom {
                credential_type: FIREFLY_CREDENTIAL_TYPE,
                data: vec![9],
            },
        }],
    };
    let context = context_with_roles(vec![1]);
    let r = run(&roster, &context, batch(vec![add_proposal()]));
    assert_eq!(r, Err(AuthorizationError::DecodeError));
}

#[test]
fn role_index_out_of_range_fails_whole_batch() {
    let cred = credential_with_roles(vec![3]);
    let roster = roster_with(0, &cred);
    let context = context_with_roles(vec![1]);
    let r = run(&roster, &context, batch(vec![add_proposal()]));
    assert_eq!(r, Err(AuthorizationError::RoleResolutionFailure));
}

#[test]
fn kept_entries_preserve_relative_order() {
    let cred = credential_with_roles(vec![0]);
    let roster = roster_with(0, &cred);
    let context = context_with_roles(vec![1]);
    let first = Proposal::Add { key_package: vec![1] };
    let second = Proposal::Add { key_package: vec![2] };
    let third = Proposal::Add { key_package: vec![3] };
    let out = run(
        &roster,
        &context,
        batch(vec![
            first.clone(),
            Proposal::Psk { psk_id: vec![0] },
            second.clone(),
            Proposal::ReInit { group_id: vec![0] },
            third.clone(),
        ]),
    )
    .unwrap();
    assert_eq!(out.len(), 3);
    assert_eq!(out.get(0).unwrap().proposal, first);
    assert_eq!(out.get(1).unwrap().proposal, second);
    assert_eq!(out.get(2).unwrap().proposal, third);
}

#[test]
fn filtering_is_idempotent_on_concrete_batch() {
    let cred = credential_with_roles(vec![0]);
    let roster = roster_with(0, &cred);
    let context = context_with_roles(vec![1]);
    let input = batch(vec![
        add_proposal(),
        Proposal::Psk { psk_id: vec![0] },
        Proposal::Update { new_public_key: vec![10, 20, 30] },
    ]);
    let once = run(&roster, &context, input).unwrap();
    let twice = run(&roster, &context, once.clone()).unwrap();
    assert_eq!(once, twice);
}

#[test]
fn senders_and_sources_come_back_untouched() {
    let cred = credential_with_roles(vec![0]);
    let roster = roster_with(0, &cred);
    let context = context_with_roles(vec![1]);
    let mut bundle = ProposalBundle::new();
    bundle.add(
        add_proposal(),
        Sender::Member(0),
        ProposalSource::ByReference(vec![7, 7]),
    );
    let out = run(&roster, &context, bundle).unwrap();
    assert_eq!(out.len(), 1);
    let entry = out.get(0).unwrap();
    assert_eq!(entry.sender, Sender::Member(0));
    assert_eq!(entry.source, ProposalSource::ByReference(vec![7, 7]));
}

#[test]
fn second_extension_of_other_type_is_ignored() {
    let cred = credential_with_roles(vec![0]);
    let roster = roster_with(0, &cred);
    let mut context = context_with_roles(vec![1]);
    context.extensions.insert(
        0,
        Extension { extension_type: 9, extension_data: vec![1, 2, 3] },
    );
    let out = run(&roster, &context, batch(vec![add_proposal()])).unwrap();
    assert_eq!(out.len(), 1);
}
