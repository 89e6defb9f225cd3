use firefly_mls::engine::GroupContext;
use firefly_mls::engine::ProposalBundle;
use firefly_mls::engine::Roster;
use firefly_mls::error::AuthorizationError;
use firefly_mls::error::FireflyError;
use firefly_mls::permissions::UserPermission;
use firefly_mls::permissions::UserPermissions;
use firefly_mls::rules::CommitOptions;
use firefly_mls::rules::EncryptionOptions;
use firefly_mls::rules::FireflyMlsRules;
use firefly_mls::rules::PaddingMode;

#[test]
fn permission_bits_are_assigned_in_order() {
    assert_eq!(UserPermission::AddUser.bit(), 1);
    assert_eq!(UserPermission::RemoveUser.bit(), 2);
    assert_eq!(UserPermission::AddMessage.bit(), 4);
    assert_eq!(UserPermission::ManageChannel.bit(), 8);
    assert_eq!(UserPermission::ManageRole.bit(), 16);
}

#[test]
fn has_is_true_iff_own_bit_is_set() {
    let all = [
        UserPermission::AddUser,
        UserPermission::RemoveUser,
        UserPermission::AddMessage,
        UserPermission::ManageChannel,
        UserPermission::ManageRole,
    ];
    for mask in 0u16..=255 {
        let set = UserPermissions(mask as u8);
        for p in all {
            assert_eq!(set.has(p), mask as u8 & p.bit() != 0);
        }
    }
}

#[test]
fn has_ignores_undefined_bits() {
    let set = UserPermissions(1 | 32 | 64 | 128);
    assert!(set.has(UserPermission::AddUser));
    assert!(!set.has(UserPermission::RemoveUser));
    assert!(!set.has(UserPermission::ManageRole));
}

#[test]
fn commit_options_are_constant_defaults() {
    let rules = FireflyMlsRules::new();
    let roster = Roster { members: Vec::new() };
    let context = GroupContext { extensions: Vec::new() };
    let bundle = ProposalBundle::new();
    let opts = rules.commit_options(&roster, &context, &bundle).unwrap();
    assert_eq!(
        opts,
        CommitOptions {
            path_required: false,
            ratchet_tree_extension: true,
            single_welcome_message: true,
            allow_external_commit: false,
        }
    );
}

#[test]
fn encryption_options_disable_encryption_and_padding() {
    let rules = FireflyMlsRules::new();
    let roster = Roster { members: Vec::new() };
    let context = GroupContext { extensions: Vec::new() };
    let opts = rules.encryption_options(&roster, &context).unwrap();
    assert_eq!(
        opts,
        EncryptionOptions {
            encrypt_control_messages: false,
            padding_mode: PaddingMode::NoPadding,
        }
    );
}

#[test]
fn firefly_error_keeps_its_message() {
    let e = FireflyError::new(String::from("boom"));
    assert_eq!(e.message(), "boom");
}

#[test]
fn authorization_errors_describe_themselves() {
    assert_eq!(
        AuthorizationError::PolicyMissing.into_firefly().message(),
        "No Firefly Roster Extension Found"
    );
    assert_eq!(
        AuthorizationError::UnauthorizedSender.into_firefly().message(),
        "Sender has to be an existing member"
    );
    assert_eq!(
        AuthorizationError::DecodeError.into_firefly().message(),
        "Credential or policy bytes failed to decode"
    );
    assert_eq!(
        AuthorizationError::RoleResolutionFailure.into_firefly().message(),
        "No role could be resolved for the sender"
    );
}
