use firefly_mls::codec::decode_group_extension;
use firefly_mls::codec::decode_member_credential;
use firefly_mls::codec::encode_group_extension;
use firefly_mls::codec::encode_member_credential;
use firefly_mls::credential::ArrayMap;
use firefly_mls::credential::FireflyMemberCredential;
use firefly_mls::credential::UserRole;
use firefly_mls::permissions::UserPermissions;
use firefly_mls::policy::ChannelType;
use firefly_mls::policy::FireflyGroupContext;
use firefly_mls::policy::FireflyGroupExtension;
use firefly_mls::policy::GroupChannel;
use firefly_mls::policy::GroupRole;

fn sample_credential() -> FireflyMemberCredential {
    FireflyMemberCredential {
        signature: vec![1, 2],
        username: b"alice".to_vec(),
        user_public_key: vec![9],
        channels_and_roles: ArrayMap { arr: vec![UserRole(0)] },
    }
}

fn sample_extension() -> FireflyGroupExtension {
    FireflyGroupExtension {
        context: FireflyGroupContext {
            roles: vec![GroupRole { id: 0, name: b"mod".to_vec(), permissions: UserPermissions(1) }],
            channels: vec![GroupChannel { id: 0, name: b"general".to_vec(), ty: ChannelType::Text }],
        },
    }
}

#[test]
fn credential_exact_bytes() {
    let bytes = encode_member_credential(&sample_credential()).unwrap();
    assert_eq!(bytes, vec![2, 1, 2, 5, 97, 108, 105, 99, 101, 1, 9, 1, 0]);
}

#[test]
fn credential_round_trip() {
    let c = sample_credential();
    let bytes = encode_member_credential(&c).unwrap();
    let back = decode_member_credential(&bytes).unwrap();
    assert_eq!(back, c);
}

#[test]
fn credential_round_trip_empty_fields() {
    let c = FireflyMemberCredential {
        signature: Vec::new(),
        username: Vec::new(),
        user_public_key: Vec::new(),
        channels_and_roles: ArrayMap { arr: Vec::new() },
    };
    let bytes = encode_member_credential(&c).unwrap();
    assert_eq!(bytes, vec![0, 0, 0, 0]);
    assert_eq!(decode_member_credential(&bytes).unwrap(), c);
}

#[test]
fn credential_two_byte_length_prefix() {
    let c = FireflyMemberCredential {
        signature: Vec::new(),
        username: vec![7u8; 64],
        user_public_key: Vec::new(),
        channels_and_roles: ArrayMap { arr: Vec::new() },
    };
    let bytes = encode_member_credential(&c).unwrap();
    assert_eq!(bytes[0], 0);
    // a 64-byte field takes the two-byte prefix 0x40 0x40
    assert_eq!(bytes[1], 0x40);
    assert_eq!(bytes[2], 0x40);
    assert_eq!(decode_member_credential(&bytes).unwrap(), c);
}

#[test]
fn credential_truncated_fails() {
    let bytes = encode_member_credential(&sample_credential()).unwrap();
    for cut in 0..bytes.len() {
        let shorter = bytes[..cut].to_vec();
        assert!(decode_member_credential(&shorter).is_err());
    }
}

#[test]
fn credential_trailing_byte_fails() {
    let mut bytes = encode_member_credential(&sample_credential()).unwrap();
    bytes.push(0);
    assert!(decode_member_credential(&bytes).is_err());
}

#[test]
fn credential_reserved_varint_prefix_fails() {
    // a first byte with the two top bits set is a reserved length prefix
    let bytes = vec![0xc0, 0, 0, 0];
    assert!(decode_member_credential(&bytes).is_err());
}

#[test]
fn credential_non_minimal_varint_fails() {
    // [0x40, 0x02] spells length 2 in two bytes; the one-byte form is required
    let bytes = vec![0x40, 0x02, 8, 9, 0, 0, 0];
    assert!(decode_member_credential(&bytes).is_err());
}

#[test]
fn extension_exact_bytes() {
    let bytes = encode_group_extension(&sample_extension()).unwrap();
    assert_eq!(
        bytes,
        vec![6, 0, 3, 109, 111, 100, 1, 10, 0, 7, 103, 101, 110, 101, 114, 97, 108, 2]
    );
}

#[test]
fn extension_round_trip() {
    let e = sample_extension();
    let bytes = encode_group_extension(&e).unwrap();
    assert_eq!(decode_group_extension(&bytes).unwrap(), e);
}

#[test]
fn extension_round_trip_empty_tables() {
    let e = FireflyGroupExtension {
        context: FireflyGroupContext { roles: Vec::new(), channels: Vec::new() },
    };
    let bytes = encode_group_extension(&e).unwrap();
    assert_eq!(bytes, vec![0, 0]);
    assert_eq!(decode_group_extension(&bytes).unwrap(), e);
}

#[test]
fn extension_round_trip_media_channel() {
    let e = FireflyGroupExtension {
        context: FireflyGroupContext {
            roles: vec![
                GroupRole { id: 0, name: b"admin".to_vec(), permissions: UserPermissions(31) },
                GroupRole { id: 1, name: Vec::new(), permissions: UserPermissions(0) },
            ],
            channels: vec![GroupChannel { id: 3, name: b"voice".to_vec(), ty: ChannelType::Media }],
        },
    };
    let bytes = encode_group_extension(&e).unwrap();
    assert_eq!(decode_group_extension(&bytes).unwrap(), e);
}

#[test]
fn extension_bad_channel_kind_fails() {
    // channels: one channel with kind byte 3, which no channel kind uses
    let bytes = vec![0, 4, 0, 1, 120, 3];
    assert!(decode_group_extension(&bytes).is_err());
}

#[test]
fn extension_role_list_overrun_fails() {
    // the role list claims 5 bytes, cutting the role's permission byte off
    let bytes = vec![5, 0, 3, 109, 111, 100, 0];
    assert!(decode_group_extension(&bytes).is_err());
}

#[test]
fn array_map_filled_and_get() {
    let m = ArrayMap::filled(3);
    assert_eq!(m.arr.len(), 3);
    assert_eq!(m.get(0), Some(&UserRole(0)));
    assert_eq!(m.get(2), Some(&UserRole(0)));
    assert_eq!(m.get(3), None);
}

#[test]
fn add_user_proposal_round_trip_and_exact_bytes() {
    let p = firefly_mls::engine::AddUserProposal { channel_id: 2, username: b"bob".to_vec() };
    let bytes = firefly_mls::codec::encode_add_user_proposal(&p).unwrap();
    assert_eq!(bytes, vec![2, 3, 98, 111, 98]);
    let back = firefly_mls::codec::decode_add_user_proposal(&bytes).unwrap();
    assert_eq!(back, p);
}

#[test]
fn remove_user_proposal_round_trip() {
    let p = firefly_mls::engine::RemoveUserProposal { channel_id: 0, username: b"eve".to_vec() };
    let bytes = firefly_mls::codec::encode_remove_user_proposal(&p).unwrap();
    let back = firefly_mls::codec::decode_remove_user_proposal(&bytes).unwrap();
    assert_eq!(back, p);
}

#[test]
fn add_message_proposal_round_trip_rejects_trailing() {
    let p = firefly_mls::engine::AddMessageProposal { channel_id: 1, content: b"hi".to_vec() };
    let mut bytes = firefly_mls::codec::encode_add_message_proposal(&p).unwrap();
    let back = firefly_mls::codec::decode_add_message_proposal(&bytes).unwrap();
    assert_eq!(back, p);
    bytes.push(0);
    assert!(firefly_mls::codec::decode_add_message_proposal(&bytes).is_err());
}
