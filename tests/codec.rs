use pwnd_sync::models::{Field, FieldType, Secret, SecretType, Section, Timestamp};
use pwnd_sync::rtc;
use pwnd_sync::wire::DecodeError;
use pwnd_sync::ws;

fn sample_secret() -> Secret {
    Secret {
        id: "s-1".to_string(),
        secret_type: SecretType::Login,
        name: "mail ✉".to_string(),
        icon: Some("envelope".to_string()),
        data: vec![Section {
            name: Some("login".to_string()),
            fields: vec![
                Field {
                    name: "user".to_string(),
                    value: "ana".to_string(),
                    field_type: FieldType::Text,
                },
                Field {
                    name: "password".to_string(),
                    value: "hunter2".to_string(),
                    field_type: FieldType::Hidden,
                },
            ],
        }],
        custom: vec![Section {
            name: None,
            fields: vec![Field {
                name: "card".to_string(),
                value: "4111".to_string(),
                field_type: FieldType::CreditCard,
            }],
        }],
        notes: None,
        updated_at: Timestamp { secs: -5, nanos: 999_999_999 },
        created_at: Timestamp { secs: 1_600_000_000, nanos: 0 },
    }
}

#[test]
fn announce_envelope_bytes() {
    let env = ws::Packet { client_id: 0x0102, op: ws::Op::Announce };
    let mut expected = vec![0x02, 0x01];
    expected.extend_from_slice(&[0; 14]);
    expected.push(0);
    assert_eq!(env.encode(), expected);
}

#[test]
fn candidate_envelope_bytes() {
    let env = ws::Packet { client_id: u128::MAX, op: ws::Op::IceCandidate(vec![9, 8]) };
    let mut expected = vec![0xff; 16];
    expected.push(2);
    expected.extend_from_slice(&[2, 0, 0, 0, 0, 0, 0, 0]);
    expected.extend_from_slice(&[9, 8]);
    assert_eq!(env.encode(), expected);
}

#[test]
fn signaling_envelopes_round_trip() {
    let envs = vec![
        ws::Packet { client_id: 7, op: ws::Op::Announce },
        ws::Packet { client_id: 1 << 100, op: ws::Op::SessionDescription(b"v=0 sdp".to_vec()) },
        ws::Packet { client_id: 0, op: ws::Op::IceCandidate(vec![]) },
    ];
    for env in envs {
        assert_eq!(ws::Packet::decode(&env.encode()), Ok(env));
    }
}

#[test]
fn application_packets_round_trip() {
    let packets = vec![
        rtc::Packet::SyncRequest,
        rtc::Packet::SyncResponse { secrets: vec![sample_secret()], deleted: vec![] },
        rtc::Packet::SyncTruth { secrets: vec![], deleted: vec![sample_secret(), sample_secret()] },
        rtc::Packet::Update { id: 0xdead_beef, data: sample_secret() },
        rtc::Packet::Ping,
        rtc::Packet::Pong,
    ];
    for p in packets {
        assert_eq!(rtc::Packet::decode(&p.encode()), Ok(p));
    }
}

#[test]
fn ping_packet_is_one_byte() {
    assert_eq!(rtc::Packet::Ping.encode(), vec![4]);
    assert_eq!(rtc::Packet::Pong.encode(), vec![5]);
    assert_eq!(rtc::Packet::decode(&[0]), Ok(rtc::Packet::SyncRequest));
}

#[test]
fn malformed_bytes_are_rejected() {
    assert_eq!(rtc::Packet::decode(&[]), Err(DecodeError));
    assert_eq!(rtc::Packet::decode(&[6]), Err(DecodeError));
    assert_eq!(rtc::Packet::decode(&[4, 0]), Err(DecodeError));
    assert_eq!(ws::Packet::decode(&[0; 16]), Err(DecodeError));
    assert_eq!(ws::Packet::decode(&[0; 17]).map(|p| p.client_id), Ok(0));
    let mut bad_len = vec![0; 16];
    bad_len.push(1);
    bad_len.extend_from_slice(&[5, 0, 0, 0, 0, 0, 0, 0, 1]);
    assert_eq!(ws::Packet::decode(&bad_len), Err(DecodeError));
}

#[test]
fn invalid_utf8_is_rejected() {
    let p = rtc::Packet::Update { id: 1, data: sample_secret() };
    let mut bytes = p.encode();
    let text_at = 1 + 16 + 8;
    bytes[text_at] = 0xff;
    assert_eq!(rtc::Packet::decode(&bytes), Err(DecodeError));
}

#[test]
fn default_section_is_empty() {
    let s = Section::default();
    assert_eq!(s.name, None);
    assert!(s.fields.is_empty());
}
