use pwnd_sync::relay::{
    get_clients, roster_response, send_message, Relay, RelayError, OUTBOX_CAPACITY,
};

const G: u128 = 0x1000;
const A: u128 = 1;
const B: u128 = 2;
const C: u128 = 3;

#[test]
fn second_join_is_refused_until_the_first_closes() {
    let mut relay = Relay::new();
    assert_eq!(relay.connect(G, A), Ok(()));
    assert_eq!(relay.connect(G, A), Err(RelayError::DuplicateRegistration));
    relay.disconnect(G, A);
    assert_eq!(relay.connect(G, A), Ok(()));
}

#[test]
fn refused_join_leaves_the_first_connection_intact() {
    let mut relay = Relay::new();
    relay.connect(G, A).unwrap();
    relay.connect(G, B).unwrap();
    relay.broadcast(G, B, &b"hello".to_vec());
    assert_eq!(relay.connect(G, A), Err(RelayError::DuplicateRegistration));
    assert_eq!(relay.take_outbox(G, A), vec![b"hello".to_vec()]);
}

#[test]
fn same_peer_may_join_two_groups() {
    let mut relay = Relay::new();
    assert_eq!(relay.connect(G, A), Ok(()));
    assert_eq!(relay.connect(G + 1, A), Ok(()));
}

#[test]
fn broadcast_reaches_others_but_not_the_sender() {
    let mut relay = Relay::new();
    for p in [A, B, C] {
        relay.connect(G, p).unwrap();
    }
    relay.broadcast(G, A, &vec![7, 8, 9]);
    assert_eq!(relay.take_outbox(G, B), vec![vec![7, 8, 9]]);
    assert_eq!(relay.take_outbox(G, C), vec![vec![7, 8, 9]]);
    assert!(relay.take_outbox(G, A).is_empty());
}

#[test]
fn broadcast_stays_within_the_group() {
    let mut relay = Relay::new();
    relay.connect(G, A).unwrap();
    relay.connect(G + 1, B).unwrap();
    relay.broadcast(G, A, &vec![1]);
    assert!(relay.take_outbox(G + 1, B).is_empty());
}

#[test]
fn ping_over_duplex_stream_reaches_the_other_peer_once() {
    let mut relay = Relay::new();
    relay.connect(G, A).unwrap();
    relay.connect(G, B).unwrap();
    relay.broadcast(G, A, &b"ping".to_vec());
    let at_b = relay.take_outbox(G, B);
    assert_eq!(at_b.len(), 1);
    assert_eq!(at_b[0], b"ping".to_vec());
    assert!(relay.take_outbox(G, A).is_empty());
}

#[test]
fn messages_keep_their_order() {
    let mut relay = Relay::new();
    relay.connect(G, A).unwrap();
    relay.connect(G, B).unwrap();
    relay.broadcast(G, A, &vec![1]);
    relay.broadcast(G, A, &vec![2]);
    relay.deliver(G, B, &vec![3]).unwrap();
    assert_eq!(relay.take_outbox(G, B), vec![vec![1], vec![2], vec![3]]);
    assert!(relay.take_outbox(G, B).is_empty());
}

#[test]
fn unicast_reaches_only_its_target() {
    let mut relay = Relay::new();
    for p in [A, B, C] {
        relay.connect(G, p).unwrap();
    }
    assert_eq!(relay.deliver(G, B, &vec![42]), Ok(true));
    assert_eq!(relay.take_outbox(G, B), vec![vec![42]]);
    assert!(relay.take_outbox(G, A).is_empty());
    assert!(relay.take_outbox(G, C).is_empty());
}

#[test]
fn unicast_to_absent_peer_is_not_found() {
    let mut relay = Relay::new();
    relay.connect(G, A).unwrap();
    assert_eq!(relay.deliver(G, B, &vec![1]), Err(RelayError::NotFound));
    relay.disconnect(G, A);
    assert_eq!(relay.deliver(G, A, &vec![1]), Err(RelayError::NotFound));
}

#[test]
fn closed_connection_gets_no_more_broadcasts() {
    let mut relay = Relay::new();
    relay.connect(G, A).unwrap();
    relay.connect(G, B).unwrap();
    relay.disconnect(G, B);
    relay.broadcast(G, A, &vec![5]);
    relay.connect(G, B).unwrap();
    assert!(relay.take_outbox(G, B).is_empty());
}

#[test]
fn list_peers_is_ascending() {
    let mut relay = Relay::new();
    for p in [30u128, 10, 20] {
        relay.connect(G, p).unwrap();
    }
    relay.connect(G + 1, 5).unwrap();
    assert_eq!(relay.list_peers(G), vec![10, 20, 30]);
    assert_eq!(relay.list_peers(G + 2), Vec::<u128>::new());
}

#[test]
fn send_message_answers_ok_or_not_found() {
    let mut relay = Relay::new();
    relay.connect(G, A).unwrap();
    assert_eq!(send_message(&mut relay, G, A, &vec![1, 2]), (200, true));
    assert_eq!(send_message(&mut relay, G, B, &vec![1, 2]), (404, false));
    assert_eq!(relay.take_outbox(G, A), vec![vec![1, 2]]);
}

#[test]
fn get_clients_of_unknown_group_is_not_found() {
    let relay = Relay::new();
    assert_eq!(get_clients(&relay, G), (404, vec![]));
}

#[test]
fn get_clients_encodes_hyphenated_ids_as_msgpack() {
    let mut relay = Relay::new();
    relay.connect(G, 0xa1a2a3a4b1b2c1c2d1d2d3d4d5d6d7d8).unwrap();
    let (status, body) = get_clients(&relay, G);
    assert_eq!(status, 200);
    let mut expected = vec![0x91, 0xd9, 36];
    expected.extend_from_slice(b"a1a2a3a4-b1b2-c1c2-d1d2-d3d4d5d6d7d8");
    assert_eq!(body, expected);
}

#[test]
fn full_outbox_loses_new_messages_and_reports_the_laggard() {
    let mut relay = Relay::new();
    for p in [A, B, C] {
        relay.connect(G, p).unwrap();
    }
    for i in 0..OUTBOX_CAPACITY {
        assert_eq!(relay.broadcast(G, A, &vec![i as u8]), Vec::<u128>::new());
        relay.take_outbox(G, C);
    }
    assert_eq!(relay.broadcast(G, A, &vec![255]), vec![B]);
    assert_eq!(relay.deliver(G, B, &vec![1]), Ok(false));
    assert_eq!(send_message(&mut relay, G, B, &vec![1]), (200, false));
    let at_b = relay.take_outbox(G, B);
    assert_eq!(at_b.len(), OUTBOX_CAPACITY);
    assert_eq!(at_b[0], vec![0]);
    assert_eq!(relay.take_outbox(G, C), vec![vec![255]]);
    assert_eq!(relay.deliver(G, B, &vec![1]), Ok(true));
}

#[test]
fn roster_response_codes() {
    assert_eq!(roster_response(Some(vec![0x90])), (200, vec![0x90]));
    assert_eq!(roster_response(None), (500, vec![]));
}

#[test]
fn roster_lists_every_live_peer_in_order() {
    let mut relay = Relay::new();
    relay.connect(G, 2).unwrap();
    relay.connect(G, 1).unwrap();
    let (status, body) = get_clients(&relay, G);
    assert_eq!(status, 200);
    let mut expected = vec![0x92, 0xd9, 36];
    expected.extend_from_slice(b"00000000-0000-0000-0000-000000000001");
    expected.extend_from_slice(&[0xd9, 36]);
    expected.extend_from_slice(b"00000000-0000-0000-0000-000000000002");
    assert_eq!(body, expected);
}
