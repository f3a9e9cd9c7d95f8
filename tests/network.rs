use pwnd_sync::network::{
    Action, Chan, Conn, Dispatch, Error, Network, NetworkOptions, Phase, DEFAULT_SIGNALING_SERVER,
};
use pwnd_sync::relay::Relay;
use pwnd_sync::rtc;
use pwnd_sync::ws;

const G: u128 = 77;

fn network(id: u128) -> Network {
    Network::new_opts(&NetworkOptions {
        id,
        group: G,
        signaling_server: "relay.example:8000".to_string(),
        secure: false,
    })
}

fn envelope(sender: u128, op: ws::Op) -> Vec<u8> {
    ws::Packet { client_id: sender, op }.encode()
}

#[test]
fn own_envelopes_are_ignored() {
    let mut net = network(1);
    for _ in 0..3 {
        assert_eq!(net.handle_msg(&envelope(1, ws::Op::Announce)), Ok(None));
    }
    let r = net.handle_msg(&envelope(2, ws::Op::Announce)).unwrap().unwrap();
    assert_eq!(r.conn, 0);
    assert!(r.created);
}

#[test]
fn connection_is_created_once_per_peer() {
    let mut net = network(1);
    let first = net.handle_msg(&envelope(2, ws::Op::Announce)).unwrap().unwrap();
    let second = net
        .handle_msg(&envelope(2, ws::Op::IceCandidate(vec![1, 2, 3])))
        .unwrap()
        .unwrap();
    let other = net.handle_msg(&envelope(3, ws::Op::Announce)).unwrap().unwrap();
    assert_eq!(
        first,
        Dispatch { peer: 2, conn: 0, created: true, action: Action::CreateChannel }
    );
    assert_eq!(
        second,
        Dispatch {
            peer: 2,
            conn: 0,
            created: false,
            action: Action::AddRemoteCandidate(vec![1, 2, 3])
        }
    );
    assert_eq!(other.conn, 1);
    assert!(other.created);
}

#[test]
fn session_description_is_applied_to_the_sender() {
    let mut net = network(1);
    let d = net
        .handle_msg(&envelope(9, ws::Op::SessionDescription(b"offer".to_vec())))
        .unwrap()
        .unwrap();
    assert_eq!(d.peer, 9);
    assert_eq!(d.action, Action::SetRemoteDescription(b"offer".to_vec()));
}

#[test]
fn malformed_signal_is_a_serialization_error() {
    let mut net = network(1);
    assert_eq!(net.handle_msg(&[1, 2, 3]), Err(Error::Serialization));
    let d = net.handle_msg(&envelope(2, ws::Op::Announce)).unwrap().unwrap();
    assert_eq!(d.conn, 0);
}

#[test]
fn send_without_channel_is_absent() {
    let mut net = network(1);
    assert_eq!(net.send(2, &rtc::Packet::Ping), None);
    net.handle_msg(&envelope(2, ws::Op::Announce)).unwrap();
    assert_eq!(net.send(2, &rtc::Packet::Ping), None);
}

#[test]
fn channels_accumulate_and_all_are_send_targets() {
    let mut net = network(1);
    assert_eq!(net.register_channel(2), Err(Error::UnknownPeer));
    net.handle_msg(&envelope(2, ws::Op::Announce)).unwrap();
    net.handle_msg(&envelope(3, ws::Op::Announce)).unwrap();
    assert_eq!(net.register_channel(2), Ok(0));
    assert_eq!(net.register_channel(3), Ok(1));
    assert_eq!(net.register_channel(2), Ok(2));
    let d = net.send(2, &rtc::Packet::Pong).unwrap();
    assert_eq!(d.bytes, vec![5]);
    assert_eq!(d.channels, vec![0, 2]);
    assert_eq!(net.send(3, &rtc::Packet::Pong).unwrap().channels, vec![1]);
}

#[test]
fn announce_is_an_announce_envelope() {
    let net = network(0x42);
    assert_eq!(
        ws::Packet::decode(&net.announce()),
        Ok(ws::Packet { client_id: 0x42, op: ws::Op::Announce })
    );
}

#[test]
fn announce_answer_goes_to_the_announcer_only() {
    let (a, b, c) = (10u128, 20u128, 30u128);
    let mut relay = Relay::new();
    for p in [a, b, c] {
        relay.connect(G, p).unwrap();
    }
    let net_a = network(a);
    let mut net_b = network(b);
    relay.broadcast(G, a, &net_a.announce());
    assert_eq!(relay.take_outbox(G, c), vec![net_a.announce()]);
    let inbound = relay.take_outbox(G, b);
    assert_eq!(inbound.len(), 1);
    let d = net_b.handle_msg(&inbound[0]).unwrap().unwrap();
    assert_eq!(d.peer, a);
    assert_eq!(d.action, Action::CreateChannel);
    let conn = Conn { local_id: b, remote_id: d.peer };
    let answer = conn.on_description(b"offer from b".to_vec());
    relay.deliver(G, conn.remote_id, &answer).unwrap();
    let at_a = relay.take_outbox(G, a);
    assert_eq!(at_a, vec![answer.clone()]);
    assert_eq!(
        ws::Packet::decode(&at_a[0]),
        Ok(ws::Packet { client_id: b, op: ws::Op::SessionDescription(b"offer from b".to_vec()) })
    );
    assert!(relay.take_outbox(G, c).is_empty());
}

#[test]
fn candidate_callback_envelope() {
    let conn = Conn { local_id: 5, remote_id: 6 };
    assert_eq!(
        ws::Packet::decode(&conn.on_candidate(vec![4])),
        Ok(ws::Packet { client_id: 5, op: ws::Op::IceCandidate(vec![4]) })
    );
}

#[test]
fn data_channel_bytes_become_packets() {
    let chan = Chan;
    assert_eq!(chan.on_message(&[4]), Some(rtc::Packet::Ping));
    assert_eq!(chan.on_message(&[200]), None);
}

#[test]
fn default_options_use_the_default_server() {
    let a = NetworkOptions::default();
    let b = NetworkOptions::default();
    assert_eq!(a.signaling_server, DEFAULT_SIGNALING_SERVER);
    assert!(a.secure);
    assert_ne!(a.id, b.id);
    let net = Network::new(G);
    assert_eq!(net.group(), G);
    assert_eq!(net.signaling_server(), "localhost:8000");
    assert_eq!(network(3).id(), 3);
}

#[test]
fn peer_phases() {
    let mut net = network(1);
    assert_eq!(net.phase(2), Phase::Uncontacted);
    net.handle_msg(&envelope(1, ws::Op::Announce)).unwrap();
    assert_eq!(net.phase(1), Phase::Uncontacted);
    net.handle_msg(&envelope(2, ws::Op::SessionDescription(vec![1]))).unwrap();
    assert_eq!(net.phase(2), Phase::Negotiating);
    net.register_channel(2).unwrap();
    assert_eq!(net.phase(2), Phase::Open);
}

#[test]
fn dropped_peer_starts_over() {
    let mut net = network(1);
    net.handle_msg(&envelope(2, ws::Op::Announce)).unwrap();
    net.register_channel(2).unwrap();
    net.drop_peer(2);
    assert_eq!(net.phase(2), Phase::Uncontacted);
    assert_eq!(net.send(2, &rtc::Packet::Ping), None);
    let d = net.handle_msg(&envelope(2, ws::Op::Announce)).unwrap().unwrap();
    assert!(d.created);
    assert_eq!(d.conn, 1);
}
