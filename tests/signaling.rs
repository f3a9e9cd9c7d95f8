use pwnd_sync::ids::id_text;
use pwnd_sync::signaling::{on_frame, Frame, FrameAction, Group};

const GROUP: u128 = 0xa1a2a3a4b1b2c1c2d1d2d3d4d5d6d7d8;

#[test]
fn ids_are_hyphenated() {
    assert_eq!(id_text(GROUP), "a1a2a3a4-b1b2-c1c2-d1d2-d3d4d5d6d7d8");
    assert_eq!(id_text(1), "00000000-0000-0000-0000-000000000001");
}

#[test]
fn secure_group_urls() {
    let g = Group::new("relay.example", GROUP);
    assert_eq!(
        g.connect_url(1),
        "wss://relay.example/a1a2a3a4-b1b2-c1c2-d1d2-d3d4d5d6d7d8/00000000-0000-0000-0000-000000000001"
    );
    assert_eq!(
        g.send_url(2),
        "https://relay.example/a1a2a3a4-b1b2-c1c2-d1d2-d3d4d5d6d7d8/00000000-0000-0000-0000-000000000002"
    );
}

#[test]
fn insecure_group_urls() {
    let g = Group::insecure("localhost:8000", 0);
    assert_eq!(
        g.connect_url(0),
        "ws://localhost:8000/00000000-0000-0000-0000-000000000000/00000000-0000-0000-0000-000000000000"
    );
    assert!(g.send_url(0).starts_with("http://localhost:8000/"));
}

#[test]
fn inbound_frames() {
    assert_eq!(on_frame(Frame::Binary(vec![1, 2])), FrameAction::Publish(vec![1, 2]));
    assert_eq!(on_frame(Frame::Text("hé".to_string())), FrameAction::Publish(vec![0x68, 0xc3, 0xa9]));
    assert_eq!(on_frame(Frame::Ping(vec![7])), FrameAction::Reply(vec![7]));
    assert_eq!(on_frame(Frame::Pong(vec![7])), FrameAction::Skip);
    assert_eq!(on_frame(Frame::Close), FrameAction::Stop);
}
