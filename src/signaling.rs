//! The signaling client's logic: where a group's relay endpoints are, and
//! what to do with each frame that comes in on the duplex stream.
use crate::ids::{hyphenated, id_text};
use vstd::prelude::*;
use vstd::string::StringExecFns;
use vstd::utf8::encode_utf8;

verus! {

pub struct GroupView {
    pub base_url: Seq<char>,
    pub secure: bool,
}

/// A group on a relay, joined through `connect_url` and reached by unicast
/// through `send_url`.
#[derive(Clone, Debug)]
pub struct Group {
    base_url: String,
    secure: bool,
}

pub open spec fn ws_scheme(secure: bool) -> Seq<char> {
    if secure {
        "wss"@
    } else {
        "ws"@
    }
}

pub open spec fn http_scheme(secure: bool) -> Seq<char> {
    if secure {
        "https"@
    } else {
        "http"@
    }
}

impl View for Group {
    type V = GroupView;

    closed spec fn view(&self) -> GroupView {
        GroupView { base_url: self.base_url@, secure: self.secure }
    }
}

/// `head`, then `/`, then the hyphenated text of `id`.
fn join_id(head: String, id: u128) -> (r: String)
    ensures
        r@ == head@ + "/"@ + hyphenated(id),
{
    let mut s = head;
    s.append("/");
    let t = id_text(id);
    s.append(t.as_str());
    s
}

impl Group {
    /// The group `group_id` on the relay at `url`, reached over TLS.
    pub fn new(url: &str, group_id: u128) -> (r: Group)
        ensures
            r@.base_url == url@ + "/"@ + hyphenated(group_id),
            r@.secure,
    {
        Group { base_url: join_id(url.to_owned(), group_id), secure: true }
    }

    /// The group `group_id` on the relay at `url`, reached without TLS.
    pub fn insecure(url: &str, group_id: u128) -> (r: Group)
        ensures
            r@.base_url == url@ + "/"@ + hyphenated(group_id),
            !r@.secure,
    {
        Group { base_url: join_id(url.to_owned(), group_id), secure: false }
    }

    /// Where `client_id` opens its duplex stream in the group.
    pub fn connect_url(&self, client_id: u128) -> (r: String)
        ensures
            r@ == ws_scheme(self@.secure) + "://"@ + self@.base_url + "/"@ + hyphenated(client_id),
    {
        let mut s = if self.secure {
            "wss".to_owned()
        } else {
            "ws".to_owned()
        };
        s.append("://");
        s.append(self.base_url.as_str());
        join_id(s, client_id)
    }

    /// Where a unicast to `client_id` in the group is posted.
    pub fn send_url(&self, client_id: u128) -> (r: String)
        ensures
            r@ == http_scheme(self@.secure) + "://"@ + self@.base_url + "/"@ + hyphenated(client_id),
    {
        let mut s = if self.secure {
            "https".to_owned()
        } else {
            "http".to_owned()
        };
        s.append("://");
        s.append(self.base_url.as_str());
        join_id(s, client_id)
    }
}

/// A frame that comes in on the duplex stream.
#[derive(Clone, Debug, PartialEq, Eq)]
pub enum Frame {
    Binary(Vec<u8>),
    Text(String),
    Ping(Vec<u8>),
    Pong(Vec<u8>),
    Close,
}

/// What the client does with an inbound frame.
#[derive(Clone, Debug, PartialEq, Eq)]
pub enum FrameAction {
    /// Hand the bytes to every subscriber.
    Publish(Vec<u8>),
    /// Answer with a pong that carries these bytes.
    Reply(Vec<u8>),
    /// Nothing to do.
    Skip,
    /// The stream is over.
    Stop,
}

/// Binary and text frames go to the subscribers, text as its UTF-8 bytes;
/// a ping is answered with a pong of the same payload; a pong is dropped;
/// a close ends the stream.
pub fn on_frame(frame: Frame) -> (r: FrameAction)
    ensures
        match frame {
            Frame::Binary(d) => r matches FrameAction::Publish(b) && b@ == d@,
            Frame::Text(t) => r matches FrameAction::Publish(b) && b@ == encode_utf8(t@),
            Frame::Ping(d) => r matches FrameAction::Reply(b) && b@ == d@,
            Frame::Pong(_) => r matches FrameAction::Skip,
            Frame::Close => r matches FrameAction::Stop,
        },
{
    match frame {
        Frame::Binary(d) => FrameAction::Publish(d),
        Frame::Text(t) => {
            let mut b: Vec<u8> = Vec::new();
            crate::wire::put_bytes(&mut b, t.as_str().as_bytes());
            assert(b@ =~= encode_utf8(t@));
            FrameAction::Publish(b)
        },
        Frame::Ping(d) => FrameAction::Reply(d),
        Frame::Pong(_) => FrameAction::Skip,
        Frame::Close => FrameAction::Stop,
    }
}

} // verus!
