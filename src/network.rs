//! The network manager's state machine for one local peer in one group: which
//! remote peers have a transport connection, which data channels each has,
//! and what to do with each signaling envelope that comes in. The transport
//! itself is driven by the caller, which performs the returned actions.
use crate::ids::fresh_id;
use crate::maps::{
    channel_entries,
    channels_get,
    channels_insert,
    channels_new,
    channels_remove,
    peer_entries,
    peers_get,
    peers_insert,
    peers_new,
    peers_remove,
    ChannelSlots,
    PeerSlots,
};
use crate::rtc;
use crate::wire::decodes;
use crate::ws;
use vstd::prelude::*;

verus! {

/// The label of every data channel that this library opens.
pub const DATA_CHANNEL_LABEL: &'static str = "PWND";

/// The signaling server used where none is given.
pub const DEFAULT_SIGNALING_SERVER: &'static str = "localhost:8000";

#[derive(Clone, Copy, Debug, PartialEq, Eq, Structural)]
pub enum Error {
    /// The signaling client failed.
    Signaler,
    /// Bytes that encode no packet of the expected kind.
    Serialization,
    /// The transport failed.
    Rtc,
    /// The signaling connection has closed.
    WsClosed,
    /// Every connection or channel slot number has been handed out.
    SlotsExhausted,
    /// The peer has no transport connection.
    UnknownPeer,
}

/// Where a remote peer stands: not contacted yet, negotiating over its
/// connection, or with at least one data channel open.
#[derive(Clone, Copy, Debug, PartialEq, Eq, Structural)]
pub enum Phase {
    Uncontacted,
    Negotiating,
    Open,
}

#[derive(Clone, Debug, PartialEq, Eq)]
pub struct NetworkOptions {
    pub id: u128,
    pub group: u128,
    pub signaling_server: String,
    /// Whether the signaling server is reached over TLS.
    pub secure: bool,
}

impl Default for NetworkOptions {
    /// Fresh random identifiers and the default signaling server, reached
    /// over TLS.
    fn default() -> (r: NetworkOptions)
        ensures
            r.signaling_server@ == DEFAULT_SIGNALING_SERVER@,
            r.secure,
    {
        NetworkOptions {
            id: fresh_id(),
            group: fresh_id(),
            signaling_server: DEFAULT_SIGNALING_SERVER.to_owned(),
            secure: true,
        }
    }
}

/// What the caller does on the transport for an envelope.
#[derive(Clone, Debug, PartialEq, Eq)]
pub enum Action {
    /// Open one new data channel, labelled `DATA_CHANNEL_LABEL`, to the peer.
    CreateChannel,
    /// Apply the blob as the peer's remote session description.
    SetRemoteDescription(Vec<u8>),
    /// Apply the blob as a remote ICE candidate of the peer.
    AddRemoteCandidate(Vec<u8>),
}

pub enum ActionView {
    CreateChannel,
    SetRemoteDescription(Seq<u8>),
    AddRemoteCandidate(Seq<u8>),
}

impl View for Action {
    type V = ActionView;

    open spec fn view(&self) -> ActionView {
        match self {
            Action::CreateChannel => ActionView::CreateChannel,
            Action::SetRemoteDescription(d) => ActionView::SetRemoteDescription(d@),
            Action::AddRemoteCandidate(c) => ActionView::AddRemoteCandidate(c@),
        }
    }
}

/// An envelope from a remote peer, with the transport connection it goes to.
/// Where `created` holds, that connection is new: the caller makes it, in
/// slot `conn`, before it performs the action.
#[derive(Clone, Debug, PartialEq, Eq)]
pub struct Dispatch {
    pub peer: u128,
    pub conn: u64,
    pub created: bool,
    pub action: Action,
}

pub struct DispatchView {
    pub peer: u128,
    pub conn: u64,
    pub created: bool,
    pub action: ActionView,
}

impl View for Dispatch {
    type V = DispatchView;

    open spec fn view(&self) -> DispatchView {
        DispatchView { peer: self.peer, conn: self.conn, created: self.created, action: self.action@ }
    }
}

pub struct NetworkView {
    pub id: u128,
    pub group: u128,
    pub signaling_server: Seq<char>,
    /// For each remote peer contacted so far, the slot of its connection.
    pub peers: Map<u128, u64>,
    /// For each remote peer, the slots of its open data channels.
    pub channels: Map<u128, Seq<u64>>,
    pub next_conn: u64,
    pub next_chan: u64,
}

/// The state is well formed: no connection to itself, channels only for
/// peers with a connection, and every slot handed out below the next one,
/// with no two peers on one connection slot.
pub open spec fn well_formed(s: NetworkView) -> bool {
    &&& !s.peers.contains_key(s.id)
    &&& forall|p: u128| #[trigger] s.channels.contains_key(p) ==> s.peers.contains_key(p)
    &&& forall|p: u128| #[trigger] s.peers.contains_key(p) ==> s.peers[p] < s.next_conn
    &&& forall|p: u128, q: u128|
        #![trigger s.peers[p], s.peers[q]]
        s.peers.contains_key(p) && s.peers.contains_key(q) && p != q ==> s.peers[p] != s.peers[q]
    &&& forall|p: u128, i: int|
        #![trigger s.channels[p][i]]
        s.channels.contains_key(p) && 0 <= i < s.channels[p].len() ==> s.channels[p][i] < s.next_chan
}

pub open spec fn action_for(op: ws::OpView) -> ActionView {
    match op {
        ws::OpView::Announce => ActionView::CreateChannel,
        ws::OpView::SessionDescription(d) => ActionView::SetRemoteDescription(d),
        ws::OpView::IceCandidate(c) => ActionView::AddRemoteCandidate(c),
    }
}

/// What an envelope does to the state, and what it asks of the caller.
/// Envelopes from the network itself are dropped. Otherwise the sender's
/// connection is looked up, or made in the next slot where there is none.
pub open spec fn signal_outcome(s: NetworkView, env: ws::PacketView) -> (
    NetworkView,
    Result<Option<DispatchView>, Error>,
) {
    let peer = env.client_id;
    if peer == s.id {
        (s, Ok(None))
    } else if s.peers.contains_key(peer) {
        (
            s,
            Ok(
                Some(
                    DispatchView {
                        peer,
                        conn: s.peers[peer],
                        created: false,
                        action: action_for(env.op),
                    },
                ),
            ),
        )
    } else if s.next_conn == u64::MAX {
        (s, Err(Error::SlotsExhausted))
    } else {
        (
            NetworkView {
                peers: s.peers.insert(peer, s.next_conn),
                next_conn: (s.next_conn + 1) as u64,
                ..s
            },
            Ok(
                Some(
                    DispatchView {
                        peer,
                        conn: s.next_conn,
                        created: true,
                        action: action_for(env.op),
                    },
                ),
            ),
        )
    }
}

pub open spec fn outcome_view(r: Result<Option<Dispatch>, Error>) -> Result<Option<DispatchView>, Error> {
    match r {
        Ok(Some(d)) => Ok(Some(d@)),
        Ok(None) => Ok(None),
        Err(e) => Err(e),
    }
}

/// The channel slots registered for `peer`, none if it has no entry.
pub open spec fn channels_of(s: NetworkView, peer: u128) -> Seq<u64> {
    if s.channels.contains_key(peer) {
        s.channels[peer]
    } else {
        Seq::empty()
    }
}

pub open spec fn phase_of(s: NetworkView, peer: u128) -> Phase {
    if !s.peers.contains_key(peer) {
        Phase::Uncontacted
    } else if channels_of(s, peer).len() == 0 {
        Phase::Negotiating
    } else {
        Phase::Open
    }
}

/// What `send` hands the caller: the encoded packet and the channels to
/// write it to.
#[derive(Clone, Debug, PartialEq, Eq)]
pub struct Delivery {
    pub bytes: Vec<u8>,
    pub channels: Vec<u64>,
}

pub struct Network {
    id: u128,
    group: u128,
    signaling_server: String,
    peers: PeerSlots,
    peer_channels: ChannelSlots,
    next_conn: u64,
    next_chan: u64,
}

impl View for Network {
    type V = NetworkView;

    closed spec fn view(&self) -> NetworkView {
        NetworkView {
            id: self.id,
            group: self.group,
            signaling_server: self.signaling_server@,
            peers: peer_entries(self.peers),
            channels: channel_entries(self.peer_channels),
            next_conn: self.next_conn,
            next_chan: self.next_chan,
        }
    }
}

impl Network {
    /// This network's own peer identifier.
    pub fn id(&self) -> (r: u128)
        ensures
            r == self@.id,
    {
        self.id
    }

    pub fn group(&self) -> (r: u128)
        ensures
            r == self@.group,
    {
        self.group
    }

    pub fn signaling_server(&self) -> (r: &String)
        ensures
            r@ == self@.signaling_server,
    {
        &self.signaling_server
    }

    /// The state of a network for `group_id` under a fresh random identity,
    /// with the default signaling server.
    pub fn new(group_id: u128) -> (r: Network)
        ensures
            r@.group == group_id,
            r@.signaling_server == DEFAULT_SIGNALING_SERVER@,
            r@.peers == Map::<u128, u64>::empty(),
            r@.channels == Map::<u128, Seq<u64>>::empty(),
            well_formed(r@),
    {
        let options = NetworkOptions {
            id: fresh_id(),
            group: group_id,
            signaling_server: DEFAULT_SIGNALING_SERVER.to_owned(),
            secure: true,
        };
        Network::new_opts(&options)
    }

    /// The state of a network with the options' identity, group and
    /// signaling server, before any peer has been contacted.
    pub fn new_opts(options: &NetworkOptions) -> (r: Network)
        ensures
            r@.id == options.id,
            r@.group == options.group,
            r@.signaling_server == options.signaling_server@,
            r@.peers == Map::<u128, u64>::empty(),
            r@.channels == Map::<u128, Seq<u64>>::empty(),
            well_formed(r@),
    {
        Network {
            id: options.id,
            group: options.group,
            signaling_server: options.signaling_server.clone(),
            peers: peers_new(),
            peer_channels: channels_new(),
            next_conn: 0,
            next_chan: 0,
        }
    }

    /// The envelope that announces this network to its group.
    pub fn announce(&self) -> (r: Vec<u8>)
        ensures
            r@ == ws::encoded(ws::PacketView { client_id: self@.id, op: ws::OpView::Announce }),
    {
        let env = ws::Packet { client_id: self.id, op: ws::Op::Announce };
        env.encode()
    }

    /// The encoded packet and every channel registered for `target_id`; none
    /// where no channel is registered for it.
    pub fn send(&self, target_id: u128, data: &rtc::Packet) -> (r: Option<Delivery>)
        ensures
            r is None <==> channels_of(self@, target_id).len() == 0,
            r matches Some(d) ==> d.bytes@ == rtc::encoded(data@) && d.channels@ == channels_of(
                self@,
                target_id,
            ),
    {
        match channels_get(&self.peer_channels, target_id) {
            None => None,
            Some(channels) => {
                if channels.len() == 0 {
                    None
                } else {
                    Some(Delivery { bytes: data.encode(), channels })
                }
            },
        }
    }

    /// Where `peer` stands.
    pub fn phase(&self, peer: u128) -> (r: Phase)
        ensures
            r == phase_of(self@, peer),
    {
        if peers_get(&self.peers, peer).is_none() {
            return Phase::Uncontacted;
        }
        match channels_get(&self.peer_channels, peer) {
            Some(list) => {
                if list.len() == 0 {
                    Phase::Negotiating
                } else {
                    Phase::Open
                }
            },
            None => Phase::Negotiating,
        }
    }

    /// Registers a data channel that has opened with `peer`, in the next
    /// channel slot, after the peer's other channels. A peer without a
    /// connection has no channel.
    pub fn register_channel(&mut self, peer: u128) -> (r: Result<u64, Error>)
        requires
            well_formed(old(self)@),
        ensures
            well_formed(final(self)@),
            match r {
                Ok(slot) => {
                    &&& old(self)@.peers.contains_key(peer)
                    &&& old(self)@.next_chan < u64::MAX
                    &&& slot == old(self)@.next_chan
                    &&& final(self)@ == NetworkView {
                        channels: old(self)@.channels.insert(
                            peer,
                            channels_of(old(self)@, peer).push(slot),
                        ),
                        next_chan: (slot + 1) as u64,
                        ..old(self)@
                    }
                },
                Err(e) => final(self)@ == old(self)@ && if !old(self)@.peers.contains_key(peer) {
                    e == Error::UnknownPeer
                } else {
                    e == Error::SlotsExhausted && old(self)@.next_chan == u64::MAX
                },
            },
    {
        if peers_get(&self.peers, peer).is_none() {
            return Err(Error::UnknownPeer);
        }
        if self.next_chan == u64::MAX {
            return Err(Error::SlotsExhausted);
        }
        let slot = self.next_chan;
        let ghost before = self@;
        let mut list = match channels_remove(&mut self.peer_channels, peer) {
            Some(l) => l,
            None => Vec::new(),
        };
        assert(list@ == channels_of(before, peer));
        list.push(slot);
        channels_insert(&mut self.peer_channels, peer, list);
        self.next_chan = slot + 1;
        proof {
            assert(self@.channels =~= before.channels.insert(peer, channels_of(before, peer).push(slot)));
            assert forall|p: u128, i: int|
                #![trigger self@.channels[p][i]]
                self@.channels.contains_key(p) && 0 <= i < self@.channels[p].len() implies self@.channels[p][i]
                < self@.next_chan by {
                if p != peer {
                    assert(before.channels[p][i] < before.next_chan);
                } else if i < channels_of(before, peer).len() {
                    assert(before.channels[p][i] < before.next_chan);
                }
            }
        }
        Ok(slot)
    }

    /// Forgets `peer`: its connection and its channels. For a peer whose
    /// transport connection could not be made, so that its next envelope
    /// starts over.
    pub fn drop_peer(&mut self, peer: u128)
        requires
            well_formed(old(self)@),
        ensures
            well_formed(final(self)@),
            final(self)@ == (NetworkView {
                peers: old(self)@.peers.remove(peer),
                channels: old(self)@.channels.remove(peer),
                ..old(self)@
            }),
    {
        let _ = peers_remove(&mut self.peers, peer);
        let _ = channels_remove(&mut self.peer_channels, peer);
    }

    /// Handles a decoded envelope: see `signal_outcome`.
    pub fn handle_signal(&mut self, packet: &ws::Packet) -> (r: Result<Option<Dispatch>, Error>)
        requires
            well_formed(old(self)@),
        ensures
            well_formed(final(self)@),
            (final(self)@, outcome_view(r)) == signal_outcome(old(self)@, packet@),
    {
        let peer = packet.client_id;
        if peer == self.id {
            return Ok(None);
        }
        let ghost before = self@;
        let (conn, created) = match peers_get(&self.peers, peer) {
            Some(slot) => (slot, false),
            None => {
                if self.next_conn == u64::MAX {
                    return Err(Error::SlotsExhausted);
                }
                let slot = self.next_conn;
                peers_insert(&mut self.peers, peer, slot);
                self.next_conn = slot + 1;
                (slot, true)
            },
        };
        let action = match &packet.op {
            ws::Op::Announce => Action::CreateChannel,
            ws::Op::SessionDescription(d) => Action::SetRemoteDescription(d.clone()),
            ws::Op::IceCandidate(c) => Action::AddRemoteCandidate(c.clone()),
        };
        proof {
            match &packet.op {
                ws::Op::SessionDescription(d) => {
                    assert(action@ == ActionView::SetRemoteDescription(d@));
                },
                ws::Op::IceCandidate(c) => {
                    assert(action@ == ActionView::AddRemoteCandidate(c@));
                },
                ws::Op::Announce => {},
            }
            if created {
                assert(self@.peers =~= before.peers.insert(peer, before.next_conn));
                assert forall|p: u128| #[trigger] self@.peers.contains_key(p) implies self@.peers[p]
                    < self@.next_conn by {
                    if p != peer {
                        assert(before.peers[p] < before.next_conn);
                    }
                }
                assert forall|p: u128, q: u128|
                    #![trigger self@.peers[p], self@.peers[q]]
                    self@.peers.contains_key(p) && self@.peers.contains_key(q) && p != q implies self@.peers[p]
                    != self@.peers[q] by {
                    if p != peer && q != peer {
                        assert(before.peers[p] != before.peers[q]);
                    } else if p != peer {
                        assert(before.peers[p] < before.next_conn);
                    } else {
                        assert(before.peers[q] < before.next_conn);
                    }
                }
                assert(self@ == NetworkView {
                    peers: before.peers.insert(peer, before.next_conn),
                    next_conn: (before.next_conn + 1) as u64,
                    ..before
                });
            }
        }
        Ok(Some(Dispatch { peer, conn, created, action }))
    }

    /// Handles the bytes of an envelope from the signaling stream: fails
    /// with `Serialization`, changing nothing, where they encode no
    /// envelope; else as `handle_signal` on the envelope they encode.
    pub fn handle_msg(&mut self, data: &[u8]) -> (r: Result<Option<Dispatch>, Error>)
        requires
            well_formed(old(self)@),
        ensures
            well_formed(final(self)@),
            (forall|m: ws::PacketView| #[trigger] ws::encoded(m) != data@) ==> r == Err::<
                Option<Dispatch>,
                Error,
            >(Error::Serialization) && final(self)@ == old(self)@,
            forall|m: ws::PacketView| #[trigger]
                ws::encoded(m) == data@ ==> (final(self)@, outcome_view(r)) == signal_outcome(
                    old(self)@,
                    m,
                ),
    {
        let decoded = ws::Packet::decode(data);
        assert(decodes(data@, decoded));
        match decoded {
            Err(_) => Err(Error::Serialization),
            Ok(packet) => {
                assert(ws::encoded(packet@) == data@);
                self.handle_signal(&packet)
            },
        }
    }
}

/// Envelopes that a network receives from itself change nothing and create
/// no connection to itself, however many of them come in.
pub proof fn lemma_self_envelope_ignored(s: NetworkView, op: ws::OpView)
    requires
        well_formed(s),
    ensures
        signal_outcome(s, ws::PacketView { client_id: s.id, op }) == (
            s,
            Ok::<Option<DispatchView>, Error>(None),
        ),
        !signal_outcome(s, ws::PacketView { client_id: s.id, op }).0.peers.contains_key(s.id),
{
}

/// Every envelope keeps the state well formed, so that no sequence of
/// envelopes ever creates a connection to the network itself; one from
/// another peer, once handled, leaves that peer contacted.
pub proof fn lemma_signal_keeps_well_formed(s: NetworkView, env: ws::PacketView)
    requires
        well_formed(s),
    ensures
        well_formed(signal_outcome(s, env).0),
        !signal_outcome(s, env).0.peers.contains_key(s.id),
        signal_outcome(s, env).0.id == s.id,
        signal_outcome(s, env).1 is Ok && env.client_id != s.id ==> phase_of(
            signal_outcome(s, env).0,
            env.client_id,
        ) != Phase::Uncontacted,
{
    let t = signal_outcome(s, env).0;
    if env.client_id != s.id && !s.peers.contains_key(env.client_id) && s.next_conn != u64::MAX {
        assert forall|p: u128| #[trigger] t.peers.contains_key(p) implies t.peers[p] < t.next_conn by {
            if p != env.client_id {
                assert(s.peers[p] < s.next_conn);
            }
        }
        assert forall|p: u128, q: u128|
            #![trigger t.peers[p], t.peers[q]]
            t.peers.contains_key(p) && t.peers.contains_key(q) && p != q implies t.peers[p] != t.peers[q] by {
            if p != env.client_id && q != env.client_id {
                assert(s.peers[p] != s.peers[q]);
            } else if p != env.client_id {
                assert(s.peers[p] < s.next_conn);
            } else {
                assert(s.peers[q] < s.next_conn);
            }
        }
    }
}

/// Where the transport could not make the connection for a new sender,
/// forgetting that sender leaves the peers and channels as they were before
/// its envelope came in.
pub proof fn lemma_failed_connection_forgotten(s: NetworkView, env: ws::PacketView)
    requires
        well_formed(s),
        env.client_id != s.id,
        !s.peers.contains_key(env.client_id),
    ensures
        signal_outcome(s, env).0.peers.remove(env.client_id) == s.peers,
        signal_outcome(s, env).0.channels.remove(env.client_id) == s.channels,
{
    let t = signal_outcome(s, env).0;
    assert(t.peers.remove(env.client_id) =~= s.peers);
    assert(t.channels.remove(env.client_id) =~= s.channels);
}

/// A peer's connection, as the transport's callbacks see it.
#[derive(Clone, Copy, Debug, PartialEq, Eq, Structural)]
pub struct Conn {
    pub local_id: u128,
    pub remote_id: u128,
}

impl Conn {
    /// The envelope that carries a local session description to the remote
    /// peer, by unicast to `remote_id`.
    pub fn on_description(&self, description: Vec<u8>) -> (r: Vec<u8>)
        ensures
            r@ == ws::encoded(
                ws::PacketView {
                    client_id: self.local_id,
                    op: ws::OpView::SessionDescription(description@),
                },
            ),
    {
        let env = ws::Packet { client_id: self.local_id, op: ws::Op::SessionDescription(description) };
        env.encode()
    }

    /// The envelope that carries a local ICE candidate to the remote peer,
    /// by unicast to `remote_id`.
    pub fn on_candidate(&self, candidate: Vec<u8>) -> (r: Vec<u8>)
        ensures
            r@ == ws::encoded(
                ws::PacketView { client_id: self.local_id, op: ws::OpView::IceCandidate(candidate@) },
            ),
    {
        let env = ws::Packet { client_id: self.local_id, op: ws::Op::IceCandidate(candidate) };
        env.encode()
    }
}

/// A data channel's receiving end.
pub struct Chan;

impl Chan {
    /// The packet that bytes from a data channel carry; none for malformed
    /// bytes, which are dropped.
    pub fn on_message(&self, msg: &[u8]) -> (r: Option<rtc::Packet>)
        ensures
            match r {
                Some(p) => rtc::encoded(p@) == msg@ && forall|m: rtc::PacketView| #[trigger]
                    rtc::encoded(m) == msg@ ==> m == p@,
                None => forall|m: rtc::PacketView| #[trigger] rtc::encoded(m) != msg@,
            },
    {
        match rtc::Packet::decode(msg) {
            Ok(p) => Some(p),
            Err(_) => None,
        }
    }
}

} // verus!
