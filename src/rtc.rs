//! Application packets: the sync protocol's messages on data channels.
use crate::models::{Secret, SecretView};
use crate::wire::{
    decode_value,
    decodes,
    encode_value,
    lemma_lies_at_concat,
    lemma_tag_at,
    lies_at,
    take_tag,
    DecodeError,
    Wire,
};
use vstd::prelude::*;

verus! {

#[derive(Clone, Debug, PartialEq, Eq)]
pub enum Packet {
    SyncRequest,
    SyncResponse { secrets: Vec<Secret>, deleted: Vec<Secret> },
    SyncTruth { secrets: Vec<Secret>, deleted: Vec<Secret> },
    Update { id: u128, data: Secret },
    Ping,
    Pong,
}

pub enum PacketView {
    SyncRequest,
    SyncResponse { secrets: Seq<SecretView>, deleted: Seq<SecretView> },
    SyncTruth { secrets: Seq<SecretView>, deleted: Seq<SecretView> },
    Update { id: u128, data: SecretView },
    Ping,
    Pong,
}

impl View for Packet {
    type V = PacketView;

    open spec fn view(&self) -> PacketView {
        match self {
            Packet::SyncRequest => PacketView::SyncRequest,
            Packet::SyncResponse { secrets, deleted } => PacketView::SyncResponse {
                secrets: secrets.model(),
                deleted: deleted.model(),
            },
            Packet::SyncTruth { secrets, deleted } => PacketView::SyncTruth {
                secrets: secrets.model(),
                deleted: deleted.model(),
            },
            Packet::Update { id, data } => PacketView::Update { id: *id, data: data@ },
            Packet::Ping => PacketView::Ping,
            Packet::Pong => PacketView::Pong,
        }
    }
}

pub open spec fn packet_tag(m: PacketView) -> u8 {
    match m {
        PacketView::SyncRequest => 0,
        PacketView::SyncResponse { .. } => 1,
        PacketView::SyncTruth { .. } => 2,
        PacketView::Update { .. } => 3,
        PacketView::Ping => 4,
        PacketView::Pong => 5,
    }
}

pub open spec fn packet_payload(m: PacketView) -> Seq<u8> {
    match m {
        PacketView::SyncResponse { secrets, deleted } => <(Vec<Secret>, Vec<Secret>) as Wire>::wire(
            (secrets, deleted),
        ),
        PacketView::SyncTruth { secrets, deleted } => <(Vec<Secret>, Vec<Secret>) as Wire>::wire(
            (secrets, deleted),
        ),
        PacketView::Update { id, data } => <(u128, Secret) as Wire>::wire((id, data)),
        _ => Seq::empty(),
    }
}

/// Where no encoded packet with tag `t` stands at `pos`, none stands there.
proof fn lemma_none_lies(b: Seq<u8>, pos: int, t: u8)
    requires
        pos < b.len(),
        b[pos] == t,
        forall|m: PacketView| packet_tag(m) == t ==> !#[trigger] lies_at(<Packet as Wire>::wire(m), b, pos),
    ensures
        forall|m: PacketView| !#[trigger] lies_at(<Packet as Wire>::wire(m), b, pos),
{
    assert forall|m: PacketView| !#[trigger] lies_at(<Packet as Wire>::wire(m), b, pos) by {
        if lies_at(<Packet as Wire>::wire(m), b, pos) {
            lemma_tag_at(packet_tag(m), packet_payload(m), b, pos);
        }
    }
}

impl Wire for Packet {
    type Model = PacketView;

    open spec fn model(&self) -> PacketView {
        self@
    }

    open spec fn wire(m: PacketView) -> Seq<u8> {
        seq![packet_tag(m)] + packet_payload(m)
    }

    proof fn lemma_wire_nonempty(m: PacketView) {
    }

    fn put(&self, out: &mut Vec<u8>) {
        match self {
            Packet::SyncRequest => {
                out.push(0u8);
            },
            Packet::SyncResponse { secrets, deleted } => {
                out.push(1u8);
                secrets.put(out);
                deleted.put(out);
            },
            Packet::SyncTruth { secrets, deleted } => {
                out.push(2u8);
                secrets.put(out);
                deleted.put(out);
            },
            Packet::Update { id, data } => {
                out.push(3u8);
                id.put(out);
                data.put(out);
            },
            Packet::Ping => {
                out.push(4u8);
            },
            Packet::Pong => {
                out.push(5u8);
            },
        }
        assert(final(out)@ =~= old(out)@ + Self::wire(self@));
    }

    fn take(b: &[u8], pos: usize) -> (r: Option<(Packet, usize)>) {
        let t = match take_tag(b, pos) {
            None => {
                assert forall|m: PacketView| !#[trigger] lies_at(Self::wire(m), b@, pos as int) by {
                    if lies_at(Self::wire(m), b@, pos as int) {
                        lemma_tag_at(packet_tag(m), packet_payload(m), b@, pos as int);
                    }
                }
                return None;
            },
            Some(t) => t,
        };
        assert(pos < b@.len());
        let ghost tagb = b@.subrange(pos as int, pos + 1);
        assert(tagb =~= seq![t]);
        if t == 0 || t == 4 || t == 5 {
            let v = if t == 0 {
                Packet::SyncRequest
            } else if t == 4 {
                Packet::Ping
            } else {
                Packet::Pong
            };
            proof {
                assert(Self::wire(v@) =~= seq![t]);
                assert forall|m: PacketView| #[trigger] lies_at(Self::wire(m), b@, pos as int) implies m
                    == v@ by {
                    lemma_tag_at(packet_tag(m), packet_payload(m), b@, pos as int);
                }
            }
            Some((v, pos + 1))
        } else if t == 1 || t == 2 {
            take_lists(b, pos, t)
        } else if t == 3 {
            take_update(b, pos)
        } else {
            proof {
                assert forall|m: PacketView| packet_tag(m) == t implies !#[trigger] lies_at(
                    Self::wire(m),
                    b@,
                    pos as int,
                ) by {}
                lemma_none_lies(b@, pos as int, t);
            }
            None
        }
    }
}

/// What `take` owes for packets, spelt out.
pub open spec fn packet_taken(r: Option<(Packet, usize)>, b: Seq<u8>, pos: int) -> bool {
    match r {
        Some((v, end)) => {
            &&& end == pos + <Packet as Wire>::wire(v@).len()
            &&& lies_at(<Packet as Wire>::wire(v@), b, pos)
            &&& forall|m: PacketView| #[trigger] lies_at(<Packet as Wire>::wire(m), b, pos) ==> m == v@
        },
        None => forall|m: PacketView| !#[trigger] lies_at(<Packet as Wire>::wire(m), b, pos),
    }
}

/// Reads the two secret lists of a sync response or sync truth.
fn take_lists(b: &[u8], pos: usize, t: u8) -> (r: Option<(Packet, usize)>)
    requires
        pos < b@.len() <= usize::MAX,
        b@[pos as int] == t,
        t == 1 || t == 2,
    ensures
        packet_taken(r, b@, pos as int),
{
    assert(b@.subrange(pos as int, pos + 1) =~= seq![t]);
    match <(Vec<Secret>, Vec<Secret>) as Wire>::take(b, pos + 1) {
        None => {
            proof {
                assert forall|m: PacketView| packet_tag(m) == t implies !#[trigger] lies_at(
                    <Packet as Wire>::wire(m),
                    b@,
                    pos as int,
                ) by {
                    if lies_at(<Packet as Wire>::wire(m), b@, pos as int) {
                        lemma_tag_at(packet_tag(m), packet_payload(m), b@, pos as int);
                    }
                }
                lemma_none_lies(b@, pos as int, t);
            }
            None
        },
        Some(((secrets, deleted), end)) => {
            let ghost parts = (secrets.model(), deleted.model());
            let v = if t == 1 {
                Packet::SyncResponse { secrets, deleted }
            } else {
                Packet::SyncTruth { secrets, deleted }
            };
            proof {
                assert(packet_payload(v@) == <(Vec<Secret>, Vec<Secret>) as Wire>::wire(parts));
                lemma_lies_at_concat(seq![t], packet_payload(v@), b@, pos as int);
                assert forall|m: PacketView| #[trigger] lies_at(<Packet as Wire>::wire(m), b@, pos as int) implies m
                    == v@ by {
                    lemma_tag_at(packet_tag(m), packet_payload(m), b@, pos as int);
                }
            }
            Some((v, end))
        },
    }
}

/// Reads the identifier and the secret of an update.
fn take_update(b: &[u8], pos: usize) -> (r: Option<(Packet, usize)>)
    requires
        pos < b@.len() <= usize::MAX,
        b@[pos as int] == 3,
    ensures
        packet_taken(r, b@, pos as int),
{
    assert(b@.subrange(pos as int, pos + 1) =~= seq![3u8]);
    match <(u128, Secret) as Wire>::take(b, pos + 1) {
        None => {
            proof {
                assert forall|m: PacketView| packet_tag(m) == 3 implies !#[trigger] lies_at(
                    <Packet as Wire>::wire(m),
                    b@,
                    pos as int,
                ) by {
                    if lies_at(<Packet as Wire>::wire(m), b@, pos as int) {
                        lemma_tag_at(packet_tag(m), packet_payload(m), b@, pos as int);
                    }
                }
                lemma_none_lies(b@, pos as int, 3);
            }
            None
        },
        Some(((id, data), end)) => {
            let v = Packet::Update { id, data };
            proof {
                lemma_lies_at_concat(seq![3u8], packet_payload(v@), b@, pos as int);
                assert forall|m: PacketView| #[trigger] lies_at(<Packet as Wire>::wire(m), b@, pos as int) implies m
                    == v@ by {
                    lemma_tag_at(packet_tag(m), packet_payload(m), b@, pos as int);
                }
            }
            Some((v, end))
        },
    }
}

/// The bytes of a packet on a data channel.
pub open spec fn encoded(m: PacketView) -> Seq<u8> {
    <Packet as Wire>::wire(m)
}

impl Packet {
    /// Encodes the packet: a tag for its kind, then its fields in order.
    pub fn encode(&self) -> (r: Vec<u8>)
        ensures
            r@ == encoded(self@),
    {
        encode_value(self)
    }

    /// Decodes a packet; fails exactly on bytes that encode none.
    pub fn decode(b: &[u8]) -> (r: Result<Packet, DecodeError>)
        ensures
            decodes(b@, r),
    {
        match decode_value::<Packet>(b) {
            Some(p) => Ok(p),
            None => Err(DecodeError),
        }
    }
}

/// Decoding what `encode` wrote gives back the packet that was encoded.
pub proof fn lemma_round_trip(m: PacketView, r: Result<Packet, DecodeError>)
    requires
        decodes(encoded(m), r),
    ensures
        r matches Ok(p) && p@ == m,
{
}

} // verus!
