//! Signaling envelopes: what peers send each other through the relay to set
//! up a direct connection.
use crate::wire::{
    decode_value,
    decodes,
    encode_value,
    lemma_bytes_model,
    lemma_tag_at,
    lies_at,
    take_tag,
    DecodeError,
    Wire,
};
use vstd::prelude::*;

verus! {

/// What a signaling envelope asks of its receiver. The session description
/// and the ICE candidate are opaque blobs of the transport, passed through
/// unmodified.
#[derive(Clone, Debug, PartialEq, Eq)]
pub enum Op {
    Announce,
    SessionDescription(Vec<u8>),
    IceCandidate(Vec<u8>),
}

pub enum OpView {
    Announce,
    SessionDescription(Seq<u8>),
    IceCandidate(Seq<u8>),
}

impl View for Op {
    type V = OpView;

    open spec fn view(&self) -> OpView {
        match self {
            Op::Announce => OpView::Announce,
            Op::SessionDescription(d) => OpView::SessionDescription(d@),
            Op::IceCandidate(c) => OpView::IceCandidate(c@),
        }
    }
}

pub open spec fn op_tag(m: OpView) -> u8 {
    match m {
        OpView::Announce => 0,
        OpView::SessionDescription(_) => 1,
        OpView::IceCandidate(_) => 2,
    }
}

pub open spec fn op_payload(m: OpView) -> Seq<u8> {
    match m {
        OpView::Announce => Seq::empty(),
        OpView::SessionDescription(d) => <Vec<u8> as Wire>::wire(d),
        OpView::IceCandidate(c) => <Vec<u8> as Wire>::wire(c),
    }
}

impl Wire for Op {
    type Model = OpView;

    open spec fn model(&self) -> OpView {
        self@
    }

    open spec fn wire(m: OpView) -> Seq<u8> {
        seq![op_tag(m)] + op_payload(m)
    }

    proof fn lemma_wire_nonempty(m: OpView) {
    }

    fn put(&self, out: &mut Vec<u8>) {
        match self {
            Op::Announce => {
                out.push(0u8);
            },
            Op::SessionDescription(d) => {
                out.push(1u8);
                d.put(out);
                proof {
                    lemma_bytes_model(*d);
                }
            },
            Op::IceCandidate(c) => {
                out.push(2u8);
                c.put(out);
                proof {
                    lemma_bytes_model(*c);
                }
            },
        }
        assert(final(out)@ =~= old(out)@ + Self::wire(self@));
    }

    fn take(b: &[u8], pos: usize) -> (r: Option<(Op, usize)>) {
        let t = match take_tag(b, pos) {
            None => {
                assert forall|m: OpView| !#[trigger] lies_at(Self::wire(m), b@, pos as int) by {
                    if lies_at(Self::wire(m), b@, pos as int) {
                        lemma_tag_at(op_tag(m), op_payload(m), b@, pos as int);
                    }
                }
                return None;
            },
            Some(t) => t,
        };
        assert(pos < b@.len());
        if t == 0 {
            proof {
                assert(b@.subrange(pos as int, pos + 1) =~= Self::wire(OpView::Announce));
                assert forall|m: OpView| #[trigger] lies_at(Self::wire(m), b@, pos as int) implies m
                    == OpView::Announce by {
                    lemma_tag_at(op_tag(m), op_payload(m), b@, pos as int);
                }
            }
            return Some((Op::Announce, pos + 1));
        }
        if t != 1 && t != 2 {
            assert forall|m: OpView| !#[trigger] lies_at(Self::wire(m), b@, pos as int) by {
                if lies_at(Self::wire(m), b@, pos as int) {
                    lemma_tag_at(op_tag(m), op_payload(m), b@, pos as int);
                }
            }
            return None;
        }
        match <Vec<u8> as Wire>::take(b, pos + 1) {
            None => {
                assert forall|m: OpView| !#[trigger] lies_at(Self::wire(m), b@, pos as int) by {
                    if lies_at(Self::wire(m), b@, pos as int) {
                        lemma_tag_at(op_tag(m), op_payload(m), b@, pos as int);
                    }
                }
                None
            },
            Some((blob, end)) => {
                let op = if t == 1 {
                    Op::SessionDescription(blob)
                } else {
                    Op::IceCandidate(blob)
                };
                proof {
                    lemma_bytes_model(blob);
                    assert(op_payload(op@) == <Vec<u8> as Wire>::wire(blob.model()));
                    crate::wire::lemma_lies_at_concat(seq![t], op_payload(op@), b@, pos as int);
                    assert(b@.subrange(pos as int, pos + 1) =~= seq![t]);
                    assert forall|m: OpView| #[trigger] lies_at(Self::wire(m), b@, pos as int) implies m
                        == op@ by {
                        lemma_tag_at(op_tag(m), op_payload(m), b@, pos as int);
                        match m {
                            OpView::SessionDescription(d) => {
                                assert(lies_at(<Vec<u8> as Wire>::wire(d), b@, pos + 1));
                            },
                            OpView::IceCandidate(c) => {
                                assert(lies_at(<Vec<u8> as Wire>::wire(c), b@, pos + 1));
                            },
                            OpView::Announce => {},
                        }
                    }
                }
                Some((op, end))
            },
        }
    }
}

/// A signaling envelope: who sent it, and what it asks.
#[derive(Clone, Debug, PartialEq, Eq)]
pub struct Packet {
    pub client_id: u128,
    pub op: Op,
}

pub struct PacketView {
    pub client_id: u128,
    pub op: OpView,
}

impl View for Packet {
    type V = PacketView;

    open spec fn view(&self) -> PacketView {
        PacketView { client_id: self.client_id, op: self.op@ }
    }
}

impl Wire for Packet {
    type Model = PacketView;

    open spec fn model(&self) -> PacketView {
        self@
    }

    open spec fn wire(m: PacketView) -> Seq<u8> {
        <(u128, Op) as Wire>::wire((m.client_id, m.op))
    }

    proof fn lemma_wire_nonempty(m: PacketView) {
        <(u128, Op) as Wire>::lemma_wire_nonempty((m.client_id, m.op));
    }

    fn put(&self, out: &mut Vec<u8>) {
        self.client_id.put(out);
        self.op.put(out);
        assert(final(out)@ =~= old(out)@ + Self::wire(self@));
    }

    fn take(b: &[u8], pos: usize) -> (r: Option<(Packet, usize)>) {
        match <(u128, Op) as Wire>::take(b, pos) {
            None => {
                assert forall|m: PacketView| !#[trigger] lies_at(Self::wire(m), b@, pos as int) by {
                    assert(!lies_at(<(u128, Op) as Wire>::wire((m.client_id, m.op)), b@, pos as int));
                }
                None
            },
            Some(((client_id, op), end)) => {
                let v = Packet { client_id, op };
                assert forall|m: PacketView| #[trigger] lies_at(Self::wire(m), b@, pos as int) implies m
                    == v@ by {
                    assert(lies_at(<(u128, Op) as Wire>::wire((m.client_id, m.op)), b@, pos as int));
                }
                Some((v, end))
            },
        }
    }
}

/// The bytes of an envelope on the wire.
pub open spec fn encoded(m: PacketView) -> Seq<u8> {
    <Packet as Wire>::wire(m)
}

impl Packet {
    /// Encodes the envelope: the sender's 16 bytes, a tag for the operation,
    /// then the operation's blob, length first.
    pub fn encode(&self) -> (r: Vec<u8>)
        ensures
            r@ == encoded(self@),
    {
        encode_value(self)
    }

    /// Decodes an envelope; fails exactly on bytes that encode none.
    pub fn decode(b: &[u8]) -> (r: Result<Packet, DecodeError>)
        ensures
            decodes(b@, r),
    {
        match decode_value::<Packet>(b) {
            Some(p) => Ok(p),
            None => Err(DecodeError),
        }
    }
}

/// Decoding what `encode` wrote gives back the envelope that was encoded.
pub proof fn lemma_round_trip(m: PacketView, r: Result<Packet, DecodeError>)
    requires
        decodes(encoded(m), r),
    ensures
        r matches Ok(p) && p@ == m,
{
}

} // verus!
