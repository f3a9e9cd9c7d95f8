//! The concurrent maps of the `dashmap` crate that hold the relay's and the
//! network's registries, with what each operation does to their contents.
use dashmap::DashMap;
use vstd::prelude::*;

verus! {

#[verifier::external_type_specification]
#[verifier::external_body]
#[verifier::reject_recursive_types(K)]
#[verifier::reject_recursive_types(V)]
#[verifier::reject_recursive_types(S)]
pub struct ExDashMap<K, V, S>(DashMap<K, V, S>);

pub type Outboxes = DashMap<(u128, u128), Vec<Vec<u8>>>;

pub type PeerSlots = DashMap<u128, u64>;

pub type ChannelSlots = DashMap<u128, Vec<u64>>;

/// What the relay's map holds: for each live (group, peer) connection, the
/// messages waiting to go out on it.
pub uninterp spec fn outbox_entries(m: DashMap<(u128, u128), Vec<Vec<u8>>>) -> Map<
    (u128, u128),
    Seq<Seq<u8>>,
>;

/// What the network's connection map holds: for each remote peer, the slot
/// of its transport connection.
pub uninterp spec fn peer_entries(m: DashMap<u128, u64>) -> Map<u128, u64>;

/// What the network's channel map holds: for each remote peer, the slots of
/// its data channels in the order in which they were registered.
pub uninterp spec fn channel_entries(m: DashMap<u128, Vec<u64>>) -> Map<u128, Seq<u64>>;

pub open spec fn empty_outbox_entries() -> Map<(u128, u128), Seq<Seq<u8>>> {
    Map::empty()
}

pub open spec fn empty_peer_entries() -> Map<u128, u64> {
    Map::empty()
}

pub open spec fn empty_channel_entries() -> Map<u128, Seq<u64>> {
    Map::empty()
}

/// Relies on `DashMap::new`: a new map is empty.
#[verifier::external_body]
pub(crate) fn outboxes_new() -> (r: Outboxes)
    ensures
        outbox_entries(r) == empty_outbox_entries(),
{
    DashMap::new()
}

/// Relies on `DashMap::insert`: afterwards the key maps to the value, and
/// every other entry stays.
#[verifier::external_body]
pub(crate) fn outboxes_insert(
    m: &mut DashMap<(u128, u128), Vec<Vec<u8>>>,
    k: (u128, u128),
    v: Vec<Vec<u8>>,
)
    ensures
        outbox_entries(*final(m)) == outbox_entries(*old(m)).insert(k, v.deep_view()),
{
    m.insert(k, v);
}

/// Relies on `DashMap::remove`: it takes the key's entry out and hands back
/// its value, if there was one.
#[verifier::external_body]
pub(crate) fn outboxes_remove(m: &mut DashMap<(u128, u128), Vec<Vec<u8>>>, k: (u128, u128)) -> (r:
    Option<Vec<Vec<u8>>>)
    ensures
        outbox_entries(*final(m)) == outbox_entries(*old(m)).remove(k),
        match r {
            Some(v) => outbox_entries(*old(m)).contains_key(k) && v.deep_view() == outbox_entries(
                *old(m),
            )[k],
            None => !outbox_entries(*old(m)).contains_key(k),
        },
{
    m.remove(&k).map(|(_, v)| v)
}

/// Relies on `DashMap::contains_key`.
#[verifier::external_body]
pub(crate) fn outboxes_contains(m: &DashMap<(u128, u128), Vec<Vec<u8>>>, k: (u128, u128)) -> (r:
    bool)
    ensures
        r == outbox_entries(*m).contains_key(k),
{
    m.contains_key(&k)
}

/// Relies on `DashMap::iter`: it visits every entry once, in no particular
/// order.
#[verifier::external_body]
pub(crate) fn outboxes_keys(m: &DashMap<(u128, u128), Vec<Vec<u8>>>) -> (r: Vec<(u128, u128)>)
    ensures
        r@.to_set() == outbox_entries(*m).dom(),
        r@.no_duplicates(),
{
    m.iter().map(|e| *e.key()).collect()
}

/// Relies on `DashMap::new`: a new map is empty.
#[verifier::external_body]
pub(crate) fn peers_new() -> (r: PeerSlots)
    ensures
        peer_entries(r) == empty_peer_entries(),
{
    DashMap::new()
}

/// Relies on `DashMap::get`: the key's value, if it has one.
#[verifier::external_body]
pub(crate) fn peers_get(m: &DashMap<u128, u64>, k: u128) -> (r: Option<u64>)
    ensures
        r == (if peer_entries(*m).contains_key(k) {
            Some(peer_entries(*m)[k])
        } else {
            None::<u64>
        }),
{
    m.get(&k).map(|e| *e.value())
}

/// Relies on `DashMap::insert`: afterwards the key maps to the value, and
/// every other entry stays.
#[verifier::external_body]
pub(crate) fn peers_insert(m: &mut DashMap<u128, u64>, k: u128, v: u64)
    ensures
        peer_entries(*final(m)) == peer_entries(*old(m)).insert(k, v),
{
    m.insert(k, v);
}

/// Relies on `DashMap::remove`: it takes the key's entry out.
#[verifier::external_body]
pub(crate) fn peers_remove(m: &mut DashMap<u128, u64>, k: u128) -> (r: Option<u64>)
    ensures
        peer_entries(*final(m)) == peer_entries(*old(m)).remove(k),
        r == (if peer_entries(*old(m)).contains_key(k) {
            Some(peer_entries(*old(m))[k])
        } else {
            None::<u64>
        }),
{
    m.remove(&k).map(|(_, v)| v)
}

/// Relies on `DashMap::new`: a new map is empty.
#[verifier::external_body]
pub(crate) fn channels_new() -> (r: ChannelSlots)
    ensures
        channel_entries(r) == empty_channel_entries(),
{
    DashMap::new()
}

/// Relies on `DashMap::get`: a copy of the key's value, if it has one.
#[verifier::external_body]
pub(crate) fn channels_get(m: &DashMap<u128, Vec<u64>>, k: u128) -> (r: Option<Vec<u64>>)
    ensures
        match r {
            Some(v) => channel_entries(*m).contains_key(k) && v@ == channel_entries(*m)[k],
            None => !channel_entries(*m).contains_key(k),
        },
{
    m.get(&k).map(|e| e.value().clone())
}

/// Relies on `DashMap::insert`: afterwards the key maps to the value, and
/// every other entry stays.
#[verifier::external_body]
pub(crate) fn channels_insert(m: &mut DashMap<u128, Vec<u64>>, k: u128, v: Vec<u64>)
    ensures
        channel_entries(*final(m)) == channel_entries(*old(m)).insert(k, v@),
{
    m.insert(k, v);
}

/// Relies on `DashMap::remove`: it takes the key's entry out and hands back
/// its value, if there was one.
#[verifier::external_body]
pub(crate) fn channels_remove(m: &mut DashMap<u128, Vec<u64>>, k: u128) -> (r: Option<Vec<u64>>)
    ensures
        channel_entries(*final(m)) == channel_entries(*old(m)).remove(k),
        match r {
            Some(v) => channel_entries(*old(m)).contains_key(k) && v@ == channel_entries(*old(m))[k],
            None => !channel_entries(*old(m)).contains_key(k),
        },
{
    m.remove(&k).map(|(_, v)| v)
}

} // verus!
