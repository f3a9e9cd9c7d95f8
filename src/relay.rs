//! The signaling relay: a registry of live duplex connections keyed by
//! (group, peer), each with the messages waiting to go out on it. A message
//! that comes in on one connection goes out on every other connection of the
//! group; a unicast delivery goes out on one connection only.
use crate::maps::{
    outbox_entries,
    outboxes_contains,
    outboxes_insert,
    outboxes_keys,
    outboxes_new,
    outboxes_remove,
    Outboxes,
};
use crate::ids::{encode_names, hyphenated, id_text, msgpack_strings};
use crate::wire::put_bytes;
use vstd::prelude::*;

verus! {

#[derive(Clone, Copy, Debug, PartialEq, Eq, Structural)]
pub enum RelayError {
    /// The (group, peer) key already has a live connection.
    DuplicateRegistration,
    /// No live connection has the (group, peer) key.
    NotFound,
}

/// How many messages may wait on one connection. A message for a connection
/// whose outbox is full is lost for that connection alone.
pub const OUTBOX_CAPACITY: usize = 32;

/// The outbox `q` after `msg` was offered to it.
pub open spec fn offered(q: Outbox, msg: Seq<u8>) -> Outbox {
    if q.len() < OUTBOX_CAPACITY {
        q.push(msg)
    } else {
        q
    }
}

pub type Outbox = Seq<Seq<u8>>;

/// The registry after a join of `k`: a new connection with nothing waiting,
/// unless `k` is live already.
pub open spec fn joined(m: Map<(u128, u128), Outbox>, k: (u128, u128)) -> Map<(u128, u128), Outbox> {
    if m.contains_key(k) {
        m
    } else {
        m.insert(k, Seq::empty())
    }
}

pub open spec fn join_outcome(m: Map<(u128, u128), Outbox>, k: (u128, u128)) -> Result<(), RelayError> {
    if m.contains_key(k) {
        Err(RelayError::DuplicateRegistration)
    } else {
        Ok(())
    }
}

/// The registry after `msg` came in on `from`'s connection in `group`: it
/// waits on every other connection of the group that has room for it.
pub open spec fn broadcast_to(
    m: Map<(u128, u128), Outbox>,
    group: u128,
    from: u128,
    msg: Seq<u8>,
) -> Map<(u128, u128), Outbox> {
    Map::new(
        |k: (u128, u128)| m.contains_key(k),
        |k: (u128, u128)|
            if k.0 == group && k.1 != from {
                offered(m[k], msg)
            } else {
                m[k]
            },
    )
}

/// The peers of `group` but `from` whose outbox is full, which miss a
/// message that `from` sends.
pub open spec fn lagging(m: Map<(u128, u128), Outbox>, group: u128, from: u128) -> Set<u128> {
    Set::new(
        |p: u128| m.contains_key((group, p)) && p != from && m[(group, p)].len() >= OUTBOX_CAPACITY,
    )
}

/// The registry after a unicast of `msg` to `k`.
pub open spec fn delivered_to(m: Map<(u128, u128), Outbox>, k: (u128, u128), msg: Seq<u8>) -> Map<
    (u128, u128),
    Outbox,
> {
    if m.contains_key(k) {
        m.insert(k, offered(m[k], msg))
    } else {
        m
    }
}

pub open spec fn deliver_outcome(m: Map<(u128, u128), Outbox>, k: (u128, u128)) -> Result<bool, RelayError> {
    if !m.contains_key(k) {
        Err(RelayError::NotFound)
    } else {
        Ok(m[k].len() < OUTBOX_CAPACITY)
    }
}

/// The peers of `group` with a live connection.
pub open spec fn peers_of(m: Map<(u128, u128), Outbox>, group: u128) -> Set<u128> {
    Set::new(|p: u128| m.contains_key((group, p)))
}

pub open spec fn strictly_ascending(s: Seq<u128>) -> bool {
    forall|i: int, j: int| 0 <= i < j < s.len() ==> s[i] < s[j]
}

pub struct Relay {
    conns: Outboxes,
}

impl View for Relay {
    type V = Map<(u128, u128), Outbox>;

    closed spec fn view(&self) -> Map<(u128, u128), Outbox> {
        outbox_entries(self.conns)
    }
}

/// A copy of the bytes of `v`.
fn copy_bytes(v: &Vec<u8>) -> (r: Vec<u8>)
    ensures
        r@ == v@,
{
    let mut out: Vec<u8> = Vec::new();
    put_bytes(&mut out, v.as_slice());
    assert(out@ =~= v@);
    out
}

impl Relay {
    pub fn new() -> (r: Relay)
        ensures
            r@ == Map::<(u128, u128), Outbox>::empty(),
    {
        Relay { conns: outboxes_new() }
    }

    /// Registers a duplex connection for (group, peer). A second join with a
    /// key that is live is refused and leaves the first connection as it is.
    pub fn connect(&mut self, group: u128, peer: u128) -> (r: Result<(), RelayError>)
        ensures
            final(self)@ == joined(old(self)@, (group, peer)),
            r == join_outcome(old(self)@, (group, peer)),
    {
        if outboxes_contains(&self.conns, (group, peer)) {
            return Err(RelayError::DuplicateRegistration);
        }
        let e: Vec<Vec<u8>> = Vec::new();
        assert(e.deep_view() =~= Seq::<Seq<u8>>::empty());
        outboxes_insert(&mut self.conns, (group, peer), e);
        Ok(())
    }

    /// Removes the connection of (group, peer), with what still waited on
    /// it; no later message goes to it.
    pub fn disconnect(&mut self, group: u128, peer: u128)
        ensures
            final(self)@ == old(self)@.remove((group, peer)),
    {
        let _ = outboxes_remove(&mut self.conns, (group, peer));
    }

    /// Offers `msg` to the outbox of the connection of `k`, which is live;
    /// tells whether it had room.
    fn push_to(&mut self, k: (u128, u128), msg: &Vec<u8>) -> (r: bool)
        requires
            old(self)@.contains_key(k),
        ensures
            final(self)@ == old(self)@.insert(k, offered(old(self)@[k], msg@)),
            r == (old(self)@[k].len() < OUTBOX_CAPACITY),
    {
        match outboxes_remove(&mut self.conns, k) {
            Some(mut q) => {
                let ghost before = q.deep_view();
                let room = q.len() < OUTBOX_CAPACITY;
                if room {
                    let copy = copy_bytes(msg);
                    q.push(copy);
                    proof {
                        assert(copy.deep_view() =~= msg@);
                        assert(q.deep_view() =~= before.push(msg@));
                    }
                }
                outboxes_insert(&mut self.conns, k, q);
                proof {
                    assert(final(self)@ =~= old(self)@.insert(k, offered(old(self)@[k], msg@)));
                }
                room
            },
            None => false,
        }
    }

    /// Relays `msg`, which came in on the connection of `from` in `group`,
    /// to every other connection of the group, never back to `from`. Hands
    /// back the peers that missed it because their outbox was full.
    pub fn broadcast(&mut self, group: u128, from: u128, msg: &Vec<u8>) -> (r: Vec<u128>)
        ensures
            final(self)@ == broadcast_to(old(self)@, group, from, msg@),
            r@.to_set() == lagging(old(self)@, group, from),
    {
        let mut missed: Vec<u128> = Vec::new();
        let ghost start = self@;
        let keys = outboxes_keys(&self.conns);
        let mut i: usize = 0;
        while i < keys.len()
            invariant
                i <= keys@.len(),
                keys@.to_set() == start.dom(),
                keys@.no_duplicates(),
                self@.dom() == start.dom(),
                forall|k: (u128, u128)| #[trigger]
                    self@.contains_key(k) ==> self@[k] == (if keys@.take(i as int).contains(k) && k.0
                        == group && k.1 != from {
                        offered(start[k], msg@)
                    } else {
                        start[k]
                    }),
                forall|p: u128| #[trigger]
                    missed@.contains(p) <==> (keys@.take(i as int).contains((group, p)) && lagging(
                        start,
                        group,
                        from,
                    ).contains(p)),
            decreases keys@.len() - i,
        {
            let k = keys[i];
            proof {
                lemma_take_step(keys@, i as int);
            }
            let ghost before = self@;
            let ghost missed_before = missed@;
            proof {
                assert(keys@.to_set().contains(k));
                assert(before.contains_key(k));
                assert(before[k] == start[k]);
            }
            if k.0 == group && k.1 != from {
                if !self.push_to(k, msg) {
                    missed.push(k.1);
                }
            }
            proof {
                assert forall|x: (u128, u128)| #[trigger] self@.contains_key(x) implies self@[x] == (if keys@.take(
                    i + 1,
                ).contains(x) && x.0 == group && x.1 != from {
                    offered(start[x], msg@)
                } else {
                    start[x]
                }) by {
                    assert(before.contains_key(x));
                    if x != k {
                        assert(self@[x] == before[x]);
                    }
                }
                assert forall|p: u128| #[trigger] missed@.contains(p) <==> (keys@.take(i + 1).contains(
                    (group, p),
                ) && lagging(start, group, from).contains(p)) by {
                    if k.0 == group && k.1 != from && start[k].len() >= OUTBOX_CAPACITY {
                        assert(missed@ == missed_before.push(k.1));
                        assert(missed@.contains(p) <==> (missed_before.contains(p) || p == k.1)) by {
                            if missed@.contains(p) {
                                let j = choose|j: int| 0 <= j < missed@.len() && missed@[j] == p;
                                if j < missed_before.len() {
                                    assert(missed_before[j] == p);
                                }
                            }
                            if missed_before.contains(p) {
                                let j = choose|j: int| 0 <= j < missed_before.len() && missed_before[j] == p;
                                assert(missed@[j] == p);
                            }
                            if p == k.1 {
                                assert(missed@[missed_before.len() as int] == p);
                            }
                        }
                    } else {
                        assert(missed@ == missed_before);
                    }
                }
            }
            i = i + 1;
        }
        proof {
            assert(keys@.take(keys@.len() as int) =~= keys@);
            assert(self@ =~= broadcast_to(start, group, from, msg@));
            assert forall|p: u128| #[trigger] missed@.to_set().contains(p) <==> lagging(start, group, from).contains(p) by {
                assert(keys@.to_set().contains((group, p)) <==> keys@.contains((group, p)));
            }
            assert(missed@.to_set() =~= lagging(start, group, from));
        }
        missed
    }

    /// Delivers `msg` to the connection of (group, peer) alone. Tells whether
    /// it waits there: a connection whose outbox is full lags behind, and
    /// the message is lost for it.
    pub fn deliver(&mut self, group: u128, peer: u128, msg: &Vec<u8>) -> (r: Result<bool, RelayError>)
        ensures
            final(self)@ == delivered_to(old(self)@, (group, peer), msg@),
            r == deliver_outcome(old(self)@, (group, peer)),
    {
        if !outboxes_contains(&self.conns, (group, peer)) {
            return Err(RelayError::NotFound);
        }
        Ok(self.push_to((group, peer), msg))
    }

    /// Hands out the messages waiting on the connection of (group, peer), in
    /// the order in which they came, and empties its outbox.
    pub fn take_outbox(&mut self, group: u128, peer: u128) -> (r: Vec<Vec<u8>>)
        ensures
            r.deep_view() == (if old(self)@.contains_key((group, peer)) {
                old(self)@[(group, peer)]
            } else {
                Seq::empty()
            }),
            final(self)@ == (if old(self)@.contains_key((group, peer)) {
                old(self)@.insert((group, peer), Seq::empty())
            } else {
                old(self)@
            }),
    {
        match outboxes_remove(&mut self.conns, (group, peer)) {
            Some(q) => {
                let e: Vec<Vec<u8>> = Vec::new();
                assert(e.deep_view() =~= Seq::<Seq<u8>>::empty());
                outboxes_insert(&mut self.conns, (group, peer), e);
                assert(final(self)@ =~= old(self)@.insert((group, peer), Seq::empty()));
                q
            },
            None => {
                proof {
                    assert(old(self)@.remove((group, peer)) =~= old(self)@);
                }
                let e: Vec<Vec<u8>> = Vec::new();
                assert(e.deep_view() =~= Seq::<Seq<u8>>::empty());
                e
            },
        }
    }

    /// The peers of `group` with a live connection, in ascending order.
    pub fn list_peers(&self, group: u128) -> (r: Vec<u128>)
        ensures
            r@.to_set() == peers_of(self@, group),
            strictly_ascending(r@),
    {
        let keys = outboxes_keys(&self.conns);
        let mut out: Vec<u128> = Vec::new();
        let mut i: usize = 0;
        while i < keys.len()
            invariant
                i <= keys@.len(),
                keys@.to_set() == self@.dom(),
                keys@.no_duplicates(),
                strictly_ascending(out@),
                forall|p: u128| #[trigger]
                    out@.contains(p) <==> keys@.take(i as int).contains((group, p)),
            decreases keys@.len() - i,
        {
            let k = keys[i];
            proof {
                lemma_take_step(keys@, i as int);
            }
            if k.0 == group {
                insert_ascending(&mut out, k.1);
            }
            i = i + 1;
        }
        proof {
            assert(keys@.take(keys@.len() as int) =~= keys@);
            assert forall|p: u128| #[trigger] out@.to_set().contains(p) <==> peers_of(self@, group).contains(p) by {
                assert(keys@.to_set().contains((group, p)) <==> keys@.contains((group, p)));
            }
            assert(out@.to_set() =~= peers_of(self@, group));
        }
        out
    }
}

/// At most one live connection per key: a second join with a key that is
/// live is refused and changes nothing; once that connection has closed, a
/// join with the key succeeds again.
pub proof fn lemma_join_exclusive(m: Map<(u128, u128), Outbox>, group: u128, peer: u128)
    ensures
        join_outcome(joined(m, (group, peer)), (group, peer)) == Err::<(), RelayError>(
            RelayError::DuplicateRegistration,
        ),
        joined(joined(m, (group, peer)), (group, peer)) == joined(m, (group, peer)),
        join_outcome(joined(m, (group, peer)).remove((group, peer)), (group, peer)) == Ok::<
            (),
            RelayError,
        >(()),
{
}

/// A message that comes in on a's connection waits on the connections of b
/// and c, and of every other peer of the group with room for it, but never
/// on a's own; other groups do not see it.
pub proof fn lemma_broadcast_skips_sender(
    m: Map<(u128, u128), Outbox>,
    group: u128,
    a: u128,
    b: u128,
    c: u128,
    msg: Seq<u8>,
)
    requires
        m.contains_key((group, a)),
        m.contains_key((group, b)),
        m.contains_key((group, c)),
        a != b,
        a != c,
        m[(group, b)].len() < OUTBOX_CAPACITY,
        m[(group, c)].len() < OUTBOX_CAPACITY,
    ensures
        broadcast_to(m, group, a, msg)[(group, b)] == m[(group, b)].push(msg),
        broadcast_to(m, group, a, msg)[(group, c)] == m[(group, c)].push(msg),
        broadcast_to(m, group, a, msg)[(group, a)] == m[(group, a)],
        broadcast_to(m, group, a, msg).dom() == m.dom(),
        forall|k: (u128, u128)| #[trigger]
            m.contains_key(k) ==> broadcast_to(m, group, a, msg)[k] == (if k.0 == group && k.1 != a {
                offered(m[k], msg)
            } else {
                m[k]
            }),
{
    assert(broadcast_to(m, group, a, msg).dom() =~= m.dom());
}

/// A unicast delivery to x waits on x's connection alone.
pub proof fn lemma_unicast_only_target(
    m: Map<(u128, u128), Outbox>,
    group: u128,
    x: u128,
    msg: Seq<u8>,
)
    requires
        m.contains_key((group, x)),
        m[(group, x)].len() < OUTBOX_CAPACITY,
    ensures
        delivered_to(m, (group, x), msg)[(group, x)] == m[(group, x)].push(msg),
        delivered_to(m, (group, x), msg).dom() == m.dom(),
        forall|k: (u128, u128)| #[trigger]
            m.contains_key(k) && k != (group, x) ==> delivered_to(m, (group, x), msg)[k] == m[k],
{
    assert(delivered_to(m, (group, x), msg).dom() =~= m.dom());
}

/// One more element of a sequence without duplicates: the one at `i`, which
/// the first `i` elements do not hold.
proof fn lemma_take_step<K>(s: Seq<K>, i: int)
    requires
        0 <= i < s.len(),
        s.no_duplicates(),
    ensures
        !s.take(i).contains(s[i]),
        forall|x: K| #[trigger] s.take(i + 1).contains(x) <==> (s.take(i).contains(x) || x == s[i]),
{
    assert(s.take(i + 1) =~= s.take(i).push(s[i]));
    if s.take(i).contains(s[i]) {
        let j = choose|j: int| 0 <= j < i && #[trigger] s.take(i)[j] == s[i];
        assert(s[j] == s[i]);
    }
    assert forall|x: K| #[trigger] s.take(i + 1).contains(x) <==> (s.take(i).contains(x) || x == s[i]) by {
        if s.take(i + 1).contains(x) {
            let j = choose|j: int| 0 <= j < i + 1 && #[trigger] s.take(i + 1)[j] == x;
            if j < i {
                assert(s.take(i)[j] == x);
            }
        }
        if s.take(i).contains(x) {
            let j = choose|j: int| 0 <= j < i && #[trigger] s.take(i)[j] == x;
            assert(s.take(i + 1)[j] == x);
        }
        if x == s[i] {
            assert(s.take(i + 1)[i] == x);
        }
    }
}

/// Inserts `x`, which `v` does not hold, at its place in ascending order.
fn insert_ascending(v: &mut Vec<u128>, x: u128)
    requires
        strictly_ascending(old(v)@),
        !old(v)@.contains(x),
    ensures
        strictly_ascending(final(v)@),
        forall|p: u128| #[trigger] final(v)@.contains(p) <==> (old(v)@.contains(p) || p == x),
{
    let mut j: usize = 0;
    while j < v.len() && v[j] < x
        invariant
            j <= v@.len(),
            forall|i: int| 0 <= i < j ==> v@[i] < x,
        decreases v@.len() - j,
    {
        j = j + 1;
    }
    let ghost before = v@;
    v.insert(j, x);
    proof {
        assert(v@ =~= before.subrange(0, j as int).push(x) + before.subrange(j as int, before.len() as int));
        assert forall|p: u128| #[trigger] v@.contains(p) <==> (before.contains(p) || p == x) by {
            if v@.contains(p) {
                let i = choose|i: int| 0 <= i < v@.len() && v@[i] == p;
                if i < j {
                    assert(before[i] == p);
                } else if i > j {
                    assert(before[i - 1] == p);
                }
            }
            if before.contains(p) {
                let i = choose|i: int| 0 <= i < before.len() && before[i] == p;
                if i < j {
                    assert(v@[i] == p);
                } else {
                    assert(v@[i + 1] == p);
                }
            }
            if p == x {
                assert(v@[j as int] == p);
            }
        }
        assert forall|a: int, b: int| 0 <= a < b < v@.len() implies v@[a] < v@[b] by {
            if j < before.len() {
                assert(before[j as int] >= x);
                assert(before[j as int] != x);
            }
            if a < j && b == j {
            } else if a < j && b > j {
                assert(v@[b] == before[b - 1]);
                assert(before[j as int] > x);
            } else if a == j && b > j {
                assert(v@[b] == before[b - 1]);
            } else if a > j {
                assert(v@[a] == before[a - 1] && v@[b] == before[b - 1]);
            }
        }
    }
}

/// The hyphenated texts of `ids`, in order.
pub open spec fn id_texts(ids: Seq<u128>) -> Seq<Seq<char>> {
    ids.map_values(|p: u128| hyphenated(p))
}

/// The body of a roster reply: the group's live peers in ascending order,
/// as hyphenated texts in a MessagePack array.
pub open spec fn roster_body(m: Map<(u128, u128), Outbox>, group: u128, body: Seq<u8>) -> bool {
    exists|s: Seq<u128>|
        #![trigger id_texts(s)]
        s.to_set() == peers_of(m, group) && strictly_ascending(s) && body == msgpack_strings(id_texts(s))
}

/// A unicast delivery as the relay's HTTP endpoint answers it: 200 where
/// (group, peer) is live, 404 where it is not; with whether the body now
/// waits on that connection, which it does not where the connection lags.
pub fn send_message(relay: &mut Relay, group: u128, peer: u128, body: &Vec<u8>) -> (r: (u16, bool))
    ensures
        final(relay)@ == delivered_to(old(relay)@, (group, peer), body@),
        r == match deliver_outcome(old(relay)@, (group, peer)) {
            Ok(queued) => (200u16, queued),
            Err(_) => (404u16, false),
        },
{
    match relay.deliver(group, peer, body) {
        Ok(queued) => (200, queued),
        Err(_) => (404, false),
    }
}

/// The relay's roster reply for `group`: 404 with no body where the group
/// has no live peer; else 200 with the roster.
pub fn get_clients(relay: &Relay, group: u128) -> (r: (u16, Vec<u8>))
    ensures
        r.0 == 404 <==> peers_of(relay@, group) == Set::<u128>::empty(),
        peers_of(relay@, group) != Set::<u128>::empty() ==> r.0 == 200,
        r.0 == 200 ==> roster_body(relay@, group, r.1@),
        r.0 == 200 || r.0 == 404 || r.0 == 500,
        r.0 != 200 ==> r.1@.len() == 0,
{
    let peers = relay.list_peers(group);
    if peers.len() == 0 {
        proof {
            assert(peers_of(relay@, group) =~= Set::<u128>::empty());
        }
        return (404, Vec::new());
    }
    proof {
        assert(peers_of(relay@, group).contains(peers@[0]));
    }
    let mut names: Vec<String> = Vec::new();
    let mut i: usize = 0;
    while i < peers.len()
        invariant
            i <= peers@.len(),
            names.deep_view() == id_texts(peers@.take(i as int)),
        decreases peers@.len() - i,
    {
        let t = id_text(peers[i]);
        let ghost before = names.deep_view();
        let ghost tv = t@;
        names.push(t);
        proof {
            assert(names.deep_view() =~= before.push(tv));
            assert(peers@.take(i + 1) =~= peers@.take(i as int).push(peers@[i as int]));
            assert(id_texts(peers@.take(i + 1)) =~= id_texts(peers@.take(i as int)).push(
                hyphenated(peers@[i as int]),
            ));
        }
        i = i + 1;
    }
    assert(peers@.take(peers@.len() as int) =~= peers@);
    let encoded = encode_names(&names);
    proof {
        if encoded is Some {
            assert(roster_body(relay@, group, encoded->Some_0@));
        }
    }
    roster_response(encoded)
}

/// The reply for an encoded roster: 200 with it, or 500 with no body where
/// encoding failed.
pub fn roster_response(encoded: Option<Vec<u8>>) -> (r: (u16, Vec<u8>))
    ensures
        match encoded {
            Some(b) => r.0 == 200 && r.1@ == b@,
            None => r.0 == 500 && r.1@.len() == 0,
        },
{
    match encoded {
        Some(b) => (200, b),
        None => (500, Vec::new()),
    }
}

} // verus!
