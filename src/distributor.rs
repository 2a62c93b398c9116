//! The distributor: the one owner of the peer list, which turns each event
//! into a membership change or a fan-out to every peer but the source.

use futures::channel::mpsc::UnboundedSender;
use vstd::prelude::*;

verus! {

/// futures' unbounded channel sender, carried opaquely inside each peer.
#[verifier::external_type_specification]
#[verifier::external_body]
#[verifier::reject_recursive_types(T)]
pub struct ExUnboundedSender<T>(UnboundedSender<T>);

/// Relies on futures' `UnboundedSender::unbounded_send`: it queues the message
/// without blocking, or fails when the receiving side is gone. Which of the two
/// happened is not reported: a delivery to a departed peer is dropped.
#[verifier::external_body]
fn enqueue(tx: &UnboundedSender<Vec<u8>>, msg: Vec<u8>) {
    let _ = tx.unbounded_send(msg);
}

/// One registered peer: its identifier and the sending side of its private
/// outbound channel.
pub struct Peer {
    pub tx: UnboundedSender<Vec<u8>>,
    pub port_id: u32,
}

impl Peer {
    /// Hands `msg` to this peer's channel unless the peer is its source.
    /// Returns whether a delivery was attempted.
    pub fn send_out(&self, source_port: u32, msg: &Vec<u8>) -> (r: bool)
        ensures
            r == (source_port != self.port_id),
    {
        if source_port != self.port_id {
            enqueue(&self.tx, msg.clone());
            true
        } else {
            false
        }
    }
}

/// What the distributor consumes: a payload from a peer, or a new peer.
pub enum ServerEvent {
    Message { source_port: u32, msg: Vec<u8> },
    Peer(Peer),
}

/// An event as the distributor's history records it.
pub enum EventRecord {
    Joined(u32),
    Received(u32, Seq<u8>),
}

pub open spec fn record_of(ev: ServerEvent) -> EventRecord {
    match ev {
        ServerEvent::Message { source_port, msg } => EventRecord::Received(source_port, msg@),
        ServerEvent::Peer(p) => EventRecord::Joined(p.port_id),
    }
}

/// The identifiers of the peers that joined during `h`, in order of joining.
pub open spec fn joined(h: Seq<EventRecord>) -> Seq<u32>
    decreases h.len(),
{
    if h.len() == 0 {
        seq![]
    } else {
        let prev = joined(h.drop_last());
        match h.last() {
            EventRecord::Joined(id) => prev.push(id),
            EventRecord::Received(_, _) => prev,
        }
    }
}

/// The peers among `peers` that a message from `source` goes to, in order.
pub open spec fn fan_out(peers: Seq<u32>, source: u32) -> Seq<u32>
    decreases peers.len(),
{
    if peers.len() == 0 {
        seq![]
    } else {
        let prev = fan_out(peers.drop_last(), source);
        if peers.last() != source {
            prev.push(peers.last())
        } else {
            prev
        }
    }
}

/// The peers to which the `k`-th event of `h` delivered a message: for a
/// payload, every peer that had joined before it except its source; for a join,
/// none.
pub open spec fn output_at(h: Seq<EventRecord>, k: int) -> Seq<u32>
    recommends
        0 <= k < h.len(),
{
    match h[k] {
        EventRecord::Received(source, _) => fan_out(joined(h.take(k)), source),
        EventRecord::Joined(_) => seq![],
    }
}

/// The peer list, and the events that built it.
pub struct Server {
    peers: Vec<Peer>,
    history: Ghost<Seq<EventRecord>>,
}

impl Server {
    /// Every event processed so far, in the order processed.
    pub closed spec fn history(&self) -> Seq<EventRecord> {
        self.history@
    }

    /// The identifiers of the registered peers, in order of joining.
    pub closed spec fn peer_ids(&self) -> Seq<u32> {
        self.peers@.map_values(|p: Peer| p.port_id)
    }

    pub open spec fn wf(&self) -> bool {
        self.peer_ids() == joined(self.history())
    }

    pub fn new() -> (r: Server)
        ensures
            r.wf(),
            r.history() == Seq::<EventRecord>::empty(),
            r.peer_ids() == Seq::<u32>::empty(),
    {
        let r = Server { peers: Vec::new(), history: Ghost(Seq::empty()) };
        assert(r.peer_ids() =~= Seq::<u32>::empty());
        r
    }

    /// Registers a peer: it takes part in every later fan-out.
    pub fn add_peer(&mut self, peer: Peer)
        requires
            old(self).wf(),
        ensures
            final(self).wf(),
            final(self).peer_ids() == old(self).peer_ids().push(peer.port_id),
            final(self).history() == old(self).history().push(EventRecord::Joined(peer.port_id)),
    {
        let ghost id = peer.port_id;
        let ghost h = self.history@.push(EventRecord::Joined(id));
        self.peers.push(peer);
        self.history = Ghost(h);
        assert(h.drop_last() =~= old(self).history());
        assert(self.peer_ids() =~= old(self).peer_ids().push(id));
    }

    /// Hands `msg` to every registered peer but its source, in order of
    /// joining, and returns the peers that it was handed to.
    pub fn broadcast(&mut self, source_port: u32, msg: Vec<u8>) -> (r: Vec<u32>)
        requires
            old(self).wf(),
        ensures
            final(self).wf(),
            final(self).peer_ids() == old(self).peer_ids(),
            final(self).history() == old(self).history().push(
                EventRecord::Received(source_port, msg@),
            ),
            r@ == fan_out(old(self).peer_ids(), source_port),
    {
        let mut targets: Vec<u32> = Vec::new();
        let mut i: usize = 0;
        assert(self.peer_ids().take(0) =~= Seq::<u32>::empty());
        while i < self.peers.len()
            invariant
                i <= self.peers@.len(),
                targets@ == fan_out(self.peer_ids().take(i as int), source_port),
            decreases self.peers@.len() - i,
        {
            let sent = self.peers[i].send_out(source_port, &msg);
            if sent {
                targets.push(self.peers[i].port_id);
            }
            assert(self.peer_ids().take(i + 1).drop_last() =~= self.peer_ids().take(i as int));
            i += 1;
        }
        assert(self.peer_ids().take(i as int) =~= self.peer_ids());
        let ghost h = self.history@.push(EventRecord::Received(source_port, msg@));
        self.history = Ghost(h);
        assert(h.drop_last() =~= old(self).history());
        targets
    }

    /// Processes one event: a new peer joins, or a payload fans out. Returns
    /// the peers that a payload was handed to.
    pub fn handle(&mut self, ev: ServerEvent) -> (r: Vec<u32>)
        requires
            old(self).wf(),
        ensures
            final(self).wf(),
            final(self).history() == old(self).history().push(record_of(ev)),
            r@ == output_at(final(self).history(), old(self).history().len() as int),
    {
        let ghost h0 = self.history@;
        let ghost rec = record_of(ev);
        match ev {
            ServerEvent::Message { source_port, msg } => {
                let r = self.broadcast(source_port, msg);
                assert(self.history().take(h0.len() as int) =~= h0);
                r
            },
            ServerEvent::Peer(p) => {
                self.add_peer(p);
                Vec::new()
            },
        }
    }
}

proof fn lemma_fan_out_contains(peers: Seq<u32>, source: u32, x: u32)
    ensures
        fan_out(peers, source).contains(x) <==> (peers.contains(x) && x != source),
    decreases peers.len(),
{
    if peers.len() > 0 {
        let init = peers.drop_last();
        lemma_fan_out_contains(init, source, x);
        assert(peers =~= init.push(peers.last()));
        if init.contains(x) {
            let i = choose|i: int| 0 <= i < init.len() && init[i] == x;
            assert(peers[i] == x);
        }
        if peers.contains(x) {
            let i = choose|i: int| 0 <= i < peers.len() && peers[i] == x;
            if i < init.len() {
                assert(init[i] == x);
            }
        }
        let prev = fan_out(init, source);
        if peers.last() != source {
            assert(prev.push(peers.last()).last() == peers.last());
            if prev.contains(x) {
                let i = choose|i: int| 0 <= i < prev.len() && prev[i] == x;
                assert(prev.push(peers.last())[i] == x);
            }
            if prev.push(peers.last()).contains(x) && x != peers.last() {
                let i = choose|i: int| 0 <= i < prev.len() + 1 && prev.push(peers.last())[i] == x;
                assert(prev[i] == x);
            }
        }
    }
}

proof fn lemma_joined_contains(h: Seq<EventRecord>, j: int, p: u32)
    requires
        0 <= j < h.len(),
        h[j] == EventRecord::Joined(p),
    ensures
        joined(h).contains(p),
    decreases h.len(),
{
    let prev = joined(h.drop_last());
    if j < h.len() - 1 {
        lemma_joined_contains(h.drop_last(), j, p);
        let i = choose|i: int| 0 <= i < prev.len() && prev[i] == p;
        match h.last() {
            EventRecord::Joined(id) => {
                assert(prev.push(id)[i] == p);
            },
            EventRecord::Received(_, _) => {},
        }
    } else {
        assert(prev.push(p).last() == p);
    }
}

proof fn lemma_joined_source(h: Seq<EventRecord>, p: u32)
    requires
        joined(h).contains(p),
    ensures
        exists|j: int| 0 <= j < h.len() && h[j] == EventRecord::Joined(p),
    decreases h.len(),
{
    let init = h.drop_last();
    let prev = joined(init);
    match h.last() {
        EventRecord::Joined(id) => {
            if id == p {
                assert(h[h.len() - 1] == EventRecord::Joined(p));
            } else {
                let i = choose|i: int| 0 <= i < prev.len() + 1 && prev.push(id)[i] == p;
                assert(prev[i] == p);
                lemma_joined_source(init, p);
                let j = choose|j: int| 0 <= j < init.len() && init[j] == EventRecord::Joined(p);
                assert(h[j] == EventRecord::Joined(p));
            }
        },
        EventRecord::Received(_, _) => {
            lemma_joined_source(init, p);
            let j = choose|j: int| 0 <= j < init.len() && init[j] == EventRecord::Joined(p);
            assert(h[j] == EventRecord::Joined(p));
        },
    }
}

proof fn lemma_joined_append(a: Seq<EventRecord>, b: Seq<EventRecord>)
    ensures
        joined(a + b) == joined(a) + joined(b),
    decreases b.len(),
{
    if b.len() == 0 {
        assert(a + b =~= a);
        assert(joined(a) + joined(b) =~= joined(a));
    } else {
        lemma_joined_append(a, b.drop_last());
        assert((a + b).drop_last() =~= a + b.drop_last());
        assert((a + b).last() == b.last());
        match b.last() {
            EventRecord::Joined(id) => {
                assert(joined(a) + joined(b.drop_last()).push(id) =~= (joined(a) + joined(
                    b.drop_last(),
                )).push(id));
            },
            EventRecord::Received(_, _) => {},
        }
    }
}

/// A payload goes to every peer that joined before it was processed, except
/// its source, and never to its source.
pub proof fn lemma_source_exclusion(h: Seq<EventRecord>, k: int, j: int)
    requires
        0 <= j < k < h.len(),
        h[k] is Received,
        h[j] is Joined,
    ensures
        output_at(h, k).contains(h[j]->Joined_0) <==> h[j]->Joined_0 != h[k]->Received_0,
        !output_at(h, k).contains(h[k]->Received_0),
{
    let source = h[k]->Received_0;
    let p = h[j]->Joined_0;
    let before = h.take(k);
    assert(before[j] == h[j]);
    lemma_joined_contains(before, j, p);
    lemma_fan_out_contains(joined(before), source, p);
    lemma_fan_out_contains(joined(before), source, source);
}

/// A peer that joins after a payload was processed never receives that
/// payload, given that no identifier joins twice.
pub proof fn lemma_join_after_not_delivered(h: Seq<EventRecord>, k: int, j: int)
    requires
        0 <= k < j < h.len(),
        h[k] is Received,
        h[j] is Joined,
        forall|a: int, b: int|
            0 <= a < h.len() && 0 <= b < h.len() && h[a] is Joined && h[b] is Joined && h[a]
                == h[b] ==> a == b,
    ensures
        !output_at(h, k).contains(h[j]->Joined_0),
{
    let p = h[j]->Joined_0;
    let before = h.take(k);
    lemma_fan_out_contains(joined(before), h[k]->Received_0, p);
    if joined(before).contains(p) {
        lemma_joined_source(before, p);
        let i = choose|i: int| 0 <= i < before.len() && before[i] == EventRecord::Joined(p);
        assert(h[i] == h[j]);
    }
}

/// Processing further events changes neither who joined before them nor
/// where any earlier payload went: the effects of each event are fixed by the
/// events processed before it.
pub proof fn lemma_order_preserved(h: Seq<EventRecord>, more: Seq<EventRecord>)
    ensures
        joined(h + more) == joined(h) + joined(more),
        forall|k: int| 0 <= k < h.len() ==> #[trigger] output_at(h + more, k) == output_at(h, k),
{
    lemma_joined_append(h, more);
    assert forall|k: int| 0 <= k < h.len() implies #[trigger] output_at(h + more, k) == output_at(h, k) by {
        assert((h + more).take(k) =~= h.take(k));
        assert((h + more)[k] == h[k]);
    }
}

} // verus!
