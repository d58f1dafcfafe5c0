//! One overlay instance: the per-room participant in the peer-to-peer
//! network. It keeps the flood pub/sub state (own topic subscriptions, the
//! partial view of peers to flood to, and the peers' known subscriptions)
//! together with the discovery sub-protocol's current set of visible peers,
//! and dispatches the events the network loop surfaces.

use vstd::prelude::*;

verus! {

/// Lifecycle of an overlay instance: created, then listening once a listen
/// address is bound, then running from the first processed event onward.
/// No stopped state is reachable from the control surface.
#[derive(Clone, Copy, PartialEq, Eq, Structural, Debug)]
pub enum Lifecycle {
    Created,
    Listening,
    Running,
}

/// An event surfaced by an overlay instance's network loop.
pub enum Event {
    /// An inbound pub/sub message from `source`.
    MessageReceived { source: u64, data: Vec<u8> },
    /// The discovery sub-protocol announced `peer`.
    PeerDiscovered { peer: u64 },
    /// The discovery sub-protocol reported `peer` as expired.
    PeerExpired { peer: u64 },
    /// Any other event kind; the dispatcher ignores these.
    Other,
}

/// The side effect the dispatcher asks its runner to perform.
pub enum Action {
    /// Log an inbound message (peer source and payload); nothing else.
    LogMessage { source: u64, data: Vec<u8> },
    /// No side effect beyond the topology change already applied.
    Ignore,
}

/// One copy of a published payload, addressed to one peer.
pub struct Delivery {
    pub to: u64,
    pub source: u64,
    pub data: Vec<u8>,
}

/// A remote peer's topic subscription, as known to the local flood
/// pub/sub state.
pub struct PeerSub {
    pub peer: u64,
    pub topic: String,
}

/// Whether some string in `v` reads as `t`.
pub open spec fn has_str(v: Seq<String>, t: Seq<char>) -> bool {
    exists|i: int| 0 <= i < v.len() && v[i]@ == t
}

/// Whether `v` records `peer` as subscribed to `topic`.
pub open spec fn has_sub(v: Seq<PeerSub>, peer: u64, topic: Seq<char>) -> bool {
    exists|i: int| 0 <= i < v.len() && v[i].peer == peer && v[i].topic@ == topic
}

/// No two strings in `v` read the same.
pub open spec fn distinct_strs(v: Seq<String>) -> bool {
    forall|i: int, j: int| 0 <= i < j < v.len() ==> v[i]@ != v[j]@
}

/// No (peer, topic) pair occurs twice in `v`.
pub open spec fn distinct_subs(v: Seq<PeerSub>) -> bool {
    forall|i: int, j: int|
        0 <= i < j < v.len() ==> !(v[i].peer == v[j].peer && v[i].topic@ == v[j].topic@)
}

/// Whether some delivery in `r` is addressed to `p`.
pub open spec fn delivers_to(r: Seq<Delivery>, p: u64) -> bool {
    exists|k: int| 0 <= k < r.len() && r[k].to == p
}

/// No two deliveries in `r` are addressed to the same peer.
pub open spec fn distinct_targets(r: Seq<Delivery>) -> bool {
    forall|k1: int, k2: int| 0 <= k1 < k2 < r.len() ==> r[k1].to != r[k2].to
}

/// The subscription state after one `subscribe` call on `topics`.
pub open spec fn topics_after_subscribe(topics: Seq<String>, topic: String) -> Seq<String> {
    if has_str(topics, topic@) {
        topics
    } else {
        topics.push(topic)
    }
}

/// One participant in the peer-to-peer network, bound to one room.
pub struct Overlay {
    /// The process identity's peer identifier, shared by every instance.
    pub local_peer: u64,
    /// Distinguishes this instance from every other one the process made.
    pub instance_id: u64,
    pub lifecycle: Lifecycle,
    /// Topics this instance subscribed to.
    pub topics: Vec<String>,
    /// The partial view: peers currently flooded to.
    pub partial_view: Vec<u64>,
    /// Remote peers' subscriptions, as learned from the pub/sub protocol.
    pub peer_subs: Vec<PeerSub>,
    /// Peers the discovery sub-protocol currently considers reachable.
    pub visible: Vec<u64>,
}

fn contains_u64(v: &Vec<u64>, x: u64) -> (r: bool)
    ensures
        r == v@.contains(x),
{
    let mut i: usize = 0;
    while i < v.len()
        invariant
            0 <= i <= v@.len(),
            forall|j: int| 0 <= j < i ==> v@[j] != x,
        decreases v@.len() - i,
    {
        if v[i] == x {
            assert(v@[i as int] == x);
            return true;
        }
        i += 1;
    }
    false
}

fn contains_str(v: &Vec<String>, t: &String) -> (r: bool)
    ensures
        r == has_str(v@, t@),
{
    let mut i: usize = 0;
    while i < v.len()
        invariant
            0 <= i <= v@.len(),
            forall|j: int| 0 <= j < i ==> v@[j]@ != t@,
        decreases v@.len() - i,
    {
        if v[i] == *t {
            assert(v@[i as int]@ == t@);
            return true;
        }
        i += 1;
    }
    false
}

fn contains_sub(v: &Vec<PeerSub>, peer: u64, topic: &String) -> (r: bool)
    ensures
        r == has_sub(v@, peer, topic@),
{
    let mut i: usize = 0;
    while i < v.len()
        invariant
            0 <= i <= v@.len(),
            forall|j: int| 0 <= j < i ==> !(v@[j].peer == peer && v@[j].topic@ == topic@),
        decreases v@.len() - i,
    {
        if v[i].peer == peer && v[i].topic == *topic {
            assert(v@[i as int].peer == peer && v@[i as int].topic@ == topic@);
            return true;
        }
        i += 1;
    }
    false
}

/// A copy of `v` with the (by `no_duplicates` unique) occurrence of `x`
/// taken out, order preserved.
fn remove_u64(v: &Vec<u64>, x: u64) -> (r: Vec<u64>)
    requires
        v@.no_duplicates(),
    ensures
        r@.no_duplicates(),
        forall|q: u64| r@.contains(q) <==> (v@.contains(q) && q != x),
{
    let mut r: Vec<u64> = Vec::new();
    let mut i: usize = 0;
    while i < v.len()
        invariant
            v@.no_duplicates(),
            0 <= i <= v@.len(),
            r@.no_duplicates(),
            forall|j: int| 0 <= j < i && v@[j] != x ==> r@.contains(#[trigger] v@[j]),
            forall|k: int|
                0 <= k < r@.len() ==> (exists|j: int| 0 <= j < i && v@[j] == #[trigger] r@[k])
                    && r@[k] != x,
        decreases v@.len() - i,
    {
        let q = v[i];
        if q != x {
            assert(!r@.contains(q)) by {
                if r@.contains(q) {
                    let k = choose|k: int| 0 <= k < r@.len() && r@[k] == q;
                    let j = choose|j: int| 0 <= j < i && v@[j] == r@[k];
                    assert(v@[j] == v@[i as int]);
                }
            }
            let ghost r_old = r@;
            r.push(q);
            assert forall|j: int| 0 <= j < i + 1 && v@[j] != x implies r@.contains(
                #[trigger] v@[j],
            ) by {
                if j < i {
                    assert(r_old.contains(v@[j]));
                    let k = choose|k: int| 0 <= k < r_old.len() && r_old[k] == v@[j];
                    assert(r@[k] == v@[j]);
                } else {
                    assert(r@[r_old.len() as int] == v@[j]);
                }
            }
            assert forall|k: int| 0 <= k < r@.len() implies (exists|j: int|
                0 <= j < i + 1 && v@[j] == #[trigger] r@[k]) && r@[k] != x by {
                if k < r_old.len() {
                    assert(r@[k] == r_old[k]);
                    let j = choose|j: int| 0 <= j < i && v@[j] == r_old[k];
                    assert(0 <= j < i + 1 && v@[j] == r@[k]);
                } else {
                    assert(r@[k] == q);
                    assert(0 <= i < i + 1 && v@[i as int] == r@[k]);
                }
            }
        } else {
            assert forall|k: int| 0 <= k < r@.len() implies (exists|j: int|
                0 <= j < i + 1 && v@[j] == #[trigger] r@[k]) && r@[k] != x by {
                let j = choose|j: int| 0 <= j < i && v@[j] == r@[k];
                assert(0 <= j < i + 1 && v@[j] == r@[k]);
            }
        }
        i += 1;
    }
    assert forall|q: u64| r@.contains(q) implies (v@.contains(q) && q != x) by {
        let k = choose|k: int| 0 <= k < r@.len() && r@[k] == q;
        let j = choose|j: int| 0 <= j < v@.len() && v@[j] == r@[k];
        assert(v@[j] == q);
    }
    assert forall|q: u64| (v@.contains(q) && q != x) implies r@.contains(q) by {
        let j = choose|j: int| 0 <= j < v@.len() && v@[j] == q;
        assert(r@.contains(v@[j]));
    }
    r
}

fn copy_bytes(data: &Vec<u8>) -> (r: Vec<u8>)
    ensures
        r@ == data@,
{
    let mut r: Vec<u8> = Vec::new();
    let mut i: usize = 0;
    while i < data.len()
        invariant
            0 <= i <= data@.len(),
            r@ == data@.subrange(0, i as int),
        decreases data@.len() - i,
    {
        r.push(data[i]);
        assert(r@ =~= data@.subrange(0, i + 1 as int));
        i += 1;
    }
    assert(r@ =~= data@);
    r
}

impl Overlay {
    /// Internal consistency: the partial view, the visible set, the topic
    /// list and the peer-subscription list hold no duplicates.
    pub open spec fn wf(self) -> bool {
        &&& self.partial_view@.no_duplicates()
        &&& self.visible@.no_duplicates()
        &&& distinct_strs(self.topics@)
        &&& distinct_subs(self.peer_subs@)
    }

    /// Whether a `publish` on `topic` floods to `p`: `p` is in the partial
    /// view, is known to subscribe to `topic`, and is not the local peer.
    pub open spec fn flood_target(self, topic: Seq<char>, p: u64) -> bool {
        &&& self.partial_view@.contains(p)
        &&& has_sub(self.peer_subs@, p, topic)
        &&& p != self.local_peer
    }

    /// A fresh instance: nothing subscribed, nobody discovered yet.
    pub fn new(local_peer: u64, instance_id: u64) -> (r: Overlay)
        ensures
            r.wf(),
            r.local_peer == local_peer,
            r.instance_id == instance_id,
            r.lifecycle == Lifecycle::Created,
            r.topics@.len() == 0,
            r.partial_view@.len() == 0,
            r.peer_subs@.len() == 0,
            r.visible@.len() == 0,
    {
        Overlay {
            local_peer,
            instance_id,
            lifecycle: Lifecycle::Created,
            topics: Vec::new(),
            partial_view: Vec::new(),
            peer_subs: Vec::new(),
            visible: Vec::new(),
        }
    }

    /// The instance has bound its listen address: created becomes listening.
    pub fn mark_listening(&mut self)
        requires
            old(self).lifecycle == Lifecycle::Created,
        ensures
            final(self).lifecycle == Lifecycle::Listening,
            final(self).local_peer == old(self).local_peer,
            final(self).instance_id == old(self).instance_id,
            final(self).topics == old(self).topics,
            final(self).partial_view == old(self).partial_view,
            final(self).peer_subs == old(self).peer_subs,
            final(self).visible == old(self).visible,
    {
        self.lifecycle = Lifecycle::Listening;
    }

    /// Subscribe this instance to `topic`. Idempotent: if the topic is
    /// already subscribed the instance is left exactly as it was. Returns
    /// whether the subscription is new.
    pub fn subscribe(&mut self, topic: String) -> (fresh: bool)
        requires
            old(self).wf(),
        ensures
            final(self).wf(),
            fresh == !has_str(old(self).topics@, topic@),
            final(self).topics@ == topics_after_subscribe(old(self).topics@, topic),
            has_str(old(self).topics@, topic@) ==> *final(self) == *old(self),
            final(self).lifecycle == old(self).lifecycle,
            final(self).local_peer == old(self).local_peer,
            final(self).instance_id == old(self).instance_id,
            final(self).partial_view == old(self).partial_view,
            final(self).peer_subs == old(self).peer_subs,
            final(self).visible == old(self).visible,
    {
        if contains_str(&self.topics, &topic) {
            false
        } else {
            self.topics.push(topic);
            true
        }
    }

    /// The flood pub/sub sub-protocol learned (from a remote subscription
    /// message) that `peer` subscribes to `topic`. Idempotent.
    pub fn record_peer_subscription(&mut self, peer: u64, topic: String)
        requires
            old(self).wf(),
        ensures
            final(self).wf(),
            final(self).peer_subs@ == if has_sub(old(self).peer_subs@, peer, topic@) {
                old(self).peer_subs@
            } else {
                old(self).peer_subs@.push(PeerSub { peer, topic })
            },
            final(self).lifecycle == old(self).lifecycle,
            final(self).local_peer == old(self).local_peer,
            final(self).instance_id == old(self).instance_id,
            final(self).topics == old(self).topics,
            final(self).partial_view == old(self).partial_view,
            final(self).visible == old(self).visible,
    {
        if !contains_sub(&self.peer_subs, peer, &topic) {
            self.peer_subs.push(PeerSub { peer, topic });
        }
    }

    /// The discovery sub-protocol refreshed its view of `peer` and surfaces
    /// an announcement event for the dispatcher to process later.
    pub fn discovery_announce(&mut self, peer: u64) -> (event: Event)
        requires
            old(self).wf(),
        ensures
            final(self).wf(),
            event == (Event::PeerDiscovered { peer }),
            final(self).visible@ == if old(self).visible@.contains(peer) {
                old(self).visible@
            } else {
                old(self).visible@.push(peer)
            },
            final(self).lifecycle == old(self).lifecycle,
            final(self).local_peer == old(self).local_peer,
            final(self).instance_id == old(self).instance_id,
            final(self).topics == old(self).topics,
            final(self).partial_view == old(self).partial_view,
            final(self).peer_subs == old(self).peer_subs,
    {
        if !contains_u64(&self.visible, peer) {
            self.visible.push(peer);
        }
        Event::PeerDiscovered { peer }
    }

    /// The discovery sub-protocol dropped `peer` from its view and surfaces
    /// an expiry event for the dispatcher to process later. A fresher
    /// announcement arriving before the event is processed makes the peer
    /// visible again, and the dispatcher will then ignore the stale expiry.
    pub fn discovery_expire(&mut self, peer: u64) -> (event: Event)
        requires
            old(self).wf(),
        ensures
            final(self).wf(),
            event == (Event::PeerExpired { peer }),
            forall|q: u64|
                final(self).visible@.contains(q) <==> (old(self).visible@.contains(q) && q
                    != peer),
            final(self).lifecycle == old(self).lifecycle,
            final(self).local_peer == old(self).local_peer,
            final(self).instance_id == old(self).instance_id,
            final(self).topics == old(self).topics,
            final(self).partial_view == old(self).partial_view,
            final(self).peer_subs == old(self).peer_subs,
    {
        self.visible = remove_u64(&self.visible, peer);
        Event::PeerExpired { peer }
    }

    /// The event dispatcher. An inbound message is handed back to the
    /// runner to log, with no other side effect; a discovery announcement
    /// unconditionally adds the peer to the partial view; a discovery
    /// expiry removes the peer only if the discovery sub-protocol no longer
    /// sees it at processing time (a stale expiry racing a fresher
    /// announcement is ignored); every other event kind is ignored. The
    /// first processed event moves a listening instance to running.
    pub fn handle_event(&mut self, event: Event) -> (action: Action)
        requires
            old(self).wf(),
            old(self).lifecycle != Lifecycle::Created,
        ensures
            final(self).wf(),
            final(self).lifecycle == Lifecycle::Running,
            final(self).local_peer == old(self).local_peer,
            final(self).instance_id == old(self).instance_id,
            final(self).topics == old(self).topics,
            final(self).peer_subs == old(self).peer_subs,
            final(self).visible == old(self).visible,
            match event {
                Event::MessageReceived { source, data } => {
                    &&& final(self).partial_view == old(self).partial_view
                    &&& action == (Action::LogMessage { source, data })
                },
                Event::PeerDiscovered { peer } => {
                    &&& final(self).partial_view@ == if old(self).partial_view@.contains(peer) {
                        old(self).partial_view@
                    } else {
                        old(self).partial_view@.push(peer)
                    }
                    &&& action == Action::Ignore
                },
                Event::PeerExpired { peer } => {
                    &&& old(self).visible@.contains(peer) ==> final(self).partial_view == old(
                        self,
                    ).partial_view
                    &&& !old(self).visible@.contains(peer) ==> forall|q: u64|
                        final(self).partial_view@.contains(q) <==> (old(
                            self,
                        ).partial_view@.contains(q) && q != peer)
                    &&& action == Action::Ignore
                },
                Event::Other => {
                    &&& final(self).partial_view == old(self).partial_view
                    &&& action == Action::Ignore
                },
            },
    {
        self.lifecycle = Lifecycle::Running;
        match event {
            Event::MessageReceived { source, data } => Action::LogMessage { source, data },
            Event::PeerDiscovered { peer } => {
                if !contains_u64(&self.partial_view, peer) {
                    self.partial_view.push(peer);
                }
                Action::Ignore
            },
            Event::PeerExpired { peer } => {
                if !contains_u64(&self.visible, peer) {
                    self.partial_view = remove_u64(&self.partial_view, peer);
                }
                Action::Ignore
            },
            Event::Other => Action::Ignore,
        }
    }

    /// Broadcast `data` on `topic`: one copy to every flood target, i.e.
    /// every peer in the partial view known to subscribe to `topic`, and
    /// never to the local peer itself. Best effort: the caller sends each
    /// copy once, with no acknowledgement and no retry.
    pub fn publish(&self, topic: &String, data: &Vec<u8>) -> (out: Vec<Delivery>)
        requires
            self.wf(),
        ensures
            distinct_targets(out@),
            forall|p: u64| delivers_to(out@, p) <==> self.flood_target(topic@, p),
            forall|k: int|
                0 <= k < out@.len() ==> out@[k].source == self.local_peer && out@[k].data@
                    == data@,
    {
        let pv = &self.partial_view;
        let mut out: Vec<Delivery> = Vec::new();
        let mut i: usize = 0;
        while i < pv.len()
            invariant
                self.wf(),
                pv == &self.partial_view,
                0 <= i <= pv@.len(),
                distinct_targets(out@),
                forall|k: int|
                    0 <= k < out@.len() ==> out@[k].source == self.local_peer && out@[k].data@
                        == data@,
                forall|j: int|
                    0 <= j < i && pv@[j] != self.local_peer && has_sub(
                        self.peer_subs@,
                        pv@[j],
                        topic@,
                    ) ==> delivers_to(out@, #[trigger] pv@[j]),
                forall|k: int|
                    0 <= k < out@.len() ==> (exists|j: int|
                        0 <= j < i && pv@[j] == (#[trigger] out@[k]).to) && has_sub(
                        self.peer_subs@,
                        out@[k].to,
                        topic@,
                    ) && out@[k].to != self.local_peer,
            decreases pv@.len() - i,
        {
            let p = pv[i];
            if p != self.local_peer && contains_sub(&self.peer_subs, p, topic) {
                assert(!delivers_to(out@, p)) by {
                    if delivers_to(out@, p) {
                        let k = choose|k: int| 0 <= k < out@.len() && out@[k].to == p;
                        let j = choose|j: int| 0 <= j < i && pv@[j] == out@[k].to;
                        assert(pv@[j] == pv@[i as int]);
                    }
                }
                let ghost out_old = out@;
                out.push(Delivery { to: p, source: self.local_peer, data: copy_bytes(data) });
                assert forall|j: int|
                    0 <= j < i + 1 && pv@[j] != self.local_peer && has_sub(
                        self.peer_subs@,
                        pv@[j],
                        topic@,
                    ) implies delivers_to(out@, #[trigger] pv@[j]) by {
                    if j < i {
                        assert(delivers_to(out_old, pv@[j]));
                        let k = choose|k: int| 0 <= k < out_old.len() && out_old[k].to == pv@[j];
                        assert(out@[k].to == pv@[j]);
                    } else {
                        assert(out@[out_old.len() as int].to == pv@[j]);
                    }
                }
                assert forall|k: int| 0 <= k < out@.len() implies (exists|j: int|
                    0 <= j < i + 1 && pv@[j] == (#[trigger] out@[k]).to) && has_sub(
                    self.peer_subs@,
                    out@[k].to,
                    topic@,
                ) && out@[k].to != self.local_peer by {
                    if k < out_old.len() {
                        assert(out@[k] == out_old[k]);
                        let j = choose|j: int| 0 <= j < i && pv@[j] == out_old[k].to;
                        assert(0 <= j < i + 1 && pv@[j] == out@[k].to);
                    } else {
                        assert(out@[k].to == p);
                        assert(0 <= i < i + 1 && pv@[i as int] == out@[k].to);
                    }
                }
            } else {
                assert forall|k: int| 0 <= k < out@.len() implies (exists|j: int|
                    0 <= j < i + 1 && pv@[j] == (#[trigger] out@[k]).to) && has_sub(
                    self.peer_subs@,
                    out@[k].to,
                    topic@,
                ) && out@[k].to != self.local_peer by {
                    let j = choose|j: int| 0 <= j < i && pv@[j] == out@[k].to;
                    assert(0 <= j < i + 1 && pv@[j] == out@[k].to);
                }
            }
            i += 1;
        }
        assert forall|p: u64| delivers_to(out@, p) implies self.flood_target(topic@, p) by {
            let k = choose|k: int| 0 <= k < out@.len() && out@[k].to == p;
            let j = choose|j: int| 0 <= j < pv@.len() && pv@[j] == out@[k].to;
            assert(pv@[j] == p);
        }
        assert forall|p: u64| self.flood_target(topic@, p) implies delivers_to(out@, p) by {
            let j = choose|j: int| 0 <= j < pv@.len() && pv@[j] == p;
            assert(delivers_to(out@, pv@[j]));
        }
        out
    }
}

/// How many deliveries in `r` are addressed to `p`.
pub open spec fn count_to(r: Seq<Delivery>, p: u64) -> nat
    decreases r.len(),
{
    if r.len() == 0 {
        0
    } else {
        (if r[0].to == p {
            1nat
        } else {
            0nat
        }) + count_to(r.drop_first(), p)
    }
}

/// Law: a broadcast with pairwise-distinct targets is at-most-once per
/// peer per call — exactly one copy reaches each targeted peer, and none
/// reaches any other peer.
pub proof fn lemma_delivery_exactly_once(r: Seq<Delivery>, p: u64)
    requires
        distinct_targets(r),
    ensures
        count_to(r, p) == if delivers_to(r, p) {
            1nat
        } else {
            0nat
        },
    decreases r.len(),
{
    if r.len() == 0 {
        assert(!delivers_to(r, p));
    } else {
        let rest = r.drop_first();
        assert forall|k1: int, k2: int| 0 <= k1 < k2 < rest.len() implies rest[k1].to
            != rest[k2].to by {
            assert(rest[k1] == r[k1 + 1]);
            assert(rest[k2] == r[k2 + 1]);
        }
        lemma_delivery_exactly_once(rest, p);
        if r[0].to == p {
            assert(!delivers_to(rest, p)) by {
                if delivers_to(rest, p) {
                    let k = choose|k: int| 0 <= k < rest.len() && rest[k].to == p;
                    assert(r[k + 1].to == r[0].to);
                }
            }
            assert(delivers_to(r, p));
        } else {
            assert(delivers_to(r, p) == delivers_to(rest, p)) by {
                if delivers_to(r, p) {
                    let k = choose|k: int| 0 <= k < r.len() && r[k].to == p;
                    assert(k >= 1);
                    assert(rest[k - 1].to == p);
                }
                if delivers_to(rest, p) {
                    let k = choose|k: int| 0 <= k < rest.len() && rest[k].to == p;
                    assert(r[k + 1].to == p);
                }
            }
        }
    }
}

/// Law: subscribing to a topic twice yields the same subscription state as
/// subscribing once.
pub proof fn lemma_subscribe_idempotent(topics: Seq<String>, topic: String)
    ensures
        topics_after_subscribe(topics_after_subscribe(topics, topic), topic)
            == topics_after_subscribe(topics, topic),
{
    let once = topics_after_subscribe(topics, topic);
    if !has_str(topics, topic@) {
        assert(once[topics.len() as int]@ == topic@);
        assert(has_str(once, topic@));
    }
}

} // verus!
