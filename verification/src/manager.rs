//! The control surface over the room registry: join a room by building a
//! fresh overlay instance for it, and post a message by broadcasting on the
//! room's topic. The caller owns the network side — constructing the
//! instance on the shared transport, binding its listen address, sending
//! the returned deliveries — and reports how the setup went; every decision
//! about the registry and the instance state is made, and verified, here.

use vstd::prelude::*;

use crate::overlay::{Delivery, Lifecycle, Overlay, delivers_to, distinct_targets};
use crate::registry::{Registry, RoomEntry, room_index_in};

verus! {

/// Why a join was refused: the overlay instance could not be constructed,
/// or no listen address could be bound.
#[derive(Clone, Copy, PartialEq, Eq, Structural, Debug)]
pub enum JoinError {
    ConstructionFailed,
    BindFailed,
}

/// Why a post was refused: the room is not registered.
#[derive(Clone, Copy, PartialEq, Eq, Structural, Debug)]
pub enum PostError {
    RoomNotFound,
}

/// How the network-side setup of a new overlay instance went, reported by
/// the runner that performed it: construction on the shared transport, then
/// binding an OS-assigned listen address on all interfaces.
#[derive(Clone, Copy, PartialEq, Eq, Structural, Debug)]
pub enum SetupOutcome {
    Ready,
    ConstructionFailed,
    BindFailed,
}

/// The room-scoped overlay manager: the process identity's peer id, the
/// shared room registry, and the counter that gives each overlay instance
/// a fresh identity. One of these exists per process, behind the caller's
/// lock.
pub struct Manager {
    pub local_peer: u64,
    pub registry: Registry,
    pub next_instance_id: u64,
}

impl Manager {
    /// The registry is well formed, every registered overlay instance is
    /// well formed, carries the process identity, and no two rooms share
    /// an instance.
    pub open spec fn wf(self) -> bool {
        &&& self.registry.wf()
        &&& forall|k: int|
            0 <= k < self.registry.entries@.len() ==> (
            #[trigger] self.registry.entries@[k]).overlay.wf()
        &&& forall|k: int|
            0 <= k < self.registry.entries@.len() ==> (
            #[trigger] self.registry.entries@[k]).overlay.local_peer == self.local_peer
        &&& forall|k: int|
            0 <= k < self.registry.entries@.len() ==> (
            #[trigger] self.registry.entries@[k]).overlay.instance_id < self.next_instance_id
        &&& forall|k1: int, k2: int|
            0 <= k1 < k2 < self.registry.entries@.len()
                ==> self.registry.entries@[k1].overlay.instance_id
                != self.registry.entries@[k2].overlay.instance_id
    }

    /// A manager for a process whose identity derives the peer id
    /// `local_peer`; no rooms joined yet.
    pub fn new(local_peer: u64) -> (r: Manager)
        ensures
            r.wf(),
            r.local_peer == local_peer,
            r.registry.entries@.len() == 0,
            r.next_instance_id == 0,
    {
        Manager { local_peer, registry: Registry::new(), next_instance_id: 0 }
    }

    /// Join `room_id`: a brand-new overlay instance, subscribed to exactly
    /// `topic` and listening, is installed under `room_id`; a previous
    /// entry for `room_id` is replaced; every other room is untouched.
    /// If the setup failed, the error is reported and nothing changes:
    /// the room is not created.
    pub fn join_room(&mut self, room_id: String, topic: String, setup: SetupOutcome) -> (r:
        Result<(), JoinError>)
        requires
            old(self).wf(),
            old(self).next_instance_id < u64::MAX,
        ensures
            final(self).wf(),
            final(self).local_peer == old(self).local_peer,
            setup == SetupOutcome::ConstructionFailed ==> r == Result::<(), JoinError>::Err(
                JoinError::ConstructionFailed,
            ) && *final(self) == *old(self),
            setup == SetupOutcome::BindFailed ==> r == Result::<(), JoinError>::Err(
                JoinError::BindFailed,
            ) && *final(self) == *old(self),
            setup == SetupOutcome::Ready ==> {
                &&& r == Result::<(), JoinError>::Ok(())
                &&& final(self).next_instance_id == old(self).next_instance_id + 1
                &&& final(self).registry.entries@.len() == if old(self).registry.has_room(
                    room_id@,
                ) {
                    old(self).registry.entries@.len()
                } else {
                    old(self).registry.entries@.len() + 1
                }
                &&& final(self).registry.has_room(room_id@)
                &&& final(self).registry.entry_of(room_id@).room_id@ == room_id@
                &&& final(self).registry.entry_of(room_id@).topic@ == topic@
                &&& final(self).registry.entry_of(room_id@).overlay.local_peer == old(
                    self,
                ).local_peer
                &&& final(self).registry.entry_of(room_id@).overlay.instance_id == old(
                    self,
                ).next_instance_id
                &&& final(self).registry.entry_of(room_id@).overlay.lifecycle
                    == Lifecycle::Listening
                &&& final(self).registry.entry_of(room_id@).overlay.topics@.len() == 1
                &&& final(self).registry.entry_of(room_id@).overlay.topics@[0]@ == topic@
                &&& final(self).registry.entry_of(room_id@).overlay.partial_view@.len() == 0
                &&& final(self).registry.entry_of(room_id@).overlay.peer_subs@.len() == 0
                &&& final(self).registry.entry_of(room_id@).overlay.visible@.len() == 0
                &&& forall|id: Seq<char>|
                    id != room_id@ ==> (#[trigger] final(self).registry.has_room(id) <==> old(
                        self,
                    ).registry.has_room(id))
                &&& forall|id: Seq<char>|
                    id != room_id@ && old(self).registry.has_room(id)
                        ==> #[trigger] final(self).registry.entry_of(id) == old(
                        self,
                    ).registry.entry_of(id)
            },
    {
        match setup {
            SetupOutcome::ConstructionFailed => Err(JoinError::ConstructionFailed),
            SetupOutcome::BindFailed => Err(JoinError::BindFailed),
            SetupOutcome::Ready => {
                let mut overlay = Overlay::new(self.local_peer, self.next_instance_id);
                let entry_topic = topic.clone();
                overlay.subscribe(topic);
                overlay.mark_listening();
                let ghost new_overlay = overlay;
                let entry = RoomEntry { room_id, overlay, topic: entry_topic };
                let ghost before = *self;
                self.registry.create_or_replace(entry);
                self.next_instance_id = self.next_instance_id + 1;
                proof {
                    let es = self.registry.entries@;
                    assert forall|k: int| 0 <= k < es.len() implies (#[trigger] es[k]).overlay.wf()
                        && es[k].overlay.local_peer == self.local_peer
                        && es[k].overlay.instance_id < self.next_instance_id by {
                        if es[k] == entry {
                            assert(es[k].overlay == new_overlay);
                        } else {
                            assert(before.registry.entries@.contains(es[k]));
                            let k0 = choose|k0: int|
                                0 <= k0 < before.registry.entries@.len()
                                    && before.registry.entries@[k0] == es[k];
                            assert(before.registry.entries@[k0].overlay.wf());
                        }
                    }
                    assert forall|k1: int, k2: int| 0 <= k1 < k2 < es.len() implies
                        es[k1].overlay.instance_id != es[k2].overlay.instance_id by {
                        if es[k1] == entry && es[k2] == entry {
                            assert(es[k1].room_id@ == es[k2].room_id@);
                        } else if es[k1] == entry || es[k2] == entry {
                            let other = if es[k1] == entry {
                                es[k2]
                            } else {
                                es[k1]
                            };
                            assert(before.registry.entries@.contains(other));
                            let k0 = choose|k0: int|
                                0 <= k0 < before.registry.entries@.len()
                                    && before.registry.entries@[k0] == other;
                            assert(before.registry.entries@[k0].overlay.instance_id
                                < before.next_instance_id);
                        } else {
                            let a = choose|a: int|
                                0 <= a < before.registry.entries@.len()
                                    && before.registry.entries@[a] == es[k1];
                            let b = choose|b: int|
                                0 <= b < before.registry.entries@.len()
                                    && before.registry.entries@[b] == es[k2];
                            if a == b {
                                assert(es[k1].room_id@ == es[k2].room_id@);
                            } else {
                                assert(before.registry.entries@[a].overlay.instance_id
                                    != before.registry.entries@[b].overlay.instance_id);
                            }
                        }
                    }
                }
                Ok(())
            },
        }
    }

    /// Post `data` to `room_id`: an unknown room is reported and nothing
    /// happens; otherwise the room's overlay instance broadcasts `data` on
    /// the room's topic and the deliveries to send are handed back, one per
    /// flood target. Nothing here mutates the registry.
    pub fn post_message(&self, room_id: &String, data: &Vec<u8>) -> (r: Result<
        Vec<Delivery>,
        PostError,
    >)
        requires
            self.wf(),
        ensures
            r is Err <==> !self.registry.has_room(room_id@),
            r is Err ==> r == Result::<Vec<Delivery>, PostError>::Err(PostError::RoomNotFound),
            r matches Result::Ok(out) ==> {
                let room = self.registry.entry_of(room_id@);
                &&& distinct_targets(out@)
                &&& forall|p: u64|
                    delivers_to(out@, p) <==> room.overlay.flood_target(room.topic@, p)
                &&& forall|k: int|
                    0 <= k < out@.len() ==> out@[k].source == self.local_peer && out@[k].data@
                        == data@
            },
    {
        match self.registry.lookup(room_id) {
            Option::None => Err(PostError::RoomNotFound),
            Option::Some(room) => {
                proof {
                    let i = room_index_in(self.registry.entries@, room_id@);
                    assert(0 <= i < self.registry.entries@.len()
                        && self.registry.entries@[i].room_id@ == room_id@);
                    assert(self.registry.entries@[i].overlay.wf());
                }
                Ok(room.overlay.publish(&room.topic, data))
            },
        }
    }
}

/// Law: two distinct registered rooms are backed by two distinct overlay
/// instances — joins of different rooms never collide on one instance.
pub proof fn lemma_rooms_have_distinct_instances(m: Manager, r1: Seq<char>, r2: Seq<char>)
    requires
        m.wf(),
        m.registry.has_room(r1),
        m.registry.has_room(r2),
        r1 != r2,
    ensures
        m.registry.entry_of(r1).overlay.instance_id != m.registry.entry_of(r2).overlay.instance_id,
{
    let es = m.registry.entries@;
    let i1 = room_index_in(es, r1);
    let i2 = room_index_in(es, r2);
    assert(0 <= i1 < es.len() && es[i1].room_id@ == r1);
    assert(0 <= i2 < es.len() && es[i2].room_id@ == r2);
    assert(i1 != i2);
    if i1 < i2 {
        assert(es[i1].overlay.instance_id != es[i2].overlay.instance_id);
    } else {
        assert(es[i2].overlay.instance_id != es[i1].overlay.instance_id);
    }
}

} // verus!
