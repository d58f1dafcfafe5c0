//! The room registry: the shared mapping from room name to its overlay
//! instance and topic. Room names are unique keys; an entry, once made,
//! stays until it is replaced by a later join of the same room. The process
//! shares one registry across all request handlers behind one lock, which
//! the caller supplies; every operation here is a single critical section's
//! worth of work.

use vstd::prelude::*;

use crate::overlay::Overlay;

verus! {

/// One registry entry: a room, its overlay instance and its topic.
pub struct RoomEntry {
    pub room_id: String,
    pub overlay: Overlay,
    pub topic: String,
}

/// No two entries in `s` name the same room.
pub open spec fn distinct_rooms(s: Seq<RoomEntry>) -> bool {
    forall|i: int, j: int| 0 <= i < j < s.len() ==> s[i].room_id@ != s[j].room_id@
}

/// Whether `s` holds an entry for the room named `id`.
pub open spec fn has_room_in(s: Seq<RoomEntry>, id: Seq<char>) -> bool {
    exists|i: int| 0 <= i < s.len() && s[i].room_id@ == id
}

/// The index of the entry for `id`; meaningful only when `has_room_in`.
pub open spec fn room_index_in(s: Seq<RoomEntry>, id: Seq<char>) -> int {
    choose|i: int| 0 <= i < s.len() && s[i].room_id@ == id
}

/// The entry for `id`; meaningful only when `has_room_in`.
pub open spec fn entry_in(s: Seq<RoomEntry>, id: Seq<char>) -> RoomEntry {
    s[room_index_in(s, id)]
}

/// With distinct room names, any index whose entry names `id` is the index
/// `room_index_in` denotes, so `entry_in` is the one entry for `id`.
pub proof fn lemma_room_entry_unique(s: Seq<RoomEntry>, id: Seq<char>, i: int)
    requires
        distinct_rooms(s),
        0 <= i < s.len(),
        s[i].room_id@ == id,
    ensures
        has_room_in(s, id),
        room_index_in(s, id) == i,
        entry_in(s, id) == s[i],
{
    assert(has_room_in(s, id));
    let j = room_index_in(s, id);
    assert(0 <= j < s.len() && s[j].room_id@ == id);
    if i != j {
        assert(s[i].room_id@ != s[j].room_id@);
    }
}

/// The mapping from room name to overlay instance and topic.
pub struct Registry {
    pub entries: Vec<RoomEntry>,
}

impl Registry {
    /// Room names are unique keys.
    pub open spec fn wf(self) -> bool {
        distinct_rooms(self.entries@)
    }

    /// Whether a room named `id` is registered.
    pub open spec fn has_room(self, id: Seq<char>) -> bool {
        has_room_in(self.entries@, id)
    }

    /// The entry registered for `id`; meaningful only when `has_room`.
    pub open spec fn entry_of(self, id: Seq<char>) -> RoomEntry {
        entry_in(self.entries@, id)
    }

    /// An empty registry.
    pub fn new() -> (r: Registry)
        ensures
            r.wf(),
            r.entries@.len() == 0,
    {
        Registry { entries: Vec::new() }
    }

    /// The entry for `room_id`, if the room is registered.
    pub fn lookup(&self, room_id: &String) -> (r: Option<&RoomEntry>)
        requires
            self.wf(),
        ensures
            match r {
                Option::Some(e) => self.has_room(room_id@) && *e == self.entry_of(room_id@),
                Option::None => !self.has_room(room_id@),
            },
    {
        let mut i: usize = 0;
        while i < self.entries.len()
            invariant
                self.wf(),
                0 <= i <= self.entries@.len(),
                forall|j: int| 0 <= j < i ==> self.entries@[j].room_id@ != room_id@,
            decreases self.entries@.len() - i,
        {
            if self.entries[i].room_id == *room_id {
                proof {
                    lemma_room_entry_unique(self.entries@, room_id@, i as int);
                }
                return Some(&self.entries[i]);
            }
            i += 1;
        }
        None
    }

    /// Install `entry` under its room name; a room already registered under
    /// that name is replaced by the new entry, and every other room keeps
    /// its entry.
    pub fn create_or_replace(&mut self, entry: RoomEntry)
        requires
            old(self).wf(),
        ensures
            final(self).wf(),
            final(self).has_room(entry.room_id@),
            final(self).entry_of(entry.room_id@) == entry,
            forall|id: Seq<char>|
                id != entry.room_id@ ==> (#[trigger] final(self).has_room(id)
                    <==> old(self).has_room(id)),
            forall|id: Seq<char>|
                id != entry.room_id@ && old(self).has_room(id)
                    ==> #[trigger] final(self).entry_of(id) == old(self).entry_of(id),
            forall|k: int|
                0 <= k < final(self).entries@.len() ==> (#[trigger] final(self).entries@[k])
                    == entry || old(self).entries@.contains(final(self).entries@[k]),
            final(self).entries@.len() == if old(self).has_room(entry.room_id@) {
                old(self).entries@.len()
            } else {
                old(self).entries@.len() + 1
            },
    {
        let ghost before = self.entries@;
        let n = self.entries.len();
        let mut i: usize = 0;
        while i < n
            invariant
                self.wf(),
                self.entries@ == before,
                before == old(self).entries@,
                n == before.len(),
                0 <= i <= n,
                forall|j: int| 0 <= j < i ==> before[j].room_id@ != entry.room_id@,
            decreases n - i,
        {
            if self.entries[i].room_id == entry.room_id {
                proof {
                    lemma_room_entry_unique(before, entry.room_id@, i as int);
                }
                self.entries[i] = entry;
                proof {
                    let after = self.entries@;
                    assert(after == before.update(i as int, entry));
                    assert forall|a: int, b: int| 0 <= a < b < after.len() implies after[a].room_id@
                        != after[b].room_id@ by {
                        assert(before[a].room_id@ != before[b].room_id@);
                        if a == i {
                            assert(after[a].room_id@ == before[a].room_id@);
                        }
                        if b == i {
                            assert(after[b].room_id@ == before[b].room_id@);
                        }
                    }
                    lemma_room_entry_unique(after, entry.room_id@, i as int);
                    assert(old(self).entries@ == before);
                    assert(self.entries@ == after);
                    assert forall|id: Seq<char>| id != entry.room_id@ implies (
                    #[trigger] self.has_room(id) <==> old(self).has_room(id)) by {
                        if has_room_in(after, id) {
                            let k = choose|k: int|
                                0 <= k < after.len() && after[k].room_id@ == id;
                            assert(k != i);
                            assert(before[k].room_id@ == id);
                            assert(has_room_in(before, id));
                        }
                        if has_room_in(before, id) {
                            let k = choose|k: int|
                                0 <= k < before.len() && before[k].room_id@ == id;
                            assert(k != i);
                            assert(after[k].room_id@ == id);
                            assert(has_room_in(after, id));
                        }
                    }
                    assert forall|id: Seq<char>|
                        id != entry.room_id@ && old(self).has_room(id) implies
                        #[trigger] self.entry_of(id) == old(self).entry_of(id) by {
                        let k = choose|k: int| 0 <= k < before.len() && before[k].room_id@ == id;
                        assert(k != i);
                        lemma_room_entry_unique(before, id, k);
                        assert(after[k].room_id@ == id);
                        lemma_room_entry_unique(after, id, k);
                    }
                    assert forall|k: int| 0 <= k < after.len() && k != i implies before.contains(
                        #[trigger] after[k],
                    ) by {
                        assert(after[k] == before[k]);
                    }
                }
                return ;
            }
            i += 1;
        }
        let ghost e = entry;
        self.entries.push(entry);
        proof {
            let after = self.entries@;
            assert(after == before.push(e));
            assert(!has_room_in(before, e.room_id@));
            assert forall|a: int, b: int| 0 <= a < b < after.len() implies after[a].room_id@
                != after[b].room_id@ by {
                if b < before.len() {
                    assert(before[a].room_id@ != before[b].room_id@);
                } else {
                    assert(after[b] == e);
                    assert(after[a] == before[a]);
                    if before[a].room_id@ == e.room_id@ {
                        assert(has_room_in(before, e.room_id@));
                    }
                }
            }
            lemma_room_entry_unique(after, e.room_id@, before.len() as int);
            assert(old(self).entries@ == before);
            assert(self.entries@ == after);
            assert forall|id: Seq<char>| id != e.room_id@ implies (#[trigger] self.has_room(id)
                <==> old(self).has_room(id)) by {
                if has_room_in(after, id) {
                    let k = choose|k: int| 0 <= k < after.len() && after[k].room_id@ == id;
                    assert(k != before.len());
                    assert(before[k].room_id@ == id);
                    assert(has_room_in(before, id));
                }
                if has_room_in(before, id) {
                    let k = choose|k: int| 0 <= k < before.len() && before[k].room_id@ == id;
                    assert(after[k].room_id@ == id);
                    assert(has_room_in(after, id));
                }
            }
            assert forall|id: Seq<char>| id != e.room_id@ && old(self).has_room(id) implies
                #[trigger] self.entry_of(id) == old(self).entry_of(id) by {
                let k = choose|k: int| 0 <= k < before.len() && before[k].room_id@ == id;
                lemma_room_entry_unique(before, id, k);
                assert(after[k].room_id@ == id);
                lemma_room_entry_unique(after, id, k);
            }
            assert forall|k: int| 0 <= k < after.len() && k != before.len() implies before.contains(
                #[trigger] after[k],
            ) by {
                assert(after[k] == before[k]);
            }
        }
    }
}

} // verus!
