//! A store in memory.

use vstd::prelude::*;

use crate::fabric::handler::Rule;
use crate::fabric::operator::Operator;
use crate::id::EntityId;
use crate::mob::{Mob, MobView};
use crate::sorted_map::{self, clone_all, SortedMap};
use crate::store::{self, Commit, CommitId, Snapshot, StoreError, Stored, WorldStore};
use crate::text;
use crate::world::{Room, RoomView, World};

verus! {

/// A commit: its message and time, and what was held when it was made, which the
/// contracts alone know of.
struct Recorded {
    message: String,
    time: i64,
    held: Ghost<Snapshot>,
}

impl View for Recorded {
    type V = Commit;

    closed spec fn view(&self) -> Commit {
        Commit { message: self.message@, time: self.time, held: self.held@ }
    }
}

/// An in-memory store for fast tests. It keeps what it is told and never fails;
/// a commit records its message and time.
pub struct MemoryStore {
    rooms: SortedMap<EntityId, Room>,
    mobs: SortedMap<EntityId, Mob>,
    rules: Vec<Rule>,
    operators: Vec<Operator>,
    commits: Vec<Recorded>,
}

impl MemoryStore {
    #[verifier::type_invariant]
    spec fn well_formed(self) -> bool {
        &&& store::at_own_id(self.rooms@, store::room_id())
        &&& store::at_own_id(self.mobs@, store::mob_id())
    }

    pub fn new() -> (r: MemoryStore)
        ensures
            r.contents() == Stored::empty(),
    {
        let r = MemoryStore {
            rooms: SortedMap::new(),
            mobs: SortedMap::new(),
            rules: Vec::new(),
            operators: Vec::new(),
            commits: Vec::new(),
        };
        assert(r.contents() =~= Stored::empty());
        r
    }
}

impl Default for MemoryStore {
    fn default() -> (r: MemoryStore)
        ensures
            r.contents() == Stored::empty(),
    {
        MemoryStore::new()
    }
}

proof fn lemma_put_at_own_id<W>(m: Map<text::Text, W>, item: W, id: spec_fn(W) -> text::Text)
    requires
        store::at_own_id(m, id),
    ensures
        store::at_own_id(m.insert(id(item), item), id),
{
    let after = m.insert(id(item), item);
    assert forall|k: text::Text| #[trigger] after.contains_key(k) implies id(after[k]) == k by {
        if k != id(item) {
            assert(m.contains_key(k));
        }
    }
}

impl WorldStore for MemoryStore {
    closed spec fn contents(&self) -> Stored {
        Stored {
            rooms: self.rooms@,
            mobs: self.mobs@,
            rules: text::views(self.rules@),
            operators: text::views(self.operators@),
            log: text::views(self.commits@),
        }
    }

    open spec fn faithful(&self) -> bool {
        true
    }

    open spec fn unfailing(&self) -> bool {
        true
    }

    fn save_room(&mut self, room: &Room) -> (r: Result<(), StoreError>) {
        proof {
            use_type_invariant(&*self);
            lemma_put_at_own_id(self.rooms@, room@, store::room_id());
        }
        let mut rooms: SortedMap<EntityId, Room> = SortedMap::new();
        std::mem::swap(&mut rooms, &mut self.rooms);
        rooms.insert(room.id.clone(), room.clone());
        self.rooms = rooms;
        Ok(())
    }

    fn load_all(&self) -> (r: Result<World, StoreError>) {
        proof {
            use_type_invariant(self);
        }
        let _ = self.rooms.len();
        let _ = self.mobs.len();
        proof {
            sorted_map::lemma_listed_map_is_finite::<EntityId, RoomView>(
                sorted_map::in_order::<EntityId, RoomView>(self.rooms@),
                self.rooms@,
            );
            sorted_map::lemma_listed_map_is_finite::<EntityId, MobView>(
                sorted_map::in_order::<EntityId, MobView>(self.mobs@),
                self.mobs@,
            );
        }
        Ok(World { rooms: self.rooms.clone() })
    }

    fn commit(&mut self, message: &str, epoch_seconds: i64) -> (r: Result<CommitId, StoreError>)
        ensures
            r matches Ok(id) && id.0@ == "mem-"@ + text::decimal(old(self).contents().log.len()),
    {
        proof {
            use_type_invariant(&*self);
        }
        let number = text::number_text(self.commits.len() as u64);
        let id = CommitId(text::join_two("mem-", number.as_str()));
        let ghost now = self.contents().snapshot();
        let mut commits: Vec<Recorded> = Vec::new();
        std::mem::swap(&mut commits, &mut self.commits);
        commits.push(
            Recorded { message: message.to_string(), time: epoch_seconds, held: Ghost(now) },
        );
        self.commits = commits;
        proof {
            assert(self.commits@.last()@ == (Commit {
                message: message@,
                time: epoch_seconds,
                held: now,
            }));
            assert(self.contents() =~= old(self).contents().committed(message@, epoch_seconds));
        }
        Ok(id)
    }

    fn commit_log(&self) -> (r: Vec<String>) {
        let mut log: Vec<String> = Vec::new();
        for i in 0..self.commits.len()
            invariant
                log@.len() == i,
                forall|j: int| 0 <= j < i ==> (#[trigger] log@[j])@ == self.commits@[j].message@,
        {
            log.push(self.commits[i].message.clone());
        }
        assert(text::views(log@) =~= self.contents().messages());
        log
    }

    fn save_mob(&mut self, mob: &Mob) -> (r: Result<(), StoreError>) {
        proof {
            use_type_invariant(&*self);
            lemma_put_at_own_id(self.mobs@, mob@, store::mob_id());
        }
        let mut mobs: SortedMap<EntityId, Mob> = SortedMap::new();
        std::mem::swap(&mut mobs, &mut self.mobs);
        mobs.insert(mob.id.clone(), mob.clone());
        self.mobs = mobs;
        Ok(())
    }

    fn remove_mob(&mut self, id: &EntityId) -> (r: Result<(), StoreError>) {
        proof {
            use_type_invariant(&*self);
        }
        let mut mobs: SortedMap<EntityId, Mob> = SortedMap::new();
        std::mem::swap(&mut mobs, &mut self.mobs);
        let _ = mobs.remove(id);
        self.mobs = mobs;
        Ok(())
    }

    fn load_mobs(&self) -> (r: Result<Vec<Mob>, StoreError>) {
        proof {
            use_type_invariant(self);
        }
        let _ = self.rooms.len();
        let _ = self.mobs.len();
        proof {
            sorted_map::lemma_listed_map_is_finite::<EntityId, RoomView>(
                sorted_map::in_order::<EntityId, RoomView>(self.rooms@),
                self.rooms@,
            );
            sorted_map::lemma_listed_map_is_finite::<EntityId, MobView>(
                sorted_map::in_order::<EntityId, MobView>(self.mobs@),
                self.mobs@,
            );
        }
        Ok(clone_all(self.mobs.values()))
    }

    fn save_rules(&mut self, rules: &[Rule]) -> (r: Result<(), StoreError>) {
        proof {
            use_type_invariant(&*self);
        }
        self.rules = clone_all(rules);
        Ok(())
    }

    fn load_rules(&self) -> (r: Result<Vec<Rule>, StoreError>) {
        Ok(clone_all(&self.rules))
    }

    fn save_operators(&mut self, operators: &[Operator]) -> (r: Result<(), StoreError>) {
        proof {
            use_type_invariant(&*self);
        }
        self.operators = clone_all(operators);
        Ok(())
    }

    fn load_operators(&self) -> (r: Result<Vec<Operator>, StoreError>) {
        Ok(clone_all(&self.operators))
    }
}

} // verus!
