//! Authored places and how they connect.

use vstd::prelude::*;

use crate::direction::Direction;
use crate::id::EntityId;
use crate::sorted_map::SortedMap;
use crate::text;

verus! {

/// A single authored place in the world. Exits are the ergonomic form: a
/// direction mapping straight to a destination room id.
#[derive(Debug, PartialEq)]
pub struct Room {
    pub id: EntityId,
    pub name: String,
    pub description: String,
    pub exits: SortedMap<Direction, EntityId>,
}

pub struct RoomView {
    pub id: text::Text,
    pub name: text::Text,
    pub description: text::Text,
    pub exits: Map<Direction, text::Text>,
}

impl View for Room {
    type V = RoomView;

    open spec fn view(&self) -> RoomView {
        RoomView {
            id: self.id@,
            name: self.name@,
            description: self.description@,
            exits: self.exits@,
        }
    }
}

impl Clone for Room {
    fn clone(&self) -> (r: Room)
        ensures
            r@ == self@,
    {
        Room {
            id: self.id.clone(),
            name: self.name.clone(),
            description: self.description.clone(),
            exits: self.exits.clone(),
        }
    }
}

/// The in-memory aggregate of all authored rooms.
#[derive(Debug, PartialEq)]
pub struct World {
    pub rooms: SortedMap<EntityId, Room>,
}

impl View for World {
    type V = Map<text::Text, RoomView>;

    open spec fn view(&self) -> Map<text::Text, RoomView> {
        self.rooms@
    }
}

impl Clone for World {
    fn clone(&self) -> (r: World)
        ensures
            r@ == self@,
    {
        World { rooms: self.rooms.clone() }
    }
}

impl Default for World {
    fn default() -> (r: World)
        ensures
            r@ == Map::<text::Text, RoomView>::empty(),
    {
        World { rooms: SortedMap::new() }
    }
}

impl World {
    /// Puts `room` at its own id.
    pub fn insert_room(&mut self, room: Room)
        ensures
            final(self)@ == old(self)@.insert(room@.id, room@),
    {
        self.rooms.insert(room.id.clone(), room);
    }

    /// The room at `id`.
    pub fn room(&self, id: &EntityId) -> (r: Option<&Room>)
        ensures
            match r {
                Some(room) => self@.contains_key(id@) && room@ == self@[id@],
                None => !self@.contains_key(id@),
            },
    {
        self.rooms.get(id)
    }
}

} // verus!
