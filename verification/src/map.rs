//! The parts of a parsed .oramap map that the initial world is built from.

use vstd::prelude::*;
use vstd::utf8::encode_utf8;

verus! {

/// A player slot defined by the map.
#[derive(Debug)]
pub struct MapPlayer {
    pub name: String,
    /// Whether a human or bot can take this slot.
    pub playable: bool,
}

/// An actor placed on the map.
#[derive(Debug)]
pub struct MapActor {
    /// The actor's type name, such as "mine" or "t01".
    pub actor_type: String,
    /// The actor's cell.
    pub location: (i32, i32),
}

/// A map as the world builder reads it.
#[derive(Debug)]
pub struct OraMap {
    pub title: String,
    pub map_size: (i32, i32),
    /// Player slots in map order.
    pub players: Vec<MapPlayer>,
    /// Actors in map order.
    pub actors: Vec<MapActor>,
}

/// A map actor as a value: the UTF-8 bytes of its type name and its cell.
pub type MapActorValue = (Seq<u8>, (i32, i32));

impl View for MapActor {
    type V = MapActorValue;

    open spec fn view(&self) -> MapActorValue {
        (encode_utf8(self.actor_type@), self.location)
    }
}

} // verus!
