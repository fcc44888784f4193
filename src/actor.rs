use vstd::prelude::*;

use crate::actor_type::{ActorType, ActorTypeId};
use crate::coord::Coord;
use crate::direction::{rotate_spec, Dir};

verus! {

/// A placed actor: its kind, where it stands and faces, and its per-turn state.
#[derive(Debug)]
pub struct Actor {
    pub actor_type_id: ActorTypeId,
    pub looks_to: Dir,
    pub activations_left: u8,
    pub coord: Coord,
    pub activated: bool,
}

impl Clone for Actor {
    fn clone(&self) -> (r: Self)
        ensures
            r == *self,
    {
        Actor {
            actor_type_id: self.actor_type_id.clone(),
            looks_to: self.looks_to,
            activations_left: self.activations_left,
            coord: self.coord,
            activated: self.activated,
        }
    }
}

impl Actor {
    pub fn from_actor_type(actor_type_id: &ActorTypeId, actor_type: &ActorType, coord: Coord) -> (r: Actor)
        ensures
            r.actor_type_id == *actor_type_id,
            r.looks_to == actor_type.looks_to,
            r.activations_left == actor_type.max_activations,
            r.coord == coord,
            !r.activated,
    {
        Actor {
            actor_type_id: actor_type_id.clone(),
            looks_to: actor_type.looks_to,
            activations_left: actor_type.max_activations,
            coord,
            activated: false,
        }
    }

    pub fn rotate(&mut self)
        ensures
            *final(self) == (Actor { looks_to: rotate_spec(old(self).looks_to), ..*old(self) }),
    {
        self.looks_to = self.looks_to.rotate();
    }
}

/// The handle of an actor on a board; handed out once and never reused.
#[derive(Debug, Clone, Copy, PartialEq, Eq, Structural, Hash)]
pub struct ActorId(pub usize);

impl ActorId {
    pub fn new(value: usize) -> (r: ActorId)
        ensures
            r.0 == value,
    {
        ActorId(value)
    }
}

/// An actor together with its id and its type, as read from a game.
#[derive(Debug, Clone)]
pub struct ActorView {
    pub actor_id: ActorId,
    pub actor: Actor,
    pub actor_type: ActorType,
}

} // verus!
