use vstd::prelude::*;

use crate::direction::Dir;
use crate::program::{ActionModel, Program};

verus! {

/// The name of an actor type, compared by its text.
#[derive(Debug, Hash)]
pub struct ActorTypeId(pub String);

impl ActorTypeId {
    pub fn new(id: String) -> (r: ActorTypeId)
        ensures
            r.0 == id,
    {
        ActorTypeId(id)
    }

    pub open spec fn view(&self) -> Seq<char> {
        self.0@
    }
}

impl Clone for ActorTypeId {
    fn clone(&self) -> (r: Self)
        ensures
            r == *self,
    {
        ActorTypeId(self.0.clone())
    }
}

impl PartialEq for ActorTypeId {
    fn eq(&self, other: &ActorTypeId) -> (r: bool) {
        self.0 == other.0
    }
}

impl Eq for ActorTypeId {}

impl vstd::std_specs::cmp::PartialEqSpecImpl for ActorTypeId {
    open spec fn obeys_eq_spec() -> bool {
        true
    }

    open spec fn eq_spec(&self, other: &ActorTypeId) -> bool {
        self.0@ == other.0@
    }
}

/// The fixed description of a kind of actor: its program and its economy.
#[derive(Debug)]
pub struct ActorType {
    pub name: String,
    pub program: Program,
    pub pushable: bool,
    pub dragable: bool,
    pub rotatable: bool,
    pub looks_to: Dir,
    pub max_activations: u8,
    /// Gold earned for each activation that reaches a hit.
    pub prize: u8,
    pub sprite_name: String,
    pub cost: u32,
    pub description: String,
}

/// What an actor type describes, with its text and program as sequences.
pub ghost struct ActorTypeModel {
    pub name: Seq<char>,
    pub program: Seq<ActionModel>,
    pub pushable: bool,
    pub dragable: bool,
    pub rotatable: bool,
    pub looks_to: Dir,
    pub max_activations: u8,
    pub prize: u8,
    pub sprite_name: Seq<char>,
    pub cost: u32,
    pub description: Seq<char>,
}

impl View for ActorType {
    type V = ActorTypeModel;

    open spec fn view(&self) -> ActorTypeModel {
        ActorTypeModel {
            name: self.name@,
            program: self.program@,
            pushable: self.pushable,
            dragable: self.dragable,
            rotatable: self.rotatable,
            looks_to: self.looks_to,
            max_activations: self.max_activations,
            prize: self.prize,
            sprite_name: self.sprite_name@,
            cost: self.cost,
            description: self.description@,
        }
    }
}

impl Clone for ActorType {
    fn clone(&self) -> (r: Self)
        ensures
            r@ == self@,
    {
        ActorType {
            name: self.name.clone(),
            program: self.program.clone(),
            pushable: self.pushable,
            dragable: self.dragable,
            rotatable: self.rotatable,
            looks_to: self.looks_to,
            max_activations: self.max_activations,
            prize: self.prize,
            sprite_name: self.sprite_name.clone(),
            cost: self.cost,
            description: self.description.clone(),
        }
    }
}

} // verus!
