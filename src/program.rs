use vstd::prelude::*;

use crate::coord::Coord;
use crate::direction::RelDir;

verus! {

/// One instruction of an actor's program.
#[derive(Debug)]
pub enum Action {
    /// Step one cell ahead, if that cell is free.
    Forward,
    /// Push the line of actors ahead towards the given relative direction.
    Push(RelDir),
    /// Turn towards the given relative direction.
    Turn(RelDir),
    /// Hit the cells at these offsets, given as seen by an actor facing right.
    Hit(Vec<Coord>),
}

/// What an instruction means, with its offsets as a sequence.
pub ghost enum ActionModel {
    Forward,
    Push(RelDir),
    Turn(RelDir),
    Hit(Seq<Coord>),
}

impl View for Action {
    type V = ActionModel;

    open spec fn view(&self) -> ActionModel {
        match self {
            Action::Forward => ActionModel::Forward,
            Action::Push(d) => ActionModel::Push(*d),
            Action::Turn(d) => ActionModel::Turn(*d),
            Action::Hit(offsets) => ActionModel::Hit(offsets@),
        }
    }
}

impl Clone for Action {
    fn clone(&self) -> (r: Self)
        ensures
            r@ == self@,
    {
        match self {
            Action::Forward => Action::Forward,
            Action::Push(d) => Action::Push(*d),
            Action::Turn(d) => Action::Turn(*d),
            Action::Hit(offsets) => {
                let copy = offsets.clone();
                assert(copy@ =~= offsets@);
                Action::Hit(copy)
            },
        }
    }
}

/// The ordered instructions that an actor runs when it is activated.
#[derive(Debug)]
pub struct Program(pub Vec<Action>);

impl View for Program {
    type V = Seq<ActionModel>;

    open spec fn view(&self) -> Seq<ActionModel> {
        self.0@.map_values(|a: Action| a@)
    }
}

impl Clone for Program {
    fn clone(&self) -> (r: Self)
        ensures
            r@ == self@,
    {
        let copy = self.0.clone();
        assert(copy@.map_values(|a: Action| a@) =~= self.0@.map_values(|a: Action| a@));
        Program(copy)
    }
}

impl Program {

    pub fn iter(&self) -> (r: &[Action])
        ensures
            r@ == self.0@,
    {
        self.0.as_slice()
    }
}

} // verus!
