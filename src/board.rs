use vstd::prelude::*;

use crate::actor::{Actor, ActorId};
use crate::actor_type::{ActorTypeId, ActorTypeModel};
use crate::actor_types::ActorTypes;
use crate::coord::{coord_of, Coord};
use crate::store::{
    actor_entries, actor_table_clone, actor_table_get, actor_table_insert, actor_table_keys,
    actor_table_new, cell_entries, cell_index_clone, cell_index_get, cell_index_insert,
    cell_index_new, cell_index_remove,
};

verus! {

/// What a board holds: the actors by id, the index from positions to ids, the
/// next id to hand out, and the id of the start actor.
pub ghost struct BoardModel {
    pub actors: Map<usize, Actor>,
    pub cells: Map<(i32, i32), usize>,
    pub next_actor_id: usize,
    pub start_actor_id: usize,
}

/// The id of the actor at `c`, if any, as a handle.
pub open spec fn actor_id_at(b: BoardModel, c: Coord) -> Option<ActorId> {
    match b.id_at(c) {
        Some(id) => Some(ActorId(id)),
        None => None,
    }
}

/// `a` moved to `c`, with every other field kept.
pub open spec fn placed_at(a: Actor, c: Coord) -> Actor {
    Actor { coord: c, ..a }
}

impl BoardModel {
    /// The two maps are inverse to each other, every id was handed out
    /// already, and the start actor is on the board.
    pub open spec fn wf(self) -> bool {
        &&& forall|k: (i32, i32)| #[trigger]
            self.cells.contains_key(k) ==> self.actors.contains_key(self.cells[k])
                && self.actors[self.cells[k]].coord.key() == k
        &&& forall|id: usize| #[trigger]
            self.actors.contains_key(id) ==> self.cells.contains_key(self.actors[id].coord.key())
                && self.cells[self.actors[id].coord.key()] == id
        &&& forall|id: usize| #[trigger] self.actors.contains_key(id) ==> 1 <= id < self.next_actor_id
        &&& self.actors.contains_key(self.start_actor_id)
    }

    /// The id of the actor at `c`, if any.
    pub open spec fn id_at(self, c: Coord) -> Option<usize> {
        if self.cells.contains_key(c.key()) {
            Some(self.cells[c.key()])
        } else {
            None
        }
    }

    /// Exchanges what stands at two positions: two actors trade places, a
    /// lone actor moves to the free position, and two free positions stay free.
    pub open spec fn swap(self, c1: Coord, c2: Coord) -> BoardModel {
        let k1 = c1.key();
        let k2 = c2.key();
        if self.cells.contains_key(k1) && self.cells.contains_key(k2) {
            let id1 = self.cells[k1];
            let id2 = self.cells[k2];
            BoardModel {
                actors: self.actors.insert(id1, placed_at(self.actors[id1], c2)).insert(
                    id2,
                    placed_at(self.actors[id2], c1),
                ),
                cells: self.cells.insert(k1, id2).insert(k2, id1),
                ..self
            }
        } else if self.cells.contains_key(k1) {
            let id1 = self.cells[k1];
            BoardModel {
                actors: self.actors.insert(id1, placed_at(self.actors[id1], c2)),
                cells: self.cells.remove(k1).insert(k2, id1),
                ..self
            }
        } else if self.cells.contains_key(k2) {
            let id2 = self.cells[k2];
            BoardModel {
                actors: self.actors.insert(id2, placed_at(self.actors[id2], c1)),
                cells: self.cells.remove(k2).insert(k1, id2),
                ..self
            }
        } else {
            self
        }
    }

    /// Stores `a` as the actor `id`; when `a` stands elsewhere than the
    /// stored actor, the two positions are swapped. Unknown ids change nothing.
    pub open spec fn update(self, id: usize, a: Actor) -> BoardModel {
        if !self.actors.contains_key(id) {
            self
        } else {
            let old_coord = self.actors[id].coord;
            let kept = BoardModel {
                actors: self.actors.insert(id, placed_at(a, old_coord)),
                ..self
            };
            if old_coord != a.coord {
                kept.swap(old_coord, a.coord)
            } else {
                kept
            }
        }
    }

    /// `a` placed under the next id, at its own position.
    pub open spec fn add(self, a: Actor) -> BoardModel {
        BoardModel {
            actors: self.actors.insert(self.next_actor_id, a),
            cells: self.cells.insert(a.coord.key(), self.next_actor_id),
            next_actor_id: (self.next_actor_id + 1) as usize,
            ..self
        }
    }
}

impl BoardModel {
    /// The board of a new game: the start actor alone, at (0, 0), under
    /// id 1, as its type describes it.
    pub open spec fn is_fresh(self, types: Map<Seq<char>, ActorTypeModel>) -> bool {
        &&& self.start_actor_id == 1
        &&& self.next_actor_id == 2
        &&& self.actors.dom() == set![1usize]
        &&& self.actors[1].actor_type_id@ == "start"@
        &&& self.actors[1].looks_to == types["start"@].looks_to
        &&& self.actors[1].activations_left == types["start"@].max_activations
        &&& self.actors[1].coord == coord_of(0, 0)
        &&& !self.actors[1].activated
        &&& self.cells == map![(0i32, 0i32) => 1usize]
    }
}

/// The two maps of a well-formed board agree: a position holds an id exactly
/// when that actor stands there.
pub proof fn lemma_board_inverse(b: BoardModel, c: Coord, id: usize)
    requires
        b.wf(),
    ensures
        b.id_at(c) == Some(id) <==> (b.actors.contains_key(id) && b.actors[id].coord == c),
{
    if b.actors.contains_key(id) {
        assert(b.cells.contains_key(b.actors[id].coord.key()));
    }
}

/// No two actors of a well-formed board stand on one position.
pub proof fn lemma_board_exclusive(b: BoardModel, id1: usize, id2: usize)
    requires
        b.wf(),
        b.actors.contains_key(id1),
        b.actors.contains_key(id2),
        id1 != id2,
    ensures
        b.actors[id1].coord != b.actors[id2].coord,
{
    assert(b.cells.contains_key(b.actors[id1].coord.key()));
    assert(b.cells.contains_key(b.actors[id2].coord.key()));
}

pub proof fn lemma_swap_wf(b: BoardModel, c1: Coord, c2: Coord)
    requires
        b.wf(),
    ensures
        b.swap(c1, c2).wf(),
        b.swap(c1, c2).actors.dom() == b.actors.dom(),
{
    let r = b.swap(c1, c2);
    let k1 = c1.key();
    let k2 = c2.key();
    assert(r.actors.dom() =~= b.actors.dom());
    if b.cells.contains_key(k1) && b.cells.contains_key(k2) {
        let id1 = b.cells[k1];
        let id2 = b.cells[k2];
        assert forall|k: (i32, i32)| #[trigger] r.cells.contains_key(k) implies r.actors.contains_key(
            r.cells[k],
        ) && r.actors[r.cells[k]].coord.key() == k by {
            if k != k1 && k != k2 {
                assert(b.cells.contains_key(k));
                let id = b.cells[k];
                assert(id != id1 && id != id2);
            }
        }
        assert forall|id: usize| #[trigger] r.actors.contains_key(id) implies r.cells.contains_key(
            r.actors[id].coord.key(),
        ) && r.cells[r.actors[id].coord.key()] == id by {
            if id != id1 && id != id2 {
                assert(b.actors.contains_key(id));
                let k = b.actors[id].coord.key();
                assert(b.cells.contains_key(k));
                assert(k != k1 && k != k2);
            }
        }
    } else if b.cells.contains_key(k1) {
        let id1 = b.cells[k1];
        assert forall|k: (i32, i32)| #[trigger] r.cells.contains_key(k) implies r.actors.contains_key(
            r.cells[k],
        ) && r.actors[r.cells[k]].coord.key() == k by {
            if k != k2 {
                assert(b.cells.contains_key(k));
                assert(b.cells[k] != id1);
            }
        }
        assert forall|id: usize| #[trigger] r.actors.contains_key(id) implies r.cells.contains_key(
            r.actors[id].coord.key(),
        ) && r.cells[r.actors[id].coord.key()] == id by {
            if id != id1 {
                assert(b.actors.contains_key(id));
                let k = b.actors[id].coord.key();
                assert(b.cells.contains_key(k));
                assert(k != k1 && k != k2);
            }
        }
    } else if b.cells.contains_key(k2) {
        let id2 = b.cells[k2];
        assert forall|k: (i32, i32)| #[trigger] r.cells.contains_key(k) implies r.actors.contains_key(
            r.cells[k],
        ) && r.actors[r.cells[k]].coord.key() == k by {
            if k != k1 {
                assert(b.cells.contains_key(k));
                assert(b.cells[k] != id2);
            }
        }
        assert forall|id: usize| #[trigger] r.actors.contains_key(id) implies r.cells.contains_key(
            r.actors[id].coord.key(),
        ) && r.cells[r.actors[id].coord.key()] == id by {
            if id != id2 {
                assert(b.actors.contains_key(id));
                let k = b.actors[id].coord.key();
                assert(b.cells.contains_key(k));
                assert(k != k1 && k != k2);
            }
        }
    }
}

pub proof fn lemma_update_wf(b: BoardModel, id: usize, a: Actor)
    requires
        b.wf(),
    ensures
        b.update(id, a).wf(),
        b.update(id, a).actors.dom() == b.actors.dom(),
        b.update(id, a).next_actor_id == b.next_actor_id,
        b.update(id, a).start_actor_id == b.start_actor_id,
{
    if b.actors.contains_key(id) {
        let old_coord = b.actors[id].coord;
        let kept = BoardModel { actors: b.actors.insert(id, placed_at(a, old_coord)), ..b };
        assert(kept.actors.dom() =~= b.actors.dom());
        assert(kept.wf());
        if old_coord != a.coord {
            lemma_swap_wf(kept, old_coord, a.coord);
        }
    }
}

/// Storing an actor changes no other actor but, at most, in its position.
pub proof fn lemma_update_shape(b: BoardModel, id: usize, a: Actor)
    requires
        b.wf(),
        b.actors.contains_key(id),
    ensures
        b.update(id, a).actors[id] == placed_at(a, b.update(id, a).actors[id].coord),
        forall|j: usize|
            #![trigger b.update(id, a).actors[j]]
            b.actors.contains_key(j) && j != id ==> b.update(id, a).actors[j] == placed_at(
                b.actors[j],
                b.update(id, a).actors[j].coord,
            ),
        a.coord == b.actors[id].coord ==> b.update(id, a).actors == b.actors.insert(id, a),
        a.coord == b.actors[id].coord ==> b.update(id, a).cells == b.cells,
{
    let old_coord = b.actors[id].coord;
    let kept = BoardModel { actors: b.actors.insert(id, placed_at(a, old_coord)), ..b };
    if a.coord == old_coord {
        assert(placed_at(a, old_coord) == a);
    }
}

/// Storing an actor at a free position moves it there and changes nothing else.
pub proof fn lemma_move_to_free(b: BoardModel, id: usize, a: Actor)
    requires
        b.wf(),
        b.actors.contains_key(id),
        a.coord != b.actors[id].coord,
        b.id_at(a.coord) is None,
    ensures
        b.update(id, a).actors == b.actors.insert(id, a),
        b.update(id, a).cells == b.cells.remove(b.actors[id].coord.key()).insert(a.coord.key(), id),
{
    let old_coord = b.actors[id].coord;
    assert(b.cells.contains_key(old_coord.key()));
    assert(placed_at(placed_at(a, old_coord), a.coord) == a);
    assert(b.actors.insert(id, placed_at(a, old_coord)).insert(id, a) =~= b.actors.insert(id, a));
}

/// The error of placing an actor on a taken position.
#[derive(Debug, Clone, Copy, PartialEq, Eq, Structural)]
pub enum BoardError {
    CoordAlreadyTaken,
}

/// Actors on an unbounded grid, reachable by id and by position. Both maps
/// are persistent, so copies of a board share their storage.
#[derive(Debug)]
pub struct Board {
    next_actor_id: usize,
    actor_id_to_actor: im::HashMap<usize, Actor>,
    coord_to_actor_id: im::HashMap<(i32, i32), usize>,
    start_actor_id: ActorId,
}

impl Clone for Board {
    fn clone(&self) -> (r: Self)
        ensures
            r@ == self@,
    {
        Board {
            next_actor_id: self.next_actor_id,
            actor_id_to_actor: actor_table_clone(&self.actor_id_to_actor),
            coord_to_actor_id: cell_index_clone(&self.coord_to_actor_id),
            start_actor_id: self.start_actor_id,
        }
    }
}

impl Board {
    pub closed spec fn view(&self) -> BoardModel {
        BoardModel {
            actors: actor_entries(self.actor_id_to_actor),
            cells: cell_entries(self.coord_to_actor_id),
            next_actor_id: self.next_actor_id,
            start_actor_id: self.start_actor_id.0,
        }
    }

    pub open spec fn wf(&self) -> bool {
        self@.wf()
    }

    /// A board that holds the start actor alone, at (0, 0), under id 1.
    pub fn new(actor_types: &ActorTypes) -> (r: Board)
        requires
            actor_types.wf(),
            actor_types@.contains_key("start"@),
        ensures
            r.wf(),
            r@.is_fresh(actor_types@),
    {
        let id = ActorTypeId::new("start".to_string());
        proof {
            reveal_strlit("start");
        }
        let start_actor_type = actor_types.get(&id).unwrap();
        let start_actor = Actor::from_actor_type(&id, start_actor_type, Coord::new(0, 0));
        let mut result = Board {
            next_actor_id: 1,
            actor_id_to_actor: actor_table_new(),
            coord_to_actor_id: cell_index_new(),
            start_actor_id: ActorId::new(1),
        };
        proof {
            assert(actor_entries(result.actor_id_to_actor) =~= Map::empty());
            assert(cell_entries(result.coord_to_actor_id) =~= Map::empty());
        }
        let actor_id = result.actor_id_to_actor_insert_new(start_actor);
        assert(result@.actors.dom() =~= set![1usize]);
        assert(result@.cells =~= map![(0i32, 0i32) => 1usize]);
        result
    }

    /// Places an actor on an empty board under the next id.
    fn actor_id_to_actor_insert_new(&mut self, actor: Actor) -> (r: ActorId)
        requires
            old(self)@.actors.dom().is_empty(),
            old(self)@.cells.dom().is_empty(),
            old(self)@.next_actor_id == 1,
            old(self)@.start_actor_id == 1,
        ensures
            final(self)@ == old(self)@.add(actor),
            final(self).wf(),
            r.0 == 1,
    {
        let coord = actor.coord;
        let actor_id = ActorId::new(self.next_actor_id);
        self.next_actor_id = self.next_actor_id + 1;
        actor_table_insert(&mut self.actor_id_to_actor, actor_id.0, actor);
        cell_index_insert(&mut self.coord_to_actor_id, coord.as_key(), actor_id.0);
        proof {
            assert(self@.actors.dom() =~= set![1usize]);
            assert(self@.cells.dom() =~= set![coord.key()]);
        }
        actor_id
    }

    /// The id that the next added actor gets.
    pub fn next_actor_id(&self) -> (r: usize)
        ensures
            r == self@.next_actor_id,
    {
        self.next_actor_id
    }

    pub fn start_actor_id(&self) -> (r: ActorId)
        ensures
            r.0 == self@.start_actor_id,
    {
        self.start_actor_id
    }

    /// The ids of all actors, each once, in no particular order.
    pub fn actor_ids(&self) -> (r: Vec<ActorId>)
        ensures
            r@.len() == self@.actors.dom().len(),
            forall|i: int| 0 <= i < r@.len() ==> self@.actors.contains_key(#[trigger] r@[i].0),
            forall|id: usize| self@.actors.contains_key(id) ==> exists|i: int|
                0 <= i < r@.len() && #[trigger] r@[i].0 == id,
            forall|i: int, j: int| 0 <= i < j < r@.len() ==> r@[i] != r@[j],
    {
        let keys = actor_table_keys(&self.actor_id_to_actor);
        let mut ids: Vec<ActorId> = Vec::new();
        let mut i: usize = 0;
        while i < keys.len()
            invariant
                i <= keys@.len(),
                ids@.len() == i,
                forall|j: int| 0 <= j < i ==> (#[trigger] ids@[j]).0 == keys@[j],
            decreases keys@.len() - i,
        {
            ids.push(ActorId::new(keys[i]));
            i += 1;
        }
        proof {
            keys@.unique_seq_to_set();
            assert forall|id: usize| self@.actors.contains_key(id) implies exists|i: int|
                0 <= i < ids@.len() && #[trigger] ids@[i].0 == id by {
                assert(keys@.to_set().contains(id));
                let j = choose|j: int| 0 <= j < keys@.len() && keys@[j] == id;
                assert(ids@[j].0 == id);
            }
            assert forall|i: int| 0 <= i < ids@.len() implies self@.actors.contains_key(
                #[trigger] ids@[i].0,
            ) by {
                assert(keys@.to_set().contains(keys@[i]));
            }
            assert forall|i: int, j: int| 0 <= i < j < ids@.len() implies ids@[i] != ids@[j] by {
                assert(ids@[i].0 == keys@[i] && ids@[j].0 == keys@[j]);
            }
        }
        ids
    }

    pub fn actor_id_to_actor(&self, actor_id: &ActorId) -> (r: Option<&Actor>)
        ensures
            r is Some <==> self@.actors.contains_key(actor_id.0),
            r is Some ==> *r->0 == self@.actors[actor_id.0],
    {
        actor_table_get(&self.actor_id_to_actor, actor_id.0)
    }

    pub fn coord_to_actor_id(&self, coord: &Coord) -> (r: Option<ActorId>)
        ensures
            r == actor_id_at(self@, *coord),
    {
        match cell_index_get(&self.coord_to_actor_id, coord.as_key()) {
            Some(id) => Some(ActorId::new(id)),
            None => None,
        }
    }

    pub fn coord_to_actor(&self, coord: Coord) -> (r: Option<&Actor>)
        requires
            self.wf(),
        ensures
            r is Some <==> self@.id_at(coord) is Some,
            r is Some ==> *r->0 == self@.actors[self@.id_at(coord)->0],
    {
        match self.coord_to_actor_id(&coord) {
            Some(actor_id) => self.actor_id_to_actor(&actor_id),
            None => None,
        }
    }

    /// Places an actor at its position under the next id; a taken position
    /// is refused and the board stays as it was.
    pub fn add_actor(&mut self, actor: Actor) -> (r: Result<ActorId, BoardError>)
        requires
            old(self).wf(),
            old(self)@.next_actor_id < usize::MAX,
        ensures
            final(self).wf(),
            r is Err <==> old(self)@.id_at(actor.coord) is Some,
            r is Err ==> final(self)@ == old(self)@ && r == Err::<ActorId, BoardError>(
                BoardError::CoordAlreadyTaken,
            ),
            r is Ok ==> final(self)@ == old(self)@.add(actor) && r->Ok_0.0 == old(
                self,
            )@.next_actor_id,
    {
        let coord = actor.coord;
        if cell_index_get(&self.coord_to_actor_id, coord.as_key()).is_some() {
            return Err(BoardError::CoordAlreadyTaken);
        }
        let actor_id = ActorId::new(self.next_actor_id);
        self.next_actor_id = self.next_actor_id + 1;
        actor_table_insert(&mut self.actor_id_to_actor, actor_id.0, actor);
        cell_index_insert(&mut self.coord_to_actor_id, coord.as_key(), actor_id.0);
        proof {
            let b = old(self)@;
            let r = self@;
            assert(r == b.add(actor));
            assert forall|k: (i32, i32)| #[trigger] r.cells.contains_key(k) implies r.actors.contains_key(
                r.cells[k],
            ) && r.actors[r.cells[k]].coord.key() == k by {
                if k != coord.key() {
                    assert(b.cells.contains_key(k));
                }
            }
            assert forall|id: usize| #[trigger] r.actors.contains_key(id) implies r.cells.contains_key(
                r.actors[id].coord.key(),
            ) && r.cells[r.actors[id].coord.key()] == id by {
                if id != actor_id.0 {
                    assert(b.actors.contains_key(id));
                    assert(b.cells.contains_key(b.actors[id].coord.key()));
                }
            }
        }
        Ok(actor_id)
    }

    /// Stores `updated` as the actor `actor_id`. Where `updated` stands
    /// elsewhere than the stored actor, the old and new positions are swapped
    /// (see `swap_coords`). An unknown id changes nothing.
    pub fn update_actor(&mut self, actor_id: &ActorId, updated: Actor)
        requires
            old(self).wf(),
        ensures
            final(self).wf(),
            final(self)@ == old(self)@.update(actor_id.0, updated),
    {
        proof {
            lemma_update_wf(self@, actor_id.0, updated);
        }
        let old_coord = match actor_table_get(&self.actor_id_to_actor, actor_id.0) {
            Some(actor) => actor.coord,
            None => {
                return ;
            },
        };
        let new_coord = updated.coord;
        let mut actor = updated;
        actor.coord = old_coord;
        actor_table_insert(&mut self.actor_id_to_actor, actor_id.0, actor);
        if old_coord != new_coord {
            self.swap_coords(old_coord, new_coord);
        }
    }

    /// Exchanges what stands at two positions: two actors trade places, a
    /// lone actor moves to the free position, and two free positions stay free.
    pub fn swap_coords(&mut self, coord1: Coord, coord2: Coord)
        requires
            old(self).wf(),
        ensures
            final(self).wf(),
            final(self)@ == old(self)@.swap(coord1, coord2),
    {
        proof {
            lemma_swap_wf(self@, coord1, coord2);
        }
        let k1 = coord1.as_key();
        let k2 = coord2.as_key();
        let actor1_id = cell_index_get(&self.coord_to_actor_id, k1);
        let actor2_id = cell_index_get(&self.coord_to_actor_id, k2);
        match (actor1_id, actor2_id) {
            (Some(id1), Some(id2)) => {
                let mut actor1 = actor_table_get(&self.actor_id_to_actor, id1).unwrap().clone();
                let mut actor2 = actor_table_get(&self.actor_id_to_actor, id2).unwrap().clone();
                actor1.coord = coord2;
                actor2.coord = coord1;
                actor_table_insert(&mut self.actor_id_to_actor, id1, actor1);
                actor_table_insert(&mut self.actor_id_to_actor, id2, actor2);
                cell_index_insert(&mut self.coord_to_actor_id, k1, id2);
                cell_index_insert(&mut self.coord_to_actor_id, k2, id1);
            },
            (Some(id1), None) => {
                let mut actor1 = actor_table_get(&self.actor_id_to_actor, id1).unwrap().clone();
                actor1.coord = coord2;
                actor_table_insert(&mut self.actor_id_to_actor, id1, actor1);
                cell_index_remove(&mut self.coord_to_actor_id, k1);
                cell_index_insert(&mut self.coord_to_actor_id, k2, id1);
            },
            (None, Some(id2)) => {
                let mut actor2 = actor_table_get(&self.actor_id_to_actor, id2).unwrap().clone();
                actor2.coord = coord1;
                actor_table_insert(&mut self.actor_id_to_actor, id2, actor2);
                cell_index_remove(&mut self.coord_to_actor_id, k2);
                cell_index_insert(&mut self.coord_to_actor_id, k1, id2);
            },
            (None, None) => {},
        }
    }
}

} // verus!
