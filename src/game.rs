use vstd::prelude::*;

use crate::actor::{Actor, ActorId, ActorView};
use crate::actor_type::{ActorTypeId, ActorTypeModel};
use crate::actor_types::ActorTypes;
use crate::board::{placed_at, Board, BoardModel};
use crate::coord::Coord;
use crate::direction::rotate_spec;
use crate::shop::{scaled, whole, Shop};

verus! {

/// Turns in each round.
pub const TURNS_PER_ROUND: u64 = 5;

/// The numbers a game starts from. Multipliers are in thousandths.
#[derive(Debug, Clone, Copy)]
pub struct GameGameConfig {
    pub start_gold: u64,
    pub start_required_gold: u64,
    pub gold_required_multiplier: u64,
    pub restock_multiplier: u64,
}

/// Every actor on the board has a type in the catalog.
pub open spec fn types_known(b: BoardModel, types: Map<Seq<char>, ActorTypeModel>) -> bool {
    forall|id: usize| #[trigger]
        b.actors.contains_key(id) ==> types.contains_key(b.actors[id].actor_type_id@)
}

pub proof fn lemma_swap_types(b: BoardModel, c1: Coord, c2: Coord, types: Map<Seq<char>, ActorTypeModel>)
    requires
        types_known(b, types),
        forall|k: (i32, i32)| #[trigger] b.cells.contains_key(k) ==> b.actors.contains_key(b.cells[k]),
    ensures
        types_known(b.swap(c1, c2), types),
{
    let r = b.swap(c1, c2);
    assert forall|id: usize| #[trigger] r.actors.contains_key(id) implies types.contains_key(
        r.actors[id].actor_type_id@,
    ) by {
        if b.cells.contains_key(c1.key()) {
            assert(b.actors.contains_key(b.cells[c1.key()]));
        }
        if b.cells.contains_key(c2.key()) {
            assert(b.actors.contains_key(b.cells[c2.key()]));
        }
        assert(b.actors.contains_key(id));
    }
}

pub proof fn lemma_update_types(b: BoardModel, id: usize, a: Actor, types: Map<Seq<char>, ActorTypeModel>)
    requires
        b.wf(),
        types_known(b, types),
        types.contains_key(a.actor_type_id@),
    ensures
        types_known(b.update(id, a), types),
{
    if b.actors.contains_key(id) {
        let kept = BoardModel { actors: b.actors.insert(id, placed_at(a, b.actors[id].coord)), ..b };
        assert forall|i: usize| #[trigger] kept.actors.contains_key(i) implies types.contains_key(
            kept.actors[i].actor_type_id@,
        ) by {
            if i != id {
                assert(b.actors.contains_key(i));
            }
        }
        lemma_swap_types(kept, b.actors[id].coord, a.coord, types);
    }
}

/// What a game holds: the economy, the board, the catalog and the shop.
pub ghost struct GameModel {
    pub gold: u64,
    pub gold_this_turn: u64,
    pub total_gold: u64,
    pub turns_left: u64,
    pub round: u32,
    pub required_gold: u64,
    /// Growth of the required gold per round, in thousandths.
    pub gold_required_multiplier: u64,
    pub board: BoardModel,
    pub actor_types: Map<Seq<char>, ActorTypeModel>,
    /// The catalog's entries in order.
    pub catalog: Seq<(Seq<char>, ActorTypeModel)>,
    /// The shop's next restock price, in thousandths of gold.
    pub restock_cost: u64,
    pub restock_multiplier: u64,
    pub stock: Seq<Seq<char>>,
}

/// One level's worth of state: gold, turns and rounds, the board, the catalog
/// of actor types, and the shop.
#[derive(Debug)]
pub struct Game {
    gold: u64,
    gold_this_turn: u64,
    total_gold: u64,
    turns_left: u64,
    round: u32,
    required_gold: u64,
    gold_required_multiplier: u64,
    board: Board,
    actor_types: ActorTypes,
    shop: Shop,
}

impl Clone for Game {
    fn clone(&self) -> (r: Self)
        ensures
            r@ == self@,
            self.wf() ==> r.wf(),
    {
        Game {
            gold: self.gold,
            gold_this_turn: self.gold_this_turn,
            total_gold: self.total_gold,
            turns_left: self.turns_left,
            round: self.round,
            required_gold: self.required_gold,
            gold_required_multiplier: self.gold_required_multiplier,
            board: self.board.clone(),
            actor_types: self.actor_types.clone(),
            shop: self.shop.clone(),
        }
    }
}

impl Game {
    pub closed spec fn view(&self) -> GameModel {
        GameModel {
            gold: self.gold,
            gold_this_turn: self.gold_this_turn,
            total_gold: self.total_gold,
            turns_left: self.turns_left,
            round: self.round,
            required_gold: self.required_gold,
            gold_required_multiplier: self.gold_required_multiplier,
            board: self.board@,
            actor_types: self.actor_types@,
            catalog: self.actor_types.entries(),
            restock_cost: self.shop.cost_spec(),
            restock_multiplier: self.shop.multiplier_spec(),
            stock: self.shop.stock_spec(),
        }
    }

    pub closed spec fn catalog_wf(&self) -> bool {
        self.actor_types.wf()
    }

    pub open spec fn wf(&self) -> bool {
        &&& self.catalog_wf()
        &&& self@.board.wf()
        &&& types_known(self@.board, self@.actor_types)
    }

    /// A new level: the board holds the start actor alone, and the shop's
    /// first restock is free.
    pub fn new(game_config: &GameGameConfig, actor_types: ActorTypes) -> (r: Game)
        requires
            actor_types.wf(),
            actor_types@.contains_key("start"@),
        ensures
            r.wf(),
            r@.gold == game_config.start_gold,
            r@.gold_this_turn == 0,
            r@.total_gold == 0,
            r@.turns_left == TURNS_PER_ROUND,
            r@.round == 1,
            r@.required_gold == game_config.start_required_gold,
            r@.gold_required_multiplier == game_config.gold_required_multiplier,
            r@.board.is_fresh(actor_types@),
            r@.actor_types == actor_types@,
            r@.catalog == actor_types.entries(),
            r@.restock_cost == 0,
            r@.restock_multiplier == game_config.restock_multiplier,
            r@.stock.len() == 0,
    {
        let board = Board::new(&actor_types);
        let mut result = Game {
            gold: 1,
            gold_this_turn: 0,
            turns_left: TURNS_PER_ROUND,
            round: 1,
            required_gold: game_config.start_required_gold,
            gold_required_multiplier: game_config.gold_required_multiplier,
            board,
            actor_types,
            total_gold: 0,
            shop: Shop::new(game_config.restock_multiplier),
        };
        result.gold = game_config.start_gold;
        result
    }

    pub fn gold(&self) -> (r: u64)
        ensures
            r == self@.gold,
    {
        self.gold
    }

    pub fn turns_left(&self) -> (r: u64)
        ensures
            r == self@.turns_left,
    {
        self.turns_left
    }

    pub fn round(&self) -> (r: u32)
        ensures
            r == self@.round,
    {
        self.round
    }

    pub fn required_gold(&self) -> (r: u64)
        ensures
            r == self@.required_gold,
    {
        self.required_gold
    }

    /// The actor, its id and its type, when both the actor and its type exist.
    pub fn actor_view(&self, actor_id: &ActorId) -> (r: Option<ActorView>)
        requires
            self.wf(),
        ensures
            r is Some <==> self@.board.actors.contains_key(actor_id.0),
            r matches Some(v) ==> v.actor_id == *actor_id && v.actor == self@.board.actors[actor_id.0]
                && v.actor_type@ == self@.actor_types[v.actor.actor_type_id@],
    {
        if let Some(actor) = self.board.actor_id_to_actor(actor_id) {
            if let Some(actor_type) = self.actor_types.get(&actor.actor_type_id) {
                return Some(
                    ActorView { actor: actor.clone(), actor_type: actor_type.clone(), actor_id: *actor_id },
                );
            }
        }
        None
    }

    /// Restocks the shop from the catalog with the game's gold.
    pub fn restock(&mut self)
        requires
            old(self).wf(),
        ensures
            final(self).wf(),
            final(self)@ == (GameModel {
                gold: final(self)@.gold,
                restock_cost: final(self)@.restock_cost,
                stock: final(self)@.stock,
                ..old(self)@
            }),
            old(self)@.gold < whole(old(self)@.restock_cost) ==> final(self)@ == old(self)@,
            old(self)@.gold >= whole(old(self)@.restock_cost) ==> exists|draws: Seq<usize>|
                draws.len() == crate::shop::RESTOCK_ITEM_COUNT && final(self)@.stock
                    == crate::shop::picks(
                    crate::shop::eligible(old(self)@.catalog, old(self)@.gold),
                    draws,
                ),
            old(self)@.restock_cost == 0 ==> final(self)@.gold == old(self)@.gold,
            old(self)@.restock_cost != 0 && old(self)@.gold >= whole(old(self)@.restock_cost)
                ==> final(self)@.gold == old(self)@.gold - whole(old(self)@.restock_cost),
            old(self)@.gold >= whole(old(self)@.restock_cost) ==> final(self)@.restock_cost == (
            if old(self)@.restock_cost == 0 {
                crate::shop::SCALE
            } else {
                scaled(old(self)@.restock_cost, old(self)@.restock_multiplier)
            }),
    {
        self.shop.restock(&self.actor_types, &mut self.gold);
    }

    /// Whether the gold covers the next restock.
    pub fn can_restock(&self) -> (r: bool)
        ensures
            r == (self@.gold >= whole(self@.restock_cost)),
    {
        self.gold >= self.shop.restock_cost()
    }

    /// Buys the first offered `actor_type_id` when its type is known and the
    /// gold covers its cost; returns whether it did.
    pub fn buy_item(&mut self, actor_type_id: &ActorTypeId) -> (r: bool)
        requires
            old(self).wf(),
        ensures
            final(self).wf(),
            r == (old(self)@.actor_types.contains_key(actor_type_id@) && crate::shop::first_index(
                old(self)@.stock,
                actor_type_id@,
            ) is Some && old(self)@.gold >= old(self)@.actor_types[actor_type_id@].cost),
            r ==> final(self)@ == (GameModel {
                gold: (old(self)@.gold - old(self)@.actor_types[actor_type_id@].cost) as u64,
                stock: old(self)@.stock.remove(
                    crate::shop::first_index(old(self)@.stock, actor_type_id@)->0,
                ),
                ..old(self)@
            }),
            !r ==> final(self)@ == old(self)@,
    {
        if let Some(actor_type) = self.actor_types.get(actor_type_id) {
            return self.shop.buy_item(actor_type_id, actor_type, &mut self.gold);
        }
        false
    }

    /// Puts a bought type back at `index` and refunds its cost; an unknown
    /// type changes nothing.
    pub fn return_item(&mut self, actor_type_id: &ActorTypeId, index: usize)
        requires
            old(self).wf(),
            index <= old(self)@.stock.len(),
            old(self)@.actor_types.contains_key(actor_type_id@) ==> old(self)@.gold
                + old(self)@.actor_types[actor_type_id@].cost <= u64::MAX,
        ensures
            final(self).wf(),
            old(self)@.actor_types.contains_key(actor_type_id@) ==> final(self)@ == (GameModel {
                gold: (old(self)@.gold + old(self)@.actor_types[actor_type_id@].cost) as u64,
                stock: old(self)@.stock.insert(index as int, actor_type_id@),
                ..old(self)@
            }),
            !old(self)@.actor_types.contains_key(actor_type_id@) ==> final(self)@ == old(self)@,
    {
        if let Some(actor_type) = self.actor_types.get(actor_type_id) {
            self.shop.return_item(actor_type_id, actor_type, index, &mut self.gold);
        }
    }

    pub fn board(&self) -> (r: &Board)
        ensures
            r@ == self@.board,
    {
        &self.board
    }

    pub fn swap_coords(&mut self, coord1: Coord, coord2: Coord)
        requires
            old(self).wf(),
        ensures
            final(self).wf(),
            final(self)@ == (GameModel { board: old(self)@.board.swap(coord1, coord2), ..old(self)@ }),
    {
        proof {
            lemma_swap_types(self@.board, coord1, coord2, self@.actor_types);
        }
        self.board.swap_coords(coord1, coord2);
    }

    /// Places a new actor of a known type at a free position.
    pub fn new_actor(&mut self, actor_type_id: &ActorTypeId, coord: Coord) -> (r: Option<ActorId>)
        requires
            old(self).wf(),
            old(self)@.board.next_actor_id < usize::MAX,
        ensures
            final(self).wf(),
            r is Some <==> (old(self)@.actor_types.contains_key(actor_type_id@) && old(
                self,
            )@.board.id_at(coord) is None),
            r matches Some(id) ==> id.0 == old(self)@.board.next_actor_id && final(self)@
                == (GameModel {
                board: old(self)@.board.add(
                    Actor {
                        actor_type_id: final(self)@.board.actors[id.0].actor_type_id,
                        looks_to: old(self)@.actor_types[actor_type_id@].looks_to,
                        activations_left: old(self)@.actor_types[actor_type_id@].max_activations,
                        coord,
                        activated: false,
                    },
                ),
                ..old(self)@
            }) && final(self)@.board.actors[id.0].actor_type_id@ == actor_type_id@,
            r is None ==> final(self)@ == old(self)@,
    {
        let actor_type = match self.actor_types.get(actor_type_id) {
            Some(t) => t,
            None => {
                return None;
            },
        };
        let actor = Actor::from_actor_type(actor_type_id, actor_type, coord);
        match self.board.add_actor(actor) {
            Ok(id) => {
                proof {
                    let b = old(self)@.board;
                    let r = self@.board;
                    assert forall|i: usize| #[trigger] r.actors.contains_key(i) implies self@.actor_types.contains_key(
                        r.actors[i].actor_type_id@,
                    ) by {
                        if i != id.0 {
                            assert(b.actors.contains_key(i));
                        }
                    }
                }
                Some(id)
            },
            Err(_) => None,
        }
    }

    /// Stores `actor` as the actor `actor_id` (see `Board::update_actor`).
    pub fn update_actor(&mut self, actor_id: &ActorId, actor: Actor)
        requires
            old(self).wf(),
            old(self)@.actor_types.contains_key(actor.actor_type_id@),
        ensures
            final(self).wf(),
            final(self)@ == (GameModel {
                board: old(self)@.board.update(actor_id.0, actor),
                ..old(self)@
            }),
    {
        proof {
            lemma_update_types(self@.board, actor_id.0, actor, self@.actor_types);
        }
        self.board.update_actor(actor_id, actor);
    }

    /// Turns the actor a quarter clockwise, when it exists.
    pub fn rotate_actor(&mut self, actor_id: &ActorId)
        requires
            old(self).wf(),
        ensures
            final(self).wf(),
            old(self)@.board.actors.contains_key(actor_id.0) ==> final(self)@ == (GameModel {
                board: old(self)@.board.update(
                    actor_id.0,
                    Actor {
                        looks_to: rotate_spec(old(self)@.board.actors[actor_id.0].looks_to),
                        ..old(self)@.board.actors[actor_id.0]
                    },
                ),
                ..old(self)@
            }),
            !old(self)@.board.actors.contains_key(actor_id.0) ==> final(self)@ == old(self)@,
    {
        if let Some(actor) = self.board.actor_id_to_actor(actor_id) {
            let mut actor = actor.clone();
            actor.rotate();
            self.update_actor(actor_id, actor);
        }
    }

    pub fn actor_types(&self) -> (r: &ActorTypes)
        ensures
            r@ == self@.actor_types,
            r.entries() == self@.catalog,
            self.wf() ==> r.wf(),
    {
        &self.actor_types
    }

    pub fn shop(&self) -> (r: &Shop)
        ensures
            r.cost_spec() == self@.restock_cost,
            r.multiplier_spec() == self@.restock_multiplier,
            r.stock_spec() == self@.stock,
    {
        &self.shop
    }

    /// Replaces the board; every actor on it must have a known type.
    pub fn set_board(&mut self, board: Board)
        requires
            old(self).wf(),
            board.wf(),
            types_known(board@, old(self)@.actor_types),
        ensures
            final(self).wf(),
            final(self)@ == (GameModel { board: board@, ..old(self)@ }),
    {
        self.board = board;
    }

    /// Starts a turn: one turn fewer is left and no gold is earned yet.
    pub fn new_turn(&mut self)
        requires
            old(self)@.turns_left > 0,
        ensures
            final(self).wf() == old(self).wf(),
            final(self)@ == (GameModel {
                gold_this_turn: 0,
                turns_left: (old(self)@.turns_left - 1) as u64,
                ..old(self)@
            }),
    {
        self.gold_this_turn = 0;
        self.turns_left = self.turns_left - 1;
    }

    /// Adds prize gold to the gold, this turn's gold and the total.
    pub fn earn_prize_gold(&mut self, amount: u64)
        requires
            old(self)@.gold + amount <= u64::MAX,
            old(self)@.gold_this_turn + amount <= u64::MAX,
            old(self)@.total_gold + amount <= u64::MAX,
        ensures
            final(self).wf() == old(self).wf(),
            final(self)@ == (GameModel {
                gold: (old(self)@.gold + amount) as u64,
                gold_this_turn: (old(self)@.gold_this_turn + amount) as u64,
                total_gold: (old(self)@.total_gold + amount) as u64,
                ..old(self)@
            }),
    {
        self.gold = self.gold + amount;
        self.gold_this_turn = self.gold_this_turn + amount;
        self.total_gold = self.total_gold + amount;
    }

    pub fn total_gold(&self) -> (r: u64)
        ensures
            r == self@.total_gold,
    {
        self.total_gold
    }

    pub fn is_round_end(&self) -> (r: bool)
        ensures
            r == (self@.turns_left == 0),
    {
        self.turns_left == 0
    }

    pub fn can_go_next_round(&self) -> (r: bool)
        ensures
            r == (self@.turns_left == 0 && self@.gold >= self@.required_gold),
    {
        self.turns_left == 0 && self.gold >= self.required_gold
    }

    /// The next round: the turns are reset and the required gold grows by
    /// the multiplier, rounded down.
    pub fn next_round(&mut self)
        requires
            old(self)@.round < u32::MAX,
        ensures
            final(self).wf() == old(self).wf(),
            final(self)@ == (GameModel {
                round: (old(self)@.round + 1) as u32,
                turns_left: TURNS_PER_ROUND,
                required_gold: scaled(old(self)@.required_gold, old(self)@.gold_required_multiplier),
                ..old(self)@
            }),
    {
        self.round = self.round + 1;
        self.turns_left = TURNS_PER_ROUND;
        let c: u128 = self.required_gold as u128;
        let m: u128 = self.gold_required_multiplier as u128;
        assert(c * m <= u64::MAX as u128 * u64::MAX as u128) by (nonlinear_arith)
            requires
                c <= u64::MAX,
                m <= u64::MAX,
        ;
        let p: u128 = c * m / crate::shop::SCALE as u128;
        self.required_gold = if p > u64::MAX as u128 {
            u64::MAX
        } else {
            p as u64
        };
    }
}

} // verus!
