use vstd::prelude::*;

use crate::actor_type::{ActorType, ActorTypeId, ActorTypeModel};
use crate::actor_types::ActorTypes;

verus! {

/// Relies on rand::random: a value drawn from the thread's generator. Nothing
/// is known of the value.
pub assume_specification<T>[ rand::random::<T> ]() -> (r: T)
    where
        rand::distr::StandardUniform: rand::distr::Distribution<T>,
;

/// How many types a restock offers at most.
pub const RESTOCK_ITEM_COUNT: usize = 3;

/// Restock prices and multipliers are kept in thousandths.
pub const SCALE: u64 = 1000;

/// The names of the catalog entries that cost something and no more than
/// `gold`, in catalog order.
pub open spec fn eligible(entries: Seq<(Seq<char>, ActorTypeModel)>, gold: u64) -> Seq<Seq<char>>
    decreases entries.len(),
{
    if entries.len() == 0 {
        seq![]
    } else {
        let before = eligible(entries.drop_last(), gold);
        let e = entries.last();
        if 0 < e.1.cost && e.1.cost <= gold {
            before.push(e.0)
        } else {
            before
        }
    }
}

/// The types that the draws pick, one per draw while any are left: each
/// draw, taken modulo the number left, picks one and takes it out.
pub open spec fn picks(left: Seq<Seq<char>>, draws: Seq<usize>) -> Seq<Seq<char>>
    decreases draws.len(),
{
    if draws.len() == 0 || left.len() == 0 {
        seq![]
    } else {
        let i = draws[0] as int % left.len() as int;
        seq![left[i]] + picks(left.remove(i), draws.drop_first())
    }
}

/// `cost` times `multiplier`, both in thousandths, rounded down and capped at
/// the largest `u64`.
pub open spec fn scaled(cost: u64, multiplier: u64) -> u64 {
    let p = cost as int * multiplier as int / SCALE as int;
    if p > u64::MAX {
        u64::MAX
    } else {
        p as u64
    }
}

/// The whole-gold part of a price in thousandths.
pub open spec fn whole(cost_thousandths: u64) -> u64 {
    (cost_thousandths / SCALE) as u64
}

/// The first position of `id` in `s`, if any.
pub open spec fn first_index(s: Seq<Seq<char>>, id: Seq<char>) -> Option<int> {
    if exists|i: int| 0 <= i < s.len() && s[i] == id {
        Some(
            choose|i: int| 0 <= i < s.len() && s[i] == id && forall|j: int| 0 <= j < i ==> s[j] != id,
        )
    } else {
        None
    }
}

/// The names of a list of ids.
pub open spec fn ids_view(s: Seq<ActorTypeId>) -> Seq<Seq<char>> {
    s.map_values(|id: ActorTypeId| id@)
}

/// The shop: what is on offer and what restocking costs. The first restock
/// is free; each later one costs the current price, which then grows by the
/// multiplier.
#[derive(Debug)]
pub struct Shop {
    restock_cost: u64,
    restock_multiplier: u64,
    stock: Vec<ActorTypeId>,
}

impl Clone for Shop {
    fn clone(&self) -> (r: Self)
        ensures
            r.cost_spec() == self.cost_spec(),
            r.multiplier_spec() == self.multiplier_spec(),
            r.stock_spec() == self.stock_spec(),
    {
        let stock = self.stock.clone();
        assert(ids_view(stock@) =~= ids_view(self.stock@));
        Shop { restock_cost: self.restock_cost, restock_multiplier: self.restock_multiplier, stock }
    }
}

impl Shop {
    /// The price of the next restock, in thousandths of gold.
    pub closed spec fn cost_spec(&self) -> u64 {
        self.restock_cost
    }

    /// The growth of the price per restock, in thousandths.
    pub closed spec fn multiplier_spec(&self) -> u64 {
        self.restock_multiplier
    }

    /// The names on offer, in order.
    pub closed spec fn stock_spec(&self) -> Seq<Seq<char>> {
        ids_view(self.stock@)
    }

    /// A shop with nothing on offer whose first restock is free.
    pub fn new(restock_multiplier: u64) -> (r: Shop)
        ensures
            r.cost_spec() == 0,
            r.multiplier_spec() == restock_multiplier,
            r.stock_spec().len() == 0,
    {
        Shop { restock_cost: 0, restock_multiplier, stock: Vec::new() }
    }

    pub fn stock(&self) -> (r: &[ActorTypeId])
        ensures
            ids_view(r@) == self.stock_spec(),
    {
        self.stock.as_slice()
    }

    /// The price of the next restock in whole gold.
    pub fn restock_cost(&self) -> (r: u64)
        ensures
            r == whole(self.cost_spec()),
    {
        self.restock_cost / SCALE
    }

    /// Restocks with three random draws; see `restock_with_draws`.
    pub fn restock(&mut self, actor_types: &ActorTypes, game_gold: &mut u64)
        requires
            actor_types.wf(),
        ensures
            *old(game_gold) < whole(old(self).cost_spec()) ==> *final(self) == *old(self)
                && *final(game_gold) == *old(game_gold),
            *old(game_gold) >= whole(old(self).cost_spec()) ==> exists|draws: Seq<usize>|
                draws.len() == RESTOCK_ITEM_COUNT && final(self).stock_spec() == picks(
                    eligible(actor_types.entries(), *old(game_gold)),
                    draws,
                ),
            old(self).cost_spec() == 0 ==> *final(game_gold) == *old(game_gold),
            old(self).cost_spec() != 0 && *old(game_gold) >= whole(old(self).cost_spec())
                ==> *final(game_gold) == *old(game_gold) - whole(old(self).cost_spec()),
            *old(game_gold) >= whole(old(self).cost_spec()) ==> final(self).cost_spec() == (
            if old(self).cost_spec() == 0 {
                SCALE
            } else {
                scaled(old(self).cost_spec(), old(self).multiplier_spec())
            }),
            final(self).multiplier_spec() == old(self).multiplier_spec(),
    {
        let mut draws: Vec<usize> = Vec::new();
        let mut i: usize = 0;
        while i < RESTOCK_ITEM_COUNT
            invariant
                i <= RESTOCK_ITEM_COUNT,
                draws@.len() == i,
            decreases RESTOCK_ITEM_COUNT - i,
        {
            draws.push(rand::random::<u64>() as usize);
            i += 1;
        }
        self.restock_with_draws(actor_types, game_gold, &draws);
    }

    /// Restocks when `game_gold` covers the price: the stock becomes the
    /// types that the draws pick among those that cost something and no more
    /// than `game_gold` (see `picks`). The first restock is free and sets the
    /// price to one gold; a later one takes the price from `game_gold` and
    /// multiplies the price. Without enough gold nothing changes.
    pub fn restock_with_draws(&mut self, actor_types: &ActorTypes, game_gold: &mut u64, draws: &Vec<usize>)
        requires
            actor_types.wf(),
            draws@.len() == RESTOCK_ITEM_COUNT,
        ensures
            *old(game_gold) < whole(old(self).cost_spec()) ==> *final(self) == *old(self)
                && *final(game_gold) == *old(game_gold),
            *old(game_gold) >= whole(old(self).cost_spec()) ==> final(self).stock_spec() == picks(
                eligible(actor_types.entries(), *old(game_gold)),
                draws@,
            ),
            old(self).cost_spec() == 0 ==> *final(game_gold) == *old(game_gold),
            old(self).cost_spec() != 0 && *old(game_gold) >= whole(old(self).cost_spec())
                ==> *final(game_gold) == *old(game_gold) - whole(old(self).cost_spec()),
            *old(game_gold) >= whole(old(self).cost_spec()) ==> final(self).cost_spec() == (
            if old(self).cost_spec() == 0 {
                SCALE
            } else {
                scaled(old(self).cost_spec(), old(self).multiplier_spec())
            }),
            final(self).multiplier_spec() == old(self).multiplier_spec(),
    {
        if *game_gold < self.restock_cost() {
            return ;
        }
        let gold = *game_gold;
        let entries = actor_types.iter();
        let mut valid: Vec<ActorTypeId> = Vec::new();
        let mut k: usize = 0;
        let ghost ev = actor_types.entries();
        while k < entries.len()
            invariant
                k <= entries@.len(),
                ev == entries@.map_values(|e: (ActorTypeId, ActorType)| (e.0@, e.1@)),
                ids_view(valid@) == eligible(ev.take(k as int), gold),
            decreases entries@.len() - k,
        {
            assert(ev.take(k + 1).drop_last() == ev.take(k as int));
            let entry = &entries[k];
            let ghost before = valid@;
            if 0 < entry.1.cost && entry.1.cost as u64 <= gold {
                valid.push(entry.0.clone());
                assert(ids_view(valid@) =~= ids_view(before).push(entry.0@));
            }
            k += 1;
        }
        assert(ev.take(ev.len() as int) == ev);
        let ghost all = ids_view(valid@);
        self.stock = Vec::new();
        assert(draws@.skip(0) == draws@);
        assert(ids_view(self.stock@) + picks(ids_view(valid@), draws@) =~= picks(all, draws@));
        let mut i: usize = 0;
        while i < RESTOCK_ITEM_COUNT
            invariant
                i <= RESTOCK_ITEM_COUNT,
                draws@.len() == RESTOCK_ITEM_COUNT,
                self.restock_cost == old(self).restock_cost,
                self.restock_multiplier == old(self).restock_multiplier,
                gold == *game_gold,
                gold >= self.restock_cost / SCALE,
                ids_view(self.stock@) + picks(ids_view(valid@), draws@.skip(i as int)) == picks(
                    all,
                    draws@,
                ),
            ensures
                ids_view(self.stock@) == picks(all, draws@),
            decreases RESTOCK_ITEM_COUNT - i,
        {
            if valid.len() == 0 {
                assert(ids_view(self.stock@) + seq![] == ids_view(self.stock@));
                break;
            }
            let ghost before = ids_view(self.stock@);
            let ghost left = ids_view(valid@);
            let index = draws[i] % valid.len();
            assert(draws@.skip(i as int).drop_first() == draws@.skip(i + 1));
            assert(draws@.skip(i as int)[0] == draws@[i as int]);
            let actor_type_id = valid.remove(index);
            assert(ids_view(valid@) =~= left.remove(index as int));
            let ghost picked = actor_type_id@;
            assert(picked == left[index as int]);
            self.stock.push(actor_type_id);
            assert(ids_view(self.stock@) =~= before + seq![picked]);
            assert(ids_view(self.stock@) + picks(ids_view(valid@), draws@.skip(i + 1)) =~= before + (
            seq![picked] + picks(ids_view(valid@), draws@.skip(i + 1))));
            i += 1;
        }
        if self.restock_cost == 0 {
            self.restock_cost = SCALE;
        } else {
            *game_gold = *game_gold - self.restock_cost();
            let c: u128 = self.restock_cost as u128;
            let m: u128 = self.restock_multiplier as u128;
            assert(c * m <= u64::MAX as u128 * u64::MAX as u128) by (nonlinear_arith)
                requires
                    c <= u64::MAX,
                    m <= u64::MAX,
            ;
            let p: u128 = c * m / SCALE as u128;
            self.restock_cost = if p > u64::MAX as u128 {
                u64::MAX
            } else {
                p as u64
            };
        }
    }

    /// Puts a bought type back at `index` and refunds its cost.
    pub fn return_item(
        &mut self,
        actor_type_id: &ActorTypeId,
        actor_type: &ActorType,
        index: usize,
        game_gold: &mut u64,
    )
        requires
            index <= old(self).stock_spec().len(),
            *old(game_gold) + actor_type.cost <= u64::MAX,
        ensures
            *final(game_gold) == *old(game_gold) + actor_type.cost,
            final(self).stock_spec() == old(self).stock_spec().insert(index as int, actor_type_id@),
            final(self).cost_spec() == old(self).cost_spec(),
            final(self).multiplier_spec() == old(self).multiplier_spec(),
    {
        *game_gold = *game_gold + actor_type.cost as u64;
        self.stock.insert(index, actor_type_id.clone());
        assert(ids_view(self.stock@) =~= ids_view(old(self).stock@).insert(index as int, actor_type_id@));
    }

    /// Buys the first offered `actor_type_id` when `game_gold` covers its
    /// cost; returns whether it did.
    pub fn buy_item(&mut self, actor_type_id: &ActorTypeId, actor_type: &ActorType, game_gold: &mut u64) -> (r: bool)
        ensures
            r == (first_index(old(self).stock_spec(), actor_type_id@) is Some && *old(game_gold)
                >= actor_type.cost),
            r ==> *final(game_gold) == *old(game_gold) - actor_type.cost
                && final(self).stock_spec() == old(self).stock_spec().remove(
                first_index(old(self).stock_spec(), actor_type_id@)->0,
            ),
            !r ==> *final(game_gold) == *old(game_gold) && final(self).stock_spec() == old(
                self,
            ).stock_spec(),
            final(self).cost_spec() == old(self).cost_spec(),
            final(self).multiplier_spec() == old(self).multiplier_spec(),
    {
        let mut i: usize = 0;
        while i < self.stock.len()
            invariant
                i <= self.stock@.len(),
                forall|j: int| 0 <= j < i ==> self.stock@[j]@ != actor_type_id@,
            ensures
                i <= self.stock@.len(),
                forall|j: int| 0 <= j < i ==> self.stock@[j]@ != actor_type_id@,
                i < self.stock@.len() ==> self.stock@[i as int]@ == actor_type_id@,
            decreases self.stock@.len() - i,
        {
            if self.stock[i] == *actor_type_id {
                break;
            }
            i += 1;
        }
        proof {
            let s = ids_view(self.stock@);
            if i < s.len() {
                assert(s[i as int] == actor_type_id@);
                assert(exists|j: int| 0 <= j < s.len() && s[j] == actor_type_id@);
                let c = first_index(s, actor_type_id@)->0;
                if c < i {
                    assert(s[c] == self.stock@[c]@);
                }
                if i < c {
                    assert(s[i as int] == actor_type_id@);
                }
                assert(c == i);
            } else {
                assert forall|j: int| 0 <= j < s.len() implies s[j] != actor_type_id@ by {
                    assert(s[j] == self.stock@[j]@);
                }
            }
        }
        if i < self.stock.len() && *game_gold >= actor_type.cost as u64 {
            *game_gold = *game_gold - actor_type.cost as u64;
            self.stock.remove(i);
            assert(ids_view(self.stock@) =~= ids_view(old(self).stock@).remove(i as int));
            return true;
        }
        false
    }
}

} // verus!
