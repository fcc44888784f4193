use grid_runner::actor::{Actor, ActorId};
use grid_runner::actor_type::{ActorType, ActorTypeId};
use grid_runner::actor_types::ActorTypes;
use grid_runner::board::{Board, BoardError};
use grid_runner::coord::Coord;
use grid_runner::direction::{Dir, RelDir};
use grid_runner::game::{Game, GameGameConfig};
use grid_runner::program::Program;
use grid_runner::shop::Shop;

fn actor_type(cost: u32) -> ActorType {
    ActorType {
        name: String::from("thing"),
        program: Program(vec![]),
        pushable: true,
        dragable: true,
        rotatable: true,
        looks_to: Dir::Up,
        max_activations: 2,
        prize: 1,
        sprite_name: String::new(),
        cost,
        description: String::new(),
    }
}

fn id(name: &str) -> ActorTypeId {
    ActorTypeId::new(name.to_string())
}

fn catalog() -> ActorTypes {
    let mut types = ActorTypes::new();
    types.insert(id("start"), actor_type(0));
    types.insert(id("a"), actor_type(2));
    types.insert(id("b"), actor_type(5));
    types.insert(id("c"), actor_type(20));
    types.insert(id("d"), actor_type(1));
    types
}

fn actor(x: i32, y: i32) -> Actor {
    Actor::from_actor_type(&id("a"), &actor_type(2), Coord::new(x, y))
}

const ALL: [Dir; 4] = [Dir::Up, Dir::Down, Dir::Left, Dir::Right];

#[test]
fn rotation_cycles_through_four_directions() {
    assert_eq!(Dir::Up.rotate(), Dir::Right);
    assert_eq!(Dir::Right.rotate(), Dir::Down);
    assert_eq!(Dir::Down.rotate(), Dir::Left);
    assert_eq!(Dir::Left.rotate(), Dir::Up);
    for d in ALL {
        assert_eq!(d.rotate().rotate().rotate().rotate(), d);
        assert_eq!(d.apply_relative(RelDir::Right).apply_relative(RelDir::Left), d);
    }
}

#[test]
fn relative_directions() {
    assert_eq!(Dir::Left.apply_relative(RelDir::Back), Dir::Right);
    assert_eq!(Dir::Left.apply_relative(RelDir::Left), Dir::Down);
    assert_eq!(Dir::Up.apply_relative(RelDir::Front), Dir::Up);
    assert_eq!(Dir::Up.apply_relative(RelDir::Right), Dir::Right);
}

#[test]
fn steps_and_offsets() {
    let c = Coord::new(3, -2);
    assert_eq!(Dir::Up.apply_to(c), Coord::new(3, -1));
    assert_eq!(Dir::Down.apply_to(c), Coord::new(3, -3));
    assert_eq!(Dir::Left.apply_to(c), Coord::new(2, -2));
    assert_eq!(Dir::Right.apply_to(c), Coord::new(4, -2));
    let rel = Coord::new(2, 1);
    assert_eq!(Dir::Right.rel_coord_to_coord(c, rel), Coord::new(5, -1));
    assert_eq!(Dir::Up.rel_coord_to_coord(c, rel), Coord::new(2, 0));
    assert_eq!(Dir::Down.rel_coord_to_coord(c, rel), Coord::new(4, -4));
    assert_eq!(Dir::Left.rel_coord_to_coord(c, rel), Coord::new(1, -3));
    assert_eq!(Dir::Right.apply_to(Coord::new(i32::MAX, 0)), Coord::new(i32::MIN, 0));
}

#[test]
fn new_board_holds_the_start_actor() {
    let board = Board::new(&catalog());
    assert_eq!(board.start_actor_id(), ActorId::new(1));
    assert_eq!(board.coord_to_actor_id(&Coord::new(0, 0)), Some(ActorId::new(1)));
    let start = board.coord_to_actor(Coord::new(0, 0)).unwrap();
    assert_eq!(start.actor_type_id, id("start"));
    assert_eq!(start.looks_to, Dir::Up);
    assert_eq!(start.activations_left, 2);
    assert_eq!(board.actor_ids(), vec![ActorId::new(1)]);
}

#[test]
fn add_actor_refuses_taken_cells() {
    let mut board = Board::new(&catalog());
    assert_eq!(board.add_actor(actor(0, 0)), Err(BoardError::CoordAlreadyTaken));
    assert_eq!(board.add_actor(actor(1, 0)), Ok(ActorId::new(2)));
    assert_eq!(board.add_actor(actor(1, 0)), Err(BoardError::CoordAlreadyTaken));
    assert_eq!(board.add_actor(actor(0, 1)), Ok(ActorId::new(3)));
    let mut ids = board.actor_ids();
    ids.sort_by_key(|i| i.0);
    assert_eq!(ids, vec![ActorId::new(1), ActorId::new(2), ActorId::new(3)]);
}

#[test]
fn swap_coords_cases() {
    let mut board = Board::new(&catalog());
    board.add_actor(actor(1, 0)).unwrap();
    board.add_actor(actor(2, 0)).unwrap();
    // Both taken: the actors trade places.
    board.swap_coords(Coord::new(1, 0), Coord::new(2, 0));
    assert_eq!(board.coord_to_actor_id(&Coord::new(1, 0)), Some(ActorId::new(3)));
    assert_eq!(board.coord_to_actor_id(&Coord::new(2, 0)), Some(ActorId::new(2)));
    assert_eq!(board.actor_id_to_actor(&ActorId::new(2)).unwrap().coord, Coord::new(2, 0));
    // One taken: the actor moves.
    board.swap_coords(Coord::new(2, 0), Coord::new(5, 5));
    assert_eq!(board.coord_to_actor_id(&Coord::new(2, 0)), None);
    assert_eq!(board.coord_to_actor_id(&Coord::new(5, 5)), Some(ActorId::new(2)));
    board.swap_coords(Coord::new(7, 7), Coord::new(5, 5));
    assert_eq!(board.coord_to_actor_id(&Coord::new(7, 7)), Some(ActorId::new(2)));
    // Neither taken: nothing happens.
    board.swap_coords(Coord::new(8, 8), Coord::new(9, 9));
    assert_eq!(board.coord_to_actor(Coord::new(8, 8)).is_none(), true);
    assert_eq!(board.actor_id_to_actor(&ActorId::new(2)).unwrap().coord, Coord::new(7, 7));
}

#[test]
fn update_actor_keeps_the_index_in_step() {
    let mut board = Board::new(&catalog());
    board.add_actor(actor(1, 0)).unwrap();
    board.add_actor(actor(2, 0)).unwrap();
    let mut moved = board.actor_id_to_actor(&ActorId::new(2)).unwrap().clone();
    moved.coord = Coord::new(2, 0);
    moved.activated = true;
    board.update_actor(&ActorId::new(2), moved);
    assert_eq!(board.coord_to_actor_id(&Coord::new(2, 0)), Some(ActorId::new(2)));
    assert_eq!(board.coord_to_actor_id(&Coord::new(1, 0)), Some(ActorId::new(3)));
    assert!(board.actor_id_to_actor(&ActorId::new(2)).unwrap().activated);
    for i in 1..=3 {
        let a = board.actor_id_to_actor(&ActorId::new(i)).unwrap();
        assert_eq!(board.coord_to_actor_id(&a.coord), Some(ActorId::new(i)));
    }
    // An unknown id changes nothing.
    board.update_actor(&ActorId::new(9), actor(4, 4));
    assert_eq!(board.coord_to_actor_id(&Coord::new(4, 4)), None);
}

#[test]
fn copies_of_a_board_are_independent() {
    let mut board = Board::new(&catalog());
    let copy = board.clone();
    board.add_actor(actor(1, 0)).unwrap();
    assert_eq!(copy.coord_to_actor_id(&Coord::new(1, 0)), None);
    assert_eq!(copy.coord_to_actor_id(&Coord::new(0, 0)), Some(ActorId::new(1)));
    assert_eq!(copy.actor_id_to_actor(&ActorId::new(1)).unwrap().coord, Coord::new(0, 0));
    assert_eq!(copy.actor_ids(), vec![ActorId::new(1)]);
    assert_eq!(board.coord_to_actor_id(&Coord::new(1, 0)), Some(ActorId::new(2)));
}

#[test]
fn catalog_lookup_and_duplicates() {
    let mut types = catalog();
    assert!(!types.insert(id("a"), actor_type(99)));
    assert_eq!(types.get(&id("a")).unwrap().cost, 2);
    assert!(types.get(&id("zzz")).is_none());
    let names: Vec<String> = types.iter().iter().map(|e| e.0 .0.clone()).collect();
    assert_eq!(names, vec!["start", "a", "b", "c", "d"]);
}

#[test]
fn program_lists_its_actions() {
    let program = Program(vec![
        grid_runner::program::Action::Forward,
        grid_runner::program::Action::Turn(RelDir::Back),
    ]);
    assert_eq!(program.iter().len(), 2);
    assert!(matches!(program.iter()[1], grid_runner::program::Action::Turn(RelDir::Back)));
}

#[test]
fn set_board_replaces_the_board() {
    let mut game = Game::new(&config(), catalog());
    let saved = game.board().clone();
    game.new_actor(&id("a"), Coord::new(3, 3)).unwrap();
    assert!(game.board().coord_to_actor_id(&Coord::new(3, 3)).is_some());
    game.set_board(saved);
    assert!(game.board().coord_to_actor_id(&Coord::new(3, 3)).is_none());
    assert_eq!(game.board().next_actor_id(), 2);
}

fn config() -> GameGameConfig {
    GameGameConfig {
        start_gold: 10,
        start_required_gold: 20,
        gold_required_multiplier: 1500,
        restock_multiplier: 1500,
    }
}

#[test]
fn restock_costs_and_prices() {
    let mut game = Game::new(&config(), catalog());
    assert_eq!(game.shop().restock_cost(), 0);
    assert!(game.can_restock());
    // The first restock is free and sets the price to one gold.
    game.restock();
    assert_eq!(game.gold(), 10);
    assert_eq!(game.shop().restock_cost(), 1);
    let stock: Vec<String> = game.shop().stock().iter().map(|i| i.0.clone()).collect();
    assert_eq!(stock.len(), 3);
    for name in &stock {
        assert!(["a", "b", "d"].contains(&name.as_str()));
    }
    // A later one takes the price and multiplies it.
    game.restock();
    assert_eq!(game.gold(), 9);
    assert_eq!(game.shop().restock_cost(), 1);
    game.restock();
    assert_eq!(game.gold(), 8);
    assert_eq!(game.shop().restock_cost(), 2);
}

#[test]
fn restock_without_gold_does_nothing() {
    let mut shop = Shop::new(2000);
    let types = catalog();
    let mut gold: u64 = 3;
    shop.restock_with_draws(&types, &mut gold, &vec![0, 0, 0]);
    assert_eq!(shop.restock_cost(), 1);
    shop.restock_with_draws(&types, &mut gold, &vec![0, 0, 0]);
    assert_eq!((gold, shop.restock_cost()), (2, 2));
    shop.restock_with_draws(&types, &mut gold, &vec![0, 0, 0]);
    assert_eq!((gold, shop.restock_cost()), (0, 4));
    let before: Vec<ActorTypeId> = shop.stock().to_vec();
    shop.restock_with_draws(&types, &mut gold, &vec![1, 1, 1]);
    assert_eq!((gold, shop.restock_cost()), (0, 4));
    assert_eq!(shop.stock().to_vec(), before);
}

#[test]
fn restock_picks_by_the_draws() {
    let types = catalog();
    let mut shop = Shop::new(1500);
    let mut gold: u64 = 5;
    // Affordable, in catalog order: a (2), b (5), d (1).
    shop.restock_with_draws(&types, &mut gold, &vec![1, 4, 7]);
    assert_eq!(shop.stock().to_vec(), vec![id("b"), id("a"), id("d")]);
    let mut gold: u64 = 1;
    shop.restock_with_draws(&types, &mut gold, &vec![0, 0, 0]);
    assert_eq!(shop.stock().to_vec(), vec![id("d")]);
    assert_eq!(gold, 0);
}

#[test]
fn buying_and_returning_items() {
    let mut game = Game::new(&config(), catalog());
    game.restock();
    let first = game.shop().stock()[0].clone();
    let cost = game.actor_types().get(&first).unwrap().cost as u64;
    assert!(game.buy_item(&first));
    assert_eq!(game.gold(), 10 - cost);
    assert_eq!(game.shop().stock().len(), 2);
    assert!(!game.buy_item(&id("c")));
    game.return_item(&first, 0);
    assert_eq!(game.gold(), 10);
    assert_eq!(game.shop().stock()[0], first);
    assert_eq!(game.shop().stock().len(), 3);
}

#[test]
fn rounds_and_turns() {
    let mut game = Game::new(&config(), catalog());
    assert_eq!((game.turns_left(), game.round(), game.required_gold()), (5, 1, 20));
    for _ in 0..5 {
        game.new_turn();
    }
    assert!(game.is_round_end());
    assert!(!game.can_go_next_round());
    game.earn_prize_gold(15);
    assert_eq!((game.gold(), game.total_gold()), (25, 15));
    assert!(game.can_go_next_round());
    game.next_round();
    assert_eq!((game.turns_left(), game.round(), game.required_gold()), (5, 2, 30));
}

#[test]
fn actors_on_the_game_board() {
    let mut game = Game::new(&config(), catalog());
    assert_eq!(game.new_actor(&id("zzz"), Coord::new(1, 0)), None);
    assert_eq!(game.new_actor(&id("a"), Coord::new(0, 0)), None);
    let a = game.new_actor(&id("a"), Coord::new(1, 0)).unwrap();
    game.rotate_actor(&a);
    let view = game.actor_view(&a).unwrap();
    assert_eq!(view.actor.looks_to, Dir::Right);
    assert_eq!(view.actor_type.cost, 2);
    game.swap_coords(Coord::new(0, 0), Coord::new(1, 0));
    assert_eq!(game.board().coord_to_actor_id(&Coord::new(0, 0)), Some(a));
    assert!(game.actor_view(&ActorId::new(42)).is_none());
}
