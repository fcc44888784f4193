use grid_runner::actor::{Actor, ActorId};
use grid_runner::actor_type::{ActorType, ActorTypeId};
use grid_runner::actor_types::ActorTypes;
use grid_runner::coord::Coord;
use grid_runner::direction::{Dir, RelDir};
use grid_runner::game::{Game, GameGameConfig};
use grid_runner::program::{Action, Program};
use grid_runner::runner::{Cmd, Dest, Runner};

fn actor_type(name: &str, program: Vec<Action>, pushable: bool, cost: u32) -> ActorType {
    ActorType {
        name: name.to_string(),
        program: Program(program),
        pushable,
        dragable: true,
        rotatable: true,
        looks_to: Dir::Right,
        max_activations: 1,
        prize: 0,
        sprite_name: String::new(),
        cost,
        description: String::new(),
    }
}

fn id(name: &str) -> ActorTypeId {
    ActorTypeId::new(name.to_string())
}

fn config() -> GameGameConfig {
    GameGameConfig {
        start_gold: 10,
        start_required_gold: 20,
        gold_required_multiplier: 1500,
        restock_multiplier: 1500,
    }
}

/// A catalog whose start actor runs `start_program`, with a walker, a
/// pusher, a rock and a wall.
fn catalog(start_program: Vec<Action>) -> ActorTypes {
    let mut types = ActorTypes::new();
    assert!(types.insert(id("start"), actor_type("start", start_program, false, 0)));
    assert!(types.insert(id("walker"), actor_type("walker", vec![Action::Forward], true, 2)));
    assert!(types.insert(id("pusher"), actor_type("pusher", vec![Action::Push(RelDir::Front)], true, 3)));
    assert!(types.insert(id("rock"), actor_type("rock", vec![], true, 1)));
    assert!(types.insert(id("wall"), actor_type("wall", vec![], false, 0)));
    types
}

fn dest(actor: usize, x: i32, y: i32) -> Dest {
    Dest { from_actor_id: ActorId::new(actor), to_coord: Coord::new(x, y) }
}

fn hit_right() -> Vec<Action> {
    vec![Action::Hit(vec![Coord::new(1, 0)])]
}

/// Applies the moves of a log to a game, as the presentation does.
fn replay(game: &mut Game, cmds: &[Cmd]) {
    for cmd in cmds {
        let moved = match cmd {
            Cmd::MoveTo(Ok(d)) | Cmd::CompletePush(d) => Some(*d),
            _ => None,
        };
        if let Some(d) = moved {
            let mut actor: Actor = game.board().actor_id_to_actor(&d.from_actor_id).unwrap().clone();
            actor.coord = d.to_coord;
            game.update_actor(&d.from_actor_id, actor);
        }
    }
}

fn coord_of(game: &Game, actor: usize) -> Coord {
    game.board().actor_id_to_actor(&ActorId::new(actor)).unwrap().coord
}

#[test]
fn start_with_empty_program_activates_nothing_else() {
    let mut game = Game::new(&config(), catalog(vec![]));
    let walker = game.new_actor(&id("walker"), Coord::new(1, 0)).unwrap();
    assert_eq!(walker, ActorId::new(2));
    let (end_game, cmds) = Runner::new(game.clone()).run();
    assert_eq!(
        cmds,
        vec![Cmd::Activate(ActorId::new(1)), Cmd::Deactivate(ActorId::new(1)), Cmd::Done]
    );
    assert_eq!(coord_of(&end_game, 2), Coord::new(1, 0));
}

#[test]
fn walker_hit_by_start_moves_forward() {
    let mut game = Game::new(&config(), catalog(hit_right()));
    game.new_actor(&id("walker"), Coord::new(1, 0)).unwrap();
    let (end_game, cmds) = Runner::new(game.clone()).run();
    assert_eq!(
        cmds,
        vec![
            Cmd::Activate(ActorId::new(1)),
            Cmd::Hit(dest(1, 1, 0)),
            Cmd::Activate(ActorId::new(2)),
            Cmd::Deactivate(ActorId::new(1)),
            Cmd::MoveTo(Ok(dest(2, 2, 0))),
            Cmd::Deactivate(ActorId::new(2)),
            Cmd::Done,
        ]
    );
    // The returned game keeps the board from before the turn.
    assert_eq!(coord_of(&end_game, 2), Coord::new(1, 0));
    assert_eq!(end_game.gold(), game.gold());
    // Replaying the log moves the walker.
    replay(&mut game, &cmds);
    assert_eq!(coord_of(&game, 2), Coord::new(2, 0));
    assert_eq!(game.board().coord_to_actor_id(&Coord::new(2, 0)), Some(ActorId::new(2)));
    assert_eq!(game.board().coord_to_actor_id(&Coord::new(1, 0)), None);
}

#[test]
fn blocked_walker_stays() {
    let mut game = Game::new(&config(), catalog(hit_right()));
    game.new_actor(&id("walker"), Coord::new(1, 0)).unwrap();
    game.new_actor(&id("rock"), Coord::new(2, 0)).unwrap();
    let (end_game, cmds) = Runner::new(game.clone()).run();
    assert!(cmds.contains(&Cmd::MoveTo(Err(dest(2, 2, 0)))));
    assert_eq!(cmds.last(), Some(&Cmd::Done));
    assert_eq!(coord_of(&end_game, 2), Coord::new(1, 0));
    replay(&mut game, &cmds);
    assert_eq!(coord_of(&game, 2), Coord::new(1, 0));
}

#[test]
fn push_moves_the_whole_line() {
    let mut game = Game::new(&config(), catalog(hit_right()));
    game.new_actor(&id("pusher"), Coord::new(1, 0)).unwrap();
    game.new_actor(&id("rock"), Coord::new(2, 0)).unwrap();
    game.new_actor(&id("rock"), Coord::new(3, 0)).unwrap();
    let (_, cmds) = Runner::new(game.clone()).run();
    assert_eq!(
        cmds,
        vec![
            Cmd::Activate(ActorId::new(1)),
            Cmd::Hit(dest(1, 1, 0)),
            Cmd::Activate(ActorId::new(2)),
            Cmd::Deactivate(ActorId::new(1)),
            Cmd::TryPush(dest(2, 2, 0)),
            Cmd::TryPush(dest(3, 3, 0)),
            Cmd::TryPush(dest(4, 4, 0)),
            Cmd::Activate(ActorId::new(4)),
            Cmd::CompletePush(dest(4, 4, 0)),
            Cmd::Activate(ActorId::new(3)),
            Cmd::CompletePush(dest(3, 3, 0)),
            Cmd::CompletePush(dest(2, 2, 0)),
            Cmd::Deactivate(ActorId::new(2)),
            Cmd::Deactivate(ActorId::new(3)),
            Cmd::Deactivate(ActorId::new(4)),
            Cmd::Done,
        ]
    );
    let tries = cmds.iter().filter(|c| matches!(c, Cmd::TryPush(_))).count();
    let completes = cmds.iter().filter(|c| matches!(c, Cmd::CompletePush(_))).count();
    assert_eq!((tries, completes), (3, 3));
    replay(&mut game, &cmds);
    assert_eq!(coord_of(&game, 2), Coord::new(2, 0));
    assert_eq!(coord_of(&game, 3), Coord::new(3, 0));
    assert_eq!(coord_of(&game, 4), Coord::new(4, 0));
}

#[test]
fn push_against_a_wall_is_cancelled() {
    let mut game = Game::new(&config(), catalog(hit_right()));
    game.new_actor(&id("pusher"), Coord::new(1, 0)).unwrap();
    game.new_actor(&id("rock"), Coord::new(2, 0)).unwrap();
    game.new_actor(&id("rock"), Coord::new(3, 0)).unwrap();
    game.new_actor(&id("wall"), Coord::new(4, 0)).unwrap();
    let (_, cmds) = Runner::new(game.clone()).run();
    assert_eq!(
        cmds,
        vec![
            Cmd::Activate(ActorId::new(1)),
            Cmd::Hit(dest(1, 1, 0)),
            Cmd::Activate(ActorId::new(2)),
            Cmd::Deactivate(ActorId::new(1)),
            Cmd::TryPush(dest(2, 2, 0)),
            Cmd::TryPush(dest(3, 3, 0)),
            Cmd::TryPush(dest(4, 4, 0)),
            Cmd::CancelPush(dest(4, 4, 0)),
            Cmd::CancelPush(dest(3, 3, 0)),
            Cmd::Activate(ActorId::new(3)),
            Cmd::CancelPush(dest(2, 2, 0)),
            Cmd::Deactivate(ActorId::new(2)),
            Cmd::Deactivate(ActorId::new(3)),
            Cmd::Done,
        ]
    );
    let tries = cmds.iter().filter(|c| matches!(c, Cmd::TryPush(_))).count();
    let cancels = cmds.iter().filter(|c| matches!(c, Cmd::CancelPush(_))).count();
    assert_eq!(tries, cancels);
    replay(&mut game, &cmds);
    assert_eq!(coord_of(&game, 2), Coord::new(1, 0));
    assert_eq!(coord_of(&game, 3), Coord::new(2, 0));
    assert_eq!(coord_of(&game, 4), Coord::new(3, 0));
    assert_eq!(coord_of(&game, 5), Coord::new(4, 0));
}

#[test]
fn push_into_empty_space_moves_the_pusher() {
    let mut game = Game::new(&config(), catalog(hit_right()));
    game.new_actor(&id("pusher"), Coord::new(1, 0)).unwrap();
    let (_, cmds) = Runner::new(game.clone()).run();
    assert_eq!(
        cmds[4..],
        [
            Cmd::TryPush(dest(2, 2, 0)),
            Cmd::CompletePush(dest(2, 2, 0)),
            Cmd::Deactivate(ActorId::new(2)),
            Cmd::Done,
        ]
    );
}

#[test]
fn two_runs_of_one_game_agree() {
    let mut game = Game::new(&config(), catalog(hit_right()));
    game.new_actor(&id("pusher"), Coord::new(1, 0)).unwrap();
    game.new_actor(&id("rock"), Coord::new(2, 0)).unwrap();
    let (g1, c1) = Runner::new(game.clone()).run();
    let (g2, c2) = Runner::new(game.clone()).run();
    assert_eq!(c1, c2);
    assert_eq!(g1.gold(), g2.gold());
    assert_eq!(coord_of(&g1, 3), coord_of(&g2, 3));
}

#[test]
fn turn_and_hit_follow_the_facing() {
    let mut types = ActorTypes::new();
    types.insert(id("start"), actor_type("start", hit_right(), false, 0));
    types.insert(
        id("turner"),
        actor_type(
            "turner",
            vec![Action::Turn(RelDir::Left), Action::Hit(vec![Coord::new(1, 0), Coord::new(0, 1)])],
            true,
            1,
        ),
    );
    let mut game = Game::new(&config(), types);
    game.new_actor(&id("turner"), Coord::new(1, 0)).unwrap();
    let (_, cmds) = Runner::new(game).run();
    assert_eq!(
        cmds[4..],
        [
            Cmd::Turn(ActorId::new(2), RelDir::Left),
            Cmd::Hit(dest(2, 1, 1)),
            Cmd::Hit(dest(2, 0, 0)),
            Cmd::Deactivate(ActorId::new(2)),
            Cmd::Done,
        ]
    );
}
