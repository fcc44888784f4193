//! Turn resolution: the activation cascade that runs actor programs on a copy
//! of the game and records what happened as an ordered command log.
use vstd::prelude::*;

use crate::actor::{Actor, ActorId};
use crate::actor_type::ActorTypeModel;
use crate::board::{
    lemma_board_inverse, lemma_move_to_free, lemma_update_shape, lemma_update_wf, placed_at, Board,
    BoardModel,
};
use crate::coord::Coord;
use crate::direction::{apply_relative_spec, apply_to_spec, rel_coord_to_coord_spec, Dir, RelDir};
use crate::game::{lemma_update_types, types_known, Game, GameModel};
use crate::program::{Action, ActionModel};

verus! {

/// An actor acting on a position.
#[derive(Debug, Clone, Copy, PartialEq, Eq)]
pub struct Dest {
    pub from_actor_id: ActorId,
    pub to_coord: Coord,
}

/// One entry of the command log.
#[derive(Debug, Clone, Copy, PartialEq, Eq)]
pub enum Cmd {
    Activate(ActorId),
    Deactivate(ActorId),
    /// A step ahead: `Ok` when it was made, `Err` when the cell was taken.
    MoveTo(Result<Dest, Dest>),
    TryPush(Dest),
    Turn(ActorId, RelDir),
    CompletePush(Dest),
    CancelPush(Dest),
    Done,
    Hit(Dest),
    /// Gold earned by an actor; for the presentation to apply.
    Prize(ActorId, u64),
}

pub open spec fn dest(id: ActorId, c: Coord) -> Dest {
    Dest { from_actor_id: id, to_coord: c }
}

/// The state of a resolution: the board, the log so far, and the stack of
/// activated actors that still have to run.
pub ghost struct RunModel {
    pub board: BoardModel,
    pub cmds: Seq<Cmd>,
    pub stack: Seq<ActorId>,
}

pub open spec fn with_cmd(s: RunModel, c: Cmd) -> RunModel {
    RunModel { cmds: s.cmds.push(c), ..s }
}

pub open spec fn set_actor(s: RunModel, id: ActorId, a: Actor) -> RunModel {
    RunModel { board: s.board.update(id.0, a), ..s }
}

/// An actor that is not active yet and has activations left becomes active,
/// uses one activation and goes on the stack; any other stays as it is.
pub open spec fn activate_spec(s: RunModel, id: ActorId) -> RunModel {
    let a = s.board.actors[id.0];
    if !a.activated && a.activations_left > 0 {
        RunModel {
            board: s.board.update(
                id.0,
                Actor { activated: true, activations_left: (a.activations_left - 1) as u8, ..a },
            ),
            cmds: s.cmds.push(Cmd::Activate(id)),
            stack: s.stack.push(id),
        }
    } else {
        s
    }
}

/// The actor is no longer active.
pub open spec fn deactivate_spec(s: RunModel, id: ActorId) -> RunModel {
    let a = s.board.actors[id.0];
    with_cmd(set_actor(s, id, Actor { activated: false, ..a }), Cmd::Deactivate(id))
}

/// A step ahead into a free cell; a taken cell stops it.
pub open spec fn forward_spec(s: RunModel, id: ActorId) -> RunModel {
    let a = s.board.actors[id.0];
    let to = apply_to_spec(a.looks_to, a.coord);
    if s.board.id_at(to) is Some {
        with_cmd(s, Cmd::MoveTo(Err(dest(id, to))))
    } else {
        with_cmd(set_actor(s, id, placed_at(a, to)), Cmd::MoveTo(Ok(dest(id, to))))
    }
}

/// The actor turns towards `rel`.
pub open spec fn turn_spec(s: RunModel, id: ActorId, rel: RelDir) -> RunModel {
    let a = s.board.actors[id.0];
    with_cmd(
        set_actor(s, id, Actor { looks_to: apply_relative_spec(a.looks_to, rel), ..a }),
        Cmd::Turn(id, rel),
    )
}

/// A hit on `target`, which activates the actor there, if any.
pub open spec fn hit_one(s: RunModel, id: ActorId, target: Coord) -> RunModel {
    let s1 = with_cmd(s, Cmd::Hit(dest(id, target)));
    match s1.board.id_at(target) {
        Some(hit) => activate_spec(s1, ActorId(hit)),
        None => s1,
    }
}

/// The first `n` hits at `offsets`, for an actor at `at` facing `look`.
pub open spec fn hits_upto(
    s: RunModel,
    id: ActorId,
    look: Dir,
    at: Coord,
    offsets: Seq<Coord>,
    n: nat,
) -> RunModel
    decreases n,
{
    if n == 0 {
        s
    } else {
        hit_one(
            hits_upto(s, id, look, at, offsets, (n - 1) as nat),
            id,
            rel_coord_to_coord_spec(look, at, offsets[n - 1]),
        )
    }
}

/// Hits at all `offsets`, seen from where the actor stands and faces now.
pub open spec fn hits_spec(s: RunModel, id: ActorId, offsets: Seq<Coord>) -> RunModel {
    let a = s.board.actors[id.0];
    hits_upto(s, id, a.looks_to, a.coord, offsets, offsets.len())
}

/// The actors in line from `cell` on, each with the cell it is pushed to,
/// up to the first free cell (`true`) or the first actor that cannot be
/// pushed (`false`). At most `fuel` cells are looked at: as many as the ids
/// handed out, which no line of distinct actors exceeds.
pub open spec fn chain_spec(
    b: BoardModel,
    types: Map<Seq<char>, ActorTypeModel>,
    cell: Coord,
    dir: Dir,
    fuel: nat,
) -> (Seq<(ActorId, Coord)>, bool)
    decreases fuel,
{
    if fuel == 0 {
        (seq![], true)
    } else {
        match b.id_at(cell) {
            None => (seq![], true),
            Some(id) => if types[b.actors[id].actor_type_id@].pushable {
                let next = apply_to_spec(dir, cell);
                let (rest, ok) = chain_spec(b, types, next, dir, (fuel - 1) as nat);
                (seq![(ActorId(id), next)] + rest, ok)
            } else {
                (seq![], false)
            },
        }
    }
}

pub open spec fn try_cmds(chain: Seq<(ActorId, Coord)>) -> Seq<Cmd> {
    chain.map_values(|e: (ActorId, Coord)| Cmd::TryPush(dest(e.0, e.1)))
}

/// The chain's cancellations, farthest first.
pub open spec fn cancel_cmds(chain: Seq<(ActorId, Coord)>) -> Seq<Cmd> {
    Seq::new(
        chain.len(),
        |i: int| Cmd::CancelPush(dest(chain[chain.len() - 1 - i].0, chain[chain.len() - 1 - i].1)),
    )
}

/// The last `n` links of the chain, farthest first: each is activated, then
/// moved to its cell.
pub open spec fn complete_upto(s: RunModel, chain: Seq<(ActorId, Coord)>, n: nat) -> RunModel
    decreases n,
{
    if n == 0 {
        s
    } else {
        let s1 = complete_upto(s, chain, (n - 1) as nat);
        let e = chain[chain.len() - n];
        let s2 = activate_spec(s1, e.0);
        with_cmd(
            set_actor(s2, e.0, placed_at(s2.board.actors[e.0.0], e.1)),
            Cmd::CompletePush(dest(e.0, e.1)),
        )
    }
}

/// A push towards `rel`: the line of actors from the cell ahead is pushed
/// one cell along the push direction and the pusher steps ahead, or, when an
/// actor that cannot be pushed ends the line, everything is cancelled and
/// only the first actor of the line is activated.
pub open spec fn push_spec(
    s: RunModel,
    types: Map<Seq<char>, ActorTypeModel>,
    id: ActorId,
    rel: RelDir,
) -> RunModel {
    let a = s.board.actors[id.0];
    let push_dir = apply_relative_spec(a.looks_to, rel);
    let front = apply_to_spec(a.looks_to, a.coord);
    let (chain, can_push) = chain_spec(s.board, types, front, push_dir, s.board.next_actor_id as nat);
    let s1 = RunModel {
        cmds: s.cmds.push(Cmd::TryPush(dest(id, front))) + try_cmds(chain),
        ..s
    };
    if can_push {
        let s2 = complete_upto(s1, chain, chain.len());
        with_cmd(
            set_actor(s2, id, placed_at(s2.board.actors[id.0], front)),
            Cmd::CompletePush(dest(id, front)),
        )
    } else {
        let s2 = RunModel { cmds: s1.cmds + cancel_cmds(chain), ..s1 };
        let s3 = if chain.len() > 0 {
            activate_spec(s2, chain[0].0)
        } else {
            s2
        };
        with_cmd(s3, Cmd::CancelPush(dest(id, front)))
    }
}

/// One instruction of actor `id`.
pub open spec fn step_spec(
    s: RunModel,
    types: Map<Seq<char>, ActorTypeModel>,
    id: ActorId,
    action: ActionModel,
) -> RunModel {
    match action {
        ActionModel::Forward => forward_spec(s, id),
        ActionModel::Push(rel) => push_spec(s, types, id, rel),
        ActionModel::Turn(rel) => turn_spec(s, id, rel),
        ActionModel::Hit(offsets) => hits_spec(s, id, offsets),
    }
}

/// The first `n` instructions of `program`, in order.
pub open spec fn steps_upto(
    s: RunModel,
    types: Map<Seq<char>, ActorTypeModel>,
    id: ActorId,
    program: Seq<ActionModel>,
    n: nat,
) -> RunModel
    decreases n,
{
    if n == 0 {
        s
    } else {
        step_spec(steps_upto(s, types, id, program, (n - 1) as nat), types, id, program[n - 1])
    }
}

/// The program of actor `id`'s type, run to its end; then the actor is
/// deactivated.
pub open spec fn run_actor_spec(
    s: RunModel,
    types: Map<Seq<char>, ActorTypeModel>,
    id: ActorId,
) -> RunModel {
    let program = types[s.board.actors[id.0].actor_type_id@].program;
    deactivate_spec(steps_upto(s, types, id, program, program.len()), id)
}

/// The most recently activated actor leaves the stack and runs.
pub open spec fn next_spec(s: RunModel, types: Map<Seq<char>, ActorTypeModel>) -> RunModel {
    run_actor_spec(RunModel { stack: s.stack.drop_last(), ..s }, types, s.stack.last())
}

/// Actors run, last activated first, until the stack is empty or `fuel`
/// runs out.
pub open spec fn cascade(s: RunModel, types: Map<Seq<char>, ActorTypeModel>, fuel: nat) -> RunModel
    decreases fuel,
{
    if fuel == 0 || s.stack.len() == 0 {
        s
    } else {
        cascade(next_spec(s, types), types, (fuel - 1) as nat)
    }
}

/// The activations left on actors with ids below `n`.
pub open spec fn activations_upto(actors: Map<usize, Actor>, n: nat) -> nat
    decreases n,
{
    if n == 0 {
        0
    } else {
        activations_upto(actors, (n - 1) as nat) + if actors.contains_key((n - 1) as usize) {
            actors[(n - 1) as usize].activations_left as nat
        } else {
            0
        }
    }
}

/// What bounds the rest of a cascade: actors waiting on the stack plus the
/// activations left on the board.
pub open spec fn measure(s: RunModel) -> nat {
    s.stack.len() + activations_upto(s.board.actors, s.board.next_actor_id as nat)
}

/// A whole resolution: the start actor is activated, the cascade runs to
/// its end, and `Done` closes the log.
pub open spec fn run_spec(s: RunModel, types: Map<Seq<char>, ActorTypeModel>) -> RunModel {
    let s0 = activate_spec(s, ActorId(s.board.start_actor_id));
    with_cmd(cascade(s0, types, measure(s0) + 1), Cmd::Done)
}

/// A well-formed board whose actors all have known types, and a stack of
/// actors on it.
pub open spec fn run_inv(s: RunModel, types: Map<Seq<char>, ActorTypeModel>) -> bool {
    &&& s.board.wf()
    &&& types_known(s.board, types)
    &&& forall|i: int| 0 <= i < s.stack.len() ==> s.board.actors.contains_key(#[trigger] s.stack[i].0)
}

/// `t` follows from `s` without adding actors or activations.
pub open spec fn evolves(s: RunModel, t: RunModel, types: Map<Seq<char>, ActorTypeModel>) -> bool {
    &&& run_inv(t, types)
    &&& t.board.actors.dom() == s.board.actors.dom()
    &&& t.board.next_actor_id == s.board.next_actor_id
    &&& t.board.start_actor_id == s.board.start_actor_id
    &&& measure(t) <= measure(s)
}

proof fn lemma_activations_pointwise(m1: Map<usize, Actor>, m2: Map<usize, Actor>, n: nat, id: usize)
    requires
        n <= usize::MAX,
        m1.dom() == m2.dom(),
        forall|j: usize|
            #![trigger m1[j]]
            m1.contains_key(j) && j != id ==> m1[j].activations_left == m2[j].activations_left,
    ensures
        activations_upto(m2, n) + (if m1.contains_key(id) && id < n {
            m1[id].activations_left as nat
        } else {
            0
        }) == activations_upto(m1, n) + (if m1.contains_key(id) && id < n {
            m2[id].activations_left as nat
        } else {
            0
        }),
    decreases n,
{
    if n > 0 {
        lemma_activations_pointwise(m1, m2, (n - 1) as nat, id);
        let j = (n - 1) as usize;
        assert(j as nat == n - 1);
        if m1.contains_key(j) && j != id {
            assert(m1[j].activations_left == m2[j].activations_left);
        }
    }
}

proof fn lemma_set_actor(s: RunModel, types: Map<Seq<char>, ActorTypeModel>, id: ActorId, a: Actor)
    requires
        run_inv(s, types),
        s.board.actors.contains_key(id.0),
        types.contains_key(a.actor_type_id@),
    ensures
        run_inv(set_actor(s, id, a), types),
        set_actor(s, id, a).board.actors.dom() == s.board.actors.dom(),
        set_actor(s, id, a).board.next_actor_id == s.board.next_actor_id,
        set_actor(s, id, a).board.start_actor_id == s.board.start_actor_id,
        activations_upto(set_actor(s, id, a).board.actors, s.board.next_actor_id as nat)
            + s.board.actors[id.0].activations_left == activations_upto(
            s.board.actors,
            s.board.next_actor_id as nat,
        ) + a.activations_left,
{
    let b = s.board;
    let t = set_actor(s, id, a);
    lemma_update_wf(b, id.0, a);
    lemma_update_shape(b, id.0, a);
    lemma_update_types(b, id.0, a, types);
    assert forall|j: usize| #![trigger b.actors[j]] b.actors.contains_key(j) && j != id.0 implies b.actors[j].activations_left
        == t.board.actors[j].activations_left by {
        assert(t.board.actors[j] == placed_at(b.actors[j], t.board.actors[j].coord));
    }
    lemma_activations_pointwise(b.actors, t.board.actors, b.next_actor_id as nat, id.0);
    assert forall|i: int| 0 <= i < t.stack.len() implies t.board.actors.contains_key(
        #[trigger] t.stack[i].0,
    ) by {
        assert(s.board.actors.contains_key(s.stack[i].0));
    }
}

proof fn lemma_activate(s: RunModel, types: Map<Seq<char>, ActorTypeModel>, id: ActorId)
    requires
        run_inv(s, types),
        s.board.actors.contains_key(id.0),
    ensures
        evolves(s, activate_spec(s, id), types),
        measure(activate_spec(s, id)) == measure(s),
{
    let a = s.board.actors[id.0];
    if !a.activated && a.activations_left > 0 {
        let na = Actor { activated: true, activations_left: (a.activations_left - 1) as u8, ..a };
        lemma_set_actor(s, types, id, na);
        let t = activate_spec(s, id);
        assert forall|i: int| 0 <= i < t.stack.len() implies t.board.actors.contains_key(
            #[trigger] t.stack[i].0,
        ) by {
            if i < s.stack.len() {
                assert(s.board.actors.contains_key(s.stack[i].0));
            }
        }
    }
}

proof fn lemma_keep_counts(s: RunModel, types: Map<Seq<char>, ActorTypeModel>, id: ActorId, a: Actor)
    requires
        run_inv(s, types),
        s.board.actors.contains_key(id.0),
        a.actor_type_id == s.board.actors[id.0].actor_type_id,
        a.activations_left == s.board.actors[id.0].activations_left,
    ensures
        evolves(s, set_actor(s, id, a), types),
        measure(set_actor(s, id, a)) == measure(s),
{
    assert(types.contains_key(s.board.actors[id.0].actor_type_id@));
    lemma_set_actor(s, types, id, a);
}

proof fn lemma_hits_upto(
    s: RunModel,
    types: Map<Seq<char>, ActorTypeModel>,
    id: ActorId,
    look: Dir,
    at: Coord,
    offsets: Seq<Coord>,
    n: nat,
)
    requires
        run_inv(s, types),
        n <= offsets.len(),
    ensures
        evolves(s, hits_upto(s, id, look, at, offsets, n), types),
    decreases n,
{
    if n > 0 {
        lemma_hits_upto(s, types, id, look, at, offsets, (n - 1) as nat);
        let prev = hits_upto(s, id, look, at, offsets, (n - 1) as nat);
        let target = rel_coord_to_coord_spec(look, at, offsets[n - 1]);
        let s1 = with_cmd(prev, Cmd::Hit(dest(id, target)));
        if let Some(hit) = s1.board.id_at(target) {
            lemma_activate(s1, types, ActorId(hit));
        }
    }
}

proof fn lemma_chain(
    b: BoardModel,
    types: Map<Seq<char>, ActorTypeModel>,
    cell: Coord,
    dir: Dir,
    fuel: nat,
)
    requires
        b.wf(),
    ensures
        forall|i: int|
            0 <= i < chain_spec(b, types, cell, dir, fuel).0.len() ==> b.actors.contains_key(
                (#[trigger] chain_spec(b, types, cell, dir, fuel).0[i]).0.0,
            ),
    decreases fuel,
{
    if fuel > 0 {
        if let Some(id) = b.id_at(cell) {
            if types[b.actors[id].actor_type_id@].pushable {
                let next = apply_to_spec(dir, cell);
                lemma_chain(b, types, next, dir, (fuel - 1) as nat);
                let rest = chain_spec(b, types, next, dir, (fuel - 1) as nat).0;
                let c = chain_spec(b, types, cell, dir, fuel).0;
                assert forall|i: int| 0 <= i < c.len() implies b.actors.contains_key(
                    (#[trigger] c[i]).0.0,
                ) by {
                    if i > 0 {
                        assert(c[i] == rest[i - 1]);
                    }
                }
            }
        }
    }
}

proof fn lemma_complete_upto(
    s: RunModel,
    types: Map<Seq<char>, ActorTypeModel>,
    chain: Seq<(ActorId, Coord)>,
    n: nat,
)
    requires
        run_inv(s, types),
        n <= chain.len(),
        forall|i: int| 0 <= i < chain.len() ==> s.board.actors.contains_key(#[trigger] chain[i].0.0),
    ensures
        evolves(s, complete_upto(s, chain, n), types),
    decreases n,
{
    if n > 0 {
        lemma_complete_upto(s, types, chain, (n - 1) as nat);
        let s1 = complete_upto(s, chain, (n - 1) as nat);
        let e = chain[chain.len() - n];
        assert(s.board.actors.contains_key(e.0.0));
        lemma_activate(s1, types, e.0);
        let s2 = activate_spec(s1, e.0);
        lemma_keep_counts(s2, types, e.0, placed_at(s2.board.actors[e.0.0], e.1));
    }
}

proof fn lemma_push(s: RunModel, types: Map<Seq<char>, ActorTypeModel>, id: ActorId, rel: RelDir)
    requires
        run_inv(s, types),
        s.board.actors.contains_key(id.0),
    ensures
        evolves(s, push_spec(s, types, id, rel), types),
{
    let a = s.board.actors[id.0];
    let push_dir = apply_relative_spec(a.looks_to, rel);
    let front = apply_to_spec(a.looks_to, a.coord);
    let (chain, can_push) = chain_spec(s.board, types, front, push_dir, s.board.next_actor_id as nat);
    lemma_chain(s.board, types, front, push_dir, s.board.next_actor_id as nat);
    let s1 = RunModel { cmds: s.cmds.push(Cmd::TryPush(dest(id, front))) + try_cmds(chain), ..s };
    if can_push {
        lemma_complete_upto(s1, types, chain, chain.len());
        let s2 = complete_upto(s1, chain, chain.len());
        lemma_keep_counts(s2, types, id, placed_at(s2.board.actors[id.0], front));
    } else {
        let s2 = RunModel { cmds: s1.cmds + cancel_cmds(chain), ..s1 };
        if chain.len() > 0 {
            assert(s.board.actors.contains_key(chain[0].0.0));
            lemma_activate(s2, types, chain[0].0);
        }
    }
}

proof fn lemma_step(
    s: RunModel,
    types: Map<Seq<char>, ActorTypeModel>,
    id: ActorId,
    action: ActionModel,
)
    requires
        run_inv(s, types),
        s.board.actors.contains_key(id.0),
    ensures
        evolves(s, step_spec(s, types, id, action), types),
{
    let a = s.board.actors[id.0];
    match action {
        ActionModel::Forward => {
            let to = apply_to_spec(a.looks_to, a.coord);
            if s.board.id_at(to) is None {
                lemma_keep_counts(s, types, id, placed_at(a, to));
            }
        },
        ActionModel::Push(rel) => {
            lemma_push(s, types, id, rel);
        },
        ActionModel::Turn(rel) => {
            lemma_keep_counts(s, types, id, Actor { looks_to: apply_relative_spec(a.looks_to, rel), ..a });
        },
        ActionModel::Hit(offsets) => {
            lemma_hits_upto(s, types, id, a.looks_to, a.coord, offsets, offsets.len());
        },
    }
}

proof fn lemma_steps_upto(
    s: RunModel,
    types: Map<Seq<char>, ActorTypeModel>,
    id: ActorId,
    program: Seq<ActionModel>,
    n: nat,
)
    requires
        run_inv(s, types),
        s.board.actors.contains_key(id.0),
        n <= program.len(),
    ensures
        evolves(s, steps_upto(s, types, id, program, n), types),
    decreases n,
{
    if n > 0 {
        lemma_steps_upto(s, types, id, program, (n - 1) as nat);
        lemma_step(steps_upto(s, types, id, program, (n - 1) as nat), types, id, program[n - 1]);
    }
}

proof fn lemma_run_actor(s: RunModel, types: Map<Seq<char>, ActorTypeModel>, id: ActorId)
    requires
        run_inv(s, types),
        s.board.actors.contains_key(id.0),
    ensures
        evolves(s, run_actor_spec(s, types, id), types),
{
    let program = types[s.board.actors[id.0].actor_type_id@].program;
    lemma_steps_upto(s, types, id, program, program.len());
    let t = steps_upto(s, types, id, program, program.len());
    lemma_keep_counts(t, types, id, Actor { activated: false, ..t.board.actors[id.0] });
}

/// Each actor that runs takes one off what bounds the cascade.
proof fn lemma_next(s: RunModel, types: Map<Seq<char>, ActorTypeModel>)
    requires
        run_inv(s, types),
        s.stack.len() > 0,
    ensures
        run_inv(next_spec(s, types), types),
        measure(next_spec(s, types)) < measure(s),
        next_spec(s, types).board.actors.dom() == s.board.actors.dom(),
        next_spec(s, types).board.next_actor_id == s.board.next_actor_id,
        next_spec(s, types).board.start_actor_id == s.board.start_actor_id,
{
    let popped = RunModel { stack: s.stack.drop_last(), ..s };
    assert(s.board.actors.contains_key(s.stack[s.stack.len() - 1].0));
    assert forall|i: int| 0 <= i < popped.stack.len() implies popped.board.actors.contains_key(
        #[trigger] popped.stack[i].0,
    ) by {
        assert(popped.stack[i] == s.stack[i]);
    }
    lemma_run_actor(popped, types, s.stack.last());
}

/// Any fuel beyond the bound gives the same cascade.
proof fn lemma_cascade_fuel(s: RunModel, types: Map<Seq<char>, ActorTypeModel>, fuel: nat)
    requires
        run_inv(s, types),
        fuel > measure(s),
    ensures
        cascade(s, types, fuel) == cascade(s, types, measure(s) + 1),
    decreases fuel,
{
    if s.stack.len() > 0 {
        lemma_next(s, types);
        let t = next_spec(s, types);
        lemma_cascade_fuel(t, types, (fuel - 1) as nat);
        lemma_cascade_fuel(t, types, measure(s));
    }
}

/// Resolves one turn on its own copy of a game.
pub struct Runner {
    saved_board: Board,
    game: Game,
    commands: Vec<Cmd>,
    activated_actors: Vec<ActorId>,
}

impl Runner {
    /// The resolution so far.
    pub closed spec fn model(&self) -> RunModel {
        RunModel { board: self.game@.board, cmds: self.commands@, stack: self.activated_actors@ }
    }

    /// The game being worked on.
    pub closed spec fn game_spec(&self) -> GameModel {
        self.game@
    }

    /// The board as it was when the resolution began.
    pub closed spec fn saved_spec(&self) -> BoardModel {
        self.saved_board@
    }

    pub open spec fn types(&self) -> Map<Seq<char>, ActorTypeModel> {
        self.game_spec().actor_types
    }

    pub closed spec fn wf(&self) -> bool {
        &&& self.game.wf()
        &&& run_inv(self.model(), self.types())
        &&& self.saved_board.wf()
        &&& types_known(self.saved_board@, self.game@.actor_types)
    }

    /// Everything but the board and the log is as in `earlier`.
    pub open spec fn keeps(&self, earlier: &Runner) -> bool {
        &&& self.game_spec() == GameModel { board: self.game_spec().board, ..earlier.game_spec() }
        &&& self.saved_spec() == earlier.saved_spec()
    }

    pub fn new(game: Game) -> (r: Runner)
        requires
            game.wf(),
        ensures
            r.wf(),
            r.game_spec() == game@,
            r.saved_spec() == game@.board,
            r.model() == (RunModel { board: game@.board, cmds: seq![], stack: seq![] }),
    {
        Runner {
            saved_board: game.board().clone(),
            game,
            commands: Vec::new(),
            activated_actors: Vec::new(),
        }
    }

    fn push_cmd(&mut self, cmd: Cmd)
        requires
            old(self).wf(),
        ensures
            final(self).wf(),
            final(self).keeps(old(self)),
            final(self).model() == with_cmd(old(self).model(), cmd),
    {
        let ghost before = self.model();
        self.commands.push(cmd);
        assert(self.model().stack == before.stack);
        assert(self.model().board == before.board);
    }

    fn actor(&self, actor_id: ActorId) -> (r: Actor)
        requires
            self.wf(),
            self.model().board.actors.contains_key(actor_id.0),
        ensures
            r == self.model().board.actors[actor_id.0],
    {
        self.game.board().actor_id_to_actor(&actor_id).unwrap().clone()
    }

    fn set_actor(&mut self, actor_id: ActorId, actor: Actor)
        requires
            old(self).wf(),
            old(self).model().board.actors.contains_key(actor_id.0),
            old(self).types().contains_key(actor.actor_type_id@),
        ensures
            final(self).keeps(old(self)),
            final(self).model() == set_actor(old(self).model(), actor_id, actor),
            run_inv(final(self).model(), final(self).types()) ==> final(self).wf(),
    {
        self.game.update_actor(&actor_id, actor);
    }

    fn activate(&mut self, actor_id: ActorId)
        requires
            old(self).wf(),
            old(self).model().board.actors.contains_key(actor_id.0),
        ensures
            final(self).wf(),
            final(self).keeps(old(self)),
            final(self).model() == activate_spec(old(self).model(), actor_id),
            evolves(old(self).model(), final(self).model(), old(self).types()),
    {
        proof {
            lemma_activate(self.model(), self.types(), actor_id);
        }
        let actor = self.actor(actor_id);
        if !actor.activated && actor.activations_left > 0 {
            let mut updated = actor;
            updated.activated = true;
            updated.activations_left = updated.activations_left - 1;
            assert(self.types().contains_key(updated.actor_type_id@));
            self.set_actor(actor_id, updated);
            self.activated_actors.push(actor_id);
            self.push_cmd(Cmd::Activate(actor_id));
        }
    }

    fn deactivate(&mut self, actor_id: ActorId)
        requires
            old(self).wf(),
            old(self).model().board.actors.contains_key(actor_id.0),
        ensures
            final(self).wf(),
            final(self).keeps(old(self)),
            final(self).model() == deactivate_spec(old(self).model(), actor_id),
            evolves(old(self).model(), final(self).model(), old(self).types()),
    {
        let actor = self.actor(actor_id);
        let mut updated = actor;
        updated.activated = false;
        proof {
            lemma_keep_counts(self.model(), self.types(), actor_id, updated);
        }
        self.set_actor(actor_id, updated);
        self.push_cmd(Cmd::Deactivate(actor_id));
    }

    fn move_actor_forward(&mut self, actor_id: ActorId)
        requires
            old(self).wf(),
            old(self).model().board.actors.contains_key(actor_id.0),
        ensures
            final(self).wf(),
            final(self).keeps(old(self)),
            final(self).model() == forward_spec(old(self).model(), actor_id),
            evolves(old(self).model(), final(self).model(), old(self).types()),
    {
        proof {
            lemma_step(self.model(), self.types(), actor_id, ActionModel::Forward);
        }
        let actor = self.actor(actor_id);
        let new_coord = actor.looks_to.apply_to(actor.coord);
        if self.game.board().coord_to_actor_id(&new_coord).is_some() {
            self.push_cmd(Cmd::MoveTo(Err(Dest { from_actor_id: actor_id, to_coord: new_coord })));
        } else {
            let mut updated = actor;
            updated.coord = new_coord;
            self.set_actor(actor_id, updated);
            self.push_cmd(Cmd::MoveTo(Ok(Dest { from_actor_id: actor_id, to_coord: new_coord })));
        }
    }

    fn turn_actor(&mut self, actor_id: ActorId, rel_dir: RelDir)
        requires
            old(self).wf(),
            old(self).model().board.actors.contains_key(actor_id.0),
        ensures
            final(self).wf(),
            final(self).keeps(old(self)),
            final(self).model() == turn_spec(old(self).model(), actor_id, rel_dir),
            evolves(old(self).model(), final(self).model(), old(self).types()),
    {
        proof {
            lemma_step(self.model(), self.types(), actor_id, ActionModel::Turn(rel_dir));
        }
        let actor = self.actor(actor_id);
        let mut updated = actor;
        updated.looks_to = updated.looks_to.apply_relative(rel_dir);
        self.set_actor(actor_id, updated);
        self.push_cmd(Cmd::Turn(actor_id, rel_dir));
    }

    fn process_actor_hits(&mut self, actor_id: ActorId, offsets: &[Coord])
        requires
            old(self).wf(),
            old(self).model().board.actors.contains_key(actor_id.0),
        ensures
            final(self).wf(),
            final(self).keeps(old(self)),
            final(self).model() == hits_spec(old(self).model(), actor_id, offsets@),
            evolves(old(self).model(), final(self).model(), old(self).types()),
    {
        let ghost s0 = self.model();
        let ghost types = self.types();
        let actor = self.actor(actor_id);
        let look = actor.looks_to;
        let coord = actor.coord;
        proof {
            lemma_hits_upto(s0, types, actor_id, look, coord, offsets@, offsets@.len());
        }
        let mut i: usize = 0;
        while i < offsets.len()
            invariant
                i <= offsets@.len(),
                self.wf(),
                self.keeps(old(self)),
                self.types() == types,
                run_inv(s0, types),
                self.model() == hits_upto(s0, actor_id, look, coord, offsets@, i as nat),
                evolves(s0, self.model(), types),
            decreases offsets@.len() - i,
        {
            proof {
                lemma_hits_upto(s0, types, actor_id, look, coord, offsets@, (i + 1) as nat);
            }
            let target = look.rel_coord_to_coord(coord, offsets[i]);
            self.push_cmd(Cmd::Hit(Dest { from_actor_id: actor_id, to_coord: target }));
            if let Some(hit_actor_id) = self.game.board().coord_to_actor_id(&target) {
                assert(self.model().board.cells.contains_key(target.key()));
                self.activate(hit_actor_id);
            }
            i += 1;
        }
    }

    /// Walks the line from `front` along `push_dir`: the actors that would be
    /// pushed, with their target cells, and whether the push can be made.
    fn push_chain(&self, front: Coord, push_dir: Dir) -> (r: (Vec<(ActorId, Coord)>, bool))
        requires
            self.wf(),
        ensures
            r.0@ == chain_spec(
                self.model().board,
                self.types(),
                front,
                push_dir,
                self.model().board.next_actor_id as nat,
            ).0,
            r.1 == chain_spec(
                self.model().board,
                self.types(),
                front,
                push_dir,
                self.model().board.next_actor_id as nat,
            ).1,
    {
        let ghost b = self.model().board;
        let ghost types = self.types();
        let ghost whole = chain_spec(b, types, front, push_dir, b.next_actor_id as nat);
        let mut cell = front;
        let mut fuel = self.game.board().next_actor_id();
        let mut pushed: Vec<(ActorId, Coord)> = Vec::new();
        let mut can_push = true;
        loop
            invariant_except_break
                can_push,
            invariant
                self.wf(),
                b == self.model().board,
                types == self.types(),
                whole == chain_spec(b, types, front, push_dir, b.next_actor_id as nat),
                pushed@ + chain_spec(b, types, cell, push_dir, fuel as nat).0 == whole.0,
                chain_spec(b, types, cell, push_dir, fuel as nat).1 == whole.1,
            ensures
                pushed@ == whole.0,
                can_push == whole.1,
            decreases fuel,
        {
            if fuel == 0 {
                assert(pushed@ + seq![] == pushed@);
                break;
            }
            match self.game.board().coord_to_actor_id(&cell) {
                None => {
                    assert(pushed@ + seq![] == pushed@);
                    break;
                },
                Some(pushed_id) => {
                    assert(b.cells.contains_key(cell.key()));
                    let pushed_actor = self.game.board().actor_id_to_actor(&pushed_id).unwrap();
                    let pushed_type = self.game.actor_types().get(&pushed_actor.actor_type_id).unwrap();
                    if pushed_type.pushable {
                        let next = push_dir.apply_to(cell);
                        let ghost before = pushed@;
                        pushed.push((pushed_id, next));
                        assert(pushed@ + chain_spec(b, types, next, push_dir, (fuel - 1) as nat).0
                            == before + (seq![(pushed_id, next)] + chain_spec(
                            b,
                            types,
                            next,
                            push_dir,
                            (fuel - 1) as nat,
                        ).0));
                        cell = next;
                        fuel = fuel - 1;
                    } else {
                        assert(pushed@ + seq![] == pushed@);
                        can_push = false;
                        break;
                    }
                },
            }
        }
        (pushed, can_push)
    }

    #[verifier::rlimit(50)]
    fn actor_push(&mut self, actor_id: ActorId, rel_dir: RelDir)
        requires
            old(self).wf(),
            old(self).model().board.actors.contains_key(actor_id.0),
        ensures
            final(self).wf(),
            final(self).keeps(old(self)),
            final(self).model() == push_spec(old(self).model(), old(self).types(), actor_id, rel_dir),
            evolves(old(self).model(), final(self).model(), old(self).types()),
    {
        let ghost s = self.model();
        let ghost types = self.types();
        proof {
            lemma_push(s, types, actor_id, rel_dir);
        }
        let actor = self.actor(actor_id);
        let push_dir = actor.looks_to.apply_relative(rel_dir);
        let pushed_actor_coord = actor.looks_to.apply_to(actor.coord);
        let (pushed_actors, can_push) = self.push_chain(pushed_actor_coord, push_dir);
        let ghost chain = pushed_actors@;
        proof {
            lemma_chain(s.board, types, pushed_actor_coord, push_dir, s.board.next_actor_id as nat);
        }
        self.push_cmd(Cmd::TryPush(Dest { from_actor_id: actor_id, to_coord: pushed_actor_coord }));
        let ghost base = self.model().cmds;
        let mut j: usize = 0;
        while j < pushed_actors.len()
            invariant
                j <= chain.len(),
                pushed_actors@ == chain,
                self.wf(),
                self.keeps(old(self)),
                self.model() == (RunModel { cmds: base + try_cmds(chain.take(j as int)), ..s }),
            decreases chain.len() - j,
        {
            let (pushed_id, to_coord) = pushed_actors[j];
            assert(try_cmds(chain.take(j + 1)) == try_cmds(chain.take(j as int)).push(
                Cmd::TryPush(dest(pushed_id, to_coord)),
            ));
            self.push_cmd(Cmd::TryPush(Dest { from_actor_id: pushed_id, to_coord }));
            j += 1;
        }
        assert(chain.take(chain.len() as int) == chain);
        let ghost s1 = self.model();
        assert(s1 == (RunModel {
            cmds: s.cmds.push(Cmd::TryPush(dest(actor_id, pushed_actor_coord))) + try_cmds(chain),
            ..s
        }));
        proof {
            assert(run_inv(s1, types));
        }
        let len = pushed_actors.len();
        if can_push {
            proof {
                lemma_complete_upto(s1, types, chain, chain.len());
            }
            let mut k: usize = 0;
            while k < len
                invariant
                    k <= len,
                    len == chain.len(),
                    pushed_actors@ == chain,
                    self.wf(),
                    self.keeps(old(self)),
                    self.types() == types,
                    run_inv(s1, types),
                    forall|i: int| 0 <= i < chain.len() ==> s1.board.actors.contains_key(
                        #[trigger] chain[i].0.0,
                    ),
                    self.model() == complete_upto(s1, chain, k as nat),
                    evolves(s1, self.model(), types),
                decreases len - k,
            {
                proof {
                    lemma_complete_upto(s1, types, chain, (k + 1) as nat);
                }
                let (pushed_id, to_coord) = pushed_actors[len - 1 - k];
                assert(s1.board.actors.contains_key(chain[len - 1 - k].0.0));
                self.activate(pushed_id);
                let mut moved = self.actor(pushed_id);
                moved.coord = to_coord;
                assert(types.contains_key(moved.actor_type_id@));
                self.set_actor(pushed_id, moved);
                self.push_cmd(Cmd::CompletePush(Dest { from_actor_id: pushed_id, to_coord }));
                k += 1;
            }
            let mut moved = self.actor(actor_id);
            moved.coord = pushed_actor_coord;
            assert(types.contains_key(moved.actor_type_id@));
            self.set_actor(actor_id, moved);
            self.push_cmd(
                Cmd::CompletePush(Dest { from_actor_id: actor_id, to_coord: pushed_actor_coord }),
            );
        } else {
            let mut k: usize = 0;
            while k < len
                invariant
                    k <= len,
                    len == chain.len(),
                    pushed_actors@ == chain,
                    self.wf(),
                    self.keeps(old(self)),
                    self.model() == (RunModel { cmds: s1.cmds + cancel_cmds(chain).take(k as int), ..s1 }),
                decreases len - k,
            {
                let (pushed_id, to_coord) = pushed_actors[len - 1 - k];
                assert(cancel_cmds(chain).take(k + 1) == cancel_cmds(chain).take(k as int).push(
                    Cmd::CancelPush(dest(pushed_id, to_coord)),
                ));
                self.push_cmd(Cmd::CancelPush(Dest { from_actor_id: pushed_id, to_coord }));
                k += 1;
            }
            assert(cancel_cmds(chain).take(len as int) == cancel_cmds(chain));
            if len > 0 {
                let (first_id, _to_coord) = pushed_actors[0];
                assert(s1.board.actors.contains_key(chain[0].0.0));
                self.activate(first_id);
            }
            self.push_cmd(
                Cmd::CancelPush(Dest { from_actor_id: actor_id, to_coord: pushed_actor_coord }),
            );
        }
    }

    /// Runs the actor's whole program, then deactivates it.
    fn run_actor(&mut self, actor_id: ActorId)
        requires
            old(self).wf(),
            old(self).model().board.actors.contains_key(actor_id.0),
        ensures
            final(self).wf(),
            final(self).keeps(old(self)),
            final(self).model() == run_actor_spec(old(self).model(), old(self).types(), actor_id),
            evolves(old(self).model(), final(self).model(), old(self).types()),
    {
        let ghost s0 = self.model();
        let ghost types = self.types();
        let actor = self.actor(actor_id);
        assert(types.contains_key(actor.actor_type_id@));
        let program = self.game.actor_types().get(&actor.actor_type_id).unwrap().program.clone();
        let ghost prog = program@;
        proof {
            lemma_run_actor(s0, types, actor_id);
            lemma_steps_upto(s0, types, actor_id, prog, prog.len());
        }
        let mut i: usize = 0;
        while i < program.0.len()
            invariant
                i <= prog.len(),
                prog == program@,
                prog.len() == program.0@.len(),
                self.wf(),
                self.keeps(old(self)),
                self.types() == types,
                run_inv(s0, types),
                s0.board.actors.contains_key(actor_id.0),
                self.model() == steps_upto(s0, types, actor_id, prog, i as nat),
                evolves(s0, self.model(), types),
            decreases prog.len() - i,
        {
            proof {
                lemma_steps_upto(s0, types, actor_id, prog, (i + 1) as nat);
            }
            assert(prog[i as int] == program.0@[i as int]@);
            match &program.0[i] {
                Action::Forward => self.move_actor_forward(actor_id),
                Action::Push(rel_dir) => self.actor_push(actor_id, *rel_dir),
                Action::Turn(rel_dir) => self.turn_actor(actor_id, *rel_dir),
                Action::Hit(offsets) => self.process_actor_hits(actor_id, offsets.as_slice()),
            }
            i += 1;
        }
        self.deactivate(actor_id);
    }

    /// Resolves the turn: activates the start actor, runs the cascade to its
    /// end and closes the log with `Done`. Returns the game as it was but for
    /// the board, which is the board from before the turn, and the log; the
    /// board changes are for the caller to apply as it replays the log.
    pub fn run(&mut self) -> (r: (Game, Vec<Cmd>))
        requires
            old(self).wf(),
        ensures
            r.1@ == run_spec(old(self).model(), old(self).types()).cmds,
            r.1@.len() > 0,
            r.1@.last() == Cmd::Done,
            r.0.wf(),
            r.0@ == (GameModel { board: old(self).saved_spec(), ..old(self).game_spec() }),
    {
        let ghost types = self.types();
        let start = self.game.board().start_actor_id();
        self.activate(start);
        let ghost s0 = self.model();
        proof {
            lemma_cascade_fuel(s0, types, measure(s0) + 1);
        }
        loop
            invariant
                self.wf(),
                self.keeps(old(self)),
                self.types() == types,
                run_inv(self.model(), types),
                cascade(self.model(), types, measure(self.model()) + 1) == cascade(
                    s0,
                    types,
                    measure(s0) + 1,
                ),
            ensures
                self.model() == cascade(s0, types, measure(s0) + 1),
            decreases measure(self.model()),
        {
            let ghost before = self.model();
            match self.activated_actors.pop() {
                Some(actor_id) => {
                    assert(before.stack[before.stack.len() - 1] == actor_id);
                    assert(before.board.actors.contains_key(actor_id.0));
                    proof {
                        lemma_next(before, types);
                        lemma_cascade_fuel(next_spec(before, types), types, measure(before));
                    }
                    assert(self.model() == (RunModel { stack: before.stack.drop_last(), ..before }));
                    assert(forall|i: int| 0 <= i < self.model().stack.len() ==> self.model().stack[i] == before.stack[i]);
                    self.run_actor(actor_id);
                },
                None => {
                    break;
                },
            }
        }
        let mut end_game = self.game.clone();
        end_game.set_board(self.saved_board.clone());
        self.push_cmd(Cmd::Done);
        let mut commands: Vec<Cmd> = Vec::new();
        core::mem::swap(&mut commands, &mut self.commands);
        (end_game, commands)
    }
}

/// The resolution that `Runner::new` starts from a game.
pub open spec fn start_of(g: GameModel) -> RunModel {
    RunModel { board: g.board, cmds: seq![], stack: seq![] }
}

/// The log of a turn resolved on `g`.
pub open spec fn turn_log(g: GameModel) -> Seq<Cmd> {
    run_spec(start_of(g), g.actor_types).cmds
}

/// A turn's log depends on the board and the catalog alone: two games that
/// agree on them, copies of one game in particular, give the same log.
pub proof fn lemma_turn_log_determined(g1: GameModel, g2: GameModel)
    requires
        g1.board == g2.board,
        g1.actor_types == g2.actor_types,
    ensures
        turn_log(g1) == turn_log(g2),
{
}

/// Commands of `c` that satisfy `p`.
pub open spec fn count_cmds(c: Seq<Cmd>, p: spec_fn(Cmd) -> bool) -> nat
    decreases c.len(),
{
    if c.len() == 0 {
        0
    } else {
        count_cmds(c.drop_last(), p) + if p(c.last()) {
            1nat
        } else {
            0nat
        }
    }
}

pub open spec fn try_pred() -> spec_fn(Cmd) -> bool {
    |c: Cmd| c is TryPush
}

pub open spec fn complete_pred() -> spec_fn(Cmd) -> bool {
    |c: Cmd| c is CompletePush
}

pub open spec fn cancel_pred() -> spec_fn(Cmd) -> bool {
    |c: Cmd| c is CancelPush
}

/// The commands that a push adds to the log.
pub open spec fn push_log(s: RunModel, types: Map<Seq<char>, ActorTypeModel>, id: ActorId, rel: RelDir) -> Seq<Cmd> {
    push_spec(s, types, id, rel).cmds.skip(s.cmds.len() as int)
}

/// The line of actors that a push would move, each with its target cell,
/// and whether the push can be made.
pub open spec fn push_chain_of(
    s: RunModel,
    types: Map<Seq<char>, ActorTypeModel>,
    id: ActorId,
    rel: RelDir,
) -> (Seq<(ActorId, Coord)>, bool) {
    let a = s.board.actors[id.0];
    chain_spec(
        s.board,
        types,
        apply_to_spec(a.looks_to, a.coord),
        apply_relative_spec(a.looks_to, rel),
        s.board.next_actor_id as nat,
    )
}

proof fn lemma_count_concat(a: Seq<Cmd>, b: Seq<Cmd>, p: spec_fn(Cmd) -> bool)
    ensures
        count_cmds(a + b, p) == count_cmds(a, p) + count_cmds(b, p),
    decreases b.len(),
{
    if b.len() > 0 {
        assert((a + b).drop_last() == a + b.drop_last());
        lemma_count_concat(a, b.drop_last(), p);
    } else {
        assert(a + b == a);
    }
}

proof fn lemma_count_try_cmds(chain: Seq<(ActorId, Coord)>)
    ensures
        count_cmds(try_cmds(chain), try_pred()) == chain.len(),
        count_cmds(try_cmds(chain), complete_pred()) == 0,
        count_cmds(try_cmds(chain), cancel_pred()) == 0,
    decreases chain.len(),
{
    if chain.len() > 0 {
        assert(try_cmds(chain).drop_last() == try_cmds(chain.drop_last()));
        lemma_count_try_cmds(chain.drop_last());
    }
}

proof fn lemma_count_cancel_cmds(chain: Seq<(ActorId, Coord)>, n: nat)
    requires
        n <= chain.len(),
    ensures
        count_cmds(cancel_cmds(chain).take(n as int), cancel_pred()) == n,
        count_cmds(cancel_cmds(chain).take(n as int), try_pred()) == 0,
    decreases n,
{
    if n > 0 {
        assert(cancel_cmds(chain).take(n as int).drop_last() == cancel_cmds(chain).take(n - 1));
        lemma_count_cancel_cmds(chain, (n - 1) as nat);
    }
}

proof fn lemma_activate_log(s: RunModel, id: ActorId)
    ensures
        activate_spec(s, id).cmds.len() >= s.cmds.len(),
        activate_spec(s, id).cmds.take(s.cmds.len() as int) == s.cmds,
        count_cmds(activate_spec(s, id).cmds.skip(s.cmds.len() as int), try_pred()) == 0,
        count_cmds(activate_spec(s, id).cmds.skip(s.cmds.len() as int), complete_pred()) == 0,
        count_cmds(activate_spec(s, id).cmds.skip(s.cmds.len() as int), cancel_pred()) == 0,
{
    let t = activate_spec(s, id);
    assert(t.cmds.take(s.cmds.len() as int) =~= s.cmds);
    let seg = t.cmds.skip(s.cmds.len() as int);
    let a = s.board.actors[id.0];
    let empty = Seq::<Cmd>::empty();
    assert(count_cmds(empty, try_pred()) == 0);
    assert(count_cmds(empty, complete_pred()) == 0);
    assert(count_cmds(empty, cancel_pred()) == 0);
    if !a.activated && a.activations_left > 0 {
        assert(seg =~= seq![Cmd::Activate(id)]);
        assert(seg.drop_last() =~= empty);
        assert(!try_pred()(seg.last()));
        assert(!complete_pred()(seg.last()));
        assert(!cancel_pred()(seg.last()));
    } else {
        assert(seg =~= empty);
    }
}

proof fn lemma_complete_log(s: RunModel, chain: Seq<(ActorId, Coord)>, n: nat)
    requires
        n <= chain.len(),
    ensures
        complete_upto(s, chain, n).cmds.len() >= s.cmds.len(),
        complete_upto(s, chain, n).cmds.take(s.cmds.len() as int) == s.cmds,
        count_cmds(complete_upto(s, chain, n).cmds.skip(s.cmds.len() as int), try_pred()) == 0,
        count_cmds(complete_upto(s, chain, n).cmds.skip(s.cmds.len() as int), complete_pred())
            == n,
    decreases n,
{
    if n > 0 {
        lemma_complete_log(s, chain, (n - 1) as nat);
        let s1 = complete_upto(s, chain, (n - 1) as nat);
        let e = chain[chain.len() - n];
        let s2 = activate_spec(s1, e.0);
        lemma_activate_log(s1, e.0);
        let t = complete_upto(s, chain, n);
        let l = s.cmds.len() as int;
        let l1 = s1.cmds.len() as int;
        assert(t.cmds == s2.cmds.push(Cmd::CompletePush(dest(e.0, e.1))));
        assert(s2.cmds =~= s1.cmds + s2.cmds.skip(l1));
        assert(s1.cmds =~= s.cmds + s1.cmds.skip(l));
        assert(t.cmds.skip(l) =~= (s1.cmds.skip(l) + s2.cmds.skip(l1)).push(
            Cmd::CompletePush(dest(e.0, e.1)),
        ));
        assert(t.cmds.take(l) =~= s.cmds);
        assert((s1.cmds.skip(l) + s2.cmds.skip(l1)).push(Cmd::CompletePush(dest(e.0, e.1))).drop_last()
            == s1.cmds.skip(l) + s2.cmds.skip(l1));
        lemma_count_concat(s1.cmds.skip(l), s2.cmds.skip(l1), try_pred());
        lemma_count_concat(s1.cmds.skip(l), s2.cmds.skip(l1), complete_pred());
    }
}

/// A push that can be made logs one try and one completion for the pusher
/// and for each actor of its line.
pub proof fn lemma_push_completes(
    s: RunModel,
    types: Map<Seq<char>, ActorTypeModel>,
    id: ActorId,
    rel: RelDir,
)
    requires
        push_chain_of(s, types, id, rel).1,
    ensures
        count_cmds(push_log(s, types, id, rel), try_pred()) == push_chain_of(
            s,
            types,
            id,
            rel,
        ).0.len() + 1,
        count_cmds(push_log(s, types, id, rel), complete_pred()) == push_chain_of(
            s,
            types,
            id,
            rel,
        ).0.len() + 1,
{
    let a = s.board.actors[id.0];
    let front = apply_to_spec(a.looks_to, a.coord);
    let chain = push_chain_of(s, types, id, rel).0;
    let first = seq![Cmd::TryPush(dest(id, front))];
    let s1 = RunModel { cmds: s.cmds.push(Cmd::TryPush(dest(id, front))) + try_cmds(chain), ..s };
    let s2 = complete_upto(s1, chain, chain.len());
    lemma_complete_log(s1, chain, chain.len());
    lemma_count_try_cmds(chain);
    let l = s.cmds.len() as int;
    let l1 = s1.cmds.len() as int;
    let seg2 = s2.cmds.skip(l1);
    let last = Cmd::CompletePush(dest(id, front));
    assert(s2.cmds =~= s1.cmds + seg2);
    assert(push_log(s, types, id, rel) =~= ((first + try_cmds(chain)) + seg2).push(last));
    assert(((first + try_cmds(chain)) + seg2).push(last).drop_last() == (first + try_cmds(chain))
        + seg2);
    assert(first.drop_last() =~= Seq::<Cmd>::empty());
    assert(count_cmds(Seq::<Cmd>::empty(), try_pred()) == 0);
    assert(count_cmds(Seq::<Cmd>::empty(), complete_pred()) == 0);
    assert(count_cmds(first, try_pred()) == 1);
    assert(count_cmds(first, complete_pred()) == 0);
    assert(complete_pred()(last));
    assert(!try_pred()(last));
    lemma_count_concat(first, try_cmds(chain), try_pred());
    lemma_count_concat(first, try_cmds(chain), complete_pred());
    lemma_count_concat(first + try_cmds(chain), seg2, try_pred());
    lemma_count_concat(first + try_cmds(chain), seg2, complete_pred());
}

/// A push that is blocked logs as many cancellations as tries, one for the
/// pusher and one for each pushable actor before the blocker, and moves no
/// actor.
pub proof fn lemma_push_blocked(
    s: RunModel,
    types: Map<Seq<char>, ActorTypeModel>,
    id: ActorId,
    rel: RelDir,
)
    requires
        run_inv(s, types),
        s.board.actors.contains_key(id.0),
        !push_chain_of(s, types, id, rel).1,
    ensures
        push_spec(s, types, id, rel).board.cells == s.board.cells,
        push_spec(s, types, id, rel).board.actors.dom() == s.board.actors.dom(),
        forall|j: usize| #[trigger]
            s.board.actors.contains_key(j) ==> push_spec(s, types, id, rel).board.actors[j].coord
                == s.board.actors[j].coord,
        count_cmds(push_log(s, types, id, rel), try_pred()) == push_chain_of(
            s,
            types,
            id,
            rel,
        ).0.len() + 1,
        count_cmds(push_log(s, types, id, rel), cancel_pred()) == push_chain_of(
            s,
            types,
            id,
            rel,
        ).0.len() + 1,
{
    let a = s.board.actors[id.0];
    let front = apply_to_spec(a.looks_to, a.coord);
    let chain = push_chain_of(s, types, id, rel).0;
    let first = seq![Cmd::TryPush(dest(id, front))];
    let s1 = RunModel { cmds: s.cmds.push(Cmd::TryPush(dest(id, front))) + try_cmds(chain), ..s };
    let s2 = RunModel { cmds: s1.cmds + cancel_cmds(chain), ..s1 };
    let s3 = if chain.len() > 0 {
        activate_spec(s2, chain[0].0)
    } else {
        s2
    };
    lemma_activate_log(s2, chain[0].0);
    if chain.len() > 0 {
        let a0 = s2.board.actors[chain[0].0.0];
        lemma_chain(s.board, types, front, apply_relative_spec(a.looks_to, rel), s.board.next_actor_id as nat);
        if !a0.activated && a0.activations_left > 0 {
            let na = Actor { activated: true, activations_left: (a0.activations_left - 1) as u8, ..a0 };
            lemma_update_shape(s2.board, chain[0].0.0, na);
            lemma_update_wf(s2.board, chain[0].0.0, na);
        }
    }
    lemma_count_try_cmds(chain);
    lemma_count_cancel_cmds(chain, chain.len());
    assert(cancel_cmds(chain).take(chain.len() as int) == cancel_cmds(chain));
    let l2 = s2.cmds.len() as int;
    let seg3 = s3.cmds.skip(l2);
    if chain.len() == 0 {
        assert(seg3 =~= seq![]);
    }
    let last = Cmd::CancelPush(dest(id, front));
    assert(s3.cmds =~= s2.cmds + seg3);
    let body = ((first + try_cmds(chain)) + cancel_cmds(chain)) + seg3;
    assert(push_log(s, types, id, rel) =~= body.push(last));
    assert(body.push(last).drop_last() == body);
    assert(first.drop_last() =~= Seq::<Cmd>::empty());
    assert(count_cmds(Seq::<Cmd>::empty(), try_pred()) == 0);
    assert(count_cmds(Seq::<Cmd>::empty(), cancel_pred()) == 0);
    assert(count_cmds(first, try_pred()) == 1);
    assert(count_cmds(first, cancel_pred()) == 0);
    assert(cancel_pred()(last));
    assert(!try_pred()(last));
    lemma_count_concat(first, try_cmds(chain), try_pred());
    lemma_count_concat(first, try_cmds(chain), cancel_pred());
    lemma_count_concat(first + try_cmds(chain), cancel_cmds(chain), try_pred());
    lemma_count_concat(first + try_cmds(chain), cancel_cmds(chain), cancel_pred());
    lemma_count_concat((first + try_cmds(chain)) + cancel_cmds(chain), seg3, try_pred());
    lemma_count_concat((first + try_cmds(chain)) + cancel_cmds(chain), seg3, cancel_pred());
}

/// The cell `k` steps from `c` along `d`.
pub open spec fn line_cell(c: Coord, d: Dir, k: nat) -> Coord
    decreases k,
{
    if k == 0 {
        c
    } else {
        apply_to_spec(d, line_cell(c, d, (k - 1) as nat))
    }
}

proof fn lemma_line_shift(c: Coord, d: Dir, k: nat)
    ensures
        line_cell(apply_to_spec(d, c), d, k) == line_cell(c, d, k + 1),
    decreases k,
{
    assert(line_cell(c, d, k + 1) == apply_to_spec(d, line_cell(c, d, k)));
    if k > 0 {
        lemma_line_shift(c, d, (k - 1) as nat);
        assert(line_cell(apply_to_spec(d, c), d, k) == apply_to_spec(
            d,
            line_cell(apply_to_spec(d, c), d, (k - 1) as nat),
        ));
    }
}

/// The line's actors stand on consecutive cells from `cell` on, each with
/// the next cell as its target; a line that can be pushed within its fuel
/// ends at a free cell.
proof fn lemma_chain_shape(
    b: BoardModel,
    types: Map<Seq<char>, ActorTypeModel>,
    cell: Coord,
    dir: Dir,
    fuel: nat,
)
    ensures
        chain_spec(b, types, cell, dir, fuel).0.len() <= fuel,
        forall|k: int|
            0 <= k < chain_spec(b, types, cell, dir, fuel).0.len() ==> b.id_at(
                line_cell(cell, dir, k as nat),
            ) == Some((#[trigger] chain_spec(b, types, cell, dir, fuel).0[k]).0.0) && chain_spec(
                b,
                types,
                cell,
                dir,
                fuel,
            ).0[k].1 == line_cell(cell, dir, (k + 1) as nat),
        chain_spec(b, types, cell, dir, fuel).1 && chain_spec(b, types, cell, dir, fuel).0.len()
            < fuel ==> b.id_at(
            line_cell(cell, dir, chain_spec(b, types, cell, dir, fuel).0.len()),
        ) is None,
    decreases fuel,
{
    if fuel > 0 {
        if let Some(id) = b.id_at(cell) {
            if types[b.actors[id].actor_type_id@].pushable {
                let next = apply_to_spec(dir, cell);
                lemma_chain_shape(b, types, next, dir, (fuel - 1) as nat);
                let rest = chain_spec(b, types, next, dir, (fuel - 1) as nat).0;
                let c = chain_spec(b, types, cell, dir, fuel).0;
                assert forall|k: int| 0 <= k < c.len() implies b.id_at(line_cell(cell, dir, k as nat))
                    == Some((#[trigger] c[k]).0.0) && c[k].1 == line_cell(cell, dir, (k + 1) as nat) by {
                    lemma_line_shift(cell, dir, k as nat);
                    if k > 0 {
                        assert(c[k] == rest[k - 1]);
                        lemma_line_shift(cell, dir, (k - 1) as nat);
                    }
                }
                lemma_line_shift(cell, dir, rest.len());
            }
        }
    }
}

/// A line of distinct actors is shorter than the number of ids handed out.
proof fn lemma_chain_short(b: BoardModel, chain: Seq<(ActorId, Coord)>)
    requires
        b.wf(),
        forall|k: int| 0 <= k < chain.len() ==> b.actors.contains_key(#[trigger] chain[k].0.0),
        forall|i: int, j: int| 0 <= i < j < chain.len() ==> chain[i].0 != chain[j].0,
    ensures
        chain.len() < b.next_actor_id,
{
    let ids = Seq::new(chain.len(), |k: int| chain[k].0.0 as int);
    assert(ids.no_duplicates()) by {
        assert forall|i: int, j: int| 0 <= i < ids.len() && 0 <= j < ids.len() && i != j implies ids[i]
            != ids[j] by {
            if i < j {
                assert(chain[i].0 != chain[j].0);
            } else {
                assert(chain[j].0 != chain[i].0);
            }
        }
    }
    ids.unique_seq_to_set();
    let range = vstd::set_lib::set_int_range(1, b.next_actor_id as int);
    vstd::set_lib::lemma_int_range(1, b.next_actor_id as int);
    assert(ids.to_set().subset_of(range)) by {
        assert forall|x: int| ids.to_set().contains(x) implies range.contains(x) by {
            let k = choose|k: int| 0 <= k < ids.len() && ids[k] == x;
            assert(b.actors.contains_key(chain[k].0.0));
        }
    }
    vstd::set_lib::lemma_len_subset(ids.to_set(), range);
}

/// After the last `n` links moved: those stand on their targets, the others
/// on their cells, the cell left by the last one moved is free, and no other
/// actor moved.
pub open spec fn pushed_upto(
    s0: BoardModel,
    t: BoardModel,
    chain: Seq<(ActorId, Coord)>,
    front: Coord,
    dir: Dir,
    n: nat,
) -> bool {
    let len = chain.len();
    &&& t.wf()
    &&& t.actors.dom() == s0.actors.dom()
    &&& forall|k: int|
        0 <= k < len - n ==> (#[trigger] t.actors[chain[k].0.0]).coord == line_cell(front, dir, k as nat)
    &&& forall|k: int|
        len - n <= k < len ==> (#[trigger] t.actors[chain[k].0.0]).coord == line_cell(
            front,
            dir,
            (k + 1) as nat,
        )
    &&& t.id_at(line_cell(front, dir, (len - n) as nat)) is None
    &&& forall|j: usize| #[trigger]
        t.actors.contains_key(j) && (forall|k: int| 0 <= k < len ==> chain[k].0.0 != j)
            ==> t.actors[j].coord == s0.actors[j].coord
}

proof fn lemma_pushed_upto(
    s: RunModel,
    types: Map<Seq<char>, ActorTypeModel>,
    chain: Seq<(ActorId, Coord)>,
    front: Coord,
    dir: Dir,
    n: nat,
)
    requires
        run_inv(s, types),
        n <= chain.len(),
        forall|k: int|
            0 <= k < chain.len() ==> s.board.id_at(line_cell(front, dir, k as nat)) == Some(
                (#[trigger] chain[k]).0.0,
            ) && chain[k].1 == line_cell(front, dir, (k + 1) as nat),
        forall|i: int, j: int| 0 <= i < j < chain.len() ==> chain[i].0 != chain[j].0,
        s.board.id_at(line_cell(front, dir, chain.len())) is None,
    ensures
        pushed_upto(s.board, complete_upto(s, chain, n).board, chain, front, dir, n),
        run_inv(complete_upto(s, chain, n), types),
    decreases n,
{
    let len = chain.len();
    let b = s.board;
    assert forall|k: int| 0 <= k < len implies b.actors.contains_key((#[trigger] chain[k]).0.0)
        && b.actors[chain[k].0.0].coord == line_cell(front, dir, k as nat) by {
        lemma_board_inverse(b, line_cell(front, dir, k as nat), chain[k].0.0);
    }
    if n == 0 {
        assert forall|j: usize| #[trigger] b.actors.contains_key(j) && (forall|k: int| 0 <= k < len ==> chain[k].0.0 != j) implies b.actors[j].coord == b.actors[j].coord by {}
    } else {
        lemma_pushed_upto(s, types, chain, front, dir, (n - 1) as nat);
        let t = complete_upto(s, chain, (n - 1) as nat);
        let k0 = len - n;
        let e = chain[k0];
        lemma_complete_upto(s, types, chain, (n - 1) as nat);
        assert(b.actors.contains_key(e.0.0));
        lemma_activate(t, types, e.0);
        let t1 = activate_spec(t, e.0);
        let a = t.board.actors[e.0.0];
        if !a.activated && a.activations_left > 0 {
            let na = Actor { activated: true, activations_left: (a.activations_left - 1) as u8, ..a };
            lemma_update_shape(t.board, e.0.0, na);
        }
        assert(t1.board.cells == t.board.cells);
        assert forall|j: usize| #[trigger] t1.board.actors.contains_key(j) implies t1.board.actors[j].coord
            == t.board.actors[j].coord by {}
        let c_here = line_cell(front, dir, k0 as nat);
        let c_next = line_cell(front, dir, (k0 + 1) as nat);
        assert(t.board.actors[e.0.0].coord == c_here);
        assert(t1.board.actors[e.0.0].coord == c_here);
        assert(e.1 == c_next);
        assert(c_here != c_next) by {
            assert(t.board.id_at(c_next) is None);
            lemma_board_inverse(t.board, c_here, e.0.0);
        }
        let moved = placed_at(t1.board.actors[e.0.0], e.1);
        lemma_move_to_free(t1.board, e.0.0, moved);
        lemma_update_wf(t1.board, e.0.0, moved);
        let t2 = complete_upto(s, chain, n);
        assert(t2.board == t1.board.update(e.0.0, moved));
        assert forall|k: int| 0 <= k < len - n implies (#[trigger] t2.board.actors[chain[k].0.0]).coord
            == line_cell(front, dir, k as nat) by {
            assert(chain[k].0 != e.0);
        }
        assert forall|k: int| len - n <= k < len implies (#[trigger] t2.board.actors[chain[k].0.0]).coord
            == line_cell(front, dir, (k + 1) as nat) by {
            if k != k0 {
                assert(chain[k].0 != e.0);
            }
        }
        assert(t2.board.id_at(c_here) is None);
        assert forall|j: usize| #[trigger]
            t2.board.actors.contains_key(j) && (forall|k: int| 0 <= k < len ==> chain[k].0.0 != j)
                implies t2.board.actors[j].coord == b.actors[j].coord by {
            assert(chain[k0].0.0 != j);
            assert(t.board.actors.contains_key(j));
        }
    }
}

/// A push that can be made moves each actor of the line one cell along the
/// push direction, and the pusher into the cell ahead of it. Left out: a
/// pusher that stands in its own line (a push backwards), and a line that
/// meets an actor twice, which takes a full row of the grid.
pub proof fn lemma_push_moves_line(
    s: RunModel,
    types: Map<Seq<char>, ActorTypeModel>,
    id: ActorId,
    rel: RelDir,
)
    requires
        run_inv(s, types),
        s.board.actors.contains_key(id.0),
        push_chain_of(s, types, id, rel).1,
        forall|i: int, j: int|
            0 <= i < j < push_chain_of(s, types, id, rel).0.len() ==> push_chain_of(
                s,
                types,
                id,
                rel,
            ).0[i].0 != push_chain_of(s, types, id, rel).0[j].0,
        forall|k: int|
            0 <= k < push_chain_of(s, types, id, rel).0.len() ==> (#[trigger] push_chain_of(
                s,
                types,
                id,
                rel,
            ).0[k]).0 != id,
    ensures
        forall|k: int|
            0 <= k < push_chain_of(s, types, id, rel).0.len() ==> (#[trigger] push_spec(
                s,
                types,
                id,
                rel,
            ).board.actors[push_chain_of(s, types, id, rel).0[k].0.0]).coord == apply_to_spec(
                apply_relative_spec(s.board.actors[id.0].looks_to, rel),
                s.board.actors[push_chain_of(s, types, id, rel).0[k].0.0].coord,
            ),
        push_spec(s, types, id, rel).board.actors[id.0].coord == apply_to_spec(
            s.board.actors[id.0].looks_to,
            s.board.actors[id.0].coord,
        ),
{
    let a = s.board.actors[id.0];
    let dir = apply_relative_spec(a.looks_to, rel);
    let front = apply_to_spec(a.looks_to, a.coord);
    let chain = push_chain_of(s, types, id, rel).0;
    let len = chain.len();
    lemma_chain_shape(s.board, types, front, dir, s.board.next_actor_id as nat);
    lemma_chain(s.board, types, front, dir, s.board.next_actor_id as nat);
    lemma_chain_short(s.board, chain);
    let s1 = RunModel { cmds: s.cmds.push(Cmd::TryPush(dest(id, front))) + try_cmds(chain), ..s };
    assert(run_inv(s1, types));
    lemma_pushed_upto(s1, types, chain, front, dir, len);
    let t = complete_upto(s1, chain, len);
    assert(line_cell(front, dir, 0) == front);
    assert(t.board.id_at(front) is None);
    assert(t.board.actors[id.0].coord == a.coord);
    assert(t.board.actors.contains_key(id.0));
    assert(a.coord != front) by {
        lemma_board_inverse(t.board, a.coord, id.0);
    }
    let moved = placed_at(t.board.actors[id.0], front);
    lemma_move_to_free(t.board, id.0, moved);
    let r = push_spec(s, types, id, rel);
    assert(r.board == t.board.update(id.0, moved));
    assert forall|k: int| 0 <= k < len implies (#[trigger] r.board.actors[chain[k].0.0]).coord
        == apply_to_spec(dir, s.board.actors[chain[k].0.0].coord) by {
        lemma_board_inverse(s.board, line_cell(front, dir, k as nat), chain[k].0.0);
        assert(chain[k].0 != id);
        assert(t.board.actors[chain[k].0.0].coord == line_cell(front, dir, (k + 1) as nat));
    }
}

} // verus!
