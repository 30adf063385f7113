use vstd::prelude::*;
use rltk::Point;
use crate::components::{Position, ViewshedView, WantsToMelee, WantsToPickup};
use crate::storage::Entity;
use crate::world::{World, WorldView};
use crate::{RunState, State};

verus! {

/// The keys that mean something while the game waits for input. Any other key
/// is `Other`.
#[derive(Clone, Copy, Debug, PartialEq, Eq, Structural)]
pub enum Key {
    Left,
    Right,
    Up,
    Down,
    Numpad1,
    Numpad2,
    Numpad3,
    Numpad4,
    Numpad6,
    Numpad7,
    Numpad8,
    Numpad9,
    H,
    J,
    K,
    L,
    Y,
    U,
    B,
    N,
    I,
    D,
    Other,
}

/// What a mover runs into on a tile.
pub enum Bump {
    /// Somebody who can be fought.
    Foe(Entity),
    /// Something that can be picked up.
    Loot(Entity),
    /// Neither.
    Nothing,
}

/// What a mover runs into among `here`: the first entity that has stats or is
/// an item decides, stats before item.
pub open spec fn bump(w: WorldView, here: Seq<Entity>) -> Bump
    decreases here.len(),
{
    if here.len() == 0 {
        Bump::Nothing
    } else if w.combat_stats.dom().contains(here[0]@) {
        Bump::Foe(here[0])
    } else if w.items.dom().contains(here[0]@) {
        Bump::Loot(here[0])
    } else {
        bump(w, here.drop_first())
    }
}

/// `v`, held between `lo` and `hi`.
pub open spec fn clamp(v: int, lo: int, hi: int) -> int {
    if v < lo {
        lo
    } else if v > hi {
        hi
    } else {
        v
    }
}

/// Whether the entity of id `e` is steered by the user: it is marked as
/// player, stands somewhere and sees.
pub open spec fn steered(w: WorldView, e: int) -> bool {
    &&& w.players.dom().contains(e)
    &&& w.positions.dom().contains(e)
    &&& w.viewsheds.dom().contains(e)
}

/// The tile that the entity of id `e` tries to reach.
pub open spec fn goal(w: WorldView, dx: i32, dy: i32, e: int) -> (int, int) {
    (w.positions[e].x + dx, w.positions[e].y + dy)
}

/// Whether the tile `(x, y)` can be entered at all: it is neither on the left
/// or upper edge of the grid nor beyond it.
pub open spec fn enterable(w: WorldView, x: int, y: int) -> bool {
    1 <= x <= w.map.width - 1 && 1 <= y <= w.map.height - 1
}

/// The world after the steered entity of id `e` tried to move by `(dx, dy)`,
/// and whether the attempt ends the whole move. A goal that cannot be entered
/// ends it and changes nothing. A foe on the goal ends it with an attack intent.
/// Loot on the goal gives a pick-up intent. If the goal is not blocked, the
/// entity then moves there, its view is marked stale, and the player position
/// follows.
pub open spec fn move_step(w: WorldView, dx: i32, dy: i32, e: int) -> (WorldView, bool) {
    let entity = Entity { id: e as usize };
    let (x, y) = goal(w, dx, dy, e);
    if !enterable(w, x, y) {
        (w, true)
    } else {
        let dest = w.map.xy_idx(x, y);
        match bump(w, w.map.tile_content[dest]) {
            Bump::Foe(target) => (
                WorldView { wants_to_melee: w.wants_to_melee.insert(e, WantsToMelee { target }), ..w },
                true,
            ),
            found => {
                let w1 = match found {
                    Bump::Loot(item) => WorldView {
                        wants_to_pickup: w.wants_to_pickup.insert(
                            e,
                            WantsToPickup { collected_by: entity, item },
                        ),
                        ..w
                    },
                    _ => w,
                };
                if w.map.blocked_tiles[dest] {
                    (w1, false)
                } else {
                    let nx = clamp(x, 0, 79) as i32;
                    let ny = clamp(y, 0, 49) as i32;
                    (
                        WorldView {
                            positions: w1.positions.insert(e, Position { x: nx, y: ny }),
                            viewsheds: w1.viewsheds.insert(
                                e,
                                ViewshedView { dirty: true, ..w1.viewsheds[e] },
                            ),
                            player_pos: Point { x: nx, y: ny },
                            ..w1
                        },
                        false,
                    )
                }
            },
        }
    }
}

/// The world after the steered entities of id below `n` tried to move, in the
/// order of their ids, and whether the move has ended.
pub open spec fn move_pass(w: WorldView, dx: i32, dy: i32, n: nat) -> (WorldView, bool)
    decreases n,
{
    if n == 0 {
        (w, false)
    } else {
        let (before, ended) = move_pass(w, dx, dy, (n - 1) as nat);
        if ended || !steered(before, n - 1) {
            (before, ended)
        } else {
            move_step(before, dx, dy, n - 1)
        }
    }
}

/// The world after the player tried to move by `(dx, dy)`.
pub open spec fn player_moved(w: WorldView, dx: i32, dy: i32) -> WorldView {
    move_pass(w, dx, dy, w.alive.len()).0
}

/// Finds what a mover runs into among `here`.
fn scan(world: &World, here: &Vec<Entity>) -> (found: Bump)
    ensures
        found == bump(world@, here@),
{
    let mut k: usize = 0;
    assert(here@.skip(0) =~= here@);
    while k < here.len()
        invariant
            k <= here@.len(),
            bump(world@, here@) == bump(world@, here@.skip(k as int)),
        decreases here@.len() - k,
    {
        let candidate = here[k];
        proof {
            let rest = here@.skip(k as int);
            assert(rest[0] == here@[k as int]);
            assert(rest.drop_first() =~= here@.skip(k + 1));
        }
        if world.combat_stats.contains(candidate) {
            return Bump::Foe(candidate);
        }
        if world.items.contains(candidate) {
            return Bump::Loot(candidate);
        }
        k += 1;
    }
    assert(here@.skip(here@.len() as int) =~= Seq::<Entity>::empty());
    Bump::Nothing
}

/// Lets the player try to move by `(delta_x, delta_y)`: an attack intent if a
/// foe stands there, a pick-up intent if loot lies there, and the step itself
/// if the tile is not blocked.
pub fn try_move_player(delta_x: i32, delta_y: i32, ecs: &mut World)
    requires
        old(ecs)@.wf(),
    ensures
        final(ecs)@ == player_moved(old(ecs)@, delta_x, delta_y),
        final(ecs)@.wf(),
{
    let ghost w0 = ecs@;
    let n = ecs.alive.len();
    let mut i: usize = 0;
    let mut ended = false;
    while i < n
        invariant
            i <= n,
            n == w0.alive.len(),
            w0.wf(),
            ecs@.wf(),
            ecs@.alive == w0.alive,
            (ecs@, ended) == move_pass(w0, delta_x, delta_y, i as nat),
        decreases n - i,
    {
        let entity = Entity { id: i };
        let ghost before = ecs@;
        let steered_here = !ended && ecs.players.contains(entity) && ecs.viewsheds.contains(entity);
        let spot = if steered_here {
            match ecs.positions.get(entity) {
                Some(p) => Some(Position { x: p.x, y: p.y }),
                None => None,
            }
        } else {
            None
        };
        if let Some(pos) = spot {
            let x: i64 = pos.x as i64 + delta_x as i64;
            let y: i64 = pos.y as i64 + delta_y as i64;
            if x < 1 || x > ecs.map.width as i64 - 1 || y < 1 || y > ecs.map.height as i64 - 1 {
                ended = true;
            } else {
                let destination_idx = ecs.map.xy_idx(x as i32, y as i32);
                let found = scan(ecs, &ecs.map.tile_content[destination_idx]);
                assert(ecs@.map.tile_content[destination_idx as int]
                    == ecs.map.tile_content@[destination_idx as int]@);
                match found {
                    Bump::Foe(target) => {
                        ecs.wants_to_melee.insert(entity, WantsToMelee { target });
                        ended = true;
                    },
                    other => {
                        if let Bump::Loot(item) = other {
                            ecs.wants_to_pickup.insert(
                                entity,
                                WantsToPickup { collected_by: entity, item },
                            );
                        }
                        if !ecs.map.blocked_tiles[destination_idx] {
                            let nx: i32 = if x > 79 {
                                79
                            } else {
                                x as i32
                            };
                            let ny: i32 = if y > 49 {
                                49
                            } else {
                                y as i32
                            };
                            ecs.positions.insert(entity, Position { x: nx, y: ny });
                            if let Some(mut viewshed) = ecs.viewsheds.remove(entity) {
                                viewshed.dirty = true;
                                ecs.viewsheds.insert(entity, viewshed);
                            }
                            ecs.player_pos = Point { x: nx, y: ny };
                        }
                    },
                }
            }
            assert((ecs@, ended) == move_step(before, delta_x, delta_y, i as int)) by {
                assert(ecs@ =~= move_step(before, delta_x, delta_y, i as int).0);
            }
        }
        i += 1;
    }
}

/// By how much a key moves the player, if it is a movement key.
pub open spec fn key_step(key: Option<Key>) -> Option<(i32, i32)> {
    match key {
        Some(Key::Left) | Some(Key::Numpad4) | Some(Key::H) => Some((-1i32, 0i32)),
        Some(Key::Right) | Some(Key::Numpad6) | Some(Key::L) => Some((1i32, 0i32)),
        Some(Key::Up) | Some(Key::Numpad8) | Some(Key::K) => Some((0i32, -1i32)),
        Some(Key::Down) | Some(Key::Numpad2) | Some(Key::J) => Some((0i32, 1i32)),
        Some(Key::Numpad9) | Some(Key::U) => Some((1i32, -1i32)),
        Some(Key::Numpad7) | Some(Key::Y) => Some((-1i32, -1i32)),
        Some(Key::Numpad3) | Some(Key::N) => Some((1i32, 1i32)),
        Some(Key::Numpad1) | Some(Key::B) => Some((-1i32, 1i32)),
        _ => None,
    }
}

/// The phase that follows a key press while the game waits for input: a turn
/// of the player after a movement key, a menu after `I` or `D`, else more
/// waiting.
pub open spec fn key_phase(key: Option<Key>) -> RunState {
    match key {
        Some(Key::I) => RunState::ShowInventory,
        Some(Key::D) => RunState::ShowDropInventory,
        _ => if key_step(key).is_some() {
            RunState::PlayerTurn
        } else {
            RunState::AwaitingInput
        },
    }
}

/// The world after a key press while the game waits for input.
pub open spec fn key_world(w: WorldView, key: Option<Key>) -> WorldView {
    match key_step(key) {
        Some(step) => player_moved(w, step.0, step.1),
        None => w,
    }
}

/// Turns a key press into the player's action and returns the next phase.
pub fn player_input(gs: &mut State, key: Option<Key>) -> (next: RunState)
    requires
        old(gs).ecs@.wf(),
    ensures
        next == key_phase(key),
        final(gs).ecs@ == key_world(old(gs).ecs@, key),
        final(gs).ecs@.wf(),
{
    match key {
        None => {
            return RunState::AwaitingInput;
        },
        Some(key) => match key {
            Key::Left | Key::Numpad4 | Key::H => try_move_player(-1, 0, &mut gs.ecs),
            Key::Right | Key::Numpad6 | Key::L => try_move_player(1, 0, &mut gs.ecs),
            Key::Up | Key::Numpad8 | Key::K => try_move_player(0, -1, &mut gs.ecs),
            Key::Down | Key::Numpad2 | Key::J => try_move_player(0, 1, &mut gs.ecs),
            Key::Numpad9 | Key::U => try_move_player(1, -1, &mut gs.ecs),
            Key::Numpad7 | Key::Y => try_move_player(-1, -1, &mut gs.ecs),
            Key::Numpad3 | Key::N => try_move_player(1, 1, &mut gs.ecs),
            Key::Numpad1 | Key::B => try_move_player(-1, 1, &mut gs.ecs),
            Key::I => {
                return RunState::ShowInventory;
            },
            Key::D => {
                return RunState::ShowDropInventory;
            },
            _ => {
                return RunState::AwaitingInput;
            },
        },
    }
    RunState::PlayerTurn
}

} // verus!
