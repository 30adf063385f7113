//! Turn resolution for a tile-based dungeon game.
//!
//! The [`World`] holds every entity and, per component kind, a sparse table
//! from entity to component. One pass of the pipeline ([`State::run_systems`])
//! rebuilds the occupant index, resolves the attacks, applies pending damage,
//! resolves pick-ups, item uses and drops, and carries out the deletions that
//! the item uses deferred; [`State::tick`] drives it through the phases of a
//! turn and sweeps the dead after each. The [`saveload_system`] turns a world
//! into a document and back.
//!
//! Every function states what it does over the mathematical content of the
//! world ([`world::WorldView`]), and Verus proves that it does.
use vstd::prelude::*;
use rltk::Point;
pub use crate::components::{
    AreaOfEffect, BlocksTile, Color, CombatStats, Confusion, Consumable, InBackpack, Item,
    Monster, Name, Player, Position, ProvidesDamage, ProvidesHealing, Ranged, Renderable,
    SerializationHelper, SerializeThis, SufferDamage, Viewshed, WantsToDrop, WantsToMelee,
    WantsToPickup, WantsToUse,
};
pub use crate::gamelog::GameLog;
pub use crate::geometry::Rect;
pub use crate::map::{TileMap, TileType};
use crate::damage_system::{damage_applied, damage_fits, dead_swept, delete_the_dead, DamageSystem};
use crate::gui::ItemMenuResult;
use crate::inventory_system::{
    blasts_seen, blasts_shaped, drop_pass_ready, items_collected, items_dropped,
    items_used, pickup_pass_ready, sight_ready, use_pass_ready,
    ItemCollectionSystem, ItemDropSystem, ItemUseSystem,
};
use crate::map_indexing_system::{indexed, MapIndexingSystem};
use crate::melee_combat_system::{melee_ready, melee_resolved, MeleeCombatSystem};
use crate::player::{key_phase, key_world, player_input, Key};
use crate::readiness::{is_steady, no_area_heal, steady};
pub use crate::storage::{Entity, Storage};
pub use crate::world::World;
use crate::world::WorldView;

pub mod components;
pub mod damage_system;
pub mod events;
pub mod gamelog;
pub mod geometry;
pub mod gui;
pub mod inventory_system;
pub mod map;
pub mod map_indexing_system;
pub mod melee_combat_system;
pub mod player;
pub mod readiness;
pub mod render;
pub mod saveload_system;
pub mod sight;
pub mod spawn_table;
pub mod spawner;
pub mod storage;
pub mod world;

verus! {

/// Phase of the turn scheduler.
#[derive(Clone, Copy, Debug, PartialEq, Eq, Structural)]
pub enum RunState {
    AwaitingInput,
    PreRun,
    PlayerTurn,
    MonsterTurn,
    ShowInventory,
    ShowDropInventory,
}

/// The game: the world and, inside it, the phase of the turn scheduler.
pub struct State {
    pub ecs: World,
}


/// The world after one pass of the resolution pipeline: the re-index, the
/// attacks, damage, pick-ups, item uses with the given tile lists, drops, and
/// the deferred deletions, in that order.
pub open spec fn turn_resolved(w: WorldView, blasts: Seq<Seq<Point>>) -> WorldView {
    items_dropped(items_used(before_use(w), blasts)).purged()
}

/// The world at the moment the pipeline computes the fields of view: after
/// the re-index, the attacks, damage and pick-ups.
pub open spec fn before_use(w: WorldView) -> WorldView {
    items_collected(damage_applied(melee_resolved(indexed(w))))
}

/// Whether each system of the pipeline finds what it needs, whatever tiles the
/// fields of view turn out to hold.
pub open spec fn pipeline_ready(w: WorldView) -> bool {
    let w1 = melee_resolved(indexed(w));
    let w2 = before_use(w);
    &&& melee_ready(indexed(w))
    &&& damage_fits(w1)
    &&& pickup_pass_ready(damage_applied(w1), w.alive.len())
    &&& sight_ready(w2)
    &&& forall|blasts: Seq<Seq<Point>>| #[trigger]
        blasts_shaped(w2, blasts) ==> use_pass_ready(w2, blasts, w.alive.len())
            && drop_pass_ready(items_used(w2, blasts), w.alive.len())
}

/// Whether the phase `state` runs the pipeline.
pub open spec fn runs_pipeline(state: RunState) -> bool {
    state == RunState::PreRun || state == RunState::PlayerTurn || state == RunState::MonsterTurn
}

/// The phase that follows `state`, given the key pressed and what the menu
/// reported.
pub open spec fn next_phase(state: RunState, key: Option<Key>, menu: ItemMenuResult) -> RunState {
    match state {
        RunState::PreRun => RunState::AwaitingInput,
        RunState::AwaitingInput => key_phase(key),
        RunState::PlayerTurn => RunState::MonsterTurn,
        RunState::MonsterTurn => RunState::AwaitingInput,
        RunState::ShowInventory | RunState::ShowDropInventory => match menu {
            ItemMenuResult::Cancel => RunState::AwaitingInput,
            ItemMenuResult::NoResponse => state,
            ItemMenuResult::Selected => RunState::PlayerTurn,
        },
    }
}

/// The world after the work of the current phase: a pipeline pass, the
/// player's action, or the intent that a menu choice creates.
pub open spec fn phase_work(
    w: WorldView,
    key: Option<Key>,
    menu: (ItemMenuResult, Option<Entity>),
    blasts: Seq<Seq<Point>>,
) -> WorldView {
    match w.runstate {
        RunState::PreRun | RunState::PlayerTurn | RunState::MonsterTurn => turn_resolved(
            w,
            blasts,
        ),
        RunState::AwaitingInput => key_world(w, key),
        RunState::ShowInventory => if menu.0 == ItemMenuResult::Selected {
            WorldView {
                wants_to_use: w.wants_to_use.insert(
                    w.player@,
                    WantsToUse { item: menu.1.unwrap(), target: None },
                ),
                ..w
            }
        } else {
            w
        },
        RunState::ShowDropInventory => if menu.0 == ItemMenuResult::Selected {
            WorldView {
                wants_to_drop: w.wants_to_drop.insert(
                    w.player@,
                    WantsToDrop { item: menu.1.unwrap() },
                ),
                ..w
            }
        } else {
            w
        },
    }
}

/// The world after one tick: the work of the phase, the change of phase, and
/// the death sweep, which follows every phase.
pub open spec fn ticked(
    w: WorldView,
    key: Option<Key>,
    menu: (ItemMenuResult, Option<Entity>),
    blasts: Seq<Seq<Point>>,
) -> WorldView {
    dead_swept(
        WorldView {
            runstate: next_phase(w.runstate, key, menu.0),
            ..phase_work(w, key, menu, blasts)
        },
    )
}

/// What a tick needs: in a pipeline phase what the pipeline needs; in a menu
/// phase with a choice, the chosen item and a player that exists.
pub open spec fn tick_ready(w: WorldView, menu: (ItemMenuResult, Option<Entity>)) -> bool {
    &&& runs_pipeline(w.runstate) ==> pipeline_ready(w)
    &&& (w.runstate == RunState::ShowInventory || w.runstate == RunState::ShowDropInventory)
        && menu.0 == ItemMenuResult::Selected ==> menu.1.is_some() && w.is_alive(w.player)
}

/// What is enough for a tick: the world is well formed; in a pipeline phase
/// it is steady; after a menu choice the chosen item is given and the player
/// exists. Unless a pending use heals over an area, this is also all that a
/// tick requires.
pub open spec fn tick_safe(w: WorldView, menu: (ItemMenuResult, Option<Entity>)) -> bool {
    &&& w.wf()
    &&& runs_pipeline(w.runstate) ==> steady(w)
    &&& (w.runstate == RunState::ShowInventory || w.runstate == RunState::ShowDropInventory)
        && menu.0 == ItemMenuResult::Selected ==> menu.1.is_some() && w.is_alive(w.player)
}

impl State {
    /// Whether [`State::tick`] may be called: see [`tick_safe`].
    pub fn can_tick(&self, menu: (ItemMenuResult, Option<Entity>)) -> (b: bool)
        ensures
            b == tick_safe(self.ecs@, menu),
            b ==> self.ecs@.wf() && tick_ready(self.ecs@, menu),
            no_area_heal(self.ecs@) ==> b == (self.ecs@.wf() && tick_ready(self.ecs@, menu)),
    {
        match self.ecs.runstate {
            RunState::PreRun | RunState::PlayerTurn | RunState::MonsterTurn => is_steady(
                &self.ecs,
            ),
            RunState::AwaitingInput => self.ecs.is_well_formed(),
            RunState::ShowInventory | RunState::ShowDropInventory => {
                self.ecs.is_well_formed() && (match menu.0 {
                    ItemMenuResult::Selected => menu.1.is_some() && self.ecs.is_alive(
                        self.ecs.player,
                    ),
                    _ => true,
                })
            },
        }
    }

    /// Runs one pass of the resolution pipeline: the re-index of the
    /// occupants, the attacks, damage, pick-ups, item uses, drops, then the
    /// deletions that the item uses deferred. Visibility and monster decisions
    /// come from outside and have run before.
    pub fn run_systems(&mut self)
        requires
            old(self).ecs@.wf(),
            pipeline_ready(old(self).ecs@),
        ensures
            exists|blasts: Seq<Seq<Point>>|
                {
                    &&& blasts_shaped(before_use(old(self).ecs@), blasts)
                    &&& blasts_seen(before_use(old(self).ecs@), blasts)
                    &&& final(self).ecs@ == #[trigger] turn_resolved(old(self).ecs@, blasts)
                },
            final(self).ecs@.wf(),
    {
        let ghost w0 = self.ecs@;
        let mut mapindex = MapIndexingSystem {  };
        mapindex.run(&mut self.ecs);
        let mut melee = MeleeCombatSystem {  };
        melee.run(&mut self.ecs);
        let ghost w1 = self.ecs@;
        proof {
            crate::melee_combat_system::lemma_melee_pass_frame(indexed(w0), w0.alive.len());
        }
        let mut damage = DamageSystem {  };
        damage.run(&mut self.ecs);
        let mut item_pickup = ItemCollectionSystem {  };
        item_pickup.run(&mut self.ecs);
        let ghost w2 = self.ecs@;
        assert(w2 == before_use(w0));
        proof {
            crate::inventory_system::lemma_pickup_pass_frame(damage_applied(w1), w0.alive.len());
            assert forall|blasts: Seq<Seq<Point>>| blasts_shaped(w2, blasts) implies #[trigger] use_pass_ready(
                w2,
                blasts,
                w2.alive.len(),
            ) by {
                assert(blasts_shaped(w2, blasts));
            }
        }
        let mut item_use = ItemUseSystem {  };
        item_use.run(&mut self.ecs);
        let ghost w3 = self.ecs@;
        let ghost blasts = choose|blasts: Seq<Seq<Point>>|
            {
                &&& blasts_shaped(w2, blasts)
                &&& blasts_seen(w2, blasts)
                &&& w3 == #[trigger] items_used(w2, blasts)
            };
        proof {
            crate::inventory_system::lemma_use_pass_frame(w2, blasts, w2.alive.len());
            assert(blasts_shaped(w2, blasts));
        }
        let mut item_drop = ItemDropSystem {  };
        item_drop.run(&mut self.ecs);
        self.ecs.maintain();
        assert(self.ecs@ == turn_resolved(w0, blasts));
    }

    /// Advances the game by one frame. A pipeline phase runs the pipeline; the
    /// waiting phase takes the key; a menu phase takes what the menu reported.
    /// The dead are swept after every phase.
    pub fn tick(&mut self, key: Option<Key>, menu: (ItemMenuResult, Option<Entity>))
        requires
            old(self).ecs@.wf(),
            tick_ready(old(self).ecs@, menu),
        ensures
            exists|blasts: Seq<Seq<Point>>|
                {
                    &&& runs_pipeline(old(self).ecs@.runstate) ==> blasts_shaped(
                        before_use(old(self).ecs@),
                        blasts,
                    ) && blasts_seen(before_use(old(self).ecs@), blasts)
                    &&& final(self).ecs@ == #[trigger] ticked(old(self).ecs@, key, menu, blasts)
                },
            final(self).ecs@.wf(),
    {
        let ghost w0 = self.ecs@;
        let ghost mut blasts: Seq<Seq<Point>> = Seq::empty();
        let mut newrunstate = self.ecs.runstate;
        match newrunstate {
            RunState::PreRun => {
                self.run_systems();
                proof {
                    blasts = choose|b: Seq<Seq<Point>>|
                        {
                            &&& blasts_shaped(before_use(w0), b)
                            &&& blasts_seen(before_use(w0), b)
                            &&& self.ecs@ == #[trigger] turn_resolved(w0, b)
                        };
                }
                newrunstate = RunState::AwaitingInput;
            },
            RunState::AwaitingInput => {
                newrunstate = player_input(self, key);
            },
            RunState::PlayerTurn => {
                self.run_systems();
                proof {
                    blasts = choose|b: Seq<Seq<Point>>|
                        {
                            &&& blasts_shaped(before_use(w0), b)
                            &&& blasts_seen(before_use(w0), b)
                            &&& self.ecs@ == #[trigger] turn_resolved(w0, b)
                        };
                }
                newrunstate = RunState::MonsterTurn;
            },
            RunState::MonsterTurn => {
                self.run_systems();
                proof {
                    blasts = choose|b: Seq<Seq<Point>>|
                        {
                            &&& blasts_shaped(before_use(w0), b)
                            &&& blasts_seen(before_use(w0), b)
                            &&& self.ecs@ == #[trigger] turn_resolved(w0, b)
                        };
                }
                newrunstate = RunState::AwaitingInput;
            },
            RunState::ShowInventory => {
                match menu.0 {
                    ItemMenuResult::Cancel => {
                        newrunstate = RunState::AwaitingInput;
                    },
                    ItemMenuResult::NoResponse => {},
                    ItemMenuResult::Selected => {
                        if let Some(item_entity) = menu.1 {
                            let player = self.ecs.player;
                            self.ecs.wants_to_use.insert(
                                player,
                                WantsToUse { item: item_entity, target: None },
                            );
                        }
                        newrunstate = RunState::PlayerTurn;
                    },
                }
            },
            RunState::ShowDropInventory => {
                match menu.0 {
                    ItemMenuResult::Cancel => {
                        newrunstate = RunState::AwaitingInput;
                    },
                    ItemMenuResult::NoResponse => {},
                    ItemMenuResult::Selected => {
                        if let Some(item_entity) = menu.1 {
                            let player = self.ecs.player;
                            self.ecs.wants_to_drop.insert(player, WantsToDrop { item: item_entity });
                        }
                        newrunstate = RunState::PlayerTurn;
                    },
                }
            },
        }
        assert(self.ecs@ =~= phase_work(w0, key, menu, blasts));
        self.ecs.runstate = newrunstate;
        delete_the_dead(&mut self.ecs);
        assert(self.ecs@ == ticked(w0, key, menu, blasts));
    }
}


/// After a pass of the pipeline no intent of any kind is pending: no attack,
/// no pick-up, no use and no drop, however many of them could be satisfied.
pub proof fn lemma_pass_exhausts_intents(w: WorldView, blasts: Seq<Seq<Point>>)
    ensures
        turn_resolved(w, blasts).wants_to_melee.dom() =~= Set::<int>::empty(),
        turn_resolved(w, blasts).wants_to_pickup.dom() =~= Set::<int>::empty(),
        turn_resolved(w, blasts).wants_to_use.dom() =~= Set::<int>::empty(),
        turn_resolved(w, blasts).wants_to_drop.dom() =~= Set::<int>::empty(),
{
    let w0 = melee_resolved(indexed(w));
    let w1 = damage_applied(w0);
    let w2 = items_collected(w1);
    let w3 = items_used(w2, blasts);
    let w4 = items_dropped(w3);
    crate::inventory_system::lemma_pickup_pass_frame(w1, w1.alive.len());
    crate::inventory_system::lemma_use_pass_frame(w2, blasts, w2.alive.len());
    crate::inventory_system::lemma_drop_pass_frame(w3, w3.alive.len());
}


/// A pass targets by where everybody stands, not by what the occupant index
/// held before it: two worlds that differ in nothing but the occupant index
/// and the blocking flags come out of the pass alike.
pub proof fn lemma_pass_forgets_stale_index(a: WorldView, b: WorldView, blasts: Seq<Seq<Point>>)
    requires
        b == (WorldView {
            map: map::TileMapView {
                tile_content: b.map.tile_content,
                blocked_tiles: b.map.blocked_tiles,
                ..a.map
            },
            ..a
        }),
    ensures
        turn_resolved(a, blasts) == turn_resolved(b, blasts),
        pipeline_ready(a) == pipeline_ready(b),
{
    let n = a.alive.len();
    assert forall|t: int| 0 <= t < a.map.tiles.len() implies map_indexing_system::standing(
        a,
        t,
        n,
    ) == map_indexing_system::standing(b, t, n) && map_indexing_system::barred(a, t, n)
        == map_indexing_system::barred(b, t, n) by {
        lemma_same_standing(a, b, t, n);
    }
    assert(indexed(a).map.tile_content =~= indexed(b).map.tile_content);
    assert(indexed(a).map.blocked_tiles =~= indexed(b).map.blocked_tiles);
    assert(indexed(a).map == indexed(b).map);
    assert(indexed(a) == indexed(b));
}

/// Who stands on a tile, and whether it is barred, depends on nothing but the
/// positions, the blockers and the tiles.
proof fn lemma_same_standing(a: WorldView, b: WorldView, t: int, n: nat)
    requires
        a.positions == b.positions,
        a.blockers == b.blockers,
        a.map.tiles == b.map.tiles,
        a.map.width == b.map.width,
        a.map.height == b.map.height,
    ensures
        map_indexing_system::standing(a, t, n) == map_indexing_system::standing(b, t, n),
        map_indexing_system::barred(a, t, n) == map_indexing_system::barred(b, t, n),
    decreases n,
{
    if n > 0 {
        lemma_same_standing(a, b, t, (n - 1) as nat);
    }
}

} // verus!
