use vstd::prelude::*;
use rltk::Point;
use crate::components::{
    AreaOfEffect, BlocksTile, CombatStats, Confusion, Consumable, InBackpack, Item, Monster,
    Name, Player, Position, ProvidesDamage, ProvidesHealing, Ranged, Renderable,
    SerializationHelper, SerializeThis, SufferDamage, Viewshed, ViewshedView, WantsToDrop,
    WantsToMelee, WantsToPickup, WantsToUse,
};
use crate::gamelog::GameLog;
use crate::map::{TileMap, TileMapView};
use crate::storage::{Entity, Storage};
use crate::RunState;

verus! {

/// Declares the outside random number generator. Nothing is known of what it
/// holds.
#[verifier::external_type_specification]
#[verifier::external_body]
pub struct ExRandomNumberGenerator(rltk::RandomNumberGenerator);

/// Marks an entity whose deletion waits for the next [`World::maintain`].
#[derive(Clone, Copy, Debug, PartialEq, Eq, Structural)]
pub struct Doomed {}

impl View for Doomed {
    type V = Doomed;

    open spec fn view(&self) -> Doomed {
        *self
    }
}

/// The whole simulation state: which entities exist, one table per component
/// kind, and the shared singletons (level, player, log, phase, dice).
pub struct World {
    /// One flag per entity created since the world was made or last loaded:
    /// whether it still exists. Between loads an id is never handed out twice;
    /// a load starts the ids again at 0, so handles from before it are void.
    pub alive: Vec<bool>,
    /// The entities that the next `maintain` deletes.
    pub doomed: Storage<Doomed>,
    /// Where each thing on the grid is.
    pub positions: Storage<Position>,
    /// How each visible thing is drawn.
    pub renderables: Storage<Renderable>,
    /// The user's character.
    pub players: Storage<Player>,
    /// What each creature sees.
    pub viewsheds: Storage<Viewshed>,
    /// The creatures that act on their own.
    pub monsters: Storage<Monster>,
    /// What things are called.
    pub names: Storage<Name>,
    /// The things that block their tile.
    pub blockers: Storage<BlocksTile>,
    /// Health and strength of everything that fights.
    pub combat_stats: Storage<CombatStats>,
    /// Pending attacks, by attacker.
    pub wants_to_melee: Storage<WantsToMelee>,
    /// Damage waiting to be applied, by victim.
    pub suffer_damage: Storage<SufferDamage>,
    /// The things that can be picked up.
    pub items: Storage<Item>,
    /// The items that are used up.
    pub consumables: Storage<Consumable>,
    /// The reach of items.
    pub ranged: Storage<Ranged>,
    /// The items that heal.
    pub provides_healing: Storage<ProvidesHealing>,
    /// The items that wound.
    pub provides_damage: Storage<ProvidesDamage>,
    /// The items that strike an area.
    pub area_of_effect: Storage<AreaOfEffect>,
    /// Confusing items, and confused creatures.
    pub confusion: Storage<Confusion>,
    /// The carried items, with their carrier.
    pub in_backpack: Storage<InBackpack>,
    /// Pending pick-ups, by the entity that asked.
    pub wants_to_pickup: Storage<WantsToPickup>,
    /// Pending item uses, by user.
    pub wants_to_use: Storage<WantsToUse>,
    /// Pending drops, by dropper.
    pub wants_to_drop: Storage<WantsToDrop>,
    /// The entities a save document keeps.
    pub markers: Storage<SerializeThis>,
    /// The level copy that a save document carries.
    pub helpers: Storage<SerializationHelper>,
    /// The level.
    pub map: TileMap,
    /// The designated player entity.
    pub player: Entity,
    /// Where the player stands.
    pub player_pos: Point,
    /// The notification sink.
    pub log: GameLog,
    /// The phase of the turn scheduler.
    pub runstate: RunState,
    /// The dice.
    pub rng: rltk::RandomNumberGenerator,
}

/// Mathematical content of a [`World`]: everything but the state of the dice.
#[verifier::ext_equal]
pub ghost struct WorldView {
    pub alive: Seq<bool>,
    pub doomed: Map<int, Doomed>,
    pub positions: Map<int, Position>,
    pub renderables: Map<int, Renderable>,
    pub players: Map<int, Player>,
    pub viewsheds: Map<int, ViewshedView>,
    pub monsters: Map<int, Monster>,
    pub names: Map<int, Seq<char>>,
    pub blockers: Map<int, BlocksTile>,
    pub combat_stats: Map<int, CombatStats>,
    pub wants_to_melee: Map<int, WantsToMelee>,
    pub suffer_damage: Map<int, Seq<i32>>,
    pub items: Map<int, Item>,
    pub consumables: Map<int, Consumable>,
    pub ranged: Map<int, Ranged>,
    pub provides_healing: Map<int, ProvidesHealing>,
    pub provides_damage: Map<int, ProvidesDamage>,
    pub area_of_effect: Map<int, AreaOfEffect>,
    pub confusion: Map<int, Confusion>,
    pub in_backpack: Map<int, InBackpack>,
    pub wants_to_pickup: Map<int, WantsToPickup>,
    pub wants_to_use: Map<int, WantsToUse>,
    pub wants_to_drop: Map<int, WantsToDrop>,
    pub markers: Map<int, SerializeThis>,
    pub helpers: Map<int, TileMapView>,
    pub map: TileMapView,
    pub player: Entity,
    pub player_pos: Point,
    pub log: Seq<Seq<char>>,
    pub runstate: RunState,
}

impl View for World {
    type V = WorldView;

    open spec fn view(&self) -> WorldView {
        WorldView {
            alive: self.alive@,
            doomed: self.doomed@,
            positions: self.positions@,
            renderables: self.renderables@,
            players: self.players@,
            viewsheds: self.viewsheds@,
            monsters: self.monsters@,
            names: self.names@,
            blockers: self.blockers@,
            combat_stats: self.combat_stats@,
            wants_to_melee: self.wants_to_melee@,
            suffer_damage: self.suffer_damage@,
            items: self.items@,
            consumables: self.consumables@,
            ranged: self.ranged@,
            provides_healing: self.provides_healing@,
            provides_damage: self.provides_damage@,
            area_of_effect: self.area_of_effect@,
            confusion: self.confusion@,
            in_backpack: self.in_backpack@,
            wants_to_pickup: self.wants_to_pickup@,
            wants_to_use: self.wants_to_use@,
            wants_to_drop: self.wants_to_drop@,
            markers: self.markers@,
            helpers: self.helpers@,
            map: self.map@,
            player: self.player,
            player_pos: self.player_pos,
            log: self.log@,
            runstate: self.runstate,
        }
    }
}

/// Whether every key of `table` is the id of an entity that `alive` says
/// exists.
pub open spec fn on_living<V>(table: Map<int, V>, alive: Seq<bool>) -> bool {
    forall|e: int| #[trigger] table.dom().contains(e) ==> 0 <= e < alive.len() && alive[e]
}

/// `table` without the keys of `gone` that lie below `n`.
pub open spec fn strip<V>(table: Map<int, V>, gone: Set<int>, n: int) -> Map<int, V> {
    Map::new(
        |e: int| table.dom().contains(e) && !(gone.contains(e) && e < n),
        |e: int| table[e],
    )
}

impl WorldView {
    /// Whether `e` exists.
    pub open spec fn is_alive(self, e: Entity) -> bool {
        e@ < self.alive.len() && self.alive[e@]
    }

    /// Components sit on existing entities only, and the level is well formed.
    pub open spec fn wf(self) -> bool {
        &&& self.alive.len() < usize::MAX
        &&& self.map.wf()
        &&& on_living(self.doomed, self.alive)
        &&& on_living(self.positions, self.alive)
        &&& on_living(self.renderables, self.alive)
        &&& on_living(self.players, self.alive)
        &&& on_living(self.viewsheds, self.alive)
        &&& on_living(self.monsters, self.alive)
        &&& on_living(self.names, self.alive)
        &&& on_living(self.blockers, self.alive)
        &&& on_living(self.combat_stats, self.alive)
        &&& on_living(self.wants_to_melee, self.alive)
        &&& on_living(self.suffer_damage, self.alive)
        &&& on_living(self.items, self.alive)
        &&& on_living(self.consumables, self.alive)
        &&& on_living(self.ranged, self.alive)
        &&& on_living(self.provides_healing, self.alive)
        &&& on_living(self.provides_damage, self.alive)
        &&& on_living(self.area_of_effect, self.alive)
        &&& on_living(self.confusion, self.alive)
        &&& on_living(self.in_backpack, self.alive)
        &&& on_living(self.wants_to_pickup, self.alive)
        &&& on_living(self.wants_to_use, self.alive)
        &&& on_living(self.wants_to_drop, self.alive)
        &&& on_living(self.markers, self.alive)
        &&& on_living(self.helpers, self.alive)
    }

    /// The world after `e` and everything it holds is gone.
    pub open spec fn without(self, e: Entity) -> WorldView {
        WorldView {
            alive: if e@ < self.alive.len() {
                self.alive.update(e@, false)
            } else {
                self.alive
            },
            doomed: self.doomed.remove(e@),
            positions: self.positions.remove(e@),
            renderables: self.renderables.remove(e@),
            players: self.players.remove(e@),
            viewsheds: self.viewsheds.remove(e@),
            monsters: self.monsters.remove(e@),
            names: self.names.remove(e@),
            blockers: self.blockers.remove(e@),
            combat_stats: self.combat_stats.remove(e@),
            wants_to_melee: self.wants_to_melee.remove(e@),
            suffer_damage: self.suffer_damage.remove(e@),
            items: self.items.remove(e@),
            consumables: self.consumables.remove(e@),
            ranged: self.ranged.remove(e@),
            provides_healing: self.provides_healing.remove(e@),
            provides_damage: self.provides_damage.remove(e@),
            area_of_effect: self.area_of_effect.remove(e@),
            confusion: self.confusion.remove(e@),
            in_backpack: self.in_backpack.remove(e@),
            wants_to_pickup: self.wants_to_pickup.remove(e@),
            wants_to_use: self.wants_to_use.remove(e@),
            wants_to_drop: self.wants_to_drop.remove(e@),
            markers: self.markers.remove(e@),
            helpers: self.helpers.remove(e@),
            ..self
        }
    }

    /// The world after every entity of `gone` with an id below `n` is gone,
    /// with everything it holds.
    pub open spec fn without_below(self, gone: Set<int>, n: int) -> WorldView {
        WorldView {
            alive: Seq::new(
                self.alive.len(),
                |e: int| self.alive[e] && !(gone.contains(e) && e < n),
            ),
            doomed: strip(self.doomed, gone, n),
            positions: strip(self.positions, gone, n),
            renderables: strip(self.renderables, gone, n),
            players: strip(self.players, gone, n),
            viewsheds: strip(self.viewsheds, gone, n),
            monsters: strip(self.monsters, gone, n),
            names: strip(self.names, gone, n),
            blockers: strip(self.blockers, gone, n),
            combat_stats: strip(self.combat_stats, gone, n),
            wants_to_melee: strip(self.wants_to_melee, gone, n),
            suffer_damage: strip(self.suffer_damage, gone, n),
            items: strip(self.items, gone, n),
            consumables: strip(self.consumables, gone, n),
            ranged: strip(self.ranged, gone, n),
            provides_healing: strip(self.provides_healing, gone, n),
            provides_damage: strip(self.provides_damage, gone, n),
            area_of_effect: strip(self.area_of_effect, gone, n),
            confusion: strip(self.confusion, gone, n),
            in_backpack: strip(self.in_backpack, gone, n),
            wants_to_pickup: strip(self.wants_to_pickup, gone, n),
            wants_to_use: strip(self.wants_to_use, gone, n),
            wants_to_drop: strip(self.wants_to_drop, gone, n),
            markers: strip(self.markers, gone, n),
            helpers: strip(self.helpers, gone, n),
            ..self
        }
    }

    /// The world after every doomed entity is gone.
    pub open spec fn purged(self) -> WorldView {
        self.without_all(self.doomed.dom())
    }

    /// The world after every entity of `gone` is gone, with everything it
    /// holds.
    pub open spec fn without_all(self, gone: Set<int>) -> WorldView {
        self.without_below(gone, self.alive.len() as int)
    }

    /// The world with one more entity, which holds nothing yet.
    pub open spec fn spawned(self) -> WorldView {
        WorldView { alive: self.alive.push(true), ..self }
    }

    /// The id that the next new entity gets.
    pub open spec fn next_entity(self) -> Entity {
        Entity { id: self.alive.len() as usize }
    }
}

/// Removing an entity keeps a world well formed.
pub proof fn lemma_without_wf(w: WorldView, e: Entity)
    requires
        w.wf(),
    ensures
        w.without(e).wf(),
        !w.without(e).is_alive(e),
{
}

/// Adding an entity keeps a world well formed.
pub proof fn lemma_spawned_wf(w: WorldView)
    requires
        w.wf(),
        w.alive.len() + 1 < usize::MAX,
    ensures
        w.spawned().wf(),
        w.spawned().is_alive(w.next_entity()),
{
}

/// Calls `rltk::RandomNumberGenerator::seeded`, which builds a generator from
/// the seed. Nothing is claimed of the generator.
#[verifier::external_body]
pub(crate) fn seeded_rng(seed: u64) -> (rng: rltk::RandomNumberGenerator) {
    rltk::RandomNumberGenerator::seeded(seed)
}

impl World {
    /// A world without entities on the level `map`; the dice start from `seed`.
    /// The player handle points at the first entity that will be created.
    pub fn new(map: TileMap, seed: u64) -> (w: World)
        requires
            map@.wf(),
        ensures
            w@.wf(),
            w@.alive.len() == 0,
            w@.map == map@,
            w@.player == (Entity { id: 0 }),
            w@.player_pos == (Point { x: 0, y: 0 }),
            w@.log.len() == 0,
            w@.runstate == RunState::PreRun,
            w@.doomed.dom() =~= Set::<int>::empty(),
            w@.positions.dom() =~= Set::<int>::empty(),
            w@.renderables.dom() =~= Set::<int>::empty(),
            w@.players.dom() =~= Set::<int>::empty(),
            w@.viewsheds.dom() =~= Set::<int>::empty(),
            w@.monsters.dom() =~= Set::<int>::empty(),
            w@.names.dom() =~= Set::<int>::empty(),
            w@.blockers.dom() =~= Set::<int>::empty(),
            w@.combat_stats.dom() =~= Set::<int>::empty(),
            w@.wants_to_melee.dom() =~= Set::<int>::empty(),
            w@.suffer_damage.dom() =~= Set::<int>::empty(),
            w@.items.dom() =~= Set::<int>::empty(),
            w@.consumables.dom() =~= Set::<int>::empty(),
            w@.ranged.dom() =~= Set::<int>::empty(),
            w@.provides_healing.dom() =~= Set::<int>::empty(),
            w@.provides_damage.dom() =~= Set::<int>::empty(),
            w@.area_of_effect.dom() =~= Set::<int>::empty(),
            w@.confusion.dom() =~= Set::<int>::empty(),
            w@.in_backpack.dom() =~= Set::<int>::empty(),
            w@.wants_to_pickup.dom() =~= Set::<int>::empty(),
            w@.wants_to_use.dom() =~= Set::<int>::empty(),
            w@.wants_to_drop.dom() =~= Set::<int>::empty(),
            w@.markers.dom() =~= Set::<int>::empty(),
            w@.helpers.dom() =~= Set::<int>::empty(),
    {
        World {
            alive: Vec::new(),
            doomed: Storage::new(),
            positions: Storage::new(),
            renderables: Storage::new(),
            players: Storage::new(),
            viewsheds: Storage::new(),
            monsters: Storage::new(),
            names: Storage::new(),
            blockers: Storage::new(),
            combat_stats: Storage::new(),
            wants_to_melee: Storage::new(),
            suffer_damage: Storage::new(),
            items: Storage::new(),
            consumables: Storage::new(),
            ranged: Storage::new(),
            provides_healing: Storage::new(),
            provides_damage: Storage::new(),
            area_of_effect: Storage::new(),
            confusion: Storage::new(),
            in_backpack: Storage::new(),
            wants_to_pickup: Storage::new(),
            wants_to_use: Storage::new(),
            wants_to_drop: Storage::new(),
            markers: Storage::new(),
            helpers: Storage::new(),
            map,
            player: Entity { id: 0 },
            player_pos: Point { x: 0, y: 0 },
            log: GameLog::new(),
            runstate: RunState::PreRun,
            rng: seeded_rng(seed),
        }
    }

    /// Whether components sit on existing entities only and the level is well
    /// formed.
    pub fn is_well_formed(&self) -> (b: bool)
        ensures
            b == self@.wf(),
    {
        self.alive.len() < usize::MAX && self.map.is_well_formed()
            && lives(&self.doomed, &self.alive)
            && lives(&self.positions, &self.alive)
            && lives(&self.renderables, &self.alive)
            && lives(&self.players, &self.alive)
            && lives(&self.viewsheds, &self.alive)
            && lives(&self.monsters, &self.alive)
            && lives(&self.names, &self.alive)
            && lives(&self.blockers, &self.alive)
            && lives(&self.combat_stats, &self.alive)
            && lives(&self.wants_to_melee, &self.alive)
            && lives(&self.suffer_damage, &self.alive)
            && lives(&self.items, &self.alive)
            && lives(&self.consumables, &self.alive)
            && lives(&self.ranged, &self.alive)
            && lives(&self.provides_healing, &self.alive)
            && lives(&self.provides_damage, &self.alive)
            && lives(&self.area_of_effect, &self.alive)
            && lives(&self.confusion, &self.alive)
            && lives(&self.in_backpack, &self.alive)
            && lives(&self.wants_to_pickup, &self.alive)
            && lives(&self.wants_to_use, &self.alive)
            && lives(&self.wants_to_drop, &self.alive)
            && lives(&self.markers, &self.alive)
            && lives(&self.helpers, &self.alive)
    }

    /// Whether `e` exists.
    pub fn is_alive(&self, e: Entity) -> (b: bool)
        ensures
            b == self@.is_alive(e),
    {
        e.id < self.alive.len() && self.alive[e.id]
    }

    /// Creates an entity that holds nothing yet.
    pub fn create_entity(&mut self) -> (e: Entity)
        requires
            old(self)@.wf(),
            old(self)@.alive.len() + 1 < usize::MAX,
        ensures
            e == old(self)@.next_entity(),
            final(self)@ == old(self)@.spawned(),
            final(self)@.wf(),
    {
        let e = Entity { id: self.alive.len() };
        self.alive.push(true);
        proof {
            lemma_spawned_wf(old(self)@);
        }
        e
    }

    /// Deletes `e` at once, with every component it holds.
    pub fn delete_entity(&mut self, e: Entity)
        requires
            old(self)@.wf(),
            old(self)@.is_alive(e),
        ensures
            final(self)@ == old(self)@.without(e),
            final(self)@.wf(),
    {
        self.alive[e.id] = false;
        self.doomed.remove(e);
        self.positions.remove(e);
        self.renderables.remove(e);
        self.players.remove(e);
        self.viewsheds.remove(e);
        self.monsters.remove(e);
        self.names.remove(e);
        self.blockers.remove(e);
        self.combat_stats.remove(e);
        self.wants_to_melee.remove(e);
        self.suffer_damage.remove(e);
        self.items.remove(e);
        self.consumables.remove(e);
        self.ranged.remove(e);
        self.provides_healing.remove(e);
        self.provides_damage.remove(e);
        self.area_of_effect.remove(e);
        self.confusion.remove(e);
        self.in_backpack.remove(e);
        self.wants_to_pickup.remove(e);
        self.wants_to_use.remove(e);
        self.wants_to_drop.remove(e);
        self.markers.remove(e);
        self.helpers.remove(e);
        proof {
            lemma_without_wf(old(self)@, e);
        }
    }

    /// Marks `e` for deletion at the next [`World::maintain`]. Until then it
    /// exists and keeps its components.
    pub fn doom(&mut self, e: Entity)
        requires
            old(self)@.wf(),
            old(self)@.is_alive(e),
        ensures
            final(self)@ == (WorldView {
                doomed: old(self)@.doomed.insert(e@, Doomed {  }),
                ..old(self)@
            }),
            final(self)@.wf(),
    {
        self.doomed.insert(e, Doomed {});
    }

    /// Deletes every entity that was marked for deletion.
    pub fn maintain(&mut self)
        requires
            old(self)@.wf(),
        ensures
            final(self)@ == old(self)@.purged(),
            final(self)@.wf(),
    {
        let ghost gone = self@.doomed.dom();
        let n = self.alive.len();
        let mut i: usize = 0;
        assert(self@ =~= old(self)@.without_below(gone, 0));
        while i < n
            invariant
                i <= n,
                n == old(self)@.alive.len(),
                gone == old(self)@.doomed.dom(),
                old(self)@.wf(),
                self@.wf(),
                self@ == old(self)@.without_below(gone, i as int),
            decreases n - i,
        {
            let e = Entity { id: i };
            if self.doomed.contains(e) {
                self.delete_entity(e);
            }
            assert(self@ =~= old(self)@.without_below(gone, i + 1));
            i += 1;
        }
    }

    /// Deletes every entity whose flag in `marks` is set.
    pub fn delete_marked(&mut self, marks: &Vec<bool>)
        requires
            old(self)@.wf(),
            marks@.len() == old(self)@.alive.len(),
            forall|e: int| 0 <= e < marks@.len() && marks@[e] ==> old(self)@.alive[e],
        ensures
            final(self)@ == old(self)@.without_all(marked(marks@)),
            final(self)@.wf(),
    {
        let ghost gone = marked(marks@);
        let n = self.alive.len();
        let mut i: usize = 0;
        assert(self@ =~= old(self)@.without_below(gone, 0));
        while i < n
            invariant
                i <= n,
                n == old(self)@.alive.len(),
                marks@.len() == n,
                gone == marked(marks@),
                forall|e: int| 0 <= e < marks@.len() && marks@[e] ==> old(self)@.alive[e],
                old(self)@.wf(),
                self@.wf(),
                self@ == old(self)@.without_below(gone, i as int),
            decreases n - i,
        {
            if marks[i] {
                self.delete_entity(Entity { id: i });
            }
            assert(self@ =~= old(self)@.without_below(gone, i + 1));
            i += 1;
        }
    }
}

/// Whether every key of `table` is the id of an entity that exists.
fn lives<T: View>(table: &Storage<T>, alive: &Vec<bool>) -> (b: bool)
    ensures
        b == on_living(table@, alive@),
{
    let n = table.bound();
    let mut i: usize = 0;
    while i < n
        invariant
            i <= n,
            forall|e: int| table@.dom().contains(e) ==> 0 <= e < n,
            forall|e: int|
                0 <= e < i && #[trigger] table@.dom().contains(e) ==> e < alive@.len() && alive@[e],
        decreases n - i,
    {
        if table.contains(Entity { id: i }) && !(i < alive.len() && alive[i]) {
            return false;
        }
        i += 1;
    }
    true
}

/// The ids whose flag in `marks` is set.
pub open spec fn marked(marks: Seq<bool>) -> Set<int> {
    Set::new(|e: int| 0 <= e < marks.len() && marks[e])
}

/// Removing entities keeps a world well formed.
pub proof fn lemma_without_all_wf(w: WorldView, gone: Set<int>)
    requires
        w.wf(),
    ensures
        w.without_all(gone).wf(),
        forall|e: Entity| gone.contains(e@) ==> !w.without_all(gone).is_alive(e),
        forall|e: Entity| !gone.contains(e@) ==> w.without_all(gone).is_alive(e) == w.is_alive(e),
{
}

} // verus!
