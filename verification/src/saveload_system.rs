use vstd::prelude::*;
use rltk::Point;
use crate::components::{
    Component, AreaOfEffect, BlocksTile, CombatStats, Confusion, Consumable, InBackpack, Item,
    Monster, Name, Player, Position, ProvidesDamage, ProvidesHealing, Ranged, Renderable,
    SerializationHelper, SerializeThis, SufferDamage, Viewshed, WantsToDrop, WantsToMelee,
    WantsToPickup, WantsToUse, ViewshedView,
};
use crate::map::TileMapView;
use crate::storage::{Entity, Storage};
use crate::world::{World, WorldView};

verus! {

/// Everything a saved game holds: the number of entities kept and one section
/// per component kind, in a fixed order. The entities are named `0`, `1`, ... in
/// the document, and a component that refers to an entity holds its name there.
pub struct SaveDocument {
    pub entities: usize,
    pub positions: Storage<Position>,
    pub renderables: Storage<Renderable>,
    pub players: Storage<Player>,
    pub viewsheds: Storage<Viewshed>,
    pub monsters: Storage<Monster>,
    pub names: Storage<Name>,
    pub blockers: Storage<BlocksTile>,
    pub combat_stats: Storage<CombatStats>,
    pub wants_to_melee: Storage<WantsToMelee>,
    pub suffer_damage: Storage<SufferDamage>,
    pub items: Storage<Item>,
    pub consumables: Storage<Consumable>,
    pub ranged: Storage<Ranged>,
    pub provides_healing: Storage<ProvidesHealing>,
    pub provides_damage: Storage<ProvidesDamage>,
    pub area_of_effect: Storage<AreaOfEffect>,
    pub confusion: Storage<Confusion>,
    pub in_backpack: Storage<InBackpack>,
    pub wants_to_pickup: Storage<WantsToPickup>,
    pub wants_to_use: Storage<WantsToUse>,
    pub wants_to_drop: Storage<WantsToDrop>,
    pub markers: Storage<SerializeThis>,
    pub helpers: Storage<SerializationHelper>,
}

/// Mathematical content of a [`SaveDocument`].
#[verifier::ext_equal]
pub ghost struct DocumentView {
    pub entities: nat,
    pub positions: Map<int, Position>,
    pub renderables: Map<int, Renderable>,
    pub players: Map<int, Player>,
    pub viewsheds: Map<int, ViewshedView>,
    pub monsters: Map<int, Monster>,
    pub names: Map<int, Seq<char>>,
    pub blockers: Map<int, BlocksTile>,
    pub combat_stats: Map<int, CombatStats>,
    pub wants_to_melee: Map<int, WantsToMelee>,
    pub suffer_damage: Map<int, Seq<i32>>,
    pub items: Map<int, Item>,
    pub consumables: Map<int, Consumable>,
    pub ranged: Map<int, Ranged>,
    pub provides_healing: Map<int, ProvidesHealing>,
    pub provides_damage: Map<int, ProvidesDamage>,
    pub area_of_effect: Map<int, AreaOfEffect>,
    pub confusion: Map<int, Confusion>,
    pub in_backpack: Map<int, InBackpack>,
    pub wants_to_pickup: Map<int, WantsToPickup>,
    pub wants_to_use: Map<int, WantsToUse>,
    pub wants_to_drop: Map<int, WantsToDrop>,
    pub markers: Map<int, SerializeThis>,
    pub helpers: Map<int, TileMapView>,
}

impl View for SaveDocument {
    type V = DocumentView;

    open spec fn view(&self) -> DocumentView {
        DocumentView {
            entities: self.entities as nat,
            positions: self.positions@,
            renderables: self.renderables@,
            players: self.players@,
            viewsheds: self.viewsheds@,
            monsters: self.monsters@,
            names: self.names@,
            blockers: self.blockers@,
            combat_stats: self.combat_stats@,
            wants_to_melee: self.wants_to_melee@,
            suffer_damage: self.suffer_damage@,
            items: self.items@,
            consumables: self.consumables@,
            ranged: self.ranged@,
            provides_healing: self.provides_healing@,
            provides_damage: self.provides_damage@,
            area_of_effect: self.area_of_effect@,
            confusion: self.confusion@,
            in_backpack: self.in_backpack@,
            wants_to_pickup: self.wants_to_pickup@,
            wants_to_use: self.wants_to_use@,
            wants_to_drop: self.wants_to_drop@,
            markers: self.markers@,
            helpers: self.helpers@,
        }
    }
}

/// Whether every key of `table` is a name below `n`.
pub open spec fn in_range<V>(table: Map<int, V>, n: nat) -> bool {
    forall|d: int| #[trigger] table.dom().contains(d) ==> 0 <= d < n
}

/// The highest id below `n` that `ids` holds, if it holds one.
pub open spec fn last_in(ids: Set<int>, n: nat) -> Option<int>
    decreases n,
{
    if n == 0 {
        None
    } else if ids.contains(n - 1) {
        Some(n - 1)
    } else {
        last_in(ids, (n - 1) as nat)
    }
}

/// What [`last_in`] finds is an id of the set below `n`, and no higher one is;
/// it finds nothing only if there is none.
pub proof fn lemma_last_in(ids: Set<int>, n: nat)
    ensures
        last_in(ids, n) matches Some(e) ==> 0 <= e < n && ids.contains(e) && forall|i: int|
            e < i < n ==> !ids.contains(i),
        last_in(ids, n).is_none() ==> forall|i: int| 0 <= i < n ==> !ids.contains(i),
    decreases n,
{
    if n > 0 && !ids.contains(n - 1) {
        lemma_last_in(ids, (n - 1) as nat);
    }
}

impl DocumentView {
    /// Every section speaks of entities of the document only, and every level
    /// copy is well formed.
    pub open spec fn wf(self) -> bool {
        &&& self.entities < usize::MAX
        &&& in_range(self.positions, self.entities)
        &&& in_range(self.renderables, self.entities)
        &&& in_range(self.players, self.entities)
        &&& in_range(self.viewsheds, self.entities)
        &&& in_range(self.monsters, self.entities)
        &&& in_range(self.names, self.entities)
        &&& in_range(self.blockers, self.entities)
        &&& in_range(self.combat_stats, self.entities)
        &&& in_range(self.wants_to_melee, self.entities)
        &&& in_range(self.suffer_damage, self.entities)
        &&& in_range(self.items, self.entities)
        &&& in_range(self.consumables, self.entities)
        &&& in_range(self.ranged, self.entities)
        &&& in_range(self.provides_healing, self.entities)
        &&& in_range(self.provides_damage, self.entities)
        &&& in_range(self.area_of_effect, self.entities)
        &&& in_range(self.confusion, self.entities)
        &&& in_range(self.in_backpack, self.entities)
        &&& in_range(self.wants_to_pickup, self.entities)
        &&& in_range(self.wants_to_use, self.entities)
        &&& in_range(self.wants_to_drop, self.entities)
        &&& in_range(self.markers, self.entities)
        &&& in_range(self.helpers, self.entities)
        &&& forall|d: int| #[trigger] self.helpers.dom().contains(d) ==> self.helpers[d].wf()
    }

    /// The names of the entities that are marked as player and stand somewhere.
    pub open spec fn heroes(self) -> Set<int> {
        self.players.dom().intersect(self.positions.dom())
    }

    /// The entity that carries the level: the last one with a level copy.
    pub open spec fn helper(self) -> Option<int> {
        last_in(self.helpers.dom(), self.entities)
    }

    /// The entity that becomes the player: the last hero.
    pub open spec fn hero(self) -> Option<int> {
        last_in(self.heroes(), self.entities)
    }

    /// Whether a game can be restored from the document: it is well formed and
    /// holds both a level and a player.
    pub open spec fn loadable(self) -> bool {
        self.wf() && self.helper().is_some() && self.hero().is_some()
    }
}

/// The entities of `w` with an id below `n` that a save keeps, by id.
pub open spec fn roster(w: WorldView, n: nat) -> Seq<Entity>
    decreases n,
{
    if n == 0 {
        Seq::empty()
    } else if w.markers.dom().contains(n - 1) {
        roster(w, (n - 1) as nat).push(Entity { id: (n - 1) as usize })
    } else {
        roster(w, (n - 1) as nat)
    }
}

/// The name that a save gives to each entity of `w` with an id below `n` that
/// it keeps: its place in the [`roster`].
pub open spec fn ranks(w: WorldView, n: nat) -> Map<int, int>
    decreases n,
{
    if n == 0 {
        Map::empty()
    } else if w.markers.dom().contains(n - 1) {
        ranks(w, (n - 1) as nat).insert(n - 1, roster(w, (n - 1) as nat).len() as int)
    } else {
        ranks(w, (n - 1) as nat)
    }
}

/// Roster and ranks are inverse to each other, and the ranks rise with the
/// ids.
pub proof fn lemma_roster(w: WorldView, n: nat)
    requires
        n <= usize::MAX,
    ensures
        roster(w, n).len() <= n,
        forall|d: int|
            0 <= d < roster(w, n).len() ==> {
                &&& 0 <= (#[trigger] roster(w, n)[d])@ < n
                &&& w.markers.dom().contains(roster(w, n)[d]@)
                &&& ranks(w, n).dom().contains(roster(w, n)[d]@)
                &&& ranks(w, n)[roster(w, n)[d]@] == d
            },
        forall|e: int| #[trigger]
            ranks(w, n).dom().contains(e) <==> 0 <= e < n && w.markers.dom().contains(e),
        forall|e: int| #[trigger]
            ranks(w, n).dom().contains(e) ==> 0 <= ranks(w, n)[e] < roster(w, n).len() && roster(
                w,
                n,
            )[ranks(w, n)[e]]@ == e,
    decreases n,
{
    if n > 0 {
        lemma_roster(w, (n - 1) as nat);
        let r0 = roster(w, (n - 1) as nat);
        let k0 = ranks(w, (n - 1) as nat);
        if w.markers.dom().contains(n - 1) {
            let r1 = roster(w, n);
            assert forall|d: int| 0 <= d < r1.len() implies {
                &&& 0 <= (#[trigger] r1[d])@ < n
                &&& w.markers.dom().contains(r1[d]@)
                &&& ranks(w, n).dom().contains(r1[d]@)
                &&& ranks(w, n)[r1[d]@] == d
            } by {
                if d < r0.len() {
                    assert(r1[d] == r0[d]);
                }
            }
            assert forall|e: int| #[trigger] ranks(w, n).dom().contains(e) implies 0 <= ranks(
                w,
                n,
            )[e] < r1.len() && r1[ranks(w, n)[e]]@ == e by {
                if e != n - 1 {
                    assert(k0.dom().contains(e));
                    assert(r1[k0[e]] == r0[k0[e]]);
                }
            }
        }
    }
}

/// A section of a save document: the components of `table` held by the
/// entities of `order`, each under the entity's place in `order` and in its
/// stored form.
pub open spec fn stored_table<T: Component>(
    table: Map<int, T::V>,
    order: Seq<Entity>,
    names: Map<int, int>,
) -> Map<int, T::V> {
    Map::new(
        |d: int| 0 <= d < order.len() && table.dom().contains(order[d]@),
        |d: int| T::stored(table[order[d]@], names),
    )
}

/// Whether every component of `table` that an entity of `order` holds refers
/// to named entities only.
pub open spec fn refs_named<T: Component>(
    table: Map<int, T::V>,
    order: Seq<Entity>,
    names: Map<int, int>,
) -> bool {
    forall|d: int|
        0 <= d < order.len() && table.dom().contains(#[trigger] order[d]@) ==> T::refs(
            table[order[d]@],
        ).subset_of(names.dom())
}

/// If the components of the kept entities refer to kept entities only, and
/// `order` lists kept entities, all of which `names` names, then every
/// reference in the section is named.
proof fn lemma_refs_named<T: Component>(
    table: Map<int, T::V>,
    kept: Set<int>,
    order: Seq<Entity>,
    names: Map<int, int>,
)
    requires
        forall|e: int|
            kept.contains(e) && #[trigger] table.dom().contains(e) ==> T::refs(
                table[e],
            ).subset_of(kept),
        forall|d: int| 0 <= d < order.len() ==> kept.contains(#[trigger] order[d]@),
        kept.subset_of(names.dom()),
    ensures
        refs_named::<T>(table, order, names),
{
}

/// Builds one section of a save document.
pub fn compact<T: Component>(table: &Storage<T>, order: &Vec<Entity>, names: &Storage<Entity>) -> (out:
    Storage<T>)
    requires
        refs_named::<T>(table@, order@, names@),
    ensures
        out@ == stored_table::<T>(table@, order@, names@),
{
    let mut out: Storage<T> = Storage::new();
    let mut d: usize = 0;
    assert(out@ =~= stored_table::<T>(table@, order@.take(0), names@));
    while d < order.len()
        invariant
            d <= order@.len(),
            refs_named::<T>(table@, order@, names@),
            out@ == stored_table::<T>(table@, order@.take(d as int), names@),
        decreases order@.len() - d,
    {
        let e = order[d];
        if let Some(value) = table.get(e) {
            assert(table@.dom().contains(order@[d as int]@));
            let copy = value.store(names);
            out.insert(Entity { id: d }, copy);
        }
        assert(out@ =~= stored_table::<T>(table@, order@.take(d + 1), names@));
        d += 1;
    }
    assert(order@.take(order@.len() as int) =~= order@);
    out
}

/// Lists the entities that a save keeps and gives each its name.
fn enroll(world: &World) -> (r: (Vec<Entity>, Storage<Entity>))
    requires
        world@.wf(),
    ensures
        r.0@ == roster(world@, world@.alive.len()),
        r.1@ == ranks(world@, world@.alive.len()),
{
    let n = world.alive.len();
    let mut order: Vec<Entity> = Vec::new();
    let mut names: Storage<Entity> = Storage::new();
    let mut i: usize = 0;
    assert(names@ =~= ranks(world@, 0));
    while i < n
        invariant
            i <= n,
            n == world@.alive.len(),
            n < usize::MAX,
            order@ == roster(world@, i as nat),
            names@ == ranks(world@, i as nat),
        decreases n - i,
    {
        let e = Entity { id: i };
        proof {
            lemma_roster(world@, i as nat);
        }
        if world.markers.contains(e) {
            names.insert(e, Entity { id: order.len() });
            order.push(e);
        }
        assert(names@ =~= ranks(world@, (i + 1) as nat));
        i += 1;
    }
    (order, names)
}

/// Whether every reference that a kept entity of `w` holds goes to a kept
/// entity.
pub open spec fn refs_saved(w: WorldView) -> bool {
    let kept = w.markers.dom();
    forall|e: int| #[trigger]
        kept.contains(e) ==> {
            &&& w.wants_to_melee.dom().contains(e) ==> WantsToMelee::refs(
                w.wants_to_melee[e],
            ).subset_of(kept)
            &&& w.in_backpack.dom().contains(e) ==> InBackpack::refs(
                w.in_backpack[e],
            ).subset_of(kept)
            &&& w.wants_to_pickup.dom().contains(e) ==> WantsToPickup::refs(
                w.wants_to_pickup[e],
            ).subset_of(kept)
            &&& w.wants_to_use.dom().contains(e) ==> WantsToUse::refs(
                w.wants_to_use[e],
            ).subset_of(kept)
            &&& w.wants_to_drop.dom().contains(e) ==> WantsToDrop::refs(
                w.wants_to_drop[e],
            ).subset_of(kept)
        }
}

/// The world during a save: one more entity, which is kept and carries a copy
/// of the level.
pub open spec fn with_helper(w: WorldView) -> WorldView {
    let helper = w.alive.len() as int;
    WorldView {
        alive: w.alive.push(true),
        helpers: w.helpers.insert(helper, w.map),
        markers: w.markers.insert(helper, SerializeThis {  }),
        ..w
    }
}

/// The document that holds the kept entities of `w`.
pub open spec fn snapshot(w: WorldView) -> DocumentView {
    let order = roster(w, w.alive.len());
    let names = ranks(w, w.alive.len());
    DocumentView {
        entities: order.len(),
        positions: stored_table::<Position>(w.positions, order, names),
        renderables: stored_table::<Renderable>(w.renderables, order, names),
        players: stored_table::<Player>(w.players, order, names),
        viewsheds: stored_table::<Viewshed>(w.viewsheds, order, names),
        monsters: stored_table::<Monster>(w.monsters, order, names),
        names: stored_table::<Name>(w.names, order, names),
        blockers: stored_table::<BlocksTile>(w.blockers, order, names),
        combat_stats: stored_table::<CombatStats>(w.combat_stats, order, names),
        wants_to_melee: stored_table::<WantsToMelee>(w.wants_to_melee, order, names),
        suffer_damage: stored_table::<SufferDamage>(w.suffer_damage, order, names),
        items: stored_table::<Item>(w.items, order, names),
        consumables: stored_table::<Consumable>(w.consumables, order, names),
        ranged: stored_table::<Ranged>(w.ranged, order, names),
        provides_healing: stored_table::<ProvidesHealing>(w.provides_healing, order, names),
        provides_damage: stored_table::<ProvidesDamage>(w.provides_damage, order, names),
        area_of_effect: stored_table::<AreaOfEffect>(w.area_of_effect, order, names),
        confusion: stored_table::<Confusion>(w.confusion, order, names),
        in_backpack: stored_table::<InBackpack>(w.in_backpack, order, names),
        wants_to_pickup: stored_table::<WantsToPickup>(w.wants_to_pickup, order, names),
        wants_to_use: stored_table::<WantsToUse>(w.wants_to_use, order, names),
        wants_to_drop: stored_table::<WantsToDrop>(w.wants_to_drop, order, names),
        markers: stored_table::<SerializeThis>(w.markers, order, names),
        helpers: stored_table::<SerializationHelper>(w.helpers, order, names),
    }
}

/// The document that a save of `w` writes: a snapshot taken while the helper
/// entity exists.
pub open spec fn saved_document(w: WorldView) -> DocumentView {
    snapshot(with_helper(w))
}

/// Takes a snapshot of the world. For its duration a helper entity carries a
/// copy of the level; it is deleted before the function returns, so all that
/// stays of it in the world is its used-up id.
pub fn save_game(ecs: &mut World) -> (doc: SaveDocument)
    requires
        old(ecs)@.wf(),
        old(ecs)@.alive.len() + 1 < usize::MAX,
        refs_saved(old(ecs)@),
    ensures
        doc@ == saved_document(old(ecs)@),
        final(ecs)@ == (WorldView { alive: old(ecs)@.alive.push(false), ..old(ecs)@ }),
        final(ecs)@.wf(),
{
    let ghost w0 = ecs@;
    let mapcopy = ecs.map.duplicate();
    let savehelper = ecs.create_entity();
    ecs.helpers.insert(savehelper, SerializationHelper { map: mapcopy });
    ecs.markers.insert(savehelper, SerializeThis {  });
    let ghost w1 = ecs@;
    assert(w1 =~= with_helper(w0));
    let (order, names) = enroll(ecs);
    proof {
        lemma_roster(w1, w1.alive.len());
        lemma_refs_named::<WantsToMelee>(w1.wants_to_melee, w1.markers.dom(), order@, names@);
        lemma_refs_named::<InBackpack>(w1.in_backpack, w1.markers.dom(), order@, names@);
        lemma_refs_named::<WantsToPickup>(w1.wants_to_pickup, w1.markers.dom(), order@, names@);
        lemma_refs_named::<WantsToUse>(w1.wants_to_use, w1.markers.dom(), order@, names@);
        lemma_refs_named::<WantsToDrop>(w1.wants_to_drop, w1.markers.dom(), order@, names@);
    }
    let doc = SaveDocument {
        entities: order.len(),
        positions: compact(&ecs.positions, &order, &names),
        renderables: compact(&ecs.renderables, &order, &names),
        players: compact(&ecs.players, &order, &names),
        viewsheds: compact(&ecs.viewsheds, &order, &names),
        monsters: compact(&ecs.monsters, &order, &names),
        names: compact(&ecs.names, &order, &names),
        blockers: compact(&ecs.blockers, &order, &names),
        combat_stats: compact(&ecs.combat_stats, &order, &names),
        wants_to_melee: compact(&ecs.wants_to_melee, &order, &names),
        suffer_damage: compact(&ecs.suffer_damage, &order, &names),
        items: compact(&ecs.items, &order, &names),
        consumables: compact(&ecs.consumables, &order, &names),
        ranged: compact(&ecs.ranged, &order, &names),
        provides_healing: compact(&ecs.provides_healing, &order, &names),
        provides_damage: compact(&ecs.provides_damage, &order, &names),
        area_of_effect: compact(&ecs.area_of_effect, &order, &names),
        confusion: compact(&ecs.confusion, &order, &names),
        in_backpack: compact(&ecs.in_backpack, &order, &names),
        wants_to_pickup: compact(&ecs.wants_to_pickup, &order, &names),
        wants_to_use: compact(&ecs.wants_to_use, &order, &names),
        wants_to_drop: compact(&ecs.wants_to_drop, &order, &names),
        markers: compact(&ecs.markers, &order, &names),
        helpers: compact(&ecs.helpers, &order, &names),
    };
    ecs.delete_entity(savehelper);
    assert(ecs@ =~= (WorldView { alive: w0.alive.push(false), ..w0 }));
    doc
}

/// The world that a load builds from `doc`. Of the world `w` before it only
/// the log and the phase stay. Every entity of the document exists, but for
/// the helper; the level is the helper's copy with an empty occupant index; the
/// player handle and position are those of the hero.
pub open spec fn loaded(w: WorldView, doc: DocumentView) -> WorldView {
    let helper = doc.helper().unwrap();
    let hero = doc.hero().unwrap();
    WorldView {
        alive: Seq::new(doc.entities, |i: int| true),
        doomed: Map::empty(),
        positions: doc.positions,
        renderables: doc.renderables,
        players: doc.players,
        viewsheds: doc.viewsheds,
        monsters: doc.monsters,
        names: doc.names,
        blockers: doc.blockers,
        combat_stats: doc.combat_stats,
        wants_to_melee: doc.wants_to_melee,
        suffer_damage: doc.suffer_damage,
        items: doc.items,
        consumables: doc.consumables,
        ranged: doc.ranged,
        provides_healing: doc.provides_healing,
        provides_damage: doc.provides_damage,
        area_of_effect: doc.area_of_effect,
        confusion: doc.confusion,
        in_backpack: doc.in_backpack,
        wants_to_pickup: doc.wants_to_pickup,
        wants_to_use: doc.wants_to_use,
        wants_to_drop: doc.wants_to_drop,
        markers: doc.markers,
        helpers: doc.helpers,
        map: doc.helpers[helper].vacated(),
        player: Entity { id: hero as usize },
        player_pos: Point { x: doc.positions[hero].x, y: doc.positions[hero].y },
        log: w.log,
        runstate: w.runstate,
    }.without(Entity { id: helper as usize })
}

/// Finds the highest id below `n` in `table`.
fn find_last<T: View>(table: &Storage<T>, n: usize) -> (r: Option<Entity>)
    ensures
        r.is_some() == last_in(table@.dom(), n as nat).is_some(),
        r matches Some(e) ==> last_in(table@.dom(), n as nat) == Some(e@),
{
    let mut i: usize = n;
    while i > 0
        invariant
            i <= n,
            last_in(table@.dom(), n as nat) == last_in(table@.dom(), i as nat),
        decreases i,
    {
        i -= 1;
        if table.contains(Entity { id: i }) {
            return Some(Entity { id: i });
        }
    }
    None
}

/// Finds the highest id below `n` that both tables hold.
fn find_last_in_both<T: View, U: View>(first: &Storage<T>, second: &Storage<U>, n: usize) -> (r:
    Option<Entity>)
    ensures
        r.is_some() == last_in(first@.dom().intersect(second@.dom()), n as nat).is_some(),
        r matches Some(e) ==> last_in(first@.dom().intersect(second@.dom()), n as nat) == Some(e@),
{
    let ghost ids = first@.dom().intersect(second@.dom());
    let mut i: usize = n;
    while i > 0
        invariant
            i <= n,
            ids == first@.dom().intersect(second@.dom()),
            last_in(ids, n as nat) == last_in(ids, i as nat),
        decreases i,
    {
        i -= 1;
        let e = Entity { id: i };
        if first.contains(e) && second.contains(e) {
            return Some(e);
        }
    }
    None
}

impl SaveDocument {
    /// Whether a game can be restored from the document.
    pub fn is_loadable(&self) -> (b: bool)
        ensures
            b == self@.loadable(),
    {
        let n = self.entities;
        if n == usize::MAX {
            return false;
        }
        if !self.positions.fits(n) {
            return false;
        }
        if !self.renderables.fits(n) {
            return false;
        }
        if !self.players.fits(n) {
            return false;
        }
        if !self.viewsheds.fits(n) {
            return false;
        }
        if !self.monsters.fits(n) {
            return false;
        }
        if !self.names.fits(n) {
            return false;
        }
        if !self.blockers.fits(n) {
            return false;
        }
        if !self.combat_stats.fits(n) {
            return false;
        }
        if !self.wants_to_melee.fits(n) {
            return false;
        }
        if !self.suffer_damage.fits(n) {
            return false;
        }
        if !self.items.fits(n) {
            return false;
        }
        if !self.consumables.fits(n) {
            return false;
        }
        if !self.ranged.fits(n) {
            return false;
        }
        if !self.provides_healing.fits(n) {
            return false;
        }
        if !self.provides_damage.fits(n) {
            return false;
        }
        if !self.area_of_effect.fits(n) {
            return false;
        }
        if !self.confusion.fits(n) {
            return false;
        }
        if !self.in_backpack.fits(n) {
            return false;
        }
        if !self.wants_to_pickup.fits(n) {
            return false;
        }
        if !self.wants_to_use.fits(n) {
            return false;
        }
        if !self.wants_to_drop.fits(n) {
            return false;
        }
        if !self.markers.fits(n) {
            return false;
        }
        if !self.helpers.fits(n) {
            return false;
        }
        let mut i: usize = 0;
        while i < n
            invariant
                i <= n,
                in_range(self@.helpers, n as nat),
                forall|d: int| 0 <= d < i && self@.helpers.dom().contains(d) ==> self@.helpers[d].wf(),
            decreases n - i,
        {
            if let Some(h) = self.helpers.get(Entity { id: i }) {
                if !h.map.is_well_formed() {
                    assert(!self@.helpers[i as int].wf());
                    return false;
                }
            }
            i += 1;
        }
        assert(self@.wf());
        if find_last(&self.helpers, n).is_none() {
            return false;
        }
        find_last_in_both(&self.players, &self.positions, n).is_some()
    }
}

/// Replaces the world by the saved game: every entity is deleted, the
/// entities of the document are created under fresh ids, the level is taken
/// from the helper, which is then deleted, and the player handle and position
/// are pointed at the hero. The fresh ids start again at 0: every handle kept
/// from before the load is void, and may by now name a restored entity.
pub fn load_game(ecs: &mut World, doc: SaveDocument)
    requires
        doc@.loadable(),
    ensures
        final(ecs)@ == loaded(old(ecs)@, doc@),
        final(ecs)@.wf(),
{
    let ghost w0 = ecs@;
    let ghost d0 = doc@;
    let n = doc.entities;
    let mut alive: Vec<bool> = Vec::new();
    let mut i: usize = 0;
    while i < n
        invariant
            i <= n,
            alive@.len() == i,
            forall|k: int| 0 <= k < i ==> alive@[k],
        decreases n - i,
    {
        alive.push(true);
        i += 1;
    }
    assert(alive@ =~= Seq::new(n as nat, |i: int| true));
    let helper = find_last(&doc.helpers, n);
    let hero = find_last_in_both(&doc.players, &doc.positions, n);
    proof {
        lemma_last_in(d0.helpers.dom(), n as nat);
        lemma_last_in(d0.heroes(), n as nat);
    }
    ecs.alive = alive;
    ecs.doomed = Storage::new();
    ecs.positions = doc.positions;
    ecs.renderables = doc.renderables;
    ecs.players = doc.players;
    ecs.viewsheds = doc.viewsheds;
    ecs.monsters = doc.monsters;
    ecs.names = doc.names;
    ecs.blockers = doc.blockers;
    ecs.combat_stats = doc.combat_stats;
    ecs.wants_to_melee = doc.wants_to_melee;
    ecs.suffer_damage = doc.suffer_damage;
    ecs.items = doc.items;
    ecs.consumables = doc.consumables;
    ecs.ranged = doc.ranged;
    ecs.provides_healing = doc.provides_healing;
    ecs.provides_damage = doc.provides_damage;
    ecs.area_of_effect = doc.area_of_effect;
    ecs.confusion = doc.confusion;
    ecs.in_backpack = doc.in_backpack;
    ecs.wants_to_pickup = doc.wants_to_pickup;
    ecs.wants_to_use = doc.wants_to_use;
    ecs.wants_to_drop = doc.wants_to_drop;
    ecs.markers = doc.markers;
    ecs.helpers = doc.helpers;
    if let Some(e) = hero {
        if let Some(pos) = ecs.positions.get(e) {
            ecs.player_pos = Point { x: pos.x, y: pos.y };
        }
        ecs.player = e;
    }
    if let Some(deleteme) = helper {
        if let Some(carried) = ecs.helpers.remove(deleteme) {
            ecs.map = carried.map;
            ecs.map.clear_content();
        }
        proof {
            assert(d0.helpers.dom().contains(deleteme@));
            assert(d0.helpers[deleteme@].wf());
            assert(ecs@.wf());
        }
        ecs.delete_entity(deleteme);
    }
    assert(ecs@ =~= loaded(w0, d0));
}

/// Whether the entity named `d` holds in `back` what the entity of id `e` held
/// in `orig`, in its stored form.
pub open spec fn kept<T: Component>(
    orig: Map<int, T::V>,
    back: Map<int, T::V>,
    e: int,
    d: int,
    names: Map<int, int>,
) -> bool {
    &&& back.dom().contains(d) == orig.dom().contains(e)
    &&& orig.dom().contains(e) ==> back[d] == T::stored(orig[e], names)
}

/// The names that a save of `w` gives to the entities it keeps.
pub open spec fn saved_names(w: WorldView) -> Map<int, int> {
    ranks(with_helper(w), (w.alive.len() + 1) as nat)
}

/// Saving a world and loading the document, into whatever world, brings every
/// kept entity back under its name: it exists, and of every kind it holds
/// exactly what it held, each reference inside now going to the name of the
/// entity it went to. The level comes back with an empty occupant index.
pub proof fn lemma_round_trip(w: WorldView, before: WorldView, e: Entity)
    requires
        w.wf(),
        w.alive.len() + 1 < usize::MAX,
        w.markers.dom().contains(e@),
    ensures
        ({
            let back = loaded(before, saved_document(w));
            let names = saved_names(w);
            let d = names[e@];
            &&& names.dom().contains(e@)
            &&& back.is_alive(Entity { id: d as usize })
            &&& back.map == w.map.vacated()
            &&& back.log == before.log
            &&& back.runstate == before.runstate
            &&& kept::<Position>(w.positions, back.positions, e@, d, names)
            &&& kept::<Renderable>(w.renderables, back.renderables, e@, d, names)
            &&& kept::<Player>(w.players, back.players, e@, d, names)
            &&& kept::<Viewshed>(w.viewsheds, back.viewsheds, e@, d, names)
            &&& kept::<Monster>(w.monsters, back.monsters, e@, d, names)
            &&& kept::<Name>(w.names, back.names, e@, d, names)
            &&& kept::<BlocksTile>(w.blockers, back.blockers, e@, d, names)
            &&& kept::<CombatStats>(w.combat_stats, back.combat_stats, e@, d, names)
            &&& kept::<WantsToMelee>(w.wants_to_melee, back.wants_to_melee, e@, d, names)
            &&& kept::<SufferDamage>(w.suffer_damage, back.suffer_damage, e@, d, names)
            &&& kept::<Item>(w.items, back.items, e@, d, names)
            &&& kept::<Consumable>(w.consumables, back.consumables, e@, d, names)
            &&& kept::<Ranged>(w.ranged, back.ranged, e@, d, names)
            &&& kept::<ProvidesHealing>(w.provides_healing, back.provides_healing, e@, d, names)
            &&& kept::<ProvidesDamage>(w.provides_damage, back.provides_damage, e@, d, names)
            &&& kept::<AreaOfEffect>(w.area_of_effect, back.area_of_effect, e@, d, names)
            &&& kept::<Confusion>(w.confusion, back.confusion, e@, d, names)
            &&& kept::<InBackpack>(w.in_backpack, back.in_backpack, e@, d, names)
            &&& kept::<WantsToPickup>(w.wants_to_pickup, back.wants_to_pickup, e@, d, names)
            &&& kept::<WantsToUse>(w.wants_to_use, back.wants_to_use, e@, d, names)
            &&& kept::<WantsToDrop>(w.wants_to_drop, back.wants_to_drop, e@, d, names)
            &&& kept::<SerializeThis>(w.markers, back.markers, e@, d, names)
            &&& kept::<SerializationHelper>(w.helpers, back.helpers, e@, d, names)
        }),
{
    let w1 = with_helper(w);
    let n = w.alive.len();
    let doc = saved_document(w);
    let order = roster(w1, (n + 1) as nat);
    let names = saved_names(w);
    lemma_roster(w1, (n + 1) as nat);
    lemma_roster(w1, n);
    lemma_last_in(doc.helpers.dom(), doc.entities);
    let top = roster(w1, n).len() as int;
    assert(order[top]@ == n);
    assert(doc.helpers.dom().contains(top));
    assert(doc.entities == top + 1);
    assert(doc.helper() == Some(top));
    let d = names[e@];
    assert(0 <= e@ < n);
    assert(w1.markers.dom().contains(e@));
    assert(ranks(w1, n).dom().contains(e@));
    assert(names.dom().contains(e@));
    assert(d == ranks(w1, n)[e@]);
    assert(d < top);
    assert(roster(w1, n)[d]@ == e@);
    assert(order[d] == roster(w1, n)[d]);
    assert(order[d]@ == e@);
    assert(doc.helpers[top] == w.map.vacated());
    assert(w.map.vacated().vacated() =~= w.map.vacated());
}

/// The document of a save can be loaded again, provided that the world keeps
/// an entity that is marked as player and stands somewhere, and that any level
/// copy it still carries is well formed.
pub proof fn lemma_saved_document_loadable(w: WorldView, hero: Entity)
    requires
        w.wf(),
        w.alive.len() + 1 < usize::MAX,
        w.markers.dom().contains(hero@),
        w.players.dom().contains(hero@),
        w.positions.dom().contains(hero@),
        forall|e: int| #[trigger] w.helpers.dom().contains(e) ==> w.helpers[e].wf(),
    ensures
        saved_document(w).loadable(),
{
    let w1 = with_helper(w);
    let n = w.alive.len();
    let doc = saved_document(w);
    let order = roster(w1, (n + 1) as nat);
    let names = saved_names(w);
    lemma_roster(w1, (n + 1) as nat);
    lemma_roster(w1, n);
    lemma_last_in(doc.helpers.dom(), doc.entities);
    lemma_last_in(doc.heroes(), doc.entities);
    let top = roster(w1, n).len() as int;
    assert(order[top]@ == n);
    assert(doc.helpers.dom().contains(top));
    assert(0 <= hero@ < n);
    assert(w1.markers.dom().contains(hero@));
    assert(names.dom().contains(hero@));
    let d = names[hero@];
    assert(order[d]@ == hero@);
    assert(doc.heroes().contains(d));
    assert forall|k: int| #[trigger] doc.helpers.dom().contains(k) implies doc.helpers[k].wf() by {
        let src = order[k]@;
        assert(w1.helpers.dom().contains(src));
        assert(w1.helpers[src].wf());
    }
}

/// A save gives different names to different entities.
pub proof fn lemma_names_distinct(w: WorldView, a: Entity, b: Entity)
    requires
        w.alive.len() + 1 < usize::MAX,
        saved_names(w).dom().contains(a@),
        saved_names(w).dom().contains(b@),
        a != b,
    ensures
        saved_names(w)[a@] != saved_names(w)[b@],
{
    lemma_roster(with_helper(w), (w.alive.len() + 1) as nat);
}

/// Whether [`save_game`] may be called: the world is well formed, one more
/// entity fits, and every reference of a kept entity goes to a kept entity.
pub fn can_save(ecs: &World) -> (b: bool)
    ensures
        b == (ecs@.wf() && ecs@.alive.len() + 1 < usize::MAX && refs_saved(ecs@)),
{
    if !ecs.is_well_formed() || ecs.alive.len() >= usize::MAX - 1 {
        return false;
    }
    let n = ecs.alive.len();
    let mut i: usize = 0;
    while i < n
        invariant
            i <= n,
            n == ecs@.alive.len(),
            ecs@.wf(),
            forall|e: int|
                0 <= e < i && #[trigger] ecs@.markers.dom().contains(e) ==> {
                    let kept = ecs@.markers.dom();
                    &&& ecs@.wants_to_melee.dom().contains(e) ==> WantsToMelee::refs(
                        ecs@.wants_to_melee[e],
                    ).subset_of(kept)
                    &&& ecs@.in_backpack.dom().contains(e) ==> InBackpack::refs(
                        ecs@.in_backpack[e],
                    ).subset_of(kept)
                    &&& ecs@.wants_to_pickup.dom().contains(e) ==> WantsToPickup::refs(
                        ecs@.wants_to_pickup[e],
                    ).subset_of(kept)
                    &&& ecs@.wants_to_use.dom().contains(e) ==> WantsToUse::refs(
                        ecs@.wants_to_use[e],
                    ).subset_of(kept)
                    &&& ecs@.wants_to_drop.dom().contains(e) ==> WantsToDrop::refs(
                        ecs@.wants_to_drop[e],
                    ).subset_of(kept)
                },
        decreases n - i,
    {
        let e = Entity { id: i };
        if ecs.markers.contains(e) {
            let ghost kept = ecs@.markers.dom();
            if let Some(c) = ecs.wants_to_melee.get(e) {
                if !ecs.markers.contains(c.target) {
                    assert(WantsToMelee::refs(*c).contains(c.target@));
                    return false;
                }
            }
            if let Some(c) = ecs.in_backpack.get(e) {
                if !ecs.markers.contains(c.owner) {
                    assert(InBackpack::refs(*c).contains(c.owner@));
                    return false;
                }
            }
            if let Some(c) = ecs.wants_to_pickup.get(e) {
                if !ecs.markers.contains(c.collected_by) || !ecs.markers.contains(c.item) {
                    assert(WantsToPickup::refs(*c).contains(c.collected_by@));
                    assert(WantsToPickup::refs(*c).contains(c.item@));
                    return false;
                }
            }
            if let Some(c) = ecs.wants_to_use.get(e) {
                if !ecs.markers.contains(c.item) {
                    assert(WantsToUse::refs(*c).contains(c.item@));
                    return false;
                }
            }
            if let Some(c) = ecs.wants_to_drop.get(e) {
                if !ecs.markers.contains(c.item) {
                    assert(WantsToDrop::refs(*c).contains(c.item@));
                    return false;
                }
            }
        }
        i += 1;
    }
    proof {
        assert forall|e: int| #[trigger] ecs@.markers.dom().contains(e) implies 0 <= e < n by {}
    }
    true
}


/// Every entity that exists after a save and a load came from a kept one: it
/// bears the name that the save gave to some kept entity. With
/// [`lemma_names_distinct`] and [`lemma_round_trip`], the kept entities and the
/// restored ones correspond one to one.
pub proof fn lemma_restored_from_kept(w: WorldView, before: WorldView, d: Entity)
    requires
        w.wf(),
        w.alive.len() + 1 < usize::MAX,
        loaded(before, saved_document(w)).is_alive(d),
    ensures
        exists|e: int| #[trigger]
            w.markers.dom().contains(e) && saved_names(w).dom().contains(e) && saved_names(w)[e]
                == d@,
{
    let w1 = with_helper(w);
    let n = w.alive.len();
    let doc = saved_document(w);
    let order = roster(w1, (n + 1) as nat);
    lemma_roster(w1, (n + 1) as nat);
    lemma_roster(w1, n);
    lemma_last_in(doc.helpers.dom(), doc.entities);
    let top = roster(w1, n).len() as int;
    assert(order[top]@ == n);
    assert(doc.helpers.dom().contains(top));
    assert(doc.helper() == Some(top));
    assert(0 <= d@ < top);
    let e = roster(w1, n)[d@]@;
    assert(w1.markers.dom().contains(e));
    assert(order[d@] == roster(w1, n)[d@]);
    assert(w.markers.dom().contains(e));
    assert(saved_names(w).dom().contains(e) && saved_names(w)[e] == d@);
}

/// After a save and a load, what a kept entity referred to is what it refers
/// to again: the owner of a backpack item and the target of an attack are the
/// restored counterparts of the old ones, they exist, and they have the name
/// the old ones had.
pub proof fn lemma_round_trip_references(w: WorldView, before: WorldView, e: Entity)
    requires
        w.wf(),
        w.alive.len() + 1 < usize::MAX,
        refs_saved(w),
        w.markers.dom().contains(e@),
    ensures
        ({
            let back = loaded(before, saved_document(w));
            let names = saved_names(w);
            let d = names[e@];
            &&& w.in_backpack.dom().contains(e@) ==> {
                let owner = w.in_backpack[e@].owner;
                &&& names.dom().contains(owner@)
                &&& back.in_backpack[d].owner@ == names[owner@]
                &&& back.is_alive(back.in_backpack[d].owner)
                &&& kept::<Name>(w.names, back.names, owner@, names[owner@], names)
                &&& kept::<Player>(w.players, back.players, owner@, names[owner@], names)
            }
            &&& w.wants_to_melee.dom().contains(e@) ==> {
                let target = w.wants_to_melee[e@].target;
                &&& names.dom().contains(target@)
                &&& back.wants_to_melee[d].target@ == names[target@]
                &&& back.is_alive(back.wants_to_melee[d].target)
                &&& kept::<Name>(w.names, back.names, target@, names[target@], names)
                &&& kept::<Player>(w.players, back.players, target@, names[target@], names)
            }
        }),
{
    lemma_round_trip(w, before, e);
    lemma_roster(with_helper(w), (w.alive.len() + 1) as nat);
    if w.in_backpack.dom().contains(e@) {
        let owner = w.in_backpack[e@].owner;
        assert(InBackpack::refs(w.in_backpack[e@]).contains(owner@));
        assert(w.markers.dom().contains(owner@));
        lemma_round_trip(w, before, owner);
    }
    if w.wants_to_melee.dom().contains(e@) {
        let target = w.wants_to_melee[e@].target;
        assert(WantsToMelee::refs(w.wants_to_melee[e@]).contains(target@));
        assert(w.markers.dom().contains(target@));
        lemma_round_trip(w, before, target);
    }
}

} // verus!
