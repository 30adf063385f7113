use vstd::prelude::*;
use rltk::Point;
use crate::map::{TileMap, TileMapView};
use crate::storage::{Entity, Storage};

verus! {

/// What every component kind offers to the persistence code: which entities a
/// value refers to, and the form in which it is written to a save document.
pub trait Component: View + Sized {
    /// The ids of the entities that the value refers to.
    spec fn refs(v: Self::V) -> Set<int>;

    /// The value as a save document holds it: every entity it refers to is
    /// replaced by the name that `names` gives it.
    spec fn stored(v: Self::V, names: Map<int, int>) -> Self::V;

    /// A copy of the value in its stored form.
    fn store(&self, names: &Storage<Entity>) -> (r: Self)
        requires
            Self::refs(self@).subset_of(names@.dom()),
        ensures
            r@ == Self::stored(self@, names@),
    ;
}

/// An entity id under a renaming.
pub open spec fn rename(e: Entity, names: Map<int, int>) -> Entity {
    Entity { id: names[e@] as usize }
}

/// Looks up the name that `names` gives to `e`.
pub fn renamed(e: Entity, names: &Storage<Entity>) -> (r: Entity)
    requires
        names@.dom().contains(e@),
    ensures
        r@ == names@[e@],
        r == rename(e, names@),
{
    match names.get(e) {
        Some(n) => *n,
        None => e,
    }
}

/// An 8-bit colour.
#[derive(Clone, Copy, Debug, PartialEq, Eq, Structural)]
pub struct Color {
    pub r: u8,
    pub g: u8,
    pub b: u8,
}

/// Where on the grid something is. An item in a backpack has none.
#[derive(Clone, Copy, Debug, PartialEq, Eq, Structural)]
pub struct Position {
    pub x: i32,
    pub y: i32,
}

impl View for Position {
    type V = Position;

    open spec fn view(&self) -> Position {
        *self
    }
}

impl Component for Position {
    open spec fn refs(v: Position) -> Set<int> {
        Set::empty()
    }

    open spec fn stored(v: Position, names: Map<int, int>) -> Position {
        v
    }

    fn store(&self, names: &Storage<Entity>) -> (r: Position) {
        *self
    }
}

/// How something is drawn: a code page 437 glyph, its colours, and its drawing layer.
#[derive(Clone, Copy, Debug, PartialEq, Eq, Structural)]
pub struct Renderable {
    pub glyph: u16,
    pub fg: Color,
    pub bg: Color,
    pub render_order: i32,
}

impl View for Renderable {
    type V = Renderable;

    open spec fn view(&self) -> Renderable {
        *self
    }
}

impl Component for Renderable {
    open spec fn refs(v: Renderable) -> Set<int> {
        Set::empty()
    }

    open spec fn stored(v: Renderable, names: Map<int, int>) -> Renderable {
        v
    }

    fn store(&self, names: &Storage<Entity>) -> (r: Renderable) {
        *self
    }
}

/// Marks the entity that the user steers.
#[derive(Clone, Copy, Debug, PartialEq, Eq, Structural)]
pub struct Player {}

impl View for Player {
    type V = Player;

    open spec fn view(&self) -> Player {
        *self
    }
}

impl Component for Player {
    open spec fn refs(v: Player) -> Set<int> {
        Set::empty()
    }

    open spec fn stored(v: Player, names: Map<int, int>) -> Player {
        v
    }

    fn store(&self, names: &Storage<Entity>) -> (r: Player) {
        *self
    }
}

/// Marks a creature that acts on its own.
#[derive(Clone, Copy, Debug, PartialEq, Eq, Structural)]
pub struct Monster {}

impl View for Monster {
    type V = Monster;

    open spec fn view(&self) -> Monster {
        *self
    }
}

impl Component for Monster {
    open spec fn refs(v: Monster) -> Set<int> {
        Set::empty()
    }

    open spec fn stored(v: Monster, names: Map<int, int>) -> Monster {
        v
    }

    fn store(&self, names: &Storage<Entity>) -> (r: Monster) {
        *self
    }
}

/// Marks something that nothing else can walk onto.
#[derive(Clone, Copy, Debug, PartialEq, Eq, Structural)]
pub struct BlocksTile {}

impl View for BlocksTile {
    type V = BlocksTile;

    open spec fn view(&self) -> BlocksTile {
        *self
    }
}

impl Component for BlocksTile {
    open spec fn refs(v: BlocksTile) -> Set<int> {
        Set::empty()
    }

    open spec fn stored(v: BlocksTile, names: Map<int, int>) -> BlocksTile {
        v
    }

    fn store(&self, names: &Storage<Entity>) -> (r: BlocksTile) {
        *self
    }
}

/// Health and fighting strength. `hp` may sink below zero until the dead are swept.
#[derive(Clone, Copy, Debug, PartialEq, Eq, Structural)]
pub struct CombatStats {
    pub max_hp: i32,
    pub hp: i32,
    pub defense: i32,
    pub power: i32,
}

impl View for CombatStats {
    type V = CombatStats;

    open spec fn view(&self) -> CombatStats {
        *self
    }
}

impl Component for CombatStats {
    open spec fn refs(v: CombatStats) -> Set<int> {
        Set::empty()
    }

    open spec fn stored(v: CombatStats, names: Map<int, int>) -> CombatStats {
        v
    }

    fn store(&self, names: &Storage<Entity>) -> (r: CombatStats) {
        *self
    }
}

/// Intent: attack `target` hand to hand this turn.
#[derive(Clone, Copy, Debug, PartialEq, Eq, Structural)]
pub struct WantsToMelee {
    pub target: Entity,
}

impl View for WantsToMelee {
    type V = WantsToMelee;

    open spec fn view(&self) -> WantsToMelee {
        *self
    }
}

impl Component for WantsToMelee {
    open spec fn refs(v: WantsToMelee) -> Set<int> {
        Set::empty().insert(v.target@)
    }

    open spec fn stored(v: WantsToMelee, names: Map<int, int>) -> WantsToMelee {
        WantsToMelee { target: rename(v.target, names) }
    }

    fn store(&self, names: &Storage<Entity>) -> (r: WantsToMelee) {
        WantsToMelee { target: renamed(self.target, names) }
    }
}

/// Marks something that can be picked up.
#[derive(Clone, Copy, Debug, PartialEq, Eq, Structural)]
pub struct Item {}

impl View for Item {
    type V = Item;

    open spec fn view(&self) -> Item {
        *self
    }
}

impl Component for Item {
    open spec fn refs(v: Item) -> Set<int> {
        Set::empty()
    }

    open spec fn stored(v: Item, names: Map<int, int>) -> Item {
        v
    }

    fn store(&self, names: &Storage<Entity>) -> (r: Item) {
        *self
    }
}

/// Marks an item that is used up when one of its effects fires.
#[derive(Clone, Copy, Debug, PartialEq, Eq, Structural)]
pub struct Consumable {}

impl View for Consumable {
    type V = Consumable;

    open spec fn view(&self) -> Consumable {
        *self
    }
}

impl Component for Consumable {
    open spec fn refs(v: Consumable) -> Set<int> {
        Set::empty()
    }

    open spec fn stored(v: Consumable, names: Map<int, int>) -> Consumable {
        v
    }

    fn store(&self, names: &Storage<Entity>) -> (r: Consumable) {
        *self
    }
}

/// How far an item reaches. Advisory: the effect resolver does not enforce it.
#[derive(Clone, Copy, Debug, PartialEq, Eq, Structural)]
pub struct Ranged {
    pub range: i32,
}

impl View for Ranged {
    type V = Ranged;

    open spec fn view(&self) -> Ranged {
        *self
    }
}

impl Component for Ranged {
    open spec fn refs(v: Ranged) -> Set<int> {
        Set::empty()
    }

    open spec fn stored(v: Ranged, names: Map<int, int>) -> Ranged {
        v
    }

    fn store(&self, names: &Storage<Entity>) -> (r: Ranged) {
        *self
    }
}

/// The item heals by `heal_amount`.
#[derive(Clone, Copy, Debug, PartialEq, Eq, Structural)]
pub struct ProvidesHealing {
    pub heal_amount: i32,
}

impl View for ProvidesHealing {
    type V = ProvidesHealing;

    open spec fn view(&self) -> ProvidesHealing {
        *self
    }
}

impl Component for ProvidesHealing {
    open spec fn refs(v: ProvidesHealing) -> Set<int> {
        Set::empty()
    }

    open spec fn stored(v: ProvidesHealing, names: Map<int, int>) -> ProvidesHealing {
        v
    }

    fn store(&self, names: &Storage<Entity>) -> (r: ProvidesHealing) {
        *self
    }
}

/// The item deals `damage_amount`.
#[derive(Clone, Copy, Debug, PartialEq, Eq, Structural)]
pub struct ProvidesDamage {
    pub damage_amount: i32,
}

impl View for ProvidesDamage {
    type V = ProvidesDamage;

    open spec fn view(&self) -> ProvidesDamage {
        *self
    }
}

impl Component for ProvidesDamage {
    open spec fn refs(v: ProvidesDamage) -> Set<int> {
        Set::empty()
    }

    open spec fn stored(v: ProvidesDamage, names: Map<int, int>) -> ProvidesDamage {
        v
    }

    fn store(&self, names: &Storage<Entity>) -> (r: ProvidesDamage) {
        *self
    }
}

/// The item strikes every tile seen from its target within `radius`.
#[derive(Clone, Copy, Debug, PartialEq, Eq, Structural)]
pub struct AreaOfEffect {
    pub radius: i32,
}

impl View for AreaOfEffect {
    type V = AreaOfEffect;

    open spec fn view(&self) -> AreaOfEffect {
        *self
    }
}

impl Component for AreaOfEffect {
    open spec fn refs(v: AreaOfEffect) -> Set<int> {
        Set::empty()
    }

    open spec fn stored(v: AreaOfEffect, names: Map<int, int>) -> AreaOfEffect {
        v
    }

    fn store(&self, names: &Storage<Entity>) -> (r: AreaOfEffect) {
        *self
    }
}

/// On an item: it confuses for `turns`. On a creature: it is confused for `turns`.
#[derive(Clone, Copy, Debug, PartialEq, Eq, Structural)]
pub struct Confusion {
    pub turns: i32,
}

impl View for Confusion {
    type V = Confusion;

    open spec fn view(&self) -> Confusion {
        *self
    }
}

impl Component for Confusion {
    open spec fn refs(v: Confusion) -> Set<int> {
        Set::empty()
    }

    open spec fn stored(v: Confusion, names: Map<int, int>) -> Confusion {
        v
    }

    fn store(&self, names: &Storage<Entity>) -> (r: Confusion) {
        *self
    }
}

/// The item is carried by `owner`.
#[derive(Clone, Copy, Debug, PartialEq, Eq, Structural)]
pub struct InBackpack {
    pub owner: Entity,
}

impl View for InBackpack {
    type V = InBackpack;

    open spec fn view(&self) -> InBackpack {
        *self
    }
}

impl Component for InBackpack {
    open spec fn refs(v: InBackpack) -> Set<int> {
        Set::empty().insert(v.owner@)
    }

    open spec fn stored(v: InBackpack, names: Map<int, int>) -> InBackpack {
        InBackpack { owner: rename(v.owner, names) }
    }

    fn store(&self, names: &Storage<Entity>) -> (r: InBackpack) {
        InBackpack { owner: renamed(self.owner, names) }
    }
}

/// Intent: `collected_by` takes `item` from the floor.
#[derive(Clone, Copy, Debug, PartialEq, Eq, Structural)]
pub struct WantsToPickup {
    pub collected_by: Entity,
    pub item: Entity,
}

impl View for WantsToPickup {
    type V = WantsToPickup;

    open spec fn view(&self) -> WantsToPickup {
        *self
    }
}

impl Component for WantsToPickup {
    open spec fn refs(v: WantsToPickup) -> Set<int> {
        Set::empty().insert(v.collected_by@).insert(v.item@)
    }

    open spec fn stored(v: WantsToPickup, names: Map<int, int>) -> WantsToPickup {
        WantsToPickup { collected_by: rename(v.collected_by, names), item: rename(v.item, names) }
    }

    fn store(&self, names: &Storage<Entity>) -> (r: WantsToPickup) {
        WantsToPickup {
            collected_by: renamed(self.collected_by, names),
            item: renamed(self.item, names),
        }
    }
}

/// Intent: use `item`, on the user itself or on the tile `target`.
#[derive(Clone, Copy, Debug, PartialEq, Eq)]
pub struct WantsToUse {
    pub item: Entity,
    pub target: Option<Point>,
}

impl View for WantsToUse {
    type V = WantsToUse;

    open spec fn view(&self) -> WantsToUse {
        *self
    }
}

impl Component for WantsToUse {
    open spec fn refs(v: WantsToUse) -> Set<int> {
        Set::empty().insert(v.item@)
    }

    open spec fn stored(v: WantsToUse, names: Map<int, int>) -> WantsToUse {
        WantsToUse { item: rename(v.item, names), target: v.target }
    }

    fn store(&self, names: &Storage<Entity>) -> (r: WantsToUse) {
        WantsToUse { item: renamed(self.item, names), target: self.target }
    }
}

/// Intent: put `item` on the floor where the dropper stands.
#[derive(Clone, Copy, Debug, PartialEq, Eq, Structural)]
pub struct WantsToDrop {
    pub item: Entity,
}

impl View for WantsToDrop {
    type V = WantsToDrop;

    open spec fn view(&self) -> WantsToDrop {
        *self
    }
}

impl Component for WantsToDrop {
    open spec fn refs(v: WantsToDrop) -> Set<int> {
        Set::empty().insert(v.item@)
    }

    open spec fn stored(v: WantsToDrop, names: Map<int, int>) -> WantsToDrop {
        WantsToDrop { item: rename(v.item, names) }
    }

    fn store(&self, names: &Storage<Entity>) -> (r: WantsToDrop) {
        WantsToDrop { item: renamed(self.item, names) }
    }
}

/// Marks an entity that a save document keeps.
#[derive(Clone, Copy, Debug, PartialEq, Eq, Structural)]
pub struct SerializeThis {}

impl View for SerializeThis {
    type V = SerializeThis;

    open spec fn view(&self) -> SerializeThis {
        *self
    }
}

impl Component for SerializeThis {
    open spec fn refs(v: SerializeThis) -> Set<int> {
        Set::empty()
    }

    open spec fn stored(v: SerializeThis, names: Map<int, int>) -> SerializeThis {
        v
    }

    fn store(&self, names: &Storage<Entity>) -> (r: SerializeThis) {
        *self
    }
}

/// What something is called in messages.
#[derive(Debug, PartialEq, Eq)]
pub struct Name {
    pub name: String,
}

impl View for Name {
    type V = Seq<char>;

    open spec fn view(&self) -> Seq<char> {
        self.name@
    }
}

impl Clone for Name {
    fn clone(&self) -> (r: Name)
        ensures
            r@ == self@,
    {
        Name { name: self.name.clone() }
    }
}

impl Component for Name {
    open spec fn refs(v: Seq<char>) -> Set<int> {
        Set::empty()
    }

    open spec fn stored(v: Seq<char>, names: Map<int, int>) -> Seq<char> {
        v
    }

    fn store(&self, names: &Storage<Entity>) -> (r: Name) {
        self.clone()
    }
}

/// Damage waiting to be applied: one entry per hit taken since the last
/// resolution, in the order the hits came.
#[derive(Debug, PartialEq, Eq)]
pub struct SufferDamage {
    pub amount: Vec<i32>,
}

impl View for SufferDamage {
    type V = Seq<i32>;

    open spec fn view(&self) -> Seq<i32> {
        self.amount@
    }
}

impl Clone for SufferDamage {
    fn clone(&self) -> (r: SufferDamage)
        ensures
            r@ == self@,
    {
        let amount = self.amount.clone();
        assert(amount@ =~= self.amount@);
        SufferDamage { amount }
    }
}

impl Component for SufferDamage {
    open spec fn refs(v: Seq<i32>) -> Set<int> {
        Set::empty()
    }

    open spec fn stored(v: Seq<i32>, names: Map<int, int>) -> Seq<i32> {
        v
    }

    fn store(&self, names: &Storage<Entity>) -> (r: SufferDamage) {
        self.clone()
    }
}

impl SufferDamage {
    /// The pending list of `victim` after one more hit of `amount`.
    pub open spec fn with_hit(pending: Map<int, Seq<i32>>, victim: int, amount: i32) -> Map<
        int,
        Seq<i32>,
    > {
        if pending.dom().contains(victim) {
            pending.insert(victim, pending[victim].push(amount))
        } else {
            pending.insert(victim, seq![amount])
        }
    }

    /// Queues `amount` of damage for `victim`: appended to its pending list, which
    /// is created if there is none yet. Nothing is subtracted here.
    pub fn new_damage(store: &mut Storage<SufferDamage>, victim: Entity, amount: i32)
        requires
            victim.id < usize::MAX,
        ensures
            final(store)@ == Self::with_hit(old(store)@, victim@, amount),
    {
        match store.remove(victim) {
            Some(mut suffering) => {
                suffering.amount.push(amount);
                store.insert(victim, suffering);
            },
            None => {
                let mut amounts: Vec<i32> = Vec::new();
                amounts.push(amount);
                store.insert(victim, SufferDamage { amount: amounts });
            },
        }
        assert(store@ =~= Self::with_hit(old(store)@, victim@, amount));
    }
}

/// What a creature currently sees. `dirty` asks for the list to be recomputed.
#[derive(Debug, PartialEq, Eq)]
pub struct Viewshed {
    pub visible_tiles: Vec<Point>,
    pub range: i32,
    pub dirty: bool,
}

/// Mathematical content of a [`Viewshed`].
pub ghost struct ViewshedView {
    pub visible_tiles: Seq<Point>,
    pub range: i32,
    pub dirty: bool,
}

impl View for Viewshed {
    type V = ViewshedView;

    open spec fn view(&self) -> ViewshedView {
        ViewshedView { visible_tiles: self.visible_tiles@, range: self.range, dirty: self.dirty }
    }
}

impl Clone for Viewshed {
    fn clone(&self) -> (r: Viewshed)
        ensures
            r@ == self@,
    {
        let mut visible_tiles: Vec<Point> = Vec::new();
        let mut i: usize = 0;
        while i < self.visible_tiles.len()
            invariant
                i <= self.visible_tiles@.len(),
                visible_tiles@ == self.visible_tiles@.take(i as int),
            decreases self.visible_tiles@.len() - i,
        {
            let p = &self.visible_tiles[i];
            visible_tiles.push(Point { x: p.x, y: p.y });
            assert(visible_tiles@ =~= self.visible_tiles@.take(i + 1));
            i += 1;
        }
        assert(visible_tiles@ =~= self.visible_tiles@);
        Viewshed { visible_tiles, range: self.range, dirty: self.dirty }
    }
}

impl Component for Viewshed {
    open spec fn refs(v: ViewshedView) -> Set<int> {
        Set::empty()
    }

    open spec fn stored(v: ViewshedView, names: Map<int, int>) -> ViewshedView {
        v
    }

    fn store(&self, names: &Storage<Entity>) -> (r: Viewshed) {
        self.clone()
    }
}

/// Carries a copy of the level through a save document.
#[derive(Debug, PartialEq, Eq)]
pub struct SerializationHelper {
    pub map: TileMap,
}

impl View for SerializationHelper {
    type V = TileMapView;

    open spec fn view(&self) -> TileMapView {
        self.map@
    }
}

impl Component for SerializationHelper {
    open spec fn refs(v: TileMapView) -> Set<int> {
        Set::empty()
    }

    /// The occupant index is not stored: it is rebuilt every turn.
    open spec fn stored(v: TileMapView, names: Map<int, int>) -> TileMapView {
        v.vacated()
    }

    fn store(&self, names: &Storage<Entity>) -> (r: SerializationHelper) {
        let mut map = self.map.duplicate();
        map.clear_content();
        SerializationHelper { map }
    }
}

} // verus!
