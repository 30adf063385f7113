use vstd::prelude::*;
use crate::components::{
    AreaOfEffect, BlocksTile, Color, CombatStats, Confusion, Consumable, InBackpack, Item,
    Monster, Name, Player, Position, ProvidesDamage, ProvidesHealing, Ranged, Renderable,
    SerializeThis, Viewshed, ViewshedView,
};
use crate::geometry::Rect;
use crate::map::MAPWIDTH;
use crate::spawn_table::{picked, roll_dice, RandomTable};
use crate::storage::Entity;
use crate::world::{World, WorldView};

verus! {

/// Most things that one room starts with, before the depth is counted in.
pub const MAX_ENTITIES: i32 = 4;

/// The glyph of code page 437 that stands for the character `c`, as
/// `rltk::to_cp437` maps it; 0 for a character that the code page lacks.
pub uninterp spec fn cp437(c: char) -> u16;

/// Calls `rltk::to_cp437`, a fixed table from characters to glyphs.
#[verifier::external_body]
pub(crate) fn to_cp437(c: char) -> (glyph: u16)
    ensures
        glyph == cp437(c),
{
    rltk::to_cp437(c)
}

/// Black.
pub open spec fn black() -> Color {
    Color { r: 0, g: 0, b: 0 }
}

/// Yellow.
pub open spec fn yellow() -> Color {
    Color { r: 255, g: 255, b: 0 }
}

/// Red.
pub open spec fn red() -> Color {
    Color { r: 255, g: 0, b: 0 }
}

/// Magenta.
pub open spec fn magenta() -> Color {
    Color { r: 255, g: 0, b: 255 }
}

/// Cyan.
pub open spec fn cyan() -> Color {
    Color { r: 0, g: 255, b: 255 }
}

/// Orange.
pub open spec fn orange() -> Color {
    Color { r: 255, g: 165, b: 0 }
}

/// Pink.
pub open spec fn pink() -> Color {
    Color { r: 255, g: 192, b: 203 }
}

/// The world with one more entity: the player at `(x, y)`.
pub open spec fn with_player(w: WorldView, x: i32, y: i32) -> WorldView {
    let e = w.alive.len() as int;
    WorldView {
        alive: w.alive.push(true),
        positions: w.positions.insert(e, Position { x, y }),
        renderables: w.renderables.insert(
            e,
            Renderable { glyph: cp437('@'), fg: yellow(), bg: black(), render_order: 0 },
        ),
        players: w.players.insert(e, Player {  }),
        viewsheds: w.viewsheds.insert(
            e,
            ViewshedView { visible_tiles: Seq::empty(), range: 8, dirty: true },
        ),
        names: w.names.insert(e, "Player"@),
        combat_stats: w.combat_stats.insert(
            e,
            CombatStats { max_hp: 30, hp: 30, defense: 2, power: 5 },
        ),
        markers: w.markers.insert(e, SerializeThis {  }),
        ..w
    }
}

/// The world with one more entity: a monster at `(x, y)`.
pub open spec fn with_monster(
    w: WorldView,
    x: i32,
    y: i32,
    glyph: u16,
    name: Seq<char>,
) -> WorldView {
    let e = w.alive.len() as int;
    WorldView {
        alive: w.alive.push(true),
        positions: w.positions.insert(e, Position { x, y }),
        renderables: w.renderables.insert(
            e,
            Renderable { glyph, fg: red(), bg: black(), render_order: 1 },
        ),
        viewsheds: w.viewsheds.insert(
            e,
            ViewshedView { visible_tiles: Seq::empty(), range: 8, dirty: true },
        ),
        monsters: w.monsters.insert(e, Monster {  }),
        names: w.names.insert(e, name),
        blockers: w.blockers.insert(e, BlocksTile {  }),
        combat_stats: w.combat_stats.insert(
            e,
            CombatStats { max_hp: 16, hp: 16, defense: 1, power: 4 },
        ),
        markers: w.markers.insert(e, SerializeThis {  }),
        ..w
    }
}

/// The world with one more entity: a consumable item at `(x, y)`, without any
/// effect yet.
pub open spec fn with_item(
    w: WorldView,
    x: i32,
    y: i32,
    glyph: u16,
    fg: Color,
    name: Seq<char>,
) -> WorldView {
    let e = w.alive.len() as int;
    WorldView {
        alive: w.alive.push(true),
        positions: w.positions.insert(e, Position { x, y }),
        renderables: w.renderables.insert(
            e,
            Renderable { glyph, fg, bg: black(), render_order: 2 },
        ),
        names: w.names.insert(e, name),
        items: w.items.insert(e, Item {  }),
        consumables: w.consumables.insert(e, Consumable {  }),
        markers: w.markers.insert(e, SerializeThis {  }),
        ..w
    }
}

/// The world with one more entity: a potion at `(x, y)` that heals 8.
pub open spec fn with_health_potion(w: WorldView, x: i32, y: i32) -> WorldView {
    let e = w.alive.len() as int;
    let base = with_item(w, x, y, cp437('\u{a1}'), magenta(), "Health Potion"@);
    WorldView {
        provides_healing: base.provides_healing.insert(e, ProvidesHealing { heal_amount: 8 }),
        ..base
    }
}

/// The world with one more entity: a scroll at `(x, y)` that hits one tile
/// for 8, up to 6 tiles away.
pub open spec fn with_magic_missile_scroll(w: WorldView, x: i32, y: i32) -> WorldView {
    let e = w.alive.len() as int;
    let base = with_item(w, x, y, cp437(')'), cyan(), "Magic Missle Scroll"@);
    WorldView {
        provides_damage: base.provides_damage.insert(e, ProvidesDamage { damage_amount: 8 }),
        ranged: base.ranged.insert(e, Ranged { range: 6 }),
        ..base
    }
}

/// The world with one more entity: a scroll at `(x, y)` that hits an area of
/// radius 3 for 20, up to 6 tiles away.
pub open spec fn with_fireball_scroll(w: WorldView, x: i32, y: i32) -> WorldView {
    let e = w.alive.len() as int;
    let base = with_item(w, x, y, cp437(')'), orange(), "Fireball Scroll"@);
    WorldView {
        provides_damage: base.provides_damage.insert(e, ProvidesDamage { damage_amount: 20 }),
        ranged: base.ranged.insert(e, Ranged { range: 6 }),
        area_of_effect: base.area_of_effect.insert(e, AreaOfEffect { radius: 3 }),
        ..base
    }
}

/// The world with one more entity: a scroll at `(x, y)` that confuses for 4
/// turns, up to 6 tiles away.
pub open spec fn with_confusion_scroll(w: WorldView, x: i32, y: i32) -> WorldView {
    let e = w.alive.len() as int;
    let base = with_item(w, x, y, cp437(')'), pink(), "Confusion Scroll"@);
    WorldView {
        ranged: base.ranged.insert(e, Ranged { range: 6 }),
        confusion: base.confusion.insert(e, Confusion { turns: 4 }),
        ..base
    }
}

/// Whether the world has room for `n` more entities.
pub open spec fn has_room(w: WorldView, n: int) -> bool {
    w.alive.len() + n < usize::MAX
}

/// Spawns the player at `(player_x, player_y)`.
pub fn player(ecs: &mut World, player_x: i32, player_y: i32) -> (e: Entity)
    requires
        old(ecs)@.wf(),
        has_room(old(ecs)@, 1),
    ensures
        e == old(ecs)@.next_entity(),
        final(ecs)@ == with_player(old(ecs)@, player_x, player_y),
        final(ecs)@.wf(),
{
    let e = ecs.create_entity();
    ecs.positions.insert(e, Position { x: player_x, y: player_y });
    ecs.renderables.insert(
        e,
        Renderable {
            glyph: to_cp437('@'),
            fg: Color { r: 255, g: 255, b: 0 },
            bg: Color { r: 0, g: 0, b: 0 },
            render_order: 0,
        },
    );
    ecs.players.insert(e, Player {  });
    ecs.viewsheds.insert(e, Viewshed { visible_tiles: Vec::new(), range: 8, dirty: true });
    ecs.names.insert(e, Name { name: String::from_str("Player") });
    ecs.combat_stats.insert(e, CombatStats { max_hp: 30, hp: 30, defense: 2, power: 5 });
    ecs.markers.insert(e, SerializeThis {  });
    assert(ecs@ =~= with_player(old(ecs)@, player_x, player_y));
    e
}

/// Spawns a monster of the given look and name at `(pos_x, pos_y)`.
pub fn monster(ecs: &mut World, pos_x: i32, pos_y: i32, glyph: u16, name: &str)
    requires
        old(ecs)@.wf(),
        has_room(old(ecs)@, 1),
    ensures
        final(ecs)@ == with_monster(old(ecs)@, pos_x, pos_y, glyph, name@),
        final(ecs)@.wf(),
{
    let e = ecs.create_entity();
    ecs.positions.insert(e, Position { x: pos_x, y: pos_y });
    ecs.renderables.insert(
        e,
        Renderable {
            glyph,
            fg: Color { r: 255, g: 0, b: 0 },
            bg: Color { r: 0, g: 0, b: 0 },
            render_order: 1,
        },
    );
    ecs.viewsheds.insert(e, Viewshed { visible_tiles: Vec::new(), range: 8, dirty: true });
    ecs.monsters.insert(e, Monster {  });
    ecs.names.insert(e, Name { name: String::from_str(name) });
    ecs.blockers.insert(e, BlocksTile {  });
    ecs.combat_stats.insert(e, CombatStats { max_hp: 16, hp: 16, defense: 1, power: 4 });
    ecs.markers.insert(e, SerializeThis {  });
    assert(ecs@ =~= with_monster(old(ecs)@, pos_x, pos_y, glyph, name@));
}

/// Spawns an orc.
pub fn orc(ecs: &mut World, pos_x: i32, pos_y: i32)
    requires
        old(ecs)@.wf(),
        has_room(old(ecs)@, 1),
    ensures
        final(ecs)@ == with_monster(old(ecs)@, pos_x, pos_y, cp437('o'), "Ork"@),
        final(ecs)@.wf(),
{
    monster(ecs, pos_x, pos_y, to_cp437('o'), "Ork");
}

/// Spawns a goblin.
pub fn goblin(ecs: &mut World, pos_x: i32, pos_y: i32)
    requires
        old(ecs)@.wf(),
        has_room(old(ecs)@, 1),
    ensures
        final(ecs)@ == with_monster(old(ecs)@, pos_x, pos_y, cp437('g'), "Goblin"@),
        final(ecs)@.wf(),
{
    monster(ecs, pos_x, pos_y, to_cp437('g'), "Goblin");
}

/// Spawns a consumable item without effects.
fn item(ecs: &mut World, x: i32, y: i32, glyph: u16, fg: Color, name: &str) -> (e: Entity)
    requires
        old(ecs)@.wf(),
        has_room(old(ecs)@, 1),
    ensures
        e == old(ecs)@.next_entity(),
        final(ecs)@ == with_item(old(ecs)@, x, y, glyph, fg, name@),
        final(ecs)@.wf(),
{
    let e = ecs.create_entity();
    ecs.positions.insert(e, Position { x, y });
    ecs.renderables.insert(
        e,
        Renderable { glyph, fg, bg: Color { r: 0, g: 0, b: 0 }, render_order: 2 },
    );
    ecs.names.insert(e, Name { name: String::from_str(name) });
    ecs.items.insert(e, Item {  });
    ecs.consumables.insert(e, Consumable {  });
    ecs.markers.insert(e, SerializeThis {  });
    assert(ecs@ =~= with_item(old(ecs)@, x, y, glyph, fg, name@));
    e
}

/// Spawns a health potion at `(x, y)`.
pub fn health_potion(ecs: &mut World, x: i32, y: i32) -> (e: Entity)
    requires
        old(ecs)@.wf(),
        has_room(old(ecs)@, 1),
    ensures
        e == old(ecs)@.next_entity(),
        final(ecs)@ == with_health_potion(old(ecs)@, x, y),
        final(ecs)@.wf(),
{
    let e = item(ecs, x, y, to_cp437('\u{a1}'), Color { r: 255, g: 0, b: 255 }, "Health Potion");
    ecs.provides_healing.insert(e, ProvidesHealing { heal_amount: 8 });
    assert(ecs@ =~= with_health_potion(old(ecs)@, x, y));
    e
}

/// Spawns a magic missile scroll at `(x, y)`.
pub fn magic_missile_scroll(ecs: &mut World, x: i32, y: i32) -> (e: Entity)
    requires
        old(ecs)@.wf(),
        has_room(old(ecs)@, 1),
    ensures
        e == old(ecs)@.next_entity(),
        final(ecs)@ == with_magic_missile_scroll(old(ecs)@, x, y),
        final(ecs)@.wf(),
{
    let e = item(ecs, x, y, to_cp437(')'), Color { r: 0, g: 255, b: 255 }, "Magic Missle Scroll");
    ecs.provides_damage.insert(e, ProvidesDamage { damage_amount: 8 });
    ecs.ranged.insert(e, Ranged { range: 6 });
    assert(ecs@ =~= with_magic_missile_scroll(old(ecs)@, x, y));
    e
}

/// Spawns a fireball scroll at `(x, y)`.
pub fn fireball_scroll(ecs: &mut World, x: i32, y: i32) -> (e: Entity)
    requires
        old(ecs)@.wf(),
        has_room(old(ecs)@, 1),
    ensures
        e == old(ecs)@.next_entity(),
        final(ecs)@ == with_fireball_scroll(old(ecs)@, x, y),
        final(ecs)@.wf(),
{
    let e = item(ecs, x, y, to_cp437(')'), Color { r: 255, g: 165, b: 0 }, "Fireball Scroll");
    ecs.provides_damage.insert(e, ProvidesDamage { damage_amount: 20 });
    ecs.ranged.insert(e, Ranged { range: 6 });
    ecs.area_of_effect.insert(e, AreaOfEffect { radius: 3 });
    assert(ecs@ =~= with_fireball_scroll(old(ecs)@, x, y));
    e
}

/// Spawns a confusion scroll at `(x, y)`.
pub fn confusion_scroll(ecs: &mut World, x: i32, y: i32) -> (e: Entity)
    requires
        old(ecs)@.wf(),
        has_room(old(ecs)@, 1),
    ensures
        e == old(ecs)@.next_entity(),
        final(ecs)@ == with_confusion_scroll(old(ecs)@, x, y),
        final(ecs)@.wf(),
{
    let e = item(ecs, x, y, to_cp437(')'), Color { r: 255, g: 192, b: 203 }, "Confusion Scroll");
    ecs.ranged.insert(e, Ranged { range: 6 });
    ecs.confusion.insert(e, Confusion { turns: 4 });
    assert(ecs@ =~= with_confusion_scroll(old(ecs)@, x, y));
    e
}

/// The world after the `n` entities that follow `first` went from the floor
/// into the backpack of the player.
pub open spec fn packed(w: WorldView, first: int, n: nat) -> WorldView
    decreases n,
{
    if n == 0 {
        w
    } else {
        let before = packed(w, first, (n - 1) as nat);
        let item = first + n - 1;
        WorldView {
            positions: before.positions.remove(item),
            in_backpack: before.in_backpack.insert(item, InBackpack { owner: w.player }),
            ..before
        }
    }
}

/// Packing changes nobody's existence.
pub proof fn lemma_packed_frame(w: WorldView, first: int, n: nat)
    ensures
        packed(w, first, n).alive == w.alive,
        packed(w, first, n).player == w.player,
    decreases n,
{
    if n > 0 {
        lemma_packed_frame(w, first, (n - 1) as nat);
    }
}

/// The world with the test backpack: two of each item, all carried by the
/// player.
pub open spec fn with_test_backpack(w: WorldView) -> WorldView {
    let filled = with_confusion_scroll(
        with_confusion_scroll(
            with_fireball_scroll(
                with_fireball_scroll(
                    with_magic_missile_scroll(
                        with_magic_missile_scroll(
                            with_health_potion(with_health_potion(w, 0, 0), 0, 0),
                            0,
                            0,
                        ),
                        0,
                        0,
                    ),
                    0,
                    0,
                ),
                0,
                0,
            ),
            0,
            0,
        ),
        0,
        0,
    );
    packed(filled, w.alive.len() as int, 8)
}

/// Gives the player two of each item, for trying things out.
pub fn create_test_backpack(ecs: &mut World)
    requires
        old(ecs)@.wf(),
        has_room(old(ecs)@, 8),
    ensures
        final(ecs)@ == with_test_backpack(old(ecs)@),
        final(ecs)@.wf(),
{
    let ghost w0 = ecs@;
    let mut items: Vec<Entity> = Vec::new();
    items.push(health_potion(ecs, 0, 0));
    items.push(health_potion(ecs, 0, 0));
    items.push(magic_missile_scroll(ecs, 0, 0));
    items.push(magic_missile_scroll(ecs, 0, 0));
    items.push(fireball_scroll(ecs, 0, 0));
    items.push(fireball_scroll(ecs, 0, 0));
    items.push(confusion_scroll(ecs, 0, 0));
    items.push(confusion_scroll(ecs, 0, 0));
    let ghost filled = ecs@;
    let player = ecs.player;
    let mut i: usize = 0;
    while i < items.len()
        invariant
            i <= 8,
            items@.len() == 8,
            forall|k: int| 0 <= k < 8 ==> (#[trigger] items@[k])@ == w0.alive.len() + k,
            filled.wf(),
            forall|k: int| 0 <= k < 8 ==> filled.is_alive(#[trigger] items@[k]),
            filled.alive.len() == w0.alive.len() + 8,
            filled.player == w0.player,
            player == w0.player,
            ecs@.wf(),
            ecs@ == packed(filled, w0.alive.len() as int, i as nat),
        decreases 8 - i,
    {
        let item = items[i];
        proof {
            lemma_packed_frame(filled, w0.alive.len() as int, i as nat);
            assert(filled.is_alive(items@[i as int]));
        }
        ecs.positions.remove(item);
        ecs.in_backpack.insert(item, InBackpack { owner: player });
        assert(ecs@ =~= packed(filled, w0.alive.len() as int, (i + 1) as nat));
        i += 1;
    }
}


/// The lines of a table after [`RandomTable::add`].
pub open spec fn added(lines: Seq<(Seq<char>, int)>, name: Seq<char>, weight: int) -> Seq<
    (Seq<char>, int),
> {
    if weight > 0 {
        lines.push((name, weight))
    } else {
        lines
    }
}

/// What may spawn in a room at depth `map_depth`, and how likely.
pub open spec fn room_lines(map_depth: i32) -> Seq<(Seq<char>, int)> {
    added(
        added(
            added(
                added(
                    added(added(Seq::empty(), "Goblin"@, 10), "Orc"@, 1 + map_depth),
                    "Health Potion"@,
                    7,
                ),
                "Fireball SWcroll"@,
                2 + map_depth,
            ),
            "Confusion Scroll"@,
            2 + map_depth,
        ),
        "Magic Missile Scroll"@,
        4,
    )
}

/// The deepest and the shallowest level for which a spawn table is built.
pub const MAX_DEPTH: i32 = 0x1000_0000;

/// The weight that [`RandomTable::add`] counts for a line: its weight if that
/// is positive, else nothing.
pub open spec fn counted_weight(weight: int) -> int {
    if weight > 0 {
        weight
    } else {
        0
    }
}

/// The total weight of the spawn table of depth `map_depth`.
pub open spec fn room_weight(map_depth: i32) -> int {
    10 + counted_weight(1 + map_depth) + 7 + counted_weight(2 + map_depth) + counted_weight(
        2 + map_depth,
    ) + 4
}

/// Builds the spawn table of a room at depth `map_depth`.
pub fn room_table(map_depth: i32) -> (table: RandomTable)
    requires
        -MAX_DEPTH <= map_depth <= MAX_DEPTH,
    ensures
        table@ == room_lines(map_depth),
        table.total_weight == room_weight(map_depth),
        21 <= table.total_weight < i32::MAX,
{
    RandomTable::new().add("Goblin", 10).add("Orc", 1 + map_depth).add("Health Potion", 7).add(
        "Fireball SWcroll",
        2 + map_depth,
    ).add("Confusion Scroll", 2 + map_depth).add("Magic Missile Scroll", 4)
}

/// The planned spawns as pairs of tile index and name.
pub open spec fn plan_view(spawns: Seq<(usize, String)>) -> Seq<(usize, Seq<char>)> {
    Seq::new(spawns.len(), |k: int| (spawns[k].0, spawns[k].1@))
}

/// The world after one planned spawn: the tile index gives the place on a grid
/// [`MAPWIDTH`] wide, the name says what appears. An unknown name spawns
/// nothing.
pub open spec fn spawn_one(w: WorldView, idx: usize, name: Seq<char>) -> WorldView {
    let x = (idx % MAPWIDTH) as i32;
    let y = (idx / MAPWIDTH) as i32;
    if name == "Goblin"@ {
        with_monster(w, x, y, cp437('g'), "Goblin"@)
    } else if name == "Orc"@ {
        with_monster(w, x, y, cp437('o'), "Ork"@)
    } else if name == "Health Potion"@ {
        with_health_potion(w, x, y)
    } else if name == "Fireball Scroll"@ {
        with_fireball_scroll(w, x, y)
    } else if name == "Confusion Scroll"@ {
        with_confusion_scroll(w, x, y)
    } else if name == "Magic Missile Scroll"@ {
        with_magic_missile_scroll(w, x, y)
    } else {
        w
    }
}

/// The world after the first `n` planned spawns.
pub open spec fn placed(w: WorldView, plan: Seq<(usize, Seq<char>)>, n: nat) -> WorldView
    decreases n,
{
    if n == 0 {
        w
    } else {
        spawn_one(placed(w, plan, (n - 1) as nat), plan[n - 1].0, plan[n - 1].1)
    }
}

/// Every spawn adds at most one entity and removes none.
pub proof fn lemma_placed_grows(w: WorldView, plan: Seq<(usize, Seq<char>)>, n: nat)
    ensures
        w.alive.len() <= placed(w, plan, n).alive.len() <= w.alive.len() + n,
    decreases n,
{
    if n > 0 {
        lemma_placed_grows(w, plan, (n - 1) as nat);
    }
}

/// Whether the string is the literal.
fn is(name: &String, literal: &str) -> (b: bool)
    ensures
        b == (name@ == literal@),
{
    let other = String::from_str(literal);
    *name == other
}

/// Carries out the planned spawns, in order.
pub fn place_spawns(ecs: &mut World, spawns: &Vec<(usize, String)>)
    requires
        old(ecs)@.wf(),
        has_room(old(ecs)@, spawns@.len() as int),
        forall|k: int| 0 <= k < spawns@.len() ==> (#[trigger] spawns@[k]).0 / MAPWIDTH <= i32::MAX,
    ensures
        final(ecs)@ == placed(old(ecs)@, plan_view(spawns@), spawns@.len()),
        final(ecs)@.wf(),
{
    let ghost w0 = ecs@;
    let ghost plan = plan_view(spawns@);
    let mut k: usize = 0;
    while k < spawns.len()
        invariant
            k <= spawns@.len(),
            plan == plan_view(spawns@),
            w0.wf(),
            has_room(w0, spawns@.len() as int),
            forall|k: int|
                0 <= k < spawns@.len() ==> (#[trigger] spawns@[k]).0 / MAPWIDTH <= i32::MAX,
            ecs@.wf(),
            ecs@ == placed(w0, plan, k as nat),
        decreases spawns@.len() - k,
    {
        proof {
            lemma_placed_grows(w0, plan, k as nat);
        }
        let spawn = &spawns[k];
        assert(spawns@[k as int].0 / MAPWIDTH <= i32::MAX);
        let x = (spawn.0 % MAPWIDTH) as i32;
        let y = (spawn.0 / MAPWIDTH) as i32;
        if is(&spawn.1, "Goblin") {
            goblin(ecs, x, y);
        } else if is(&spawn.1, "Orc") {
            orc(ecs, x, y);
        } else if is(&spawn.1, "Health Potion") {
            let _ = health_potion(ecs, x, y);
        } else if is(&spawn.1, "Fireball Scroll") {
            let _ = fireball_scroll(ecs, x, y);
        } else if is(&spawn.1, "Confusion Scroll") {
            let _ = confusion_scroll(ecs, x, y);
        } else if is(&spawn.1, "Magic Missile Scroll") {
            let _ = magic_missile_scroll(ecs, x, y);
        }
        k += 1;
    }
}

/// The distance between two coordinates.
pub open spec fn span(a: i32, b: i32) -> int {
    if a < b {
        b - a
    } else {
        a - b
    }
}

/// Whether spawn points can be rolled inside `room`: it has an extent in both
/// directions, starts at a tile of non-negative coordinates, and ends within
/// the first 0x100_0000 columns and rows.
pub open spec fn room_fits(room: Rect) -> bool {
    &&& 0 <= room.x1
    &&& 0 <= room.y1
    &&& room.x1 != room.x2
    &&& room.y1 != room.y2
    &&& room.x1 + span(room.x1, room.x2) < 0x100_0000
    &&& room.y1 + span(room.y1, room.y2) < 0x100_0000
}

/// How many spawns are tried in a room at depth `map_depth` when the die
/// shows `roll`: the deeper, the more.
pub open spec fn spawn_count(roll: int, map_depth: int) -> int {
    roll + (map_depth - 1) - 3
}

/// Computes [`spawn_count`].
pub fn count_spawns(roll: i32, map_depth: i32) -> (tried: i32)
    requires
        1 <= roll <= MAX_ENTITIES + 3,
        -MAX_DEPTH <= map_depth <= MAX_DEPTH,
    ensures
        tried == spawn_count(roll as int, map_depth as int),
{
    roll + (map_depth - 1) - 3
}

/// The index, on a grid [`MAPWIDTH`] wide, of the tile that lies `dx` columns
/// and `dy` rows from the first corner of `room`.
pub open spec fn tile_at(room: Rect, dx: int, dy: int) -> int {
    (room.y1 + dy) * MAPWIDTH + (room.x1 + dx)
}

/// Computes [`tile_at`] for the numbers that two dice show.
pub fn spawn_tile(room: &Rect, dx: i32, dy: i32) -> (idx: usize)
    requires
        room_fits(*room),
        1 <= dx <= span(room.x1, room.x2),
        1 <= dy <= span(room.y1, room.y2),
    ensures
        idx == tile_at(*room, dx as int, dy as int),
        idx / MAPWIDTH <= i32::MAX,
{
    let x = (room.x1 + dx) as usize;
    let y = (room.y1 + dy) as usize;
    assert(y * MAPWIDTH <= 0x100_0000 * 80) by (nonlinear_arith)
        requires
            y <= 0x100_0000,
            MAPWIDTH == 80,
    ;
    (y * MAPWIDTH) + x
}

/// Whether the tile of index `idx` is one that two dice can give in `room`:
/// one die with as many sides as the room is wide, one with as many as it is
/// high.
pub open spec fn rolled_in(room: Rect, idx: usize) -> bool {
    exists|dx: int, dy: int|
        {
            &&& 1 <= dx <= span(room.x1, room.x2)
            &&& 1 <= dy <= span(room.y1, room.y2)
            &&& idx == #[trigger] tile_at(room, dx, dy)
        }
}

/// Whether `name` is what a roll picks from the spawn table of depth
/// `map_depth`: the roll of a die with as many sides as the table has weight,
/// less one.
pub open spec fn rolled_from(map_depth: i32, name: Seq<char>) -> bool {
    exists|r: int|
        0 <= r < room_weight(map_depth) && name == #[trigger] picked(room_lines(map_depth), r)
}

/// Whether `planned` spawns can come of `tried` ones: none if none is tried;
/// else at least the first, which always finds its tile free, and at most all.
pub open spec fn counted(planned: nat, tried: int) -> bool {
    if tried <= 0 {
        planned == 0
    } else {
        1 <= planned <= tried
    }
}

/// What holds of the plan that the dice give for `room` at depth `map_depth`,
/// whatever they show. A die with [`MAX_ENTITIES`]` + 3` sides says how many
/// spawns are tried. Each spawn planned lies on a tile of the room that two
/// dice gave, no two on the same, and is of a kind that a roll on the spawn
/// table gave.
pub open spec fn plan_fits(plan: Seq<(usize, Seq<char>)>, room: Rect, map_depth: i32) -> bool {
    &&& exists|roll: int|
        1 <= roll <= MAX_ENTITIES + 3 && counted(
            plan.len(),
            #[trigger] spawn_count(roll, map_depth as int),
        )
    &&& forall|k: int| 0 <= k < plan.len() ==> rolled_in(room, (#[trigger] plan[k]).0)
    &&& forall|k: int| 0 <= k < plan.len() ==> rolled_from(map_depth, (#[trigger] plan[k]).1)
    &&& forall|j: int, k: int| 0 <= j < k < plan.len() ==> plan[j].0 != plan[k].0
}

/// Whether a spawn is already planned for the tile `idx`.
fn planned(spawns: &Vec<(usize, String)>, idx: usize) -> (b: bool)
    ensures
        b == exists|k: int| 0 <= k < spawns@.len() && (#[trigger] spawns@[k]).0 == idx,
{
    let mut k: usize = 0;
    while k < spawns.len()
        invariant
            k <= spawns@.len(),
            forall|j: int| 0 <= j < k ==> (#[trigger] spawns@[j]).0 != idx,
        decreases spawns@.len() - k,
    {
        if spawns[k].0 == idx {
            return true;
        }
        k += 1;
    }
    false
}

/// Rolls what spawns in `room` and where: a die decides how many spawns are
/// tried, two dice each place, the spawn table each kind. A place that is
/// taken is rolled again, up to 20 times, and then given up.
pub fn plan_spawns(rng: &mut rltk::RandomNumberGenerator, room: &Rect, map_depth: i32) -> (spawns:
    Vec<(usize, String)>)
    requires
        room_fits(*room),
        -MAX_DEPTH <= map_depth <= MAX_DEPTH,
    ensures
        plan_fits(plan_view(spawns@), *room, map_depth),
{
    let spawn_table = room_table(map_depth);
    let mut spawn_points: Vec<(usize, String)> = Vec::new();
    let count_roll = roll_dice(rng, 1, MAX_ENTITIES + 3);
    let num_spawns: i32 = count_spawns(count_roll, map_depth);
    let width: i32 = if room.x1 < room.x2 {
        room.x2 - room.x1
    } else {
        room.x1 - room.x2
    };
    let height: i32 = if room.y1 < room.y2 {
        room.y2 - room.y1
    } else {
        room.y1 - room.y2
    };
    let mut i: i32 = 0;
    while i < num_spawns
        invariant
            0 <= i,
            i <= num_spawns || i == 0,
            room_fits(*room),
            width == span(room.x1, room.x2),
            height == span(room.y1, room.y2),
            spawn_table.total_weight == room_weight(map_depth),
            0 < spawn_table.total_weight < i32::MAX,
            spawn_table@ == room_lines(map_depth),
            spawn_points@.len() <= i,
            i >= 1 ==> spawn_points@.len() >= 1,
            forall|k: int|
                0 <= k < spawn_points@.len() ==> rolled_in(*room, (#[trigger] spawn_points@[k]).0),
            forall|k: int|
                0 <= k < spawn_points@.len() ==> rolled_from(
                    map_depth,
                    (#[trigger] spawn_points@[k]).1@,
                ),
            forall|j: int, k: int|
                0 <= j < k < spawn_points@.len() ==> spawn_points@[j].0 != spawn_points@[k].0,
        decreases num_spawns - i,
    {
        let mut added = false;
        let mut tries: i32 = 0;
        while !added && tries < 20
            invariant
                0 <= tries <= 20,
                room_fits(*room),
                width == span(room.x1, room.x2),
                height == span(room.y1, room.y2),
                spawn_table.total_weight == room_weight(map_depth),
                0 < spawn_table.total_weight < i32::MAX,
                spawn_table@ == room_lines(map_depth),
                spawn_points@.len() <= i + (if added {
                    1int
                } else {
                    0int
                }),
                added ==> spawn_points@.len() >= 1,
                !added && spawn_points@.len() == 0 ==> tries == 0,
                forall|k: int|
                    0 <= k < spawn_points@.len() ==> rolled_in(
                        *room,
                        (#[trigger] spawn_points@[k]).0,
                    ),
                forall|k: int|
                    0 <= k < spawn_points@.len() ==> rolled_from(
                        map_depth,
                        (#[trigger] spawn_points@[k]).1@,
                    ),
                forall|j: int, k: int|
                    0 <= j < k < spawn_points@.len() ==> spawn_points@[j].0 != spawn_points@[k].0,
            decreases 20 - tries + (if added {
                0int
            } else {
                1int
            }),
        {
            let dx = roll_dice(rng, 1, width);
            let dy = roll_dice(rng, 1, height);
            let idx = spawn_tile(room, dx, dy);
            if !planned(&spawn_points, idx) {
                let name = spawn_table.roll(rng);
                spawn_points.push((idx, name));
                added = true;
            } else {
                tries += 1;
            }
        }
        i += 1;
    }
    proof {
        let plan = plan_view(spawn_points@);
        assert(plan.len() == spawn_points@.len());
        assert(counted(plan.len(), spawn_count(count_roll as int, map_depth as int)));
        assert forall|k: int| 0 <= k < plan.len() implies rolled_in(*room, (#[trigger] plan[k]).0) by {
            assert(rolled_in(*room, spawn_points@[k].0));
        }
        assert forall|k: int| 0 <= k < plan.len() implies rolled_from(
            map_depth,
            (#[trigger] plan[k]).1,
        ) by {
            assert(rolled_from(map_depth, spawn_points@[k].1@));
        }
        assert forall|j: int, k: int| 0 <= j < k < plan.len() implies plan[j].0 != plan[k].0 by {
            assert(spawn_points@[j].0 != spawn_points@[k].0);
        }
    }
    spawn_points
}

/// Fills `room` with what the dice give: see [`plan_spawns`] for what is
/// rolled and [`place_spawns`] for what is then created.
pub fn spawn_room(ecs: &mut World, room: &Rect, map_depth: i32)
    requires
        old(ecs)@.wf(),
        room_fits(*room),
        -MAX_DEPTH <= map_depth <= MAX_DEPTH,
        has_room(old(ecs)@, 3 + MAX_DEPTH),
    ensures
        exists|plan: Seq<(usize, Seq<char>)>|
            {
                &&& plan_fits(plan, *room, map_depth)
                &&& final(ecs)@ == #[trigger] placed(old(ecs)@, plan, plan.len())
            },
        final(ecs)@.wf(),
{
    let spawns = plan_spawns(&mut ecs.rng, room, map_depth);
    proof {
        let plan = plan_view(spawns@);
        assert forall|k: int| 0 <= k < spawns@.len() implies (#[trigger] spawns@[k]).0 / MAPWIDTH
            <= i32::MAX by {
            assert(rolled_in(*room, plan[k].0));
            let (dx, dy) = choose|dx: int, dy: int|
                {
                    &&& 1 <= dx <= span(room.x1, room.x2)
                    &&& 1 <= dy <= span(room.y1, room.y2)
                    &&& plan[k].0 == #[trigger] tile_at(*room, dx, dy)
                };
            assert(tile_at(*room, dx, dy) <= 0x100_0000 * 81) by (nonlinear_arith)
                requires
                    0 <= room.y1 + dy <= 0x100_0000,
                    0 <= room.x1 + dx <= 0x100_0000,
                    tile_at(*room, dx, dy) == (room.y1 + dy) * 80 + (room.x1 + dx),
            ;
        }
    }
    place_spawns(ecs, &spawns);
}

} // verus!
