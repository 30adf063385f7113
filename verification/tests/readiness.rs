use rltk::Point;
use yarr::damage_system::damage_will_fit;
use yarr::gui::ItemMenuResult;
use yarr::map_indexing_system::MapIndexingSystem;
use yarr::readiness::is_steady;
use yarr::render::render_list;
use yarr::saveload_system::can_save;
use yarr::spawner::{goblin, health_potion, orc, player};
use yarr::{
    AreaOfEffect, BlocksTile, Color, CombatStats, Entity, InBackpack, Name, Position,
    ProvidesDamage, ProvidesHealing, Renderable, RunState, SerializeThis, State, SufferDamage,
    TileMap, TileType, WantsToDrop, WantsToMelee, WantsToPickup, WantsToUse, World,
};

fn game() -> (World, Entity) {
    let mut w = World::new(TileMap::new(12, 12, TileType::Floor), 1);
    let p = player(&mut w, 5, 5);
    w.player = p;
    (w, p)
}

#[test]
fn index_lists_occupants_by_id_and_marks_blocked_tiles() {
    let (mut w, p) = game();
    orc(&mut w, 6, 5);
    let potion = health_potion(&mut w, 6, 5);
    goblin(&mut w, 40, 40);
    let idx = w.map.xy_idx(2, 2);
    w.map.tiles[idx] = TileType::Wall;
    let stale = w.map.xy_idx(9, 9);
    w.map.tile_content[stale].push(p);
    w.map.blocked_tiles[stale] = true;
    MapIndexingSystem {}.run(&mut w);
    let (here, there) = (w.map.xy_idx(5, 5), w.map.xy_idx(6, 5));
    assert_eq!(w.map.tile_content[here], vec![p]);
    assert_eq!(w.map.tile_content[there], vec![Entity { id: 1 }, potion]);
    assert!(w.map.tile_content[stale].is_empty());
    assert!(!w.map.blocked_tiles[here]);
    assert!(w.map.blocked_tiles[there]);
    assert!(w.map.blocked_tiles[idx]);
    assert!(!w.map.blocked_tiles[stale]);
    let listed: usize = w.map.tile_content.iter().map(|c| c.len()).sum();
    assert_eq!(listed, 3);
    assert!(w.is_well_formed());
}

#[test]
fn drawing_order_is_by_layer_then_by_id() {
    let (mut w, p) = game();
    for v in w.map.visible_tiles.iter_mut() {
        *v = true;
    }
    let potion = health_potion(&mut w, 5, 5);
    orc(&mut w, 6, 5);
    let second = health_potion(&mut w, 7, 5);
    goblin(&mut w, 30, 30);
    let hidden = health_potion(&mut w, 8, 8);
    let idx = w.map.xy_idx(8, 8);
    w.map.visible_tiles[idx] = false;
    let bare = w.create_entity();
    w.positions.insert(bare, Position { x: 1, y: 1 });
    let list = render_list(&w);
    let at: Vec<(i32, i32, i32)> =
        list.iter().map(|(pos, look)| (pos.x, pos.y, look.render_order)).collect();
    assert_eq!(at, vec![(5, 5, 2), (7, 5, 2), (6, 5, 1), (5, 5, 0)]);
    assert_eq!(list[0].1, *w.renderables.get(potion).unwrap());
    assert_eq!(list[1].1, *w.renderables.get(second).unwrap());
    assert_eq!(list[3].1, *w.renderables.get(p).unwrap());
    assert!(w.renderables.contains(hidden));
    w.renderables.insert(
        bare,
        Renderable {
            glyph: 1,
            fg: Color { r: 1, g: 2, b: 3 },
            bg: Color { r: 0, g: 0, b: 0 },
            render_order: 1,
        },
    );
    let again = render_list(&w);
    assert_eq!(again.len(), 5);
    assert_eq!(again[3].0, Position { x: 1, y: 1 });
}

#[test]
fn well_formed_means_components_on_the_living_only() {
    let (mut w, p) = game();
    assert!(w.is_well_formed());
    w.names.insert(Entity { id: 9 }, Name { name: "ghost".to_string() });
    assert!(!w.is_well_formed());
    w.names.remove(Entity { id: 9 });
    assert!(w.is_well_formed());
    w.alive[p.id] = false;
    assert!(!w.is_well_formed());
    w.alive[p.id] = true;
    w.map.tiles.pop();
    assert!(!w.is_well_formed());
}

#[test]
fn damage_fits_unless_hp_leaves_the_range() {
    let (mut w, p) = game();
    SufferDamage::new_damage(&mut w.suffer_damage, p, i32::MAX);
    assert!(damage_will_fit(&w));
    SufferDamage::new_damage(&mut w.suffer_damage, p, 100);
    assert!(!damage_will_fit(&w));
    SufferDamage::new_damage(&mut w.suffer_damage, p, -100);
    assert!(damage_will_fit(&w));
    w.combat_stats.insert(p, CombatStats { max_hp: 1, hp: i32::MAX, defense: 0, power: 0 });
    SufferDamage::new_damage(&mut w.suffer_damage, p, i32::MIN);
    SufferDamage::new_damage(&mut w.suffer_damage, p, i32::MIN);
    assert!(!damage_will_fit(&w));
    w.combat_stats.remove(p);
    assert!(damage_will_fit(&w));
}

#[test]
fn a_fresh_game_is_steady() {
    let (mut w, p) = game();
    orc(&mut w, 6, 5);
    let potion = health_potion(&mut w, 5, 5);
    assert!(is_steady(&w));
    w.wants_to_pickup.insert(p, WantsToPickup { collected_by: p, item: potion });
    w.wants_to_use.insert(p, WantsToUse { item: potion, target: Some(Point::new(6, 5)) });
    w.wants_to_melee.insert(p, WantsToMelee { target: Entity { id: 1 } });
    assert!(is_steady(&w));
}

#[test]
fn a_stale_index_and_missing_names_do_not_matter() {
    let (mut w, p) = game();
    let idx = w.map.xy_idx(1, 1);
    w.map.tile_content[idx].push(Entity { id: 50 });
    let nameless = w.create_entity();
    w.positions.insert(nameless, Position { x: 3, y: 3 });
    w.provides_damage.insert(nameless, ProvidesDamage { damage_amount: 1 });
    w.names.remove(p);
    w.wants_to_use.insert(p, WantsToUse { item: nameless, target: Some(Point::new(3, 3)) });
    assert!(is_steady(&w));
    let mut gs = State { ecs: w };
    gs.run_systems();
    assert_eq!(gs.ecs.suffer_damage.get(nameless).unwrap().amount, vec![1]);
    assert!(gs.ecs.log.entries.is_empty());
    assert!(gs.ecs.map.tile_content[idx].is_empty());
}

#[test]
fn unsound_intents_are_not_steady() {
    let (mut w, p) = game();
    let potion = health_potion(&mut w, 5, 5);
    let other = w.create_entity();
    assert!(is_steady(&w));

    w.wants_to_use.insert(p, WantsToUse { item: potion, target: Some(Point::new(12, 3)) });
    assert!(!is_steady(&w));
    w.wants_to_use.insert(p, WantsToUse { item: Entity { id: 60 }, target: None });
    assert!(is_steady(&w));
    w.wants_to_use.insert(p, WantsToUse { item: potion, target: None });
    assert!(is_steady(&w));
    w.area_of_effect.insert(potion, AreaOfEffect { radius: 1001 });
    assert!(is_steady(&w));
    w.wants_to_use.insert(p, WantsToUse { item: potion, target: Some(Point::new(3, 3)) });
    assert!(!is_steady(&w));
    w.area_of_effect.insert(potion, AreaOfEffect { radius: -1000 });
    assert!(is_steady(&w));
    w.wants_to_use.clear();

    w.wants_to_pickup.insert(p, WantsToPickup { collected_by: p, item: Entity { id: 50 } });
    assert!(!is_steady(&w));
    w.wants_to_pickup.clear();

    w.wants_to_drop.insert(other, WantsToDrop { item: potion });
    assert!(!is_steady(&w));
    w.positions.insert(other, Position { x: 2, y: 2 });
    assert!(is_steady(&w));
    w.wants_to_drop.insert(other, WantsToDrop { item: Entity { id: 50 } });
    assert!(!is_steady(&w));
    w.wants_to_drop.insert(other, WantsToDrop { item: potion });
    w.wants_to_pickup.insert(p, WantsToPickup { collected_by: p, item: other });
    assert!(!is_steady(&w));
    w.wants_to_drop.clear();
    assert!(is_steady(&w));

    SufferDamage::new_damage(&mut w.suffer_damage, p, i32::MIN);
    assert!(!is_steady(&w));
}

#[test]
fn blows_must_fit_and_leave_room_for_the_damage() {
    let (mut w, p) = game();
    orc(&mut w, 6, 5);
    let o = Entity { id: 1 };
    w.wants_to_melee.insert(p, WantsToMelee { target: o });
    assert!(is_steady(&w));
    w.combat_stats.insert(p, CombatStats { max_hp: 30, hp: 30, defense: 2, power: i32::MAX });
    w.combat_stats.insert(o, CombatStats { max_hp: 16, hp: 16, defense: -1, power: 4 });
    assert!(!is_steady(&w));
    w.combat_stats.insert(o, CombatStats { max_hp: 16, hp: 16, defense: 0, power: 4 });
    assert!(is_steady(&w));
    w.combat_stats.insert(o, CombatStats { max_hp: 16, hp: -5, defense: -1, power: 4 });
    assert!(is_steady(&w));
    w.combat_stats.insert(o, CombatStats { max_hp: 16, hp: 16, defense: 0, power: 4 });
    SufferDamage::new_damage(&mut w.suffer_damage, o, 20);
    assert!(!is_steady(&w));
    w.wants_to_melee.clear();
    assert!(is_steady(&w));
}

#[test]
fn healings_must_fit_after_the_damage_of_the_pass() {
    let (mut w, p) = game();
    let poison = health_potion(&mut w, 0, 0);
    w.provides_healing.insert(poison, ProvidesHealing { heal_amount: -10 });
    w.wants_to_use.insert(p, WantsToUse { item: poison, target: None });
    assert!(is_steady(&w));
    w.combat_stats.insert(p, CombatStats { max_hp: 30, hp: i32::MIN + 10, defense: 2, power: 5 });
    assert!(is_steady(&w));
    w.combat_stats.insert(p, CombatStats { max_hp: 30, hp: i32::MIN + 9, defense: 2, power: 5 });
    assert!(!is_steady(&w));
    w.combat_stats.insert(p, CombatStats { max_hp: 30, hp: i32::MIN + 12, defense: 2, power: 5 });
    SufferDamage::new_damage(&mut w.suffer_damage, p, 3);
    assert!(!is_steady(&w));
    w.suffer_damage.clear();
    assert!(is_steady(&w));

    let orc_at = Point::new(6, 5);
    orc(&mut w, 6, 5);
    let o = Entity { id: 2 };
    w.combat_stats.insert(o, CombatStats { max_hp: 16, hp: i32::MIN + 9, defense: 1, power: 4 });
    assert!(is_steady(&w));
    w.wants_to_use.insert(p, WantsToUse { item: poison, target: Some(orc_at) });
    assert!(!is_steady(&w));
    w.wants_to_use.insert(p, WantsToUse { item: poison, target: Some(Point::new(7, 5)) });
    assert!(is_steady(&w));
    w.map.tile_content[0].push(o);
    assert!(is_steady(&w));
}

#[test]
fn a_healing_over_an_area_is_sure_to_fit_only_if_it_is_not_negative() {
    let (mut w, p) = game();
    let cloud = health_potion(&mut w, 0, 0);
    w.area_of_effect.insert(cloud, AreaOfEffect { radius: 2 });
    w.wants_to_use.insert(p, WantsToUse { item: cloud, target: Some(Point::new(5, 5)) });
    assert!(is_steady(&w));
    w.provides_healing.insert(cloud, ProvidesHealing { heal_amount: 0 });
    assert!(is_steady(&w));
    w.provides_healing.insert(cloud, ProvidesHealing { heal_amount: -1 });
    assert!(!is_steady(&w));
    w.wants_to_use.insert(p, WantsToUse { item: cloud, target: None });
    assert!(is_steady(&w));
}

#[test]
fn a_dropper_may_get_its_position_from_an_earlier_drop() {
    let (mut w, p) = game();
    let mule = w.create_entity();
    let sack = w.create_entity();
    w.in_backpack.insert(mule, InBackpack { owner: p });
    w.in_backpack.insert(sack, InBackpack { owner: mule });
    w.wants_to_drop.insert(mule, WantsToDrop { item: sack });
    assert!(!is_steady(&w));
    w.wants_to_drop.insert(p, WantsToDrop { item: mule });
    assert!(is_steady(&w));
    let mut gs = State { ecs: w };
    gs.run_systems();
    assert_eq!(gs.ecs.positions.get(mule), Some(&Position { x: 5, y: 5 }));
    assert_eq!(gs.ecs.positions.get(sack), Some(&Position { x: 5, y: 5 }));
    assert!(!gs.ecs.in_backpack.contains(mule) && !gs.ecs.in_backpack.contains(sack));

    let (mut w, p) = game();
    let q = w.create_entity();
    w.positions.insert(q, Position { x: 2, y: 2 });
    let gem = w.create_entity();
    w.wants_to_pickup.insert(q, WantsToPickup { collected_by: q, item: p });
    w.wants_to_drop.insert(p, WantsToDrop { item: gem });
    assert!(!is_steady(&w));
    w.wants_to_pickup.clear();
    assert!(is_steady(&w));
}

#[test]
fn tick_is_allowed_when_the_phase_finds_what_it_needs() {
    let (w, p) = game();
    let mut gs = State { ecs: w };
    let none = (ItemMenuResult::NoResponse, None);
    assert!(gs.can_tick(none));
    gs.ecs.runstate = RunState::ShowInventory;
    assert!(gs.can_tick(none));
    assert!(gs.can_tick((ItemMenuResult::Cancel, None)));
    assert!(!gs.can_tick((ItemMenuResult::Selected, None)));
    assert!(gs.can_tick((ItemMenuResult::Selected, Some(Entity { id: 3 }))));
    gs.ecs.player = Entity { id: 8 };
    assert!(!gs.can_tick((ItemMenuResult::Selected, Some(Entity { id: 3 }))));
    gs.ecs.player = p;
    gs.ecs.runstate = RunState::MonsterTurn;
    assert!(gs.can_tick(none));
    gs.ecs.wants_to_drop.insert(p, WantsToDrop { item: Entity { id: 50 } });
    assert!(!gs.can_tick(none));
    gs.ecs.runstate = RunState::AwaitingInput;
    assert!(gs.can_tick(none));
    gs.ecs.blockers.insert(Entity { id: 50 }, BlocksTile {});
    assert!(!gs.can_tick(none));
}

#[test]
fn saving_needs_references_to_kept_entities() {
    let (mut w, p) = game();
    let potion = health_potion(&mut w, 0, 0);
    w.in_backpack.insert(potion, InBackpack { owner: p });
    assert!(can_save(&w));
    let loose = w.create_entity();
    w.in_backpack.insert(potion, InBackpack { owner: loose });
    assert!(!can_save(&w));
    w.markers.insert(loose, SerializeThis {});
    assert!(can_save(&w));
    w.wants_to_use.insert(loose, WantsToUse { item: Entity { id: 70 }, target: None });
    assert!(!can_save(&w));
    w.markers.remove(loose);
    w.in_backpack.remove(potion);
    assert!(can_save(&w));
    w.wants_to_pickup.insert(p, WantsToPickup { collected_by: p, item: loose });
    assert!(!can_save(&w));
    w.wants_to_pickup.clear();
    w.wants_to_drop.insert(p, WantsToDrop { item: loose });
    assert!(!can_save(&w));
    w.wants_to_drop.clear();
    w.names.insert(Entity { id: 99 }, Name { name: "ghost".to_string() });
    assert!(!can_save(&w));
}
