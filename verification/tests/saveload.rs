use rltk::Point;
use yarr::saveload_system::{load_game, save_game, SaveDocument};
use yarr::spawner::{health_potion, orc, player};
use yarr::{
    Entity, InBackpack, Name, Player, Position, RunState, SerializationHelper, SerializeThis,
    Storage, SufferDamage, TileMap, TileType, WantsToMelee, WantsToUse, World,
};

fn level() -> TileMap {
    let mut m = TileMap::new(12, 9, TileType::Floor);
    m.tiles[13] = TileType::Wall;
    m.blocked_tiles[13] = true;
    m.revealed_tiles[14] = true;
    m
}

fn game() -> (World, Entity, Entity, Entity) {
    let mut w = World::new(level(), 7);
    let junk = w.create_entity();
    w.names.insert(junk, Name { name: "Unsaved".to_string() });
    let p = player(&mut w, 3, 4);
    w.player = p;
    w.player_pos = Point::new(3, 4);
    orc(&mut w, 6, 6);
    let o = Entity { id: p.id + 1 };
    let potion = health_potion(&mut w, 0, 0);
    w.positions.remove(potion);
    w.in_backpack.insert(potion, InBackpack { owner: p });
    w.wants_to_melee.insert(o, WantsToMelee { target: p });
    w.wants_to_use.insert(p, WantsToUse { item: potion, target: Some(Point::new(6, 6)) });
    SufferDamage::new_damage(&mut w.suffer_damage, o, 3);
    SufferDamage::new_damage(&mut w.suffer_damage, o, 4);
    let idx = w.map.xy_idx(6, 6);
    w.map.tile_content[idx].push(o);
    (w, p, o, potion)
}

#[test]
fn save_leaves_the_world_as_it_was_but_for_one_used_id() {
    let (mut w, p, o, potion) = game();
    let before = w.alive.len();
    let doc = save_game(&mut w);
    assert_eq!(w.alive.len(), before + 1);
    assert!(!w.is_alive(Entity { id: before }));
    assert!(!w.helpers.contains(Entity { id: before }));
    assert!(!w.markers.contains(Entity { id: before }));
    assert!(w.is_alive(p) && w.is_alive(o) && w.is_alive(potion));
    assert_eq!(w.in_backpack.get(potion).unwrap().owner, p);
    assert_eq!(w.map.tile_content[w.map.xy_idx(6, 6)], vec![o]);
    assert_eq!(doc.entities, 4);
    assert!(doc.is_loadable());
}

#[test]
fn document_names_entities_by_rank_and_rewrites_references() {
    let (mut w, _p, _o, _potion) = game();
    let doc = save_game(&mut w);
    let (p, o, potion, helper) =
        (Entity { id: 0 }, Entity { id: 1 }, Entity { id: 2 }, Entity { id: 3 });
    assert_eq!(doc.positions.get(p), Some(&Position { x: 3, y: 4 }));
    assert_eq!(doc.positions.get(o), Some(&Position { x: 6, y: 6 }));
    assert!(!doc.positions.contains(potion));
    assert_eq!(doc.names.get(p).unwrap().name, "Player");
    assert_eq!(doc.names.get(o).unwrap().name, "Ork");
    assert_eq!(doc.names.get(potion).unwrap().name, "Health Potion");
    assert!(!doc.names.contains(helper));
    assert_eq!(doc.in_backpack.get(potion), Some(&InBackpack { owner: p }));
    assert_eq!(doc.wants_to_melee.get(o), Some(&WantsToMelee { target: p }));
    assert_eq!(
        doc.wants_to_use.get(p),
        Some(&WantsToUse { item: potion, target: Some(Point::new(6, 6)) })
    );
    assert_eq!(doc.suffer_damage.get(o).unwrap().amount, vec![3, 4]);
    assert!(doc.players.contains(p));
    assert!(doc.markers.contains(helper));
    let carried = &doc.helpers.get(helper).unwrap().map;
    assert_eq!(carried.tiles, level().tiles);
    assert_eq!(carried.blocked_tiles, level().blocked_tiles);
    assert_eq!(carried.revealed_tiles, level().revealed_tiles);
    assert!(carried.tile_content.iter().all(|c| c.is_empty()));
}

#[test]
fn round_trip_restores_components_and_references() {
    let (mut w, _p, _o, _potion) = game();
    w.log.push("before".to_string());
    let doc = save_game(&mut w);
    let mut other = World::new(TileMap::new(2, 2, TileType::Wall), 3);
    let stale = other.create_entity();
    other.names.insert(stale, Name { name: "Stale".to_string() });
    other.doom(stale);
    other.runstate = RunState::AwaitingInput;
    other.log.push("kept".to_string());
    load_game(&mut other, doc);
    let (p, o, potion, helper) =
        (Entity { id: 0 }, Entity { id: 1 }, Entity { id: 2 }, Entity { id: 3 });
    assert_eq!(other.alive, vec![true, true, true, false]);
    assert!(!other.helpers.contains(helper));
    assert!(!other.markers.contains(helper));
    assert!(!other.doomed.contains(stale));
    assert_eq!(other.player, p);
    assert_eq!(other.player_pos, Point::new(3, 4));
    assert_eq!(other.positions.get(p), Some(&Position { x: 3, y: 4 }));
    assert_eq!(other.names.get(p).unwrap().name, "Player");
    assert_eq!(other.names.get(o).unwrap().name, "Ork");
    assert_eq!(other.combat_stats.get(p), w.combat_stats.get(Entity { id: 1 }));
    assert_eq!(other.combat_stats.get(o), w.combat_stats.get(Entity { id: 2 }));
    assert_eq!(other.renderables.get(o), w.renderables.get(Entity { id: 2 }));
    assert_eq!(other.viewsheds.get(o), w.viewsheds.get(Entity { id: 2 }));
    assert_eq!(other.in_backpack.get(potion), Some(&InBackpack { owner: p }));
    assert_eq!(other.wants_to_melee.get(o), Some(&WantsToMelee { target: p }));
    assert_eq!(other.suffer_damage.get(o).unwrap().amount, vec![3, 4]);
    assert_eq!(other.provides_healing.get(potion).unwrap().heal_amount, 8);
    assert!(other.consumables.contains(potion));
    assert_eq!(other.map.tiles, level().tiles);
    assert_eq!(other.map.width, 12);
    assert_eq!(other.map.height, 9);
    assert_eq!(other.map.tile_content.len(), 108);
    assert!(other.map.tile_content.iter().all(|c| c.is_empty()));
    assert_eq!(other.log.entries, vec!["kept".to_string()]);
    assert_eq!(other.runstate, RunState::AwaitingInput);
}

#[test]
fn saving_twice_gives_the_same_document() {
    let (mut w, _p, _o, _potion) = game();
    let first = save_game(&mut w);
    let second = save_game(&mut w);
    assert_eq!(first.entities, second.entities);
    assert_eq!(first.names.get(Entity { id: 2 }), second.names.get(Entity { id: 2 }));
    assert_eq!(first.helpers.get(Entity { id: 3 }), second.helpers.get(Entity { id: 3 }));
    assert_eq!(w.alive.len(), 6);
}

fn empty_document(entities: usize) -> SaveDocument {
    SaveDocument {
        entities,
        positions: Storage::new(),
        renderables: Storage::new(),
        players: Storage::new(),
        viewsheds: Storage::new(),
        monsters: Storage::new(),
        names: Storage::new(),
        blockers: Storage::new(),
        combat_stats: Storage::new(),
        wants_to_melee: Storage::new(),
        suffer_damage: Storage::new(),
        items: Storage::new(),
        consumables: Storage::new(),
        ranged: Storage::new(),
        provides_healing: Storage::new(),
        provides_damage: Storage::new(),
        area_of_effect: Storage::new(),
        confusion: Storage::new(),
        in_backpack: Storage::new(),
        wants_to_pickup: Storage::new(),
        wants_to_use: Storage::new(),
        wants_to_drop: Storage::new(),
        markers: Storage::new(),
        helpers: Storage::new(),
    }
}

#[test]
fn document_without_level_or_player_is_not_loadable() {
    let mut doc = empty_document(2);
    assert!(!doc.is_loadable());
    doc.helpers.insert(Entity { id: 1 }, SerializationHelper { map: level() });
    assert!(!doc.is_loadable());
    doc.players.insert(Entity { id: 0 }, Player {});
    assert!(!doc.is_loadable());
    doc.positions.insert(Entity { id: 0 }, Position { x: 1, y: 1 });
    assert!(doc.is_loadable());
}

#[test]
fn document_that_speaks_of_entities_it_lacks_is_not_loadable() {
    let mut doc = empty_document(2);
    doc.helpers.insert(Entity { id: 1 }, SerializationHelper { map: level() });
    doc.players.insert(Entity { id: 0 }, Player {});
    doc.positions.insert(Entity { id: 0 }, Position { x: 1, y: 1 });
    doc.markers.insert(Entity { id: 2 }, SerializeThis {});
    assert!(!doc.is_loadable());
}

#[test]
fn document_with_a_broken_level_is_not_loadable() {
    let mut doc = empty_document(2);
    let mut broken = level();
    broken.tiles.pop();
    doc.helpers.insert(Entity { id: 1 }, SerializationHelper { map: broken });
    doc.players.insert(Entity { id: 0 }, Player {});
    doc.positions.insert(Entity { id: 0 }, Position { x: 1, y: 1 });
    assert!(!doc.is_loadable());
}

#[test]
fn the_last_helper_and_the_last_hero_win() {
    let mut doc = empty_document(4);
    doc.helpers.insert(Entity { id: 0 }, SerializationHelper { map: TileMap::new(2, 2, TileType::Wall) });
    doc.helpers.insert(Entity { id: 2 }, SerializationHelper { map: level() });
    for id in [1usize, 3usize] {
        doc.players.insert(Entity { id }, Player {});
        doc.positions.insert(Entity { id }, Position { x: id as i32, y: 5 });
    }
    assert!(doc.is_loadable());
    let mut w = World::new(TileMap::new(1, 1, TileType::Floor), 1);
    load_game(&mut w, doc);
    assert_eq!(w.map.width, 12);
    assert_eq!(w.alive, vec![true, true, false, true]);
    assert!(w.helpers.contains(Entity { id: 0 }));
    assert_eq!(w.player, Entity { id: 3 });
    assert_eq!(w.player_pos, Point::new(3, 5));
}
