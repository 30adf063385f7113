use rltk::Point;
use yarr::gui::ItemMenuResult;
use yarr::map_indexing_system::MapIndexingSystem;
use yarr::player::{player_input, try_move_player, Key};
use yarr::spawner::{fireball_scroll, goblin, health_potion, magic_missile_scroll, orc, player};
use yarr::{
    CombatStats, Entity, InBackpack, Position, RunState, State, SufferDamage, TileMap, TileType,
    WantsToDrop, WantsToMelee, WantsToPickup, WantsToUse, World,
};

fn game() -> (State, Entity) {
    let mut w = World::new(TileMap::new(20, 20, TileType::Floor), 1);
    let p = player(&mut w, 5, 5);
    w.player = p;
    w.player_pos = Point::new(5, 5);
    (State { ecs: w }, p)
}

fn index(gs: &mut State) {
    MapIndexingSystem {}.run(&mut gs.ecs);
}

const NO_MENU: (ItemMenuResult, Option<Entity>) = (ItemMenuResult::NoResponse, None);

#[test]
fn phases_follow_each_other() {
    let (mut gs, _p) = game();
    assert_eq!(gs.ecs.runstate, RunState::PreRun);
    gs.tick(None, NO_MENU);
    assert_eq!(gs.ecs.runstate, RunState::AwaitingInput);
    gs.tick(None, NO_MENU);
    assert_eq!(gs.ecs.runstate, RunState::AwaitingInput);
    gs.tick(Some(Key::Other), NO_MENU);
    assert_eq!(gs.ecs.runstate, RunState::AwaitingInput);
    gs.tick(Some(Key::Right), NO_MENU);
    assert_eq!(gs.ecs.runstate, RunState::PlayerTurn);
    gs.tick(Some(Key::Right), NO_MENU);
    assert_eq!(gs.ecs.runstate, RunState::MonsterTurn);
    gs.tick(None, NO_MENU);
    assert_eq!(gs.ecs.runstate, RunState::AwaitingInput);
    assert_eq!(gs.ecs.positions.get(gs.ecs.player), Some(&Position { x: 6, y: 5 }));
}

#[test]
fn menus_wait_cancel_or_create_an_intent() {
    let (mut gs, p) = game();
    let potion = health_potion(&mut gs.ecs, 0, 0);
    gs.ecs.positions.remove(potion);
    gs.ecs.in_backpack.insert(potion, InBackpack { owner: p });
    gs.ecs.runstate = RunState::AwaitingInput;
    gs.tick(Some(Key::I), NO_MENU);
    assert_eq!(gs.ecs.runstate, RunState::ShowInventory);
    gs.tick(None, NO_MENU);
    assert_eq!(gs.ecs.runstate, RunState::ShowInventory);
    gs.tick(None, (ItemMenuResult::Cancel, None));
    assert_eq!(gs.ecs.runstate, RunState::AwaitingInput);
    gs.tick(Some(Key::D), NO_MENU);
    assert_eq!(gs.ecs.runstate, RunState::ShowDropInventory);
    gs.tick(None, (ItemMenuResult::Selected, Some(potion)));
    assert_eq!(gs.ecs.runstate, RunState::PlayerTurn);
    assert_eq!(gs.ecs.wants_to_drop.get(p), Some(&WantsToDrop { item: potion }));
    gs.tick(None, NO_MENU);
    assert_eq!(gs.ecs.runstate, RunState::MonsterTurn);
    assert!(!gs.ecs.wants_to_drop.contains(p));
    assert_eq!(gs.ecs.positions.get(potion), Some(&Position { x: 5, y: 5 }));
    gs.ecs.runstate = RunState::ShowInventory;
    gs.tick(None, (ItemMenuResult::Selected, Some(potion)));
    assert_eq!(gs.ecs.runstate, RunState::PlayerTurn);
    assert_eq!(gs.ecs.wants_to_use.get(p), Some(&WantsToUse { item: potion, target: None }));
}

#[test]
fn the_dead_are_swept_after_every_phase() {
    let (mut gs, _p) = game();
    orc(&mut gs.ecs, 9, 9);
    let o = Entity { id: 1 };
    gs.ecs.combat_stats.insert(o, CombatStats { max_hp: 16, hp: 0, defense: 1, power: 4 });
    gs.ecs.runstate = RunState::ShowInventory;
    gs.tick(None, NO_MENU);
    assert!(!gs.ecs.is_alive(o));
    assert_eq!(gs.ecs.log.entries, vec!["Ork died in pain!".to_string()]);
    assert_eq!(gs.ecs.runstate, RunState::ShowInventory);
}

#[test]
fn a_pass_applies_damage_and_the_sweep_follows() {
    let (mut gs, p) = game();
    goblin(&mut gs.ecs, 6, 5);
    let g = Entity { id: 1 };
    SufferDamage::new_damage(&mut gs.ecs.suffer_damage, g, 10);
    SufferDamage::new_damage(&mut gs.ecs.suffer_damage, g, 6);
    SufferDamage::new_damage(&mut gs.ecs.suffer_damage, p, 30);
    gs.ecs.runstate = RunState::MonsterTurn;
    gs.tick(None, NO_MENU);
    assert!(!gs.ecs.is_alive(g));
    assert!(gs.ecs.is_alive(p));
    assert_eq!(gs.ecs.combat_stats.get(p).unwrap().hp, 0);
    assert_eq!(
        gs.ecs.log.entries,
        vec!["You are dead".to_string(), "Goblin died in pain!".to_string()]
    );
    assert_eq!(gs.ecs.runstate, RunState::AwaitingInput);
}

#[test]
fn a_pass_exhausts_the_intents() {
    let (mut gs, p) = game();
    orc(&mut gs.ecs, 12, 5);
    let o = Entity { id: 1 };
    let potion = health_potion(&mut gs.ecs, 5, 5);
    let scroll = fireball_scroll(&mut gs.ecs, 0, 0);
    gs.ecs.positions.remove(scroll);
    gs.ecs.in_backpack.insert(scroll, InBackpack { owner: p });
    let carried = health_potion(&mut gs.ecs, 0, 0);
    gs.ecs.positions.remove(carried);
    gs.ecs.in_backpack.insert(carried, InBackpack { owner: o });
    index(&mut gs);
    gs.ecs.wants_to_pickup.insert(p, WantsToPickup { collected_by: p, item: potion });
    gs.ecs.wants_to_use.insert(p, WantsToUse { item: scroll, target: Some(Point::new(12, 5)) });
    gs.ecs.wants_to_drop.insert(o, WantsToDrop { item: carried });
    gs.run_systems();
    for id in 0..gs.ecs.alive.len() {
        let e = Entity { id };
        assert!(!gs.ecs.wants_to_pickup.contains(e));
        assert!(!gs.ecs.wants_to_use.contains(e));
        assert!(!gs.ecs.wants_to_drop.contains(e));
        assert!(!gs.ecs.wants_to_melee.contains(e));
    }
    assert_eq!(gs.ecs.in_backpack.get(potion).unwrap().owner, p);
    assert_eq!(gs.ecs.suffer_damage.get(o).unwrap().amount, vec![20]);
    assert!(!gs.ecs.is_alive(scroll));
    assert_eq!(gs.ecs.positions.get(carried), Some(&Position { x: 12, y: 5 }));
    assert_eq!(
        gs.ecs.log.entries,
        vec![
            "You picked up the Health Potion".to_string(),
            "You use Fireball Scroll on Ork, inflicting 20 damage.".to_string(),
        ]
    );
}

#[test]
fn a_pass_resolves_attacks_and_applies_their_damage() {
    let (mut gs, p) = game();
    orc(&mut gs.ecs, 6, 5);
    let o = Entity { id: 1 };
    gs.ecs.wants_to_melee.insert(p, WantsToMelee { target: o });
    gs.ecs.wants_to_melee.insert(o, WantsToMelee { target: p });
    gs.run_systems();
    assert!(!gs.ecs.wants_to_melee.contains(p));
    assert!(!gs.ecs.wants_to_melee.contains(o));
    assert_eq!(gs.ecs.combat_stats.get(o).unwrap().hp, 12);
    assert_eq!(gs.ecs.combat_stats.get(p).unwrap().hp, 28);
    assert!(!gs.ecs.suffer_damage.contains(o));
    assert_eq!(
        gs.ecs.log.entries,
        vec!["Player hits Ork, for 4 hp.".to_string(), "Ork hits Player, for 2 hp.".to_string()]
    );
}

#[test]
fn a_pass_rebuilds_the_occupant_index_before_targeting() {
    let (mut gs, p) = game();
    orc(&mut gs.ecs, 12, 5);
    let o = Entity { id: 1 };
    let scroll = magic_missile_scroll(&mut gs.ecs, 0, 0);
    gs.ecs.positions.remove(scroll);
    gs.ecs.in_backpack.insert(scroll, InBackpack { owner: p });
    let stale = gs.ecs.map.xy_idx(3, 3);
    gs.ecs.map.tile_content[stale].push(o);
    gs.ecs.wants_to_use.insert(p, WantsToUse { item: scroll, target: Some(Point::new(12, 5)) });
    gs.run_systems();
    assert_eq!(gs.ecs.suffer_damage.get(o).unwrap().amount, vec![8]);
    assert!(!gs.ecs.is_alive(scroll));
    let here = gs.ecs.map.xy_idx(12, 5);
    assert_eq!(gs.ecs.map.tile_content[here], vec![o]);
    assert!(gs.ecs.map.tile_content[stale].is_empty());
    assert!(gs.ecs.map.blocked_tiles[here]);
}

#[test]
fn moving_into_a_foe_becomes_an_attack() {
    let (mut gs, p) = game();
    orc(&mut gs.ecs, 6, 5);
    let o = Entity { id: 1 };
    index(&mut gs);
    gs.ecs.viewsheds.remove(p);
    gs.ecs.viewsheds.insert(p, yarr::Viewshed { visible_tiles: vec![Point::new(1, 1)], range: 8, dirty: false });
    let next = player_input(&mut gs, Some(Key::L));
    assert_eq!(next, RunState::PlayerTurn);
    assert_eq!(gs.ecs.wants_to_melee.get(p), Some(&WantsToMelee { target: o }));
    assert_eq!(gs.ecs.positions.get(p), Some(&Position { x: 5, y: 5 }));
    assert!(!gs.ecs.viewsheds.get(p).unwrap().dirty);
}

#[test]
fn moving_onto_loot_picks_it_up_and_steps() {
    let (mut gs, p) = game();
    let potion = health_potion(&mut gs.ecs, 5, 4);
    index(&mut gs);
    gs.ecs.viewsheds.remove(p);
    gs.ecs.viewsheds.insert(p, yarr::Viewshed { visible_tiles: vec![Point::new(1, 1)], range: 8, dirty: false });
    try_move_player(0, -1, &mut gs.ecs);
    assert_eq!(
        gs.ecs.wants_to_pickup.get(p),
        Some(&WantsToPickup { collected_by: p, item: potion })
    );
    assert_eq!(gs.ecs.positions.get(p), Some(&Position { x: 5, y: 4 }));
    assert_eq!(gs.ecs.player_pos, Point::new(5, 4));
    let seen = gs.ecs.viewsheds.get(p).unwrap();
    assert!(seen.dirty);
    assert_eq!(seen.visible_tiles, vec![Point::new(1, 1)]);
    assert_eq!(seen.range, 8);
}

#[test]
fn blocked_tiles_and_the_edges_stop_the_player() {
    let (mut gs, p) = game();
    let idx = gs.ecs.map.xy_idx(4, 5);
    gs.ecs.map.blocked_tiles[idx] = true;
    try_move_player(-1, 0, &mut gs.ecs);
    assert_eq!(gs.ecs.positions.get(p), Some(&Position { x: 5, y: 5 }));
    gs.ecs.positions.insert(p, Position { x: 1, y: 1 });
    try_move_player(-1, 0, &mut gs.ecs);
    assert_eq!(gs.ecs.positions.get(p), Some(&Position { x: 1, y: 1 }));
    try_move_player(0, -1, &mut gs.ecs);
    assert_eq!(gs.ecs.positions.get(p), Some(&Position { x: 1, y: 1 }));
    gs.ecs.positions.insert(p, Position { x: 18, y: 18 });
    try_move_player(1, 1, &mut gs.ecs);
    assert_eq!(gs.ecs.positions.get(p), Some(&Position { x: 19, y: 19 }));
    try_move_player(1, 0, &mut gs.ecs);
    assert_eq!(gs.ecs.positions.get(p), Some(&Position { x: 19, y: 19 }));
    gs.ecs.positions.insert(p, Position { x: i32::MAX, y: 3 });
    try_move_player(1, 0, &mut gs.ecs);
    assert_eq!(gs.ecs.positions.get(p), Some(&Position { x: i32::MAX, y: 3 }));
}

#[test]
fn every_movement_key_moves_by_its_step() {
    let steps = [
        (Key::Left, -1, 0),
        (Key::Numpad4, -1, 0),
        (Key::H, -1, 0),
        (Key::Right, 1, 0),
        (Key::Numpad6, 1, 0),
        (Key::L, 1, 0),
        (Key::Up, 0, -1),
        (Key::Numpad8, 0, -1),
        (Key::K, 0, -1),
        (Key::Down, 0, 1),
        (Key::Numpad2, 0, 1),
        (Key::J, 0, 1),
        (Key::Numpad9, 1, -1),
        (Key::U, 1, -1),
        (Key::Numpad7, -1, -1),
        (Key::Y, -1, -1),
        (Key::Numpad3, 1, 1),
        (Key::N, 1, 1),
        (Key::Numpad1, -1, 1),
        (Key::B, -1, 1),
    ];
    for (key, dx, dy) in steps {
        let (mut gs, p) = game();
        assert_eq!(player_input(&mut gs, Some(key)), RunState::PlayerTurn);
        assert_eq!(gs.ecs.positions.get(p), Some(&Position { x: 5 + dx, y: 5 + dy }));
    }
    let (mut gs, p) = game();
    assert_eq!(player_input(&mut gs, Some(Key::I)), RunState::ShowInventory);
    assert_eq!(player_input(&mut gs, Some(Key::D)), RunState::ShowDropInventory);
    assert_eq!(player_input(&mut gs, Some(Key::Other)), RunState::AwaitingInput);
    assert_eq!(player_input(&mut gs, None), RunState::AwaitingInput);
    assert_eq!(gs.ecs.positions.get(p), Some(&Position { x: 5, y: 5 }));
}
