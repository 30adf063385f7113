use yarr::gamelog::decimal_string;
use yarr::spawn_table::RandomTable;
use yarr::spawner::{
    confusion_scroll, create_test_backpack, fireball_scroll, goblin, health_potion,
    count_spawns, magic_missile_scroll, orc, place_spawns, plan_spawns, player, room_table,
    spawn_room, spawn_tile,
};
use yarr::{
    Color, CombatStats, Entity, Position, Rect, Renderable, TileMap, TileType, World,
};

fn world() -> World {
    World::new(TileMap::new(80, 50, TileType::Floor), 1)
}

#[test]
fn player_has_its_components() {
    let mut w = world();
    let p = player(&mut w, 40, 25);
    assert_eq!(p, Entity { id: 0 });
    assert!(w.is_alive(p));
    assert_eq!(w.positions.get(p), Some(&Position { x: 40, y: 25 }));
    assert_eq!(
        w.renderables.get(p),
        Some(&Renderable {
            glyph: 64,
            fg: Color { r: 255, g: 255, b: 0 },
            bg: Color { r: 0, g: 0, b: 0 },
            render_order: 0
        })
    );
    assert!(w.players.contains(p));
    assert_eq!(w.names.get(p).unwrap().name, "Player");
    assert_eq!(
        w.combat_stats.get(p),
        Some(&CombatStats { max_hp: 30, hp: 30, defense: 2, power: 5 })
    );
    let seen = w.viewsheds.get(p).unwrap();
    assert!(seen.visible_tiles.is_empty() && seen.range == 8 && seen.dirty);
    assert!(w.markers.contains(p));
    assert!(!w.monsters.contains(p));
}

#[test]
fn monsters_have_their_looks_and_stats() {
    let mut w = world();
    orc(&mut w, 3, 4);
    goblin(&mut w, 5, 6);
    let (o, g) = (Entity { id: 0 }, Entity { id: 1 });
    assert_eq!(w.names.get(o).unwrap().name, "Ork");
    assert_eq!(w.names.get(g).unwrap().name, "Goblin");
    assert_eq!(w.renderables.get(o).unwrap().glyph, 111);
    assert_eq!(w.renderables.get(g).unwrap().glyph, 103);
    assert_eq!(w.renderables.get(g).unwrap().fg, Color { r: 255, g: 0, b: 0 });
    assert_eq!(w.renderables.get(g).unwrap().render_order, 1);
    assert_eq!(
        w.combat_stats.get(g),
        Some(&CombatStats { max_hp: 16, hp: 16, defense: 1, power: 4 })
    );
    assert!(w.monsters.contains(o) && w.blockers.contains(o) && w.markers.contains(o));
    assert_eq!(w.positions.get(g), Some(&Position { x: 5, y: 6 }));
}

#[test]
fn items_have_their_effects() {
    let mut w = world();
    let potion = health_potion(&mut w, 1, 1);
    let missile = magic_missile_scroll(&mut w, 2, 2);
    let fireball = fireball_scroll(&mut w, 3, 3);
    let confusion = confusion_scroll(&mut w, 4, 4);
    for e in [potion, missile, fireball, confusion] {
        assert!(w.items.contains(e) && w.consumables.contains(e) && w.markers.contains(e));
        assert_eq!(w.renderables.get(e).unwrap().render_order, 2);
    }
    assert_eq!(w.names.get(potion).unwrap().name, "Health Potion");
    assert_eq!(w.renderables.get(potion).unwrap().glyph, 173);
    assert_eq!(w.renderables.get(potion).unwrap().fg, Color { r: 255, g: 0, b: 255 });
    assert_eq!(w.provides_healing.get(potion).unwrap().heal_amount, 8);
    assert!(!w.ranged.contains(potion));
    assert_eq!(w.names.get(missile).unwrap().name, "Magic Missle Scroll");
    assert_eq!(w.renderables.get(missile).unwrap().glyph, 41);
    assert_eq!(w.provides_damage.get(missile).unwrap().damage_amount, 8);
    assert_eq!(w.ranged.get(missile).unwrap().range, 6);
    assert!(!w.area_of_effect.contains(missile));
    assert_eq!(w.names.get(fireball).unwrap().name, "Fireball Scroll");
    assert_eq!(w.provides_damage.get(fireball).unwrap().damage_amount, 20);
    assert_eq!(w.area_of_effect.get(fireball).unwrap().radius, 3);
    assert_eq!(w.renderables.get(fireball).unwrap().fg, Color { r: 255, g: 165, b: 0 });
    assert_eq!(w.names.get(confusion).unwrap().name, "Confusion Scroll");
    assert_eq!(w.confusion.get(confusion).unwrap().turns, 4);
    assert_eq!(w.renderables.get(confusion).unwrap().fg, Color { r: 255, g: 192, b: 203 });
    assert_eq!(w.positions.get(confusion), Some(&Position { x: 4, y: 4 }));
}

#[test]
fn test_backpack_holds_two_of_each() {
    let mut w = world();
    let p = player(&mut w, 40, 25);
    w.player = p;
    create_test_backpack(&mut w);
    assert_eq!(w.alive.len(), 9);
    let names: Vec<String> =
        (1..9).map(|id| w.names.get(Entity { id }).unwrap().name.clone()).collect();
    assert_eq!(
        names,
        vec![
            "Health Potion",
            "Health Potion",
            "Magic Missle Scroll",
            "Magic Missle Scroll",
            "Fireball Scroll",
            "Fireball Scroll",
            "Confusion Scroll",
            "Confusion Scroll"
        ]
    );
    for id in 1..9 {
        let e = Entity { id };
        assert!(!w.positions.contains(e));
        assert_eq!(w.in_backpack.get(e).unwrap().owner, p);
    }
    assert!(w.positions.contains(p));
}

#[test]
fn table_picks_by_weight() {
    let t = RandomTable::new().add("a", 2).add("skipped", 0).add("b", 3).add("c", -4);
    assert_eq!(t.entries.len(), 2);
    assert_eq!(t.total_weight, 5);
    assert_eq!(t.pick(0), "None");
    assert_eq!(t.pick(1), "a");
    assert_eq!(t.pick(2), "None");
    assert_eq!(t.pick(3), "b");
    assert_eq!(t.pick(4), "b");
    assert_eq!(t.pick(5), "None");
    assert_eq!(t.pick(-1), "None");
    assert_eq!(RandomTable::new().pick(3), "None");
}

#[test]
fn table_rolls_one_of_its_lines() {
    let mut w = world();
    let t = RandomTable::new().add("a", 2).add("b", 3);
    let mut seen_a = false;
    let mut seen_b = false;
    for _ in 0..200 {
        let name = t.roll(&mut w.rng);
        assert!(name == "a" || name == "b" || name == "None");
        seen_a = seen_a || name == "a";
        seen_b = seen_b || name == "b";
    }
    assert!(seen_a && seen_b);
    assert_eq!(RandomTable::new().roll(&mut w.rng), "None");
}

#[test]
fn room_table_depends_on_depth() {
    let t = room_table(1);
    let lines: Vec<(String, i32)> = t.entries.iter().map(|e| (e.name.clone(), e.weight)).collect();
    assert_eq!(
        lines,
        vec![
            ("Goblin".to_string(), 10),
            ("Orc".to_string(), 2),
            ("Health Potion".to_string(), 7),
            ("Fireball SWcroll".to_string(), 3),
            ("Confusion Scroll".to_string(), 3),
            ("Magic Missile Scroll".to_string(), 4)
        ]
    );
    assert_eq!(t.total_weight, 29);
    let shallow = room_table(-2);
    assert_eq!(shallow.entries.len(), 3);
    assert_eq!(shallow.total_weight, 21);
}

#[test]
fn planned_spawns_lie_in_the_room_on_tiles_of_their_own() {
    let mut w = world();
    let room = Rect::new(10, 20, 6, 4);
    for depth in [1, 3, 4, 8] {
        let plan = plan_spawns(&mut w.rng, &room, depth);
        assert!(plan.len() as i32 <= 3 + depth);
        assert!(depth < 4 || !plan.is_empty());
        let kinds = ["Goblin", "Orc", "Health Potion", "Fireball SWcroll", "Confusion Scroll",
            "Magic Missile Scroll", "None"];
        assert!(plan.iter().all(|(_, name)| kinds.contains(&name.as_str())));
        for (k, (idx, _name)) in plan.iter().enumerate() {
            let (x, y) = ((idx % 80) as i32, (idx / 80) as i32);
            assert!(10 < x && x <= 16 && 20 < y && y <= 24);
            assert!(plan.iter().skip(k + 1).all(|(other, _)| other != idx));
        }
    }
}

#[test]
fn placing_creates_what_the_names_say() {
    let mut w = world();
    let plan = vec![
        (80 * 3 + 2, "Goblin".to_string()),
        (80 * 4 + 5, "Fireball SWcroll".to_string()),
        (80 * 5 + 7, "Orc".to_string()),
        (80 * 6 + 9, "Health Potion".to_string()),
        (80 * 7 + 1, "None".to_string()),
        (80 * 8 + 3, "Fireball Scroll".to_string()),
        (80 * 9 + 4, "Confusion Scroll".to_string()),
        (80 * 10 + 6, "Magic Missile Scroll".to_string()),
    ];
    place_spawns(&mut w, &plan);
    let names: Vec<String> =
        (0..w.alive.len()).map(|id| w.names.get(Entity { id }).unwrap().name.clone()).collect();
    assert_eq!(
        names,
        vec![
            "Goblin",
            "Ork",
            "Health Potion",
            "Fireball Scroll",
            "Confusion Scroll",
            "Magic Missle Scroll"
        ]
    );
    assert_eq!(w.positions.get(Entity { id: 0 }), Some(&Position { x: 2, y: 3 }));
    assert_eq!(w.positions.get(Entity { id: 1 }), Some(&Position { x: 7, y: 5 }));
    assert_eq!(w.positions.get(Entity { id: 5 }), Some(&Position { x: 6, y: 10 }));
}

#[test]
fn spawn_room_adds_entities_inside_the_room() {
    let mut w = world();
    let p = player(&mut w, 40, 25);
    let room = Rect::new(30, 10, 8, 8);
    for _ in 0..20 {
        spawn_room(&mut w, &room, 2);
    }
    assert!(w.is_alive(p));
    assert_eq!(w.positions.get(p), Some(&Position { x: 40, y: 25 }));
    assert!(w.alive.len() > 1);
    for id in 1..w.alive.len() {
        let at = w.positions.get(Entity { id }).unwrap();
        assert!(30 < at.x && at.x <= 38 && 10 < at.y && at.y <= 18);
        assert!(w.markers.contains(Entity { id }));
    }
}

#[test]
fn numbers_are_written_in_decimal() {
    assert_eq!(decimal_string(0), "0");
    assert_eq!(decimal_string(7), "7");
    assert_eq!(decimal_string(10), "10");
    assert_eq!(decimal_string(-1), "-1");
    assert_eq!(decimal_string(120_034), "120034");
    assert_eq!(decimal_string(i32::MAX), "2147483647");
    assert_eq!(decimal_string(i32::MIN), "-2147483648");
}

#[test]
fn no_spawns_are_planned_where_none_is_tried() {
    let mut w = world();
    let room = Rect::new(10, 20, 6, 4);
    for _ in 0..50 {
        assert!(plan_spawns(&mut w.rng, &room, -3).is_empty());
        assert!(plan_spawns(&mut w.rng, &room, -40).is_empty());
    }
}

#[test]
fn a_room_of_one_tile_takes_one_spawn() {
    let mut w = world();
    let room = Rect::new(10, 20, 1, 1);
    for _ in 0..20 {
        let plan = plan_spawns(&mut w.rng, &room, 8);
        assert_eq!(plan.len(), 1);
        assert_eq!(plan[0].0, 21 * 80 + 11);
    }
}

#[test]
fn the_die_and_the_depth_give_the_number_of_spawns_tried() {
    assert_eq!(count_spawns(1, 1), -2);
    assert_eq!(count_spawns(4, 1), 1);
    assert_eq!(count_spawns(7, 1), 4);
    assert_eq!(count_spawns(7, 5), 8);
    assert_eq!(count_spawns(1, -3), -6);
}

#[test]
fn two_dice_give_a_tile_of_the_room() {
    let room = Rect::new(10, 20, 6, 4);
    assert_eq!(spawn_tile(&room, 1, 1), 21 * 80 + 11);
    assert_eq!(spawn_tile(&room, 6, 4), 24 * 80 + 16);
    assert_eq!(spawn_tile(&room, 3, 2), 22 * 80 + 13);
    let mirrored = Rect { x1: 16, y1: 24, x2: 10, y2: 20 };
    assert_eq!(spawn_tile(&mirrored, 6, 4), 28 * 80 + 22);
}
