use yarr::melee_combat_system::MeleeCombatSystem;
use yarr::{CombatStats, Entity, Name, TileMap, TileType, WantsToMelee, World};

fn world() -> World {
    World::new(TileMap::new(10, 10, TileType::Floor), 1)
}

fn fighter(w: &mut World, name: Option<&str>, hp: i32, defense: i32, power: i32) -> Entity {
    let e = w.create_entity();
    w.combat_stats.insert(e, CombatStats { max_hp: 30, hp, defense, power });
    if let Some(n) = name {
        w.names.insert(e, Name { name: n.to_string() });
    }
    e
}

#[test]
fn a_blow_is_power_less_defense() {
    let mut w = world();
    let p = fighter(&mut w, Some("Player"), 30, 2, 5);
    let o = fighter(&mut w, Some("Ork"), 16, 1, 4);
    w.wants_to_melee.insert(p, WantsToMelee { target: o });
    MeleeCombatSystem {}.run(&mut w);
    assert_eq!(w.suffer_damage.get(o).unwrap().amount, vec![4]);
    assert!(!w.suffer_damage.contains(p));
    assert_eq!(w.combat_stats.get(o).unwrap().hp, 16);
    assert_eq!(w.log.entries, vec!["Player hits Ork, for 4 hp.".to_string()]);
    assert!(!w.wants_to_melee.contains(p));
}

#[test]
fn a_blow_that_cannot_hurt_queues_nothing() {
    let mut w = world();
    let g = fighter(&mut w, Some("Goblin"), 16, 1, 2);
    let k = fighter(&mut w, Some("Knight"), 30, 2, 5);
    let t = fighter(&mut w, Some("Turtle"), 30, 9, 1);
    w.wants_to_melee.insert(g, WantsToMelee { target: k });
    w.wants_to_melee.insert(k, WantsToMelee { target: t });
    MeleeCombatSystem {}.run(&mut w);
    assert!(!w.suffer_damage.contains(k));
    assert!(!w.suffer_damage.contains(t));
    assert_eq!(
        w.log.entries,
        vec![
            "Goblin is unable to hurt Knight".to_string(),
            "Knight is unable to hurt Turtle".to_string()
        ]
    );
    assert!(!w.wants_to_melee.contains(g) && !w.wants_to_melee.contains(k));
}

#[test]
fn several_attackers_queue_their_blows_in_order() {
    let mut w = world();
    let p = fighter(&mut w, Some("Player"), 30, 2, 5);
    let a = fighter(&mut w, Some("Ork"), 16, 1, 4);
    let b = fighter(&mut w, None, 16, 0, 9);
    w.wants_to_melee.insert(b, WantsToMelee { target: p });
    w.wants_to_melee.insert(a, WantsToMelee { target: p });
    w.wants_to_melee.insert(p, WantsToMelee { target: b });
    MeleeCombatSystem {}.run(&mut w);
    assert_eq!(w.suffer_damage.get(p).unwrap().amount, vec![2, 7]);
    assert_eq!(w.suffer_damage.get(b).unwrap().amount, vec![5]);
    assert_eq!(w.log.entries, vec!["Ork hits Player, for 2 hp.".to_string()]);
}

#[test]
fn the_fallen_and_those_without_stats_neither_strike_nor_are_struck() {
    let mut w = world();
    let down = fighter(&mut w, Some("Ghost"), 0, 1, 9);
    let up = fighter(&mut w, Some("Ork"), 16, 1, 4);
    let chest = w.create_entity();
    w.wants_to_melee.insert(down, WantsToMelee { target: up });
    w.wants_to_melee.insert(up, WantsToMelee { target: down });
    w.wants_to_melee.insert(chest, WantsToMelee { target: up });
    MeleeCombatSystem {}.run(&mut w);
    assert!(!w.suffer_damage.contains(up) && !w.suffer_damage.contains(down));
    assert!(w.log.entries.is_empty());
    w.wants_to_melee.insert(up, WantsToMelee { target: chest });
    w.wants_to_melee.insert(down, WantsToMelee { target: Entity { id: 40 } });
    MeleeCombatSystem {}.run(&mut w);
    assert!(!w.suffer_damage.contains(chest));
    assert!(!w.wants_to_melee.contains(up) && !w.wants_to_melee.contains(down));
}
