use yarr::damage_system::{delete_the_dead, sum_of, DamageSystem};
use yarr::{CombatStats, Entity, Name, SufferDamage, TileMap, TileType, World};

fn world() -> World {
    World::new(TileMap::new(10, 10, TileType::Floor), 1)
}

fn stats(hp: i32) -> CombatStats {
    CombatStats { max_hp: 10, hp, defense: 1, power: 2 }
}

fn named(w: &mut World, e: Entity, name: &str) {
    w.names.insert(e, Name { name: name.to_string() });
}

#[test]
fn pending_damage_is_summed_and_subtracted() {
    let mut w = world();
    let e = w.create_entity();
    w.combat_stats.insert(e, stats(10));
    w.suffer_damage.insert(e, SufferDamage { amount: vec![3, 4] });
    DamageSystem {}.run(&mut w);
    assert_eq!(w.combat_stats.get(e).unwrap().hp, 3);
    assert_eq!(w.combat_stats.get(e).unwrap().max_hp, 10);
    assert!(!w.suffer_damage.contains(e));
}

#[test]
fn pending_damage_without_stats_is_discarded() {
    let mut w = world();
    let e = w.create_entity();
    let f = w.create_entity();
    w.combat_stats.insert(f, stats(5));
    w.suffer_damage.insert(e, SufferDamage { amount: vec![3, 4] });
    DamageSystem {}.run(&mut w);
    assert!(!w.suffer_damage.contains(e));
    assert!(!w.combat_stats.contains(e));
    assert_eq!(w.combat_stats.get(f).unwrap().hp, 5);
}

#[test]
fn damage_may_take_hp_below_zero() {
    let mut w = world();
    let e = w.create_entity();
    w.combat_stats.insert(e, stats(2));
    SufferDamage::new_damage(&mut w.suffer_damage, e, 5);
    SufferDamage::new_damage(&mut w.suffer_damage, e, -1);
    assert_eq!(w.suffer_damage.get(e).unwrap().amount, vec![5, -1]);
    DamageSystem {}.run(&mut w);
    assert_eq!(w.combat_stats.get(e).unwrap().hp, -2);
}

#[test]
fn new_damage_creates_and_appends() {
    let mut w = world();
    let e = w.create_entity();
    SufferDamage::new_damage(&mut w.suffer_damage, e, 7);
    assert_eq!(w.suffer_damage.get(e).unwrap().amount, vec![7]);
    SufferDamage::new_damage(&mut w.suffer_damage, e, 2);
    assert_eq!(w.suffer_damage.get(e).unwrap().amount, vec![7, 2]);
}

#[test]
fn sum_of_adds_up() {
    assert_eq!(sum_of(&vec![]), 0);
    assert_eq!(sum_of(&vec![3, 4]), 7);
    assert_eq!(sum_of(&vec![i32::MAX, i32::MAX, 1]), 2 * (i32::MAX as i128) + 1);
    assert_eq!(sum_of(&vec![i32::MIN, -1]), i32::MIN as i128 - 1);
}

#[test]
fn sweep_spares_the_player_and_reports() {
    let mut w = world();
    let p = w.create_entity();
    w.player = p;
    w.combat_stats.insert(p, stats(0));
    named(&mut w, p, "Player");
    delete_the_dead(&mut w);
    assert!(w.is_alive(p));
    assert!(w.combat_stats.contains(p));
    assert_eq!(w.log.entries, vec!["You are dead".to_string()]);
}

#[test]
fn sweep_deletes_the_dead_and_nobody_else() {
    let mut w = world();
    let p = w.create_entity();
    w.player = p;
    w.combat_stats.insert(p, stats(8));
    let orc = w.create_entity();
    w.combat_stats.insert(orc, stats(0));
    named(&mut w, orc, "Ork");
    let goblin = w.create_entity();
    w.combat_stats.insert(goblin, stats(1));
    named(&mut w, goblin, "Goblin");
    let rat = w.create_entity();
    w.combat_stats.insert(rat, stats(-3));
    let chest = w.create_entity();
    named(&mut w, chest, "Chest");
    delete_the_dead(&mut w);
    assert!(w.is_alive(p));
    assert!(!w.is_alive(orc));
    assert!(!w.combat_stats.contains(orc));
    assert!(!w.names.contains(orc));
    assert!(w.is_alive(goblin));
    assert_eq!(w.combat_stats.get(goblin).unwrap().hp, 1);
    assert!(!w.is_alive(rat));
    assert!(w.is_alive(chest));
    assert_eq!(w.log.entries, vec!["Ork died in pain!".to_string()]);
    delete_the_dead(&mut w);
    assert_eq!(w.log.entries.len(), 1);
    assert!(w.is_alive(goblin));
}

#[test]
fn damage_dealt_this_turn_kills_this_turn() {
    let mut w = world();
    let p = w.create_entity();
    w.player = p;
    let orc = w.create_entity();
    w.combat_stats.insert(orc, stats(4));
    named(&mut w, orc, "Ork");
    SufferDamage::new_damage(&mut w.suffer_damage, orc, 4);
    delete_the_dead(&mut w);
    assert!(w.is_alive(orc));
    DamageSystem {}.run(&mut w);
    delete_the_dead(&mut w);
    assert!(!w.is_alive(orc));
}
