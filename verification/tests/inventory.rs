use yarr::inventory_system::{ItemCollectionSystem, ItemDropSystem};
use yarr::{
    Entity, InBackpack, Name, Position, TileMap, TileType, WantsToDrop, WantsToPickup, World,
};

fn world() -> World {
    World::new(TileMap::new(10, 10, TileType::Floor), 1)
}

fn thing(w: &mut World, name: &str, at: Option<(i32, i32)>) -> Entity {
    let e = w.create_entity();
    w.names.insert(e, Name { name: name.to_string() });
    if let Some((x, y)) = at {
        w.positions.insert(e, Position { x, y });
    }
    e
}

#[test]
fn pickup_moves_the_item_into_the_backpack() {
    let mut w = world();
    let p = thing(&mut w, "Player", Some((4, 4)));
    w.player = p;
    let potion = thing(&mut w, "Health Potion", Some((4, 4)));
    w.wants_to_pickup.insert(p, WantsToPickup { collected_by: p, item: potion });
    ItemCollectionSystem {}.run(&mut w);
    assert!(!w.positions.contains(potion));
    assert_eq!(w.in_backpack.get(potion), Some(&InBackpack { owner: p }));
    assert_eq!(w.positions.get(p), Some(&Position { x: 4, y: 4 }));
    assert_eq!(w.log.entries, vec!["You picked up the Health Potion".to_string()]);
    assert!(!w.wants_to_pickup.contains(p));
}

#[test]
fn pickup_by_a_monster_is_silent_and_not_checked_for_place() {
    let mut w = world();
    let p = thing(&mut w, "Player", Some((4, 4)));
    w.player = p;
    let orc = thing(&mut w, "Ork", Some((1, 1)));
    let potion = thing(&mut w, "Health Potion", Some((8, 8)));
    w.wants_to_pickup.insert(orc, WantsToPickup { collected_by: orc, item: potion });
    ItemCollectionSystem {}.run(&mut w);
    assert!(!w.positions.contains(potion));
    assert_eq!(w.in_backpack.get(potion).unwrap().owner, orc);
    assert!(w.log.entries.is_empty());
}

#[test]
fn drop_puts_the_item_where_the_dropper_stands() {
    let mut w = world();
    let p = thing(&mut w, "Player", Some((6, 2)));
    w.player = p;
    let potion = thing(&mut w, "Health Potion", None);
    w.in_backpack.insert(potion, InBackpack { owner: p });
    w.wants_to_drop.insert(p, WantsToDrop { item: potion });
    ItemDropSystem {}.run(&mut w);
    assert_eq!(w.positions.get(potion), Some(&Position { x: 6, y: 2 }));
    assert!(!w.in_backpack.contains(potion));
    assert_eq!(w.log.entries, vec!["You drop the Health Potion".to_string()]);
    assert!(!w.wants_to_drop.contains(p));
}

#[test]
fn pickup_drop_pickup_ends_in_the_backpack() {
    let mut w = world();
    let p = thing(&mut w, "Player", Some((4, 4)));
    w.player = p;
    let potion = thing(&mut w, "Health Potion", Some((4, 4)));
    w.wants_to_pickup.insert(p, WantsToPickup { collected_by: p, item: potion });
    ItemCollectionSystem {}.run(&mut w);
    w.positions.insert(p, Position { x: 5, y: 4 });
    w.wants_to_drop.insert(p, WantsToDrop { item: potion });
    ItemDropSystem {}.run(&mut w);
    assert_eq!(w.positions.get(potion), Some(&Position { x: 5, y: 4 }));
    assert!(!w.in_backpack.contains(potion));
    w.wants_to_pickup.insert(p, WantsToPickup { collected_by: p, item: potion });
    ItemCollectionSystem {}.run(&mut w);
    assert!(!w.positions.contains(potion));
    assert_eq!(w.in_backpack.get(potion).unwrap().owner, p);
    assert_eq!(w.log.entries.len(), 3);
}

#[test]
fn several_droppers_are_served_in_order_of_their_ids() {
    let mut w = world();
    let p = thing(&mut w, "Player", Some((1, 1)));
    w.player = p;
    let orc = thing(&mut w, "Ork", Some((2, 2)));
    let a = thing(&mut w, "Sword", None);
    let b = thing(&mut w, "Shield", None);
    w.in_backpack.insert(a, InBackpack { owner: p });
    w.in_backpack.insert(b, InBackpack { owner: orc });
    w.wants_to_drop.insert(orc, WantsToDrop { item: b });
    w.wants_to_drop.insert(p, WantsToDrop { item: a });
    ItemDropSystem {}.run(&mut w);
    assert_eq!(w.positions.get(a), Some(&Position { x: 1, y: 1 }));
    assert_eq!(w.positions.get(b), Some(&Position { x: 2, y: 2 }));
    assert_eq!(w.log.entries, vec!["You drop the Sword".to_string()]);
    assert!(!w.wants_to_drop.contains(p));
    assert!(!w.wants_to_drop.contains(orc));
}

#[test]
fn a_nameless_item_is_moved_without_a_line() {
    let mut w = world();
    let p = thing(&mut w, "Player", Some((4, 4)));
    w.player = p;
    let pebble = w.create_entity();
    w.positions.insert(pebble, Position { x: 4, y: 4 });
    w.wants_to_pickup.insert(p, WantsToPickup { collected_by: p, item: pebble });
    ItemCollectionSystem {}.run(&mut w);
    assert_eq!(w.in_backpack.get(pebble).unwrap().owner, p);
    assert!(w.log.entries.is_empty());
    w.wants_to_drop.insert(p, WantsToDrop { item: pebble });
    ItemDropSystem {}.run(&mut w);
    assert_eq!(w.positions.get(pebble), Some(&Position { x: 4, y: 4 }));
    assert!(w.log.entries.is_empty());
}
