use yarr::geometry::Rect as Room;
use yarr::{Entity, Name, Position, Storage, TileMap, TileType, World};

#[test]
fn storage_holds_at_most_one_value_per_entity() {
    let mut s: Storage<Position> = Storage::new();
    let (a, b) = (Entity { id: 0 }, Entity { id: 5 });
    assert!(!s.contains(a));
    assert_eq!(s.get(b), None);
    s.insert(b, Position { x: 1, y: 2 });
    s.insert(b, Position { x: 3, y: 4 });
    assert_eq!(s.get(b), Some(&Position { x: 3, y: 4 }));
    assert!(!s.contains(a));
    assert!(s.fits(6));
    assert!(!s.fits(5));
    assert_eq!(s.remove(b), Some(Position { x: 3, y: 4 }));
    assert_eq!(s.remove(b), None);
    assert_eq!(s.remove(Entity { id: 99 }), None);
    assert!(s.fits(0));
    s.insert(a, Position { x: 0, y: 0 });
    s.clear();
    assert!(!s.contains(a));
}

#[test]
fn ids_are_never_handed_out_twice() {
    let mut w = World::new(TileMap::new(4, 4, TileType::Floor), 1);
    let a = w.create_entity();
    let b = w.create_entity();
    assert_eq!((a, b), (Entity { id: 0 }, Entity { id: 1 }));
    w.names.insert(a, Name { name: "a".to_string() });
    w.positions.insert(a, Position { x: 1, y: 1 });
    w.delete_entity(a);
    assert!(!w.is_alive(a));
    assert!(!w.names.contains(a) && !w.positions.contains(a));
    assert!(w.is_alive(b));
    assert_eq!(w.create_entity(), Entity { id: 2 });
    assert!(!w.is_alive(Entity { id: 77 }));
}

#[test]
fn doomed_entities_live_until_maintain() {
    let mut w = World::new(TileMap::new(4, 4, TileType::Floor), 1);
    let a = w.create_entity();
    let b = w.create_entity();
    w.names.insert(a, Name { name: "a".to_string() });
    w.doom(a);
    w.doom(a);
    assert!(w.is_alive(a) && w.names.contains(a));
    w.maintain();
    assert!(!w.is_alive(a) && !w.names.contains(a) && !w.doomed.contains(a));
    assert!(w.is_alive(b));
    w.maintain();
    assert!(w.is_alive(b));
}

#[test]
fn delete_marked_deletes_exactly_the_marked() {
    let mut w = World::new(TileMap::new(4, 4, TileType::Floor), 1);
    let a = w.create_entity();
    let b = w.create_entity();
    let c = w.create_entity();
    w.positions.insert(b, Position { x: 1, y: 1 });
    w.delete_marked(&vec![true, false, true]);
    assert!(!w.is_alive(a) && w.is_alive(b) && !w.is_alive(c));
    assert!(w.positions.contains(b));
}

#[test]
fn rooms_have_a_centre_and_may_intersect() {
    let r = Room::new(2, 3, 6, 4);
    assert_eq!((r.x1, r.y1, r.x2, r.y2), (2, 3, 8, 7));
    assert_eq!(r.center(), (5, 5));
    assert_eq!(Room::new(-7, -3, 2, 2).center(), (-6, -2));
    assert!(r.intersect(&Room::new(8, 7, 2, 2)));
    assert!(!r.intersect(&Room::new(9, 3, 2, 2)));
    assert!(!r.intersect(&Room::new(2, 8, 2, 2)));
}
