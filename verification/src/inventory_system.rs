use vstd::prelude::*;
use rltk::Point;
use crate::components::{
    CombatStats, Confusion, InBackpack, Position, SufferDamage, WantsToUse,
};
use crate::gamelog::{
    confusion_line, confusion_message, damage_line, damage_message, drop_line, drop_message,
    heal_line, heal_message, pickup_line, pickup_message,
};
use crate::map::{TileMap, TileMapView, MAX_SIGHT};
use crate::sight::{field_of_view, tile_set, visible_from};
use crate::storage::Entity;
use crate::world::{Doomed, World, WorldView};

verus! {

/// The test that keeps the tiles off the outermost ring of `map`.
pub open spec fn off_border(map: TileMapView) -> spec_fn(Point) -> bool {
    |p: Point| map.is_interior(p)
}

/// The tiles of `blast` that an area effect strikes: those off the outermost
/// ring of the grid, in the order of `blast`.
pub open spec fn struck_tiles(map: TileMapView, blast: Seq<Point>) -> Seq<Point> {
    blast.filter(off_border(map))
}

/// Everybody standing on `tiles`, tile by tile.
pub open spec fn crowd(map: TileMapView, tiles: Seq<Point>) -> Seq<Entity>
    decreases tiles.len(),
{
    if tiles.len() == 0 {
        Seq::empty()
    } else {
        crowd(map, tiles.drop_last()) + map.occupants(tiles.last())
    }
}

/// Whom a use of an item by `user` reaches. Without a target point: the user.
/// With one, and an item without an area: whoever stands on that tile. With an
/// area: whoever stands on a tile of `blast` off the border.
pub open spec fn target_set(w: WorldView, user: Entity, blast: Seq<Point>) -> Seq<Entity> {
    let intent = w.wants_to_use[user@];
    match intent.target {
        None => seq![user],
        Some(p) => if w.area_of_effect.dom().contains(intent.item@) {
            crowd(w.map, struck_tiles(w.map, blast))
        } else {
            w.map.occupants(p)
        },
    }
}

/// Drops from `blast` every tile on the outermost ring of the grid, and every
/// tile outside it. No border tile is ever struck, however close the centre.
pub fn strike(map: &TileMap, blast: &Vec<Point>) -> (tiles: Vec<Point>)
    ensures
        tiles@ == struck_tiles(map@, blast@),
        forall|i: int| 0 <= i < tiles@.len() ==> map@.is_interior(#[trigger] tiles@[i]),
        forall|i: int|
            0 <= i < blast@.len() && map@.is_interior(blast@[i]) ==> tiles@.contains(
                #[trigger] blast@[i],
            ),
{
    let mut tiles: Vec<Point> = Vec::new();
    let mut i: usize = 0;
    assert(blast@.take(0).filter(off_border(map@)) =~= Seq::<Point>::empty()) by {
        reveal(Seq::filter);
    }
    while i < blast.len()
        invariant
            i <= blast@.len(),
            tiles@ == blast@.take(i as int).filter(off_border(map@)),
        decreases blast@.len() - i,
    {
        let p = &blast[i];
        proof {
            let next = blast@.take(i + 1);
            assert(next.drop_last() =~= blast@.take(i as int));
            assert(next.last() == blast@[i as int]);
            reveal(Seq::filter);
        }
        if map.is_interior(Point { x: p.x, y: p.y }) {
            tiles.push(Point { x: p.x, y: p.y });
        }
        i += 1;
    }
    proof {
        assert(blast@.take(blast@.len() as int) =~= blast@);
        assert forall|i: int| 0 <= i < tiles@.len() implies map@.is_interior(
            #[trigger] tiles@[i],
        ) by {
            blast@.lemma_filter_pred(off_border(map@), i);
        }
        assert forall|i: int| 0 <= i < blast@.len() && map@.is_interior(blast@[i]) implies tiles@.contains(
            #[trigger] blast@[i],
        ) by {
            blast@.lemma_filter_contains(off_border(map@), i);
        }
    }
    tiles
}

/// Collects everybody standing on `tiles`, tile by tile.
pub fn gather(map: &TileMap, tiles: &Vec<Point>) -> (found: Vec<Entity>)
    requires
        map@.wf(),
        forall|i: int| 0 <= i < tiles@.len() ==> map@.in_bounds(#[trigger] tiles@[i]),
    ensures
        found@ == crowd(map@, tiles@),
{
    let mut found: Vec<Entity> = Vec::new();
    let mut i: usize = 0;
    while i < tiles.len()
        invariant
            i <= tiles@.len(),
            map@.wf(),
            forall|i: int| 0 <= i < tiles@.len() ==> map@.in_bounds(#[trigger] tiles@[i]),
            found@ == crowd(map@, tiles@.take(i as int)),
        decreases tiles@.len() - i,
    {
        let p = &tiles[i];
        assert(map@.in_bounds(tiles@[i as int]));
        let idx = map.xy_idx(p.x, p.y);
        let here = &map.tile_content[idx];
        let ghost before = found@;
        let mut k: usize = 0;
        while k < here.len()
            invariant
                k <= here@.len(),
                found@ == before + here@.take(k as int),
            decreases here@.len() - k,
        {
            found.push(here[k]);
            assert(found@ =~= before + here@.take(k + 1));
            k += 1;
        }
        proof {
            let next = tiles@.take(i + 1);
            assert(next.drop_last() =~= tiles@.take(i as int));
            assert(next.last() == tiles@[i as int]);
            assert(here@.take(here@.len() as int) =~= here@);
            assert(map@.occupants(tiles@[i as int]) == here@);
        }
        i += 1;
    }
    assert(tiles@.take(tiles@.len() as int) =~= tiles@);
    found
}


/// Everybody of a crowd stands on one of the tiles.
pub proof fn lemma_crowd_member(map: TileMapView, tiles: Seq<Point>, i: int)
    requires
        0 <= i < crowd(map, tiles).len(),
    ensures
        exists|k: int|
            0 <= k < tiles.len() && map.occupants(#[trigger] tiles[k]).contains(
                crowd(map, tiles)[i],
            ),
    decreases tiles.len(),
{
    let before = crowd(map, tiles.drop_last());
    if i < before.len() {
        lemma_crowd_member(map, tiles.drop_last(), i);
        let k = choose|k: int|
            0 <= k < tiles.drop_last().len() && map.occupants(
                #[trigger] tiles.drop_last()[k],
            ).contains(before[i]);
        assert(tiles[k] == tiles.drop_last()[k]);
    } else {
        let here = map.occupants(tiles.last());
        assert(here[i - before.len()] == crowd(map, tiles)[i]);
        assert(tiles[tiles.len() - 1] == tiles.last());
    }
}

/// An area effect spares the border: whoever it reaches stands on a tile of
/// the blast that is off the outermost ring of the grid.
pub proof fn lemma_area_spares_border(map: TileMapView, blast: Seq<Point>, i: int)
    requires
        0 <= i < crowd(map, struck_tiles(map, blast)).len(),
    ensures
        exists|p: Point|
            {
                &&& blast.contains(p)
                &&& map.is_interior(p)
                &&& #[trigger] map.occupants(p).contains(crowd(map, struck_tiles(map, blast))[i])
            },
{
    let tiles = struck_tiles(map, blast);
    lemma_crowd_member(map, tiles, i);
    let k = choose|k: int|
        0 <= k < tiles.len() && map.occupants(#[trigger] tiles[k]).contains(crowd(map, tiles)[i]);
    blast.lemma_filter_pred(off_border(map), k);
    assert(tiles.contains(tiles[k]));
    blast.lemma_filter_contains_rev(off_border(map), tiles[k]);
    assert(map.occupants(tiles[k]).contains(crowd(map, tiles)[i]));
}

/// A healing never lifts `hp` above `max_hp`, and adds the whole amount
/// wherever that stays at or below it.
pub proof fn lemma_heal_clamped(s: CombatStats, amount: i32)
    requires
        s.hp + amount >= i32::MIN,
    ensures
        heal_one(s, amount).hp <= s.max_hp,
        s.hp + amount <= s.max_hp ==> heal_one(s, amount).hp == s.hp + amount,
        s.hp + amount > s.max_hp ==> heal_one(s, amount).hp == s.max_hp,
        heal_one(s, amount).max_hp == s.max_hp,
{
}

/// Whether some entity of `targets` has an entry in `table`.
pub open spec fn touches<V>(table: Map<int, V>, targets: Seq<Entity>) -> bool {
    exists|i: int| 0 <= i < targets.len() && table.dom().contains(#[trigger] targets[i]@)
}

proof fn lemma_touches_step<V>(table: Map<int, V>, targets: Seq<Entity>, k: int)
    requires
        0 <= k < targets.len(),
    ensures
        touches(table, targets.take(k + 1)) == (touches(table, targets.take(k))
            || table.dom().contains(targets[k]@)),
{
    let short = targets.take(k);
    let long = targets.take(k + 1);
    if touches(table, short) {
        let i = choose|i: int| 0 <= i < short.len() && table.dom().contains(#[trigger] short[i]@);
        assert(long[i] == short[i]);
    }
    if table.dom().contains(targets[k]@) {
        assert(long[k] == targets[k]);
    }
    if touches(table, long) {
        let i = choose|i: int| 0 <= i < long.len() && table.dom().contains(#[trigger] long[i]@);
        if i < k {
            assert(short[i] == long[i]);
        }
    }
}

/// The stats after one healing of `amount`: `hp` rises by it, but not above
/// `max_hp`.
pub open spec fn heal_one(s: CombatStats, amount: i32) -> CombatStats {
    CombatStats {
        hp: (if s.hp + amount < s.max_hp {
            s.hp + amount
        } else {
            s.max_hp as int
        }) as i32,
        ..s
    }
}

/// The stats table after each of `targets` that has stats was healed once by
/// `amount`, in order. Who occurs twice is healed twice.
pub open spec fn healed(stats: Map<int, CombatStats>, targets: Seq<Entity>, amount: i32) -> Map<
    int,
    CombatStats,
>
    decreases targets.len(),
{
    if targets.len() == 0 {
        stats
    } else {
        let before = healed(stats, targets.drop_last(), amount);
        let t = targets.last()@;
        if before.dom().contains(t) {
            before.insert(t, heal_one(before[t], amount))
        } else {
            before
        }
    }
}

/// Whether every healing of [`healed`] gives an `hp` that an `i32` holds.
pub open spec fn heal_fits(stats: Map<int, CombatStats>, targets: Seq<Entity>, amount: i32) -> bool
    decreases targets.len(),
{
    if targets.len() == 0 {
        true
    } else {
        let before = healed(stats, targets.drop_last(), amount);
        let t = targets.last()@;
        &&& heal_fits(stats, targets.drop_last(), amount)
        &&& before.dom().contains(t) ==> before[t].hp + amount >= i32::MIN
    }
}

/// The name of the entity of id `e`, if it has one.
pub open spec fn name_of(names: Map<int, Seq<char>>, e: int) -> Option<Seq<char>> {
    if names.dom().contains(e) {
        Some(names[e])
    } else {
        None
    }
}

/// One healing line for each of `targets` that has stats; none if the item
/// has no name.
pub open spec fn heal_lines(
    stats: Map<int, CombatStats>,
    targets: Seq<Entity>,
    item: Option<Seq<char>>,
    amount: i32,
) -> Seq<Seq<char>>
    decreases targets.len(),
{
    if targets.len() == 0 {
        Seq::empty()
    } else {
        let before = heal_lines(stats, targets.drop_last(), item, amount);
        if stats.dom().contains(targets.last()@) && item.is_some() {
            before.push(heal_line(item.unwrap(), amount))
        } else {
            before
        }
    }
}

/// The pending damage after each of `targets` took one more hit of `amount`.
pub open spec fn wounded(pending: Map<int, Seq<i32>>, targets: Seq<Entity>, amount: i32) -> Map<
    int,
    Seq<i32>,
>
    decreases targets.len(),
{
    if targets.len() == 0 {
        pending
    } else {
        SufferDamage::with_hit(
            wounded(pending, targets.drop_last(), amount),
            targets.last()@,
            amount,
        )
    }
}

/// One damage line for each of `targets` that has a name; none if the item
/// has no name.
pub open spec fn damage_lines(
    names: Map<int, Seq<char>>,
    targets: Seq<Entity>,
    item: Option<Seq<char>>,
    amount: i32,
) -> Seq<Seq<char>>
    decreases targets.len(),
{
    if targets.len() == 0 {
        Seq::empty()
    } else {
        let before = damage_lines(names, targets.drop_last(), item, amount);
        if item.is_some() && names.dom().contains(targets.last()@) {
            before.push(damage_line(item.unwrap(), names[targets.last()@], amount))
        } else {
            before
        }
    }
}

/// The confusion table after each of `targets` was confused for `turns`.
pub open spec fn confused(table: Map<int, Confusion>, targets: Seq<Entity>, turns: i32) -> Map<
    int,
    Confusion,
>
    decreases targets.len(),
{
    if targets.len() == 0 {
        table
    } else {
        confused(table, targets.drop_last(), turns).insert(targets.last()@, Confusion { turns })
    }
}

/// One confusion line for each of `targets` that has a name; none if the item
/// has no name.
pub open spec fn confusion_lines(
    names: Map<int, Seq<char>>,
    targets: Seq<Entity>,
    item: Option<Seq<char>>,
) -> Seq<Seq<char>>
    decreases targets.len(),
{
    if targets.len() == 0 {
        Seq::empty()
    } else {
        let before = confusion_lines(names, targets.drop_last(), item);
        if item.is_some() && names.dom().contains(targets.last()@) {
            before.push(confusion_line(item.unwrap(), names[targets.last()@]))
        } else {
            before
        }
    }
}

/// Whether every entity of `targets` exists in `w`.
pub open spec fn all_alive(w: WorldView, targets: Seq<Entity>) -> bool {
    forall|i: int| 0 <= i < targets.len() ==> w.is_alive(#[trigger] targets[i])
}

/// Healing never adds or removes stats.
pub proof fn lemma_healed_dom(stats: Map<int, CombatStats>, targets: Seq<Entity>, amount: i32)
    ensures
        healed(stats, targets, amount).dom() =~= stats.dom(),
    decreases targets.len(),
{
    if targets.len() > 0 {
        lemma_healed_dom(stats, targets.drop_last(), amount);
    }
}

/// Heals each of `targets` that has stats, and reports it if `speaks`.
/// Returns whether anybody was healed.
fn heal_all(world: &mut World, targets: &Vec<Entity>, item: Entity, amount: i32, speaks: bool) -> (fired:
    bool)
    requires
        old(world)@.wf(),
        heal_fits(old(world)@.combat_stats, targets@, amount),
    ensures
        fired == touches(old(world)@.combat_stats, targets@),
        final(world)@ == (WorldView {
            combat_stats: healed(old(world)@.combat_stats, targets@, amount),
            log: if speaks {
                old(world)@.log + heal_lines(
                    old(world)@.combat_stats,
                    targets@,
                    name_of(old(world)@.names, item@),
                    amount,
                )
            } else {
                old(world)@.log
            },
            ..old(world)@
        }),
        final(world)@.wf(),
{
    let ghost w0 = world@;
    let ghost name0 = name_of(w0.names, item@);
    let mut fired = false;
    let mut k: usize = 0;
    proof {
        assert(world@.log =~= w0.log + heal_lines(w0.combat_stats, targets@.take(0), name0, amount));
    }
    while k < targets.len()
        invariant
            k <= targets@.len(),
            w0.wf(),
            world@.wf(),
            heal_fits(w0.combat_stats, targets@, amount),
            name0 == name_of(w0.names, item@),
            fired == touches(w0.combat_stats, targets@.take(k as int)),
            world@ == (WorldView {
                combat_stats: healed(w0.combat_stats, targets@.take(k as int), amount),
                log: if speaks {
                    w0.log + heal_lines(w0.combat_stats, targets@.take(k as int), name0, amount)
                } else {
                    w0.log
                },
                ..w0
            }),
        decreases targets@.len() - k,
    {
        let t = targets[k];
        proof {
            let next = targets@.take(k + 1);
            assert(next.drop_last() =~= targets@.take(k as int));
            assert(next.last() == targets@[k as int]);
            lemma_touches_step(w0.combat_stats, targets@, k as int);
            lemma_healed_dom(w0.combat_stats, targets@.take(k as int), amount);
            lemma_heal_fits_prefix(w0.combat_stats, targets@, amount, k + 1);
        }
        let found = match world.combat_stats.get(t) {
            Some(s) => Some(*s),
            None => None,
        };
        if let Some(s) = found {
            let sum: i64 = s.hp as i64 + amount as i64;
            let hp: i32 = if sum < s.max_hp as i64 {
                sum as i32
            } else {
                s.max_hp
            };
            world.combat_stats.insert(
                t,
                CombatStats { max_hp: s.max_hp, hp, defense: s.defense, power: s.power },
            );
            if speaks {
                let line = match world.names.get(item) {
                    Some(n) => Some(heal_message(n.name.as_str(), amount)),
                    None => None,
                };
                if let Some(text) = line {
                    world.log.push(text);
                }
            }
            fired = true;
        }
        assert(world@ =~= (WorldView {
            combat_stats: healed(w0.combat_stats, targets@.take(k + 1), amount),
            log: if speaks {
                w0.log + heal_lines(w0.combat_stats, targets@.take(k + 1), name0, amount)
            } else {
                w0.log
            },
            ..w0
        }));
        k += 1;
    }
    assert(targets@.take(targets@.len() as int) =~= targets@);
    fired
}

/// If every healing of a list fits, so does every healing of its beginning.
pub proof fn lemma_heal_fits_prefix(
    stats: Map<int, CombatStats>,
    targets: Seq<Entity>,
    amount: i32,
    k: int,
)
    requires
        heal_fits(stats, targets, amount),
        0 <= k <= targets.len(),
    ensures
        heal_fits(stats, targets.take(k), amount),
    decreases targets.len(),
{
    if k == targets.len() {
        assert(targets.take(k) =~= targets);
    } else {
        lemma_heal_fits_prefix(stats, targets.drop_last(), amount, k);
        assert(targets.drop_last().take(k) =~= targets.take(k));
    }
}


/// Queues `amount` of damage for each of `targets`, and reports it if `speaks`.
fn damage_all(world: &mut World, targets: &Vec<Entity>, item: Entity, amount: i32, speaks: bool)
    requires
        old(world)@.wf(),
        all_alive(old(world)@, targets@),
    ensures
        final(world)@ == (WorldView {
            suffer_damage: wounded(old(world)@.suffer_damage, targets@, amount),
            log: if speaks {
                old(world)@.log + damage_lines(
                    old(world)@.names,
                    targets@,
                    name_of(old(world)@.names, item@),
                    amount,
                )
            } else {
                old(world)@.log
            },
            ..old(world)@
        }),
        final(world)@.wf(),
{
    let ghost w0 = world@;
    let ghost name0 = name_of(w0.names, item@);
    let mut k: usize = 0;
    proof {
        assert(world@.log =~= w0.log + damage_lines(w0.names, targets@.take(0), name0, amount));
    }
    while k < targets.len()
        invariant
            k <= targets@.len(),
            w0.wf(),
            world@.wf(),
            all_alive(w0, targets@),
            name0 == name_of(w0.names, item@),
            world@ == (WorldView {
                suffer_damage: wounded(w0.suffer_damage, targets@.take(k as int), amount),
                log: if speaks {
                    w0.log + damage_lines(w0.names, targets@.take(k as int), name0, amount)
                } else {
                    w0.log
                },
                ..w0
            }),
        decreases targets@.len() - k,
    {
        let t = targets[k];
        proof {
            let next = targets@.take(k + 1);
            assert(next.drop_last() =~= targets@.take(k as int));
            assert(next.last() == targets@[k as int]);
            assert(w0.is_alive(targets@[k as int]));
        }
        SufferDamage::new_damage(&mut world.suffer_damage, t, amount);
        if speaks {
            let line = match (world.names.get(item), world.names.get(t)) {
                (Some(n), Some(m)) => Some(
                    damage_message(n.name.as_str(), m.name.as_str(), amount),
                ),
                _ => None,
            };
            if let Some(text) = line {
                world.log.push(text);
            }
        }
        assert(world@ =~= (WorldView {
            suffer_damage: wounded(w0.suffer_damage, targets@.take(k + 1), amount),
            log: if speaks {
                w0.log + damage_lines(w0.names, targets@.take(k + 1), name0, amount)
            } else {
                w0.log
            },
            ..w0
        }));
        k += 1;
    }
    assert(targets@.take(targets@.len() as int) =~= targets@);
}

/// Confuses each of `targets` for `turns`, and reports it if `speaks`.
fn confuse_all(world: &mut World, targets: &Vec<Entity>, item: Entity, turns: i32, speaks: bool)
    requires
        old(world)@.wf(),
        all_alive(old(world)@, targets@),
    ensures
        final(world)@ == (WorldView {
            confusion: confused(old(world)@.confusion, targets@, turns),
            log: if speaks {
                old(world)@.log + confusion_lines(
                    old(world)@.names,
                    targets@,
                    name_of(old(world)@.names, item@),
                )
            } else {
                old(world)@.log
            },
            ..old(world)@
        }),
        final(world)@.wf(),
{
    let ghost w0 = world@;
    let ghost name0 = name_of(w0.names, item@);
    let mut k: usize = 0;
    proof {
        assert(world@.log =~= w0.log + confusion_lines(w0.names, targets@.take(0), name0));
    }
    while k < targets.len()
        invariant
            k <= targets@.len(),
            w0.wf(),
            world@.wf(),
            all_alive(w0, targets@),
            name0 == name_of(w0.names, item@),
            world@ == (WorldView {
                confusion: confused(w0.confusion, targets@.take(k as int), turns),
                log: if speaks {
                    w0.log + confusion_lines(w0.names, targets@.take(k as int), name0)
                } else {
                    w0.log
                },
                ..w0
            }),
        decreases targets@.len() - k,
    {
        let t = targets[k];
        proof {
            let next = targets@.take(k + 1);
            assert(next.drop_last() =~= targets@.take(k as int));
            assert(next.last() == targets@[k as int]);
            assert(w0.is_alive(targets@[k as int]));
        }
        if speaks {
            let line = match (world.names.get(item), world.names.get(t)) {
                (Some(n), Some(m)) => Some(confusion_message(n.name.as_str(), m.name.as_str())),
                _ => None,
            };
            if let Some(text) = line {
                world.log.push(text);
            }
        }
        world.confusion.insert(t, Confusion { turns });
        assert(world@ =~= (WorldView {
            confusion: confused(w0.confusion, targets@.take(k + 1), turns),
            log: if speaks {
                w0.log + confusion_lines(w0.names, targets@.take(k + 1), name0)
            } else {
                w0.log
            },
            ..w0
        }));
        k += 1;
    }
    assert(targets@.take(targets@.len() as int) =~= targets@);
}

/// Whether the use pending for the entity of id `u` applies an effect to at
/// least one target: a healing to somebody with stats, or damage or confusion
/// to anybody.
pub open spec fn effect_fires(w: WorldView, u: int, blast: Seq<Point>) -> bool {
    let item = w.wants_to_use[u].item@;
    let targets = target_set(w, Entity { id: u as usize }, blast);
    ||| w.provides_healing.dom().contains(item) && touches(w.combat_stats, targets)
    ||| w.provides_damage.dom().contains(item) && targets.len() > 0
    ||| w.confusion.dom().contains(item) && targets.len() > 0
}

/// The lines that the use pending for the entity of id `u` adds to the log:
/// none unless the user is the player, else the healings, then the hits, then
/// the confusions. A line is written only where everything it mentions has a
/// name.
pub open spec fn use_lines(w: WorldView, u: int, blast: Seq<Point>) -> Seq<Seq<char>> {
    let item = w.wants_to_use[u].item@;
    let targets = target_set(w, Entity { id: u as usize }, blast);
    if w.player@ != u {
        Seq::empty()
    } else {
        (if w.provides_healing.dom().contains(item) {
            heal_lines(
                w.combat_stats,
                targets,
                name_of(w.names, item),
                w.provides_healing[item].heal_amount,
            )
        } else {
            Seq::empty()
        }) + (if w.provides_damage.dom().contains(item) {
            damage_lines(
                w.names,
                targets,
                name_of(w.names, item),
                w.provides_damage[item].damage_amount,
            )
        } else {
            Seq::empty()
        }) + (if w.confusion.dom().contains(item) {
            confusion_lines(w.names, targets, name_of(w.names, item))
        } else {
            Seq::empty()
        })
    }
}

/// The world after the use pending for the entity of id `u` was resolved, if
/// there is one. `blast` lists the tiles that an area effect reaches from its
/// target point. The intent itself stays: the pass clears them all at its end.
pub open spec fn use_step(w: WorldView, u: int, blast: Seq<Point>) -> WorldView {
    if !w.wants_to_use.dom().contains(u) {
        w
    } else {
        let item = w.wants_to_use[u].item@;
        let targets = target_set(w, Entity { id: u as usize }, blast);
        WorldView {
            combat_stats: if w.provides_healing.dom().contains(item) {
                healed(w.combat_stats, targets, w.provides_healing[item].heal_amount)
            } else {
                w.combat_stats
            },
            suffer_damage: if w.provides_damage.dom().contains(item) {
                wounded(w.suffer_damage, targets, w.provides_damage[item].damage_amount)
            } else {
                w.suffer_damage
            },
            confusion: if w.confusion.dom().contains(item) {
                confused(w.confusion, targets, w.confusion[item].turns)
            } else {
                w.confusion
            },
            doomed: if w.consumables.dom().contains(item) && effect_fires(w, u, blast) {
                w.doomed.insert(item, Doomed {  })
            } else {
                w.doomed
            },
            log: w.log + use_lines(w, u, blast),
            ..w
        }
    }
}

/// A use marks its item for deletion exactly if the item is consumable and an
/// effect fired. None fires for an item without effect, nor on an empty target
/// set; damage and confusion fire on any target.
pub proof fn lemma_consumed_when_fired(w: WorldView, u: int, blast: Seq<Point>)
    requires
        w.wants_to_use.dom().contains(u),
        !w.doomed.dom().contains(w.wants_to_use[u].item@),
    ensures
        use_step(w, u, blast).doomed.dom().contains(w.wants_to_use[u].item@) == (
        w.consumables.dom().contains(w.wants_to_use[u].item@) && effect_fires(w, u, blast)),
        target_set(w, Entity { id: u as usize }, blast).len() == 0 ==> !effect_fires(w, u, blast),
        !w.provides_healing.dom().contains(w.wants_to_use[u].item@)
            && !w.provides_damage.dom().contains(w.wants_to_use[u].item@)
            && !w.confusion.dom().contains(w.wants_to_use[u].item@) ==> !effect_fires(w, u, blast),
        target_set(w, Entity { id: u as usize }, blast).len() > 0 && (
        w.provides_damage.dom().contains(w.wants_to_use[u].item@) || w.confusion.dom().contains(
            w.wants_to_use[u].item@,
        )) ==> effect_fires(w, u, blast),
{
}

/// What [`use_step`] needs of the world: a target tile inside the grid,
/// healings that fit, and targets that exist where something is attached to
/// them.
pub open spec fn use_step_ready(w: WorldView, u: int, blast: Seq<Point>) -> bool {
    w.wants_to_use.dom().contains(u) ==> {
        let intent = w.wants_to_use[u];
        let item = intent.item@;
        let targets = target_set(w, Entity { id: u as usize }, blast);
        let heals = w.provides_healing.dom().contains(item);
        let marks = w.provides_damage.dom().contains(item) || w.confusion.dom().contains(item);
        &&& intent.target matches Some(p) ==> w.area_of_effect.dom().contains(item)
            || w.map.in_bounds(p)
        &&& heals ==> heal_fits(w.combat_stats, targets, w.provides_healing[item].heal_amount)
        &&& marks ==> all_alive(w, targets)
    }
}

/// Finds whom the use pending for `user` reaches.
fn find_targets(world: &World, user: Entity, intent: &WantsToUse, blast: &Vec<Point>) -> (targets:
    Vec<Entity>)
    requires
        world@.wf(),
        world@.wants_to_use.dom().contains(user@),
        world@.wants_to_use[user@] == *intent,
        intent.target matches Some(p) ==> world@.area_of_effect.dom().contains(intent.item@)
            || world@.map.in_bounds(p),
    ensures
        targets@ == target_set(world@, user, blast@),
{
    match intent.target {
        None => {
            let mut targets: Vec<Entity> = Vec::new();
            targets.push(user);
            assert(targets@ =~= seq![user]);
            targets
        },
        Some(p) => {
            if world.area_of_effect.contains(intent.item) {
                let tiles = strike(&world.map, blast);
                gather(&world.map, &tiles)
            } else {
                let mut spot: Vec<Point> = Vec::new();
                spot.push(Point { x: p.x, y: p.y });
                let found = gather(&world.map, &spot);
                proof {
                    assert(spot@.drop_last() =~= Seq::<Point>::empty());
                    assert(crowd(world@.map, Seq::<Point>::empty()) =~= Seq::<Entity>::empty());
                    assert(found@ =~= world@.map.occupants(p));
                }
                found
            }
        },
    }
}

/// Resolves the use pending for `user`, if there is one: finds the targets,
/// applies each effect that the item carries, and marks a consumable item for
/// deletion if an effect fired.
pub fn use_item(world: &mut World, user: Entity, blast: &Vec<Point>)
    requires
        old(world)@.wf(),
        use_step_ready(old(world)@, user@, blast@),
    ensures
        final(world)@ == use_step(old(world)@, user@, blast@),
        final(world)@.wf(),
{
    let ghost w0 = world@;
    let intent = match world.wants_to_use.get(user) {
        Some(i) => *i,
        None => {
            return ;
        },
    };
    let item = intent.item;
    let targets = find_targets(world, user, &intent, blast);
    let speaks = user == world.player;
    let mut used = false;
    let heal = match world.provides_healing.get(item) {
        Some(h) => Some(h.heal_amount),
        None => None,
    };
    if let Some(amount) = heal {
        let fired = heal_all(world, &targets, item, amount, speaks);
        used = used || fired;
    }
    let damage = match world.provides_damage.get(item) {
        Some(d) => Some(d.damage_amount),
        None => None,
    };
    if let Some(amount) = damage {
        damage_all(world, &targets, item, amount, speaks);
        used = used || targets.len() > 0;
    }
    let confusion = match world.confusion.get(item) {
        Some(c) => Some(c.turns),
        None => None,
    };
    if let Some(turns) = confusion {
        confuse_all(world, &targets, item, turns, speaks);
        used = used || targets.len() > 0;
    }
    if used && world.consumables.contains(item) {
        world.doom(item);
    }
    assert(world@ =~= use_step(w0, user@, blast@));
}


/// The tile lists of `blasts`.
pub open spec fn blast_lists(blasts: Seq<Vec<Point>>) -> Seq<Seq<Point>> {
    Seq::new(blasts.len(), |u: int| blasts[u]@)
}

/// The list that `blasts` holds for the entity of id `u`; empty if it holds
/// none.
pub open spec fn blast_for(blasts: Seq<Seq<Point>>, u: int) -> Seq<Point> {
    if 0 <= u < blasts.len() {
        blasts[u]
    } else {
        Seq::empty()
    }
}

/// The world after the uses pending for the entities of id below `n` were
/// resolved, in the order of their ids.
pub open spec fn use_pass(w: WorldView, blasts: Seq<Seq<Point>>, n: nat) -> WorldView
    decreases n,
{
    if n == 0 {
        w
    } else {
        use_step(use_pass(w, blasts, (n - 1) as nat), n - 1, blast_for(blasts, n - 1))
    }
}

/// Whether each step of [`use_pass`] finds what [`use_step_ready`] asks for.
pub open spec fn use_pass_ready(w: WorldView, blasts: Seq<Seq<Point>>, n: nat) -> bool
    decreases n,
{
    if n == 0 {
        true
    } else {
        &&& use_pass_ready(w, blasts, (n - 1) as nat)
        &&& use_step_ready(use_pass(w, blasts, (n - 1) as nat), n - 1, blast_for(blasts, n - 1))
    }
}

/// The world after item-effect resolution: every pending use was resolved, and
/// no use is pending any more.
pub open spec fn items_used(w: WorldView, blasts: Seq<Seq<Point>>) -> WorldView {
    WorldView { wants_to_use: Map::empty(), ..use_pass(w, blasts, w.alive.len()) }
}

/// The target point and the radius of the use pending for the entity of id
/// `u`, if it is a use of an area item on a tile.
pub open spec fn area_use(w: WorldView, u: int) -> Option<(Point, i32)> {
    if w.wants_to_use.dom().contains(u) {
        let intent = w.wants_to_use[u];
        match intent.target {
            Some(p) => if w.area_of_effect.dom().contains(intent.item@) {
                Some((p, w.area_of_effect[intent.item@].radius))
            } else {
                None
            },
            None => None,
        }
    } else {
        None
    }
}

/// Whether `blasts` has the shape of what the field-of-view computation hands
/// back: one list per entity; for an area use a list of tiles of the grid in
/// which none comes twice, else an empty list.
pub open spec fn blasts_shaped(w: WorldView, blasts: Seq<Seq<Point>>) -> bool {
    &&& blasts.len() == w.alive.len()
    &&& forall|u: int|
        0 <= u < blasts.len() ==> match area_use(w, u) {
            Some(_) => {
                &&& (#[trigger] blasts[u]).no_duplicates()
                &&& forall|i: int| 0 <= i < blasts[u].len() ==> w.map.in_bounds(blasts[u][i])
            },
            None => blasts[u] == Seq::<Point>::empty(),
        }
}

/// Whether `blasts` lists, for every area use, exactly the tiles seen from the
/// target point within the item's radius.
pub open spec fn blasts_seen(w: WorldView, blasts: Seq<Seq<Point>>) -> bool {
    forall|u: int|
        0 <= u < blasts.len() ==> (area_use(w, u) matches Some(a) ==> tile_set(
            #[trigger] blasts[u],
        ) == visible_from(
            a.0.x as int,
            a.0.y as int,
            a.1 as int,
            w.map.width,
            w.map.height,
            w.map.walls(),
        ))
}

/// Whether a field of view can be computed for every area use: the target is a
/// tile of the grid and the radius is at most [`MAX_SIGHT`] in either sign.
pub open spec fn sight_ready(w: WorldView) -> bool {
    forall|u: int| #[trigger]
        area_use(w, u) matches Some(a) ==> w.map.in_bounds(a.0) && -MAX_SIGHT <= a.1 <= MAX_SIGHT
}

/// A step changes neither who exists, nor the level, nor the pending uses, nor
/// which items strike an area.
pub proof fn lemma_use_pass_frame(w: WorldView, blasts: Seq<Seq<Point>>, n: nat)
    ensures
        use_pass(w, blasts, n).alive == w.alive,
        use_pass(w, blasts, n).map == w.map,
        use_pass(w, blasts, n).wants_to_use == w.wants_to_use,
        use_pass(w, blasts, n).area_of_effect == w.area_of_effect,
        use_pass(w, blasts, n).player == w.player,
        use_pass(w, blasts, n).wants_to_pickup == w.wants_to_pickup,
        use_pass(w, blasts, n).wants_to_drop == w.wants_to_drop,
        use_pass(w, blasts, n).wants_to_melee == w.wants_to_melee,
    decreases n,
{
    if n > 0 {
        lemma_use_pass_frame(w, blasts, (n - 1) as nat);
    }
}

/// The system that resolves "use item" intents.
pub struct ItemUseSystem {}

impl ItemUseSystem {
    /// Resolves every pending use, in the order of the users' ids, with the
    /// given tile lists for the area effects, then clears the intents.
    pub fn resolve(world: &mut World, blasts: &Vec<Vec<Point>>)
        requires
            old(world)@.wf(),
            use_pass_ready(old(world)@, blast_lists(blasts@), old(world)@.alive.len()),
        ensures
            final(world)@ == items_used(old(world)@, blast_lists(blasts@)),
            final(world)@.wf(),
    {
        let ghost w0 = world@;
        let ghost lists = blast_lists(blasts@);
        let n = world.alive.len();
        let none: Vec<Point> = Vec::new();
        let mut u: usize = 0;
        while u < n
            invariant
                u <= n,
                n == w0.alive.len(),
                lists == blast_lists(blasts@),
                none@ == Seq::<Point>::empty(),
                w0.wf(),
                world@.wf(),
                use_pass_ready(w0, lists, n as nat),
                world@ == use_pass(w0, lists, u as nat),
            decreases n - u,
        {
            proof {
                lemma_use_pass_ready_prefix(w0, lists, n as nat, (u + 1) as nat);
            }
            let blast = if u < blasts.len() {
                &blasts[u]
            } else {
                &none
            };
            assert(blast@ == blast_for(lists, u as int));
            use_item(world, Entity { id: u }, blast);
            u += 1;
        }
        proof {
            lemma_use_pass_frame(w0, lists, n as nat);
        }
        world.wants_to_use.clear();
        assert(world@ =~= items_used(w0, lists));
    }

    /// Computes, for every area use, the tiles seen from its target.
    fn survey(world: &World) -> (blasts: Vec<Vec<Point>>)
        requires
            world@.wf(),
            sight_ready(world@),
        ensures
            blasts_shaped(world@, blast_lists(blasts@)),
            blasts_seen(world@, blast_lists(blasts@)),
    {
        let n = world.alive.len();
        let mut blasts: Vec<Vec<Point>> = Vec::new();
        let mut u: usize = 0;
        while u < n
            invariant
                u <= n,
                n == world@.alive.len(),
                world@.wf(),
                sight_ready(world@),
                blasts@.len() == u,
                forall|v: int|
                    0 <= v < u ==> match area_use(world@, v) {
                        Some(a) => {
                            &&& (#[trigger] blasts@[v])@.no_duplicates()
                            &&& forall|i: int|
                                0 <= i < blasts@[v]@.len() ==> world@.map.in_bounds(blasts@[v]@[i])
                            &&& tile_set(blasts@[v]@) == visible_from(
                                a.0.x as int,
                                a.0.y as int,
                                a.1 as int,
                                world@.map.width,
                                world@.map.height,
                                world@.map.walls(),
                            )
                        },
                        None => blasts@[v]@ == Seq::<Point>::empty(),
                    },
            decreases n - u,
        {
            let user = Entity { id: u };
            let mut blast: Vec<Point> = Vec::new();
            if let Some(intent) = world.wants_to_use.get(user) {
                if let Some(p) = intent.target {
                    if let Some(area) = world.area_of_effect.get(intent.item) {
                        assert(area_use(world@, u as int) == Some((p, area.radius)));
                        blast = field_of_view(Point { x: p.x, y: p.y }, area.radius, &world.map);
                    }
                }
            }
            blasts.push(blast);
            u += 1;
        }
        blasts
    }

    /// Resolves every pending use and clears the intents. The tiles of an area
    /// effect are those seen from its target point within the item's radius;
    /// in which order they come is not fixed, so the order in which the
    /// occupants of different tiles are struck is not either.
    pub fn run(&mut self, world: &mut World)
        requires
            old(world)@.wf(),
            sight_ready(old(world)@),
            forall|blasts: Seq<Seq<Point>>|
                blasts_shaped(old(world)@, blasts) ==> #[trigger] use_pass_ready(
                    old(world)@,
                    blasts,
                    old(world)@.alive.len(),
                ),
        ensures
            exists|blasts: Seq<Seq<Point>>|
                {
                    &&& blasts_shaped(old(world)@, blasts)
                    &&& blasts_seen(old(world)@, blasts)
                    &&& final(world)@ == #[trigger] items_used(old(world)@, blasts)
                },
            final(world)@.wf(),
    {
        let blasts = Self::survey(world);
        Self::resolve(world, &blasts);
    }
}

/// If every step of a pass of uses finds what it needs, so does every step of
/// its beginning.
pub proof fn lemma_use_pass_ready_prefix(w: WorldView, blasts: Seq<Seq<Point>>, n: nat, k: nat)
    requires
        use_pass_ready(w, blasts, n),
        k <= n,
    ensures
        use_pass_ready(w, blasts, k),
    decreases n,
{
    if k < n {
        lemma_use_pass_ready_prefix(w, blasts, (n - 1) as nat, k);
    }
}


/// The world after the pick-up pending for the entity of id `u` was resolved,
/// if there is one: the item leaves the floor for the collector's backpack.
pub open spec fn pickup_step(w: WorldView, u: int) -> WorldView {
    if !w.wants_to_pickup.dom().contains(u) {
        w
    } else {
        let want = w.wants_to_pickup[u];
        WorldView {
            positions: w.positions.remove(want.item@),
            in_backpack: w.in_backpack.insert(want.item@, InBackpack { owner: want.collected_by }),
            log: if want.collected_by == w.player && w.names.dom().contains(want.item@) {
                w.log.push(pickup_line(w.names[want.item@]))
            } else {
                w.log
            },
            ..w
        }
    }
}

/// What [`pickup_step`] needs: the item exists.
pub open spec fn pickup_step_ready(w: WorldView, u: int) -> bool {
    w.wants_to_pickup.dom().contains(u) ==> w.is_alive(w.wants_to_pickup[u].item)
}

/// The world after the pick-ups pending for the entities of id below `n`.
pub open spec fn pickup_pass(w: WorldView, n: nat) -> WorldView
    decreases n,
{
    if n == 0 {
        w
    } else {
        pickup_step(pickup_pass(w, (n - 1) as nat), n - 1)
    }
}

/// Whether each step of [`pickup_pass`] finds what it needs.
pub open spec fn pickup_pass_ready(w: WorldView, n: nat) -> bool
    decreases n,
{
    if n == 0 {
        true
    } else {
        &&& pickup_pass_ready(w, (n - 1) as nat)
        &&& pickup_step_ready(pickup_pass(w, (n - 1) as nat), n - 1)
    }
}

/// The world after the pick-up system ran: every pending pick-up was
/// resolved, and none is pending any more.
pub open spec fn items_collected(w: WorldView) -> WorldView {
    WorldView { wants_to_pickup: Map::empty(), ..pickup_pass(w, w.alive.len()) }
}

/// If every step of a pass of pick-ups finds what it needs, so does every step
/// of its beginning.
pub proof fn lemma_pickup_pass_ready_prefix(w: WorldView, n: nat, k: nat)
    requires
        pickup_pass_ready(w, n),
        k <= n,
    ensures
        pickup_pass_ready(w, k),
    decreases n,
{
    if k < n {
        lemma_pickup_pass_ready_prefix(w, (n - 1) as nat, k);
    }
}

/// The system that resolves "pick up" intents.
pub struct ItemCollectionSystem {}

impl ItemCollectionSystem {
    /// Resolves every pending pick-up, in the order of the ids of those who
    /// asked, then clears the intents. Whether the item still lies where the
    /// collector stands is not examined.
    pub fn run(&mut self, world: &mut World)
        requires
            old(world)@.wf(),
            pickup_pass_ready(old(world)@, old(world)@.alive.len()),
        ensures
            final(world)@ == items_collected(old(world)@),
            final(world)@.wf(),
    {
        let ghost w0 = world@;
        let n = world.alive.len();
        let mut u: usize = 0;
        while u < n
            invariant
                u <= n,
                n == w0.alive.len(),
                w0.wf(),
                world@.wf(),
                pickup_pass_ready(w0, n as nat),
                world@ == pickup_pass(w0, u as nat),
            decreases n - u,
        {
            proof {
                lemma_pickup_pass_ready_prefix(w0, n as nat, (u + 1) as nat);
            }
            let ghost before = world@;
            let found = match world.wants_to_pickup.get(Entity { id: u }) {
                Some(want) => Some(*want),
                None => None,
            };
            if let Some(pickup) = found {
                world.positions.remove(pickup.item);
                world.in_backpack.insert(pickup.item, InBackpack { owner: pickup.collected_by });
                if pickup.collected_by == world.player {
                    let line = match world.names.get(pickup.item) {
                        Some(n) => Some(pickup_message(n.name.as_str())),
                        None => None,
                    };
                    if let Some(text) = line {
                        world.log.push(text);
                    }
                }
            }
            assert(world@ =~= pickup_step(before, u as int));
            u += 1;
        }
        world.wants_to_pickup.clear();
        assert(world@ =~= items_collected(w0));
    }
}

/// The world after the drop pending for the entity of id `u` was resolved, if
/// there is one: the item leaves the backpack for the tile of the dropper.
pub open spec fn drop_step(w: WorldView, u: int) -> WorldView {
    if !w.wants_to_drop.dom().contains(u) {
        w
    } else {
        let item = w.wants_to_drop[u].item@;
        WorldView {
            positions: w.positions.insert(item, w.positions[u]),
            in_backpack: w.in_backpack.remove(item),
            log: if u == w.player@ && w.names.dom().contains(item) {
                w.log.push(drop_line(w.names[item]))
            } else {
                w.log
            },
            ..w
        }
    }
}

/// What [`drop_step`] needs: the dropper stands somewhere, and the item
/// exists.
pub open spec fn drop_step_ready(w: WorldView, u: int) -> bool {
    w.wants_to_drop.dom().contains(u) ==> {
        let item = w.wants_to_drop[u].item;
        &&& w.positions.dom().contains(u)
        &&& w.is_alive(item)
    }
}

/// The world after the drops pending for the entities of id below `n`.
pub open spec fn drop_pass(w: WorldView, n: nat) -> WorldView
    decreases n,
{
    if n == 0 {
        w
    } else {
        drop_step(drop_pass(w, (n - 1) as nat), n - 1)
    }
}

/// Whether each step of [`drop_pass`] finds what it needs.
pub open spec fn drop_pass_ready(w: WorldView, n: nat) -> bool
    decreases n,
{
    if n == 0 {
        true
    } else {
        &&& drop_pass_ready(w, (n - 1) as nat)
        &&& drop_step_ready(drop_pass(w, (n - 1) as nat), n - 1)
    }
}

/// The world after the drop system ran: every pending drop was resolved, and
/// none is pending any more.
pub open spec fn items_dropped(w: WorldView) -> WorldView {
    WorldView { wants_to_drop: Map::empty(), ..drop_pass(w, w.alive.len()) }
}

/// If every step of a pass of drops finds what it needs, so does every step
/// of its beginning.
pub proof fn lemma_drop_pass_ready_prefix(w: WorldView, n: nat, k: nat)
    requires
        drop_pass_ready(w, n),
        k <= n,
    ensures
        drop_pass_ready(w, k),
    decreases n,
{
    if k < n {
        lemma_drop_pass_ready_prefix(w, (n - 1) as nat, k);
    }
}

/// The system that resolves "drop" intents.
pub struct ItemDropSystem {}

impl ItemDropSystem {
    /// Resolves every pending drop, in the order of the droppers' ids, then
    /// clears the intents.
    pub fn run(&mut self, world: &mut World)
        requires
            old(world)@.wf(),
            drop_pass_ready(old(world)@, old(world)@.alive.len()),
        ensures
            final(world)@ == items_dropped(old(world)@),
            final(world)@.wf(),
    {
        let ghost w0 = world@;
        let n = world.alive.len();
        let mut u: usize = 0;
        while u < n
            invariant
                u <= n,
                n == w0.alive.len(),
                w0.wf(),
                world@.wf(),
                drop_pass_ready(w0, n as nat),
                world@ == drop_pass(w0, u as nat),
            decreases n - u,
        {
            proof {
                lemma_drop_pass_ready_prefix(w0, n as nat, (u + 1) as nat);
            }
            let ghost before = world@;
            let entity = Entity { id: u };
            let found = match world.wants_to_drop.get(entity) {
                Some(want) => Some(*want),
                None => None,
            };
            if let Some(to_drop) = found {
                let spot = match world.positions.get(entity) {
                    Some(p) => Position { x: p.x, y: p.y },
                    None => Position { x: 0, y: 0 },
                };
                world.positions.insert(to_drop.item, spot);
                world.in_backpack.remove(to_drop.item);
                if entity == world.player {
                    let line = match world.names.get(to_drop.item) {
                        Some(n) => Some(drop_message(n.name.as_str())),
                        None => None,
                    };
                    if let Some(text) = line {
                        world.log.push(text);
                    }
                }
            }
            assert(world@ =~= drop_step(before, u as int));
            u += 1;
        }
        world.wants_to_drop.clear();
        assert(world@ =~= items_dropped(w0));
    }
}

/// Whether `item` is in exactly one of the two places an item can be: on a
/// tile, or in a backpack.
pub open spec fn placed_once(w: WorldView, item: Entity) -> bool {
    w.positions.dom().contains(item@) != w.in_backpack.dom().contains(item@)
}

/// A pick-up leaves the item without a position and in the backpack of the
/// collector, and moves nothing else.
pub proof fn lemma_pickup_moves_item(w: WorldView, u: int, other: Entity)
    requires
        w.wants_to_pickup.dom().contains(u),
    ensures
        !pickup_step(w, u).positions.dom().contains(w.wants_to_pickup[u].item@),
        pickup_step(w, u).in_backpack.dom().contains(w.wants_to_pickup[u].item@),
        pickup_step(w, u).in_backpack[w.wants_to_pickup[u].item@].owner
            == w.wants_to_pickup[u].collected_by,
        placed_once(pickup_step(w, u), w.wants_to_pickup[u].item),
        other != w.wants_to_pickup[u].item ==> placed_once(pickup_step(w, u), other)
            == placed_once(w, other),
{
}

/// A drop leaves the item out of every backpack and at the position that the
/// dropper has at that moment, and moves nothing else.
pub proof fn lemma_drop_moves_item(w: WorldView, u: int, other: Entity)
    requires
        w.wants_to_drop.dom().contains(u),
        w.positions.dom().contains(u),
    ensures
        !drop_step(w, u).in_backpack.dom().contains(w.wants_to_drop[u].item@),
        drop_step(w, u).positions.dom().contains(w.wants_to_drop[u].item@),
        drop_step(w, u).positions[w.wants_to_drop[u].item@] == w.positions[u],
        placed_once(drop_step(w, u), w.wants_to_drop[u].item),
        other != w.wants_to_drop[u].item ==> placed_once(drop_step(w, u), other) == placed_once(
            w,
            other,
        ),
{
}

/// Picked up by `a`, dropped by `b` and picked up again by `c`, an item ends in
/// the backpack of the last collector, with no position left behind.
pub proof fn lemma_pickup_drop_pickup(w: WorldView, a: int, b: int, c: int, item: Entity)
    requires
        w.wants_to_pickup.dom().contains(a),
        w.wants_to_pickup[a].item == item,
        w.wants_to_drop.dom().contains(b),
        w.wants_to_drop[b].item == item,
        w.wants_to_pickup.dom().contains(c),
        w.wants_to_pickup[c].item == item,
    ensures
        ({
            let end = pickup_step(drop_step(pickup_step(w, a), b), c);
            &&& !end.positions.dom().contains(item@)
            &&& end.in_backpack.dom().contains(item@)
            &&& end.in_backpack[item@].owner == w.wants_to_pickup[c].collected_by
        }),
{
}

/// After the pick-up system ran, no pick-up is pending; after the item-use
/// system, no use; after the drop system, no drop: however many of them could
/// be satisfied.
pub proof fn lemma_intents_exhausted(w: WorldView, blasts: Seq<Seq<Point>>)
    ensures
        items_collected(w).wants_to_pickup.dom() =~= Set::<int>::empty(),
        items_used(w, blasts).wants_to_use.dom() =~= Set::<int>::empty(),
        items_dropped(w).wants_to_drop.dom() =~= Set::<int>::empty(),
{
}


/// The pick-up pass changes neither who exists, nor the level, nor the player.
pub proof fn lemma_pickup_pass_frame(w: WorldView, n: nat)
    ensures
        pickup_pass(w, n).alive == w.alive,
        pickup_pass(w, n).map == w.map,
        pickup_pass(w, n).player == w.player,
        pickup_pass(w, n).wants_to_pickup == w.wants_to_pickup,
        pickup_pass(w, n).wants_to_use == w.wants_to_use,
        pickup_pass(w, n).wants_to_drop == w.wants_to_drop,
        pickup_pass(w, n).wants_to_melee == w.wants_to_melee,
    decreases n,
{
    if n > 0 {
        lemma_pickup_pass_frame(w, (n - 1) as nat);
    }
}

/// The drop pass changes neither who exists, nor the level, nor the player.
pub proof fn lemma_drop_pass_frame(w: WorldView, n: nat)
    ensures
        drop_pass(w, n).alive == w.alive,
        drop_pass(w, n).map == w.map,
        drop_pass(w, n).player == w.player,
        drop_pass(w, n).wants_to_pickup == w.wants_to_pickup,
        drop_pass(w, n).wants_to_use == w.wants_to_use,
        drop_pass(w, n).wants_to_drop == w.wants_to_drop,
        drop_pass(w, n).wants_to_melee == w.wants_to_melee,
    decreases n,
{
    if n > 0 {
        lemma_drop_pass_frame(w, (n - 1) as nat);
    }
}


/// A healing changes nobody but its targets.
pub proof fn lemma_healed_elsewhere(
    stats: Map<int, CombatStats>,
    targets: Seq<Entity>,
    amount: i32,
    e: int,
)
    requires
        forall|i: int| 0 <= i < targets.len() ==> (#[trigger] targets[i])@ != e,
    ensures
        healed(stats, targets, amount).dom().contains(e) == stats.dom().contains(e),
        healed(stats, targets, amount)[e] == stats[e],
    decreases targets.len(),
{
    if targets.len() > 0 {
        assert(targets[targets.len() - 1]@ != e);
        assert forall|i: int| 0 <= i < targets.drop_last().len() implies (#[trigger] targets.drop_last()[i])@
            != e by {
            assert(targets.drop_last()[i] == targets[i]);
        }
        lemma_healed_elsewhere(stats, targets.drop_last(), amount, e);
    }
}

/// Damage is queued for nobody but the targets.
pub proof fn lemma_wounded_elsewhere(
    pending: Map<int, Seq<i32>>,
    targets: Seq<Entity>,
    amount: i32,
    e: int,
)
    requires
        forall|i: int| 0 <= i < targets.len() ==> (#[trigger] targets[i])@ != e,
    ensures
        wounded(pending, targets, amount).dom().contains(e) == pending.dom().contains(e),
        wounded(pending, targets, amount)[e] == pending[e],
    decreases targets.len(),
{
    if targets.len() > 0 {
        assert(targets[targets.len() - 1]@ != e);
        assert forall|i: int| 0 <= i < targets.drop_last().len() implies (#[trigger] targets.drop_last()[i])@
            != e by {
            assert(targets.drop_last()[i] == targets[i]);
        }
        lemma_wounded_elsewhere(pending, targets.drop_last(), amount, e);
    }
}

/// Nobody but the targets is confused.
pub proof fn lemma_confused_elsewhere(
    table: Map<int, Confusion>,
    targets: Seq<Entity>,
    turns: i32,
    e: int,
)
    requires
        forall|i: int| 0 <= i < targets.len() ==> (#[trigger] targets[i])@ != e,
    ensures
        confused(table, targets, turns).dom().contains(e) == table.dom().contains(e),
        confused(table, targets, turns)[e] == table[e],
    decreases targets.len(),
{
    if targets.len() > 0 {
        assert(targets[targets.len() - 1]@ != e);
        assert forall|i: int| 0 <= i < targets.drop_last().len() implies (#[trigger] targets.drop_last()[i])@
            != e by {
            assert(targets.drop_last()[i] == targets[i]);
        }
        lemma_confused_elsewhere(table, targets.drop_last(), turns, e);
    }
}

/// Whether the entity of id `e` has the same stats, the same pending damage
/// and the same confusion in both worlds.
pub open spec fn same_effects(a: WorldView, b: WorldView, e: int) -> bool {
    &&& a.combat_stats.dom().contains(e) == b.combat_stats.dom().contains(e)
    &&& a.combat_stats[e] == b.combat_stats[e]
    &&& a.suffer_damage.dom().contains(e) == b.suffer_damage.dom().contains(e)
    &&& a.suffer_damage[e] == b.suffer_damage[e]
    &&& a.confusion.dom().contains(e) == b.confusion.dom().contains(e)
    &&& a.confusion[e] == b.confusion[e]
}

/// A use has an effect on nobody but its targets.
pub proof fn lemma_use_reaches_targets_only(w: WorldView, u: int, blast: Seq<Point>, e: int)
    requires
        !same_effects(use_step(w, u, blast), w, e),
    ensures
        w.wants_to_use.dom().contains(u),
        exists|i: int|
            0 <= i < target_set(w, Entity { id: u as usize }, blast).len() && (#[trigger] target_set(
                w,
                Entity { id: u as usize },
                blast,
            )[i])@ == e,
{
    let targets = target_set(w, Entity { id: u as usize }, blast);
    if w.wants_to_use.dom().contains(u) && forall|i: int|
        0 <= i < targets.len() ==> (#[trigger] targets[i])@ != e {
        let item = w.wants_to_use[u].item@;
        lemma_healed_elsewhere(w.combat_stats, targets, w.provides_healing[item].heal_amount, e);
        lemma_wounded_elsewhere(w.suffer_damage, targets, w.provides_damage[item].damage_amount, e);
        lemma_confused_elsewhere(w.confusion, targets, w.confusion[item].turns, e);
    }
}

/// In a whole pass of uses, no area effect reaches the border: whenever the
/// step of the entity of id `k` is an area use and changes the stats, the
/// pending damage or the confusion of the entity of id `e`, that entity stands
/// on a tile of the blast that is off the outermost ring of the grid.
pub proof fn lemma_pass_spares_border(w: WorldView, blasts: Seq<Seq<Point>>, k: nat, e: int)
    requires
        k <= usize::MAX,
        area_use(w, k as int).is_some(),
        !same_effects(use_pass(w, blasts, k + 1), use_pass(w, blasts, k), e),
    ensures
        exists|p: Point|
            {
                &&& blast_for(blasts, k as int).contains(p)
                &&& w.map.is_interior(p)
                &&& #[trigger] w.map.occupants(p).contains(Entity { id: e as usize })
            },
{
    let cur = use_pass(w, blasts, k);
    let blast = blast_for(blasts, k as int);
    lemma_use_pass_frame(w, blasts, k);
    lemma_use_reaches_targets_only(cur, k as int, blast, e);
    let targets = target_set(cur, Entity { id: k as usize }, blast);
    let i = choose|i: int| 0 <= i < targets.len() && (#[trigger] targets[i])@ == e;
    assert(cur.map == w.map);
    assert(cur.wants_to_use == w.wants_to_use);
    assert(cur.area_of_effect == w.area_of_effect);
    assert(area_use(cur, k as int) == area_use(w, k as int));
    assert(cur.wants_to_use.dom().contains(k as int));
    assert(cur.wants_to_use[k as int].target.is_some());
    assert(cur.area_of_effect.dom().contains(cur.wants_to_use[k as int].item@));
    assert(targets == crowd(w.map, struck_tiles(w.map, blast)));
    lemma_area_spares_border(w.map, blast, i);
    let p = choose|p: Point|
        {
            &&& blast.contains(p)
            &&& w.map.is_interior(p)
            &&& #[trigger] w.map.occupants(p).contains(targets[i])
        };
    assert(targets[i] == (Entity { id: e as usize }));
    assert(w.map.occupants(p).contains(Entity { id: e as usize }));
}

/// The last of the entities of id below `n` whose pending pick-up is about
/// `item`, if there is one.
pub open spec fn last_seeker(w: WorldView, item: int, n: nat) -> Option<int>
    decreases n,
{
    if n == 0 {
        None
    } else if w.wants_to_pickup.dom().contains(n - 1) && w.wants_to_pickup[n - 1].item@ == item {
        Some(n - 1)
    } else {
        last_seeker(w, item, (n - 1) as nat)
    }
}

/// After a whole pass of pick-ups, an item that somebody asked for has no
/// position and lies in the backpack that the last one to ask named; an item
/// that nobody asked for is where it was.
pub proof fn lemma_collected(w: WorldView, item: int, n: nat)
    ensures
        match last_seeker(w, item, n) {
            Some(v) => {
                &&& w.wants_to_pickup.dom().contains(v)
                &&& w.wants_to_pickup[v].item@ == item
                &&& !pickup_pass(w, n).positions.dom().contains(item)
                &&& pickup_pass(w, n).in_backpack.dom().contains(item)
                &&& pickup_pass(w, n).in_backpack[item].owner == w.wants_to_pickup[v].collected_by
            },
            None => {
                &&& pickup_pass(w, n).positions.dom().contains(item) == w.positions.dom().contains(
                    item,
                )
                &&& pickup_pass(w, n).positions[item] == w.positions[item]
                &&& pickup_pass(w, n).in_backpack.dom().contains(item)
                    == w.in_backpack.dom().contains(item)
                &&& pickup_pass(w, n).in_backpack[item] == w.in_backpack[item]
            },
        },
    decreases n,
{
    if n > 0 {
        lemma_collected(w, item, (n - 1) as nat);
        lemma_pickup_pass_frame(w, (n - 1) as nat);
    }
}

/// The last of the entities of id below `n` whose pending drop is about
/// `item`, if there is one.
pub open spec fn last_dropper(w: WorldView, item: int, n: nat) -> Option<int>
    decreases n,
{
    if n == 0 {
        None
    } else if w.wants_to_drop.dom().contains(n - 1) && w.wants_to_drop[n - 1].item@ == item {
        Some(n - 1)
    } else {
        last_dropper(w, item, (n - 1) as nat)
    }
}

/// After a whole pass of drops, an item that somebody dropped is in no
/// backpack and lies where the last one to drop it stood at that moment; an
/// item that nobody dropped is where it was.
pub proof fn lemma_dropped(w: WorldView, item: int, n: nat)
    ensures
        match last_dropper(w, item, n) {
            Some(v) => {
                &&& w.wants_to_drop.dom().contains(v)
                &&& w.wants_to_drop[v].item@ == item
                &&& !drop_pass(w, n).in_backpack.dom().contains(item)
                &&& drop_pass(w, n).positions.dom().contains(item)
                &&& drop_pass(w, n).positions[item] == drop_pass(w, v as nat).positions[v]
            },
            None => {
                &&& drop_pass(w, n).positions.dom().contains(item) == w.positions.dom().contains(
                    item,
                )
                &&& drop_pass(w, n).positions[item] == w.positions[item]
                &&& drop_pass(w, n).in_backpack.dom().contains(item)
                    == w.in_backpack.dom().contains(item)
                &&& drop_pass(w, n).in_backpack[item] == w.in_backpack[item]
            },
        },
    decreases n,
{
    if n > 0 {
        lemma_dropped(w, item, (n - 1) as nat);
        lemma_drop_pass_frame(w, (n - 1) as nat);
    }
}

/// A drop undoes a pick-up, over whole passes: if the collector is the only
/// one to ask for the item, then is the only one to drop it, and is not itself
/// dropped by anybody before its turn, the item lies where the collector
/// stands and in no backpack; picked up once more, it is in the collector's
/// backpack again and has no position.
pub proof fn lemma_passes_round_trip(
    w: WorldView,
    dropping: WorldView,
    again: WorldView,
    c: int,
    item: int,
)
    requires
        last_seeker(w, item, w.alive.len()) == Some(c),
        dropping.alive == w.alive,
        last_dropper(dropping, item, w.alive.len()) == Some(c),
        c >= 0,
        last_dropper(dropping, c, c as nat).is_none(),
        again.alive == w.alive,
        again.positions == items_dropped(dropping).positions,
        again.in_backpack == items_dropped(dropping).in_backpack,
        last_seeker(again, item, w.alive.len()) == Some(c),
    ensures
        !items_collected(w).positions.dom().contains(item),
        items_collected(w).in_backpack[item].owner == w.wants_to_pickup[c].collected_by,
        items_dropped(dropping).positions.dom().contains(item),
        items_dropped(dropping).positions[item] == dropping.positions[c],
        !items_dropped(dropping).in_backpack.dom().contains(item),
        placed_once(items_dropped(dropping), Entity { id: item as usize }),
        !items_collected(again).positions.dom().contains(item),
        items_collected(again).in_backpack.dom().contains(item),
        items_collected(again).in_backpack[item].owner == again.wants_to_pickup[c].collected_by,
        placed_once(items_collected(again), Entity { id: item as usize }),
{
    let n = w.alive.len();
    lemma_collected(w, item, n);
    lemma_dropped(dropping, item, n);
    lemma_collected(again, item, n);
    lemma_last_dropper_below(dropping, item, n);
    lemma_dropped(dropping, c, c as nat);
}

/// The last dropper has an id below the bound.
pub proof fn lemma_last_dropper_below(w: WorldView, item: int, n: nat)
    ensures
        last_dropper(w, item, n) matches Some(v) ==> 0 <= v < n,
    decreases n,
{
    if n > 0 {
        lemma_last_dropper_below(w, item, (n - 1) as nat);
    }
}


/// Somebody of id below `n` who asks for an item is a seeker of it.
pub proof fn lemma_last_seeker_some(w: WorldView, item: int, n: nat, v: int)
    requires
        0 <= v < n,
        w.wants_to_pickup.dom().contains(v),
        w.wants_to_pickup[v].item@ == item,
    ensures
        last_seeker(w, item, n).is_some(),
    decreases n,
{
    if v < n - 1 {
        lemma_last_seeker_some(w, item, (n - 1) as nat, v);
    }
}

/// Whether a pass of drops finds what it needs depends on nothing but who
/// exists, who stands where, and the pending drops.
pub proof fn lemma_drop_ready_transfers(a: WorldView, b: WorldView, n: nat)
    requires
        a.alive == b.alive,
        a.positions == b.positions,
        a.wants_to_drop == b.wants_to_drop,
    ensures
        drop_pass_ready(a, n) == drop_pass_ready(b, n),
        drop_pass(a, n).alive == drop_pass(b, n).alive,
        drop_pass(a, n).positions == drop_pass(b, n).positions,
        drop_pass(a, n).wants_to_drop == drop_pass(b, n).wants_to_drop,
    decreases n,
{
    if n > 0 {
        lemma_drop_ready_transfers(a, b, (n - 1) as nat);
    }
}

} // verus!
