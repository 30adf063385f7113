use vstd::prelude::*;
use rltk::Point;
use crate::components::{CombatStats, SufferDamage};
use crate::damage_system::{
    damage_applied, damage_fits, pending_fits, stats_after_damage, sum_of,
};
use crate::gamelog::GameLog;
use crate::inventory_system::{
    all_alive, area_use, blast_for, blasts_shaped, crowd, drop_pass, drop_pass_ready,
    drop_step_ready, heal_fits, healed, items_used, last_seeker, lemma_collected,
    lemma_drop_pass_frame, lemma_drop_pass_ready_prefix, lemma_drop_ready_transfers,
    lemma_heal_fits_prefix, lemma_last_seeker_some, lemma_pickup_pass_frame,
    lemma_pickup_pass_ready_prefix, lemma_use_pass_ready_prefix, off_border, pickup_pass,
    pickup_pass_ready, pickup_step_ready, sight_ready, struck_tiles, target_set, use_pass,
    use_pass_ready, use_step_ready,
};
use crate::map::{lemma_xy_idx_in_range, MAX_SIGHT};
use crate::map_indexing_system::{indexed, standing, stands_on};
use crate::melee_combat_system::{
    attack_lands, blow, lemma_melee_pass_frame, lemma_melee_pass_same_damage, melee_ready,
    melee_resolved, melee_step_ready, resolve_attacks,
};
use crate::storage::{Entity, Storage};
use crate::world::{World, WorldView};
use crate::{before_use, pipeline_ready};

verus! {

/// Whether the occupant index lists only entities that exist.
pub open spec fn index_live(w: WorldView) -> bool {
    forall|t: int, k: int|
        0 <= t < w.map.tile_content.len() && 0 <= k < w.map.tile_content[t].len()
            ==> w.is_alive(#[trigger] w.map.tile_content[t][k])
}

/// Whether some pending pick-up is about the entity of id `e`.
pub open spec fn sought(w: WorldView, e: int) -> bool {
    exists|v: int| #[trigger] w.wants_to_pickup.dom().contains(v) && w.wants_to_pickup[v].item@ == e
}

/// Whether the pending pick-ups and uses are in order: every item to pick up
/// exists; every use on a tile aims inside the grid, with a radius of at most
/// [`MAX_SIGHT`] if it goes over an area.
pub open spec fn intents_sound(w: WorldView) -> bool {
    &&& forall|u: int| #[trigger]
        w.wants_to_pickup.dom().contains(u) ==> w.is_alive(w.wants_to_pickup[u].item)
    &&& forall|u: int| #[trigger]
        w.wants_to_use.dom().contains(u) ==> {
            let intent = w.wants_to_use[u];
            intent.target matches Some(p) ==> {
                &&& w.map.in_bounds(p)
                &&& w.area_of_effect.dom().contains(intent.item@) ==> -MAX_SIGHT
                    <= w.area_of_effect[intent.item@].radius <= MAX_SIGHT
            }
        }
}

/// The stats with every `hp` that lies above its `max_hp` brought down to it.
pub open spec fn clamped(low: Map<int, CombatStats>) -> Map<int, CombatStats> {
    Map::new(
        |e: int| low.dom().contains(e),
        |e: int|
            CombatStats {
                hp: if low[e].hp < low[e].max_hp {
                    low[e].hp
                } else {
                    low[e].max_hp
                },
                ..low[e]
            },
    )
}

/// Whether the use pending for the entity of id `u` heals.
pub open spec fn use_heals(w: WorldView, u: int) -> bool {
    w.wants_to_use.dom().contains(u) && w.provides_healing.dom().contains(
        w.wants_to_use[u].item@,
    )
}

/// Whom the use pending for the entity of id `u` reaches if it is no area
/// use: the user, or whoever stands on the target tile.
pub open spec fn fixed_targets(w: WorldView, u: int) -> Seq<Entity> {
    target_set(w, Entity { id: u as usize }, Seq::empty())
}

/// A floor under the stats after the use pending for the entity of id `u`,
/// given the floor `low` under the stats before it. A healing over an area may
/// reach anybody: all that is sure of it, if it is not negative, is that
/// nobody ends below both his `hp` and his `max_hp`. Any other healing reaches
/// whom it reaches, and the floor is healed like the stats.
pub open spec fn low_step(low: Map<int, CombatStats>, w: WorldView, u: int) -> Map<
    int,
    CombatStats,
> {
    if !use_heals(w, u) {
        low
    } else if area_use(w, u).is_some() {
        clamped(low)
    } else {
        healed(low, fixed_targets(w, u), w.provides_healing[w.wants_to_use[u].item@].heal_amount)
    }
}

/// Whether the healing of the use pending for the entity of id `u` is sure to
/// fit: over an area if it is not negative, else if it fits on the floor.
pub open spec fn low_step_sound(low: Map<int, CombatStats>, w: WorldView, u: int) -> bool {
    use_heals(w, u) ==> {
        let amount = w.provides_healing[w.wants_to_use[u].item@].heal_amount;
        if area_use(w, u).is_some() {
            amount >= 0
        } else {
            heal_fits(low, fixed_targets(w, u), amount)
        }
    }
}

/// The floor after the uses pending for the entities of id below `n`.
pub open spec fn low_pass(low: Map<int, CombatStats>, w: WorldView, n: nat) -> Map<
    int,
    CombatStats,
>
    decreases n,
{
    if n == 0 {
        low
    } else {
        low_step(low_pass(low, w, (n - 1) as nat), w, n - 1)
    }
}

/// Whether every healing of the uses pending for the entities of id below `n`
/// is sure to fit. Where no healing goes over an area the floor is the stats
/// themselves, and this says no more than that the healings fit.
pub open spec fn heals_sound(low: Map<int, CombatStats>, w: WorldView, n: nat) -> bool
    decreases n,
{
    if n == 0 {
        true
    } else {
        &&& heals_sound(low, w, (n - 1) as nat)
        &&& low_step_sound(low_pass(low, w, (n - 1) as nat), w, n - 1)
    }
}

/// What is enough for a pass of the pipeline: a world that is well formed,
/// pick-ups and uses that are in order, blows that fit, damage that fits once
/// the blows are queued, healings that are sure to fit after that, and drops
/// that find their dropper standing somewhere once the pick-ups are done. But
/// for a negative healing over an area, this is all that the pass requires.
pub open spec fn steady(w: WorldView) -> bool {
    &&& w.wf()
    &&& intents_sound(w)
    &&& melee_ready(w)
    &&& damage_fits(melee_resolved(indexed(w)))
    &&& heals_sound(before_use(w).combat_stats, indexed(w), w.alive.len())
    &&& drop_pass_ready(before_use(w), w.alive.len())
}

/// If the healings of a pass are sure to fit, so are those of its beginning.
pub proof fn lemma_heals_sound_prefix(low: Map<int, CombatStats>, w: WorldView, n: nat, k: nat)
    requires
        heals_sound(low, w, n),
        k <= n,
    ensures
        heals_sound(low, w, k),
    decreases n,
{
    if k < n {
        lemma_heals_sound_prefix(low, w, (n - 1) as nat, k);
    }
}

/// Whether `stats` lies on or above the floor `low`: the same entities, the
/// same `max_hp`, and no `hp` below the floor's.
pub open spec fn dominates(stats: Map<int, CombatStats>, low: Map<int, CombatStats>) -> bool {
    &&& stats.dom() =~= low.dom()
    &&& forall|e: int| #[trigger]
        low.dom().contains(e) ==> stats[e].max_hp == low[e].max_hp && stats[e].hp >= low[e].hp
}

/// Healing keeps stats above their floor, and fits on the stats if it fits on
/// the floor.
pub proof fn lemma_healed_above(
    stats: Map<int, CombatStats>,
    low: Map<int, CombatStats>,
    targets: Seq<Entity>,
    amount: i32,
)
    requires
        dominates(stats, low),
        heal_fits(low, targets, amount),
    ensures
        heal_fits(stats, targets, amount),
        dominates(healed(stats, targets, amount), healed(low, targets, amount)),
    decreases targets.len(),
{
    if targets.len() > 0 {
        lemma_healed_above(stats, low, targets.drop_last(), amount);
    }
}

/// A healing that is not negative leaves nobody below both his `hp` and his
/// `max_hp`, whomever it reaches and how often.
pub proof fn lemma_healed_above_clamp(
    stats: Map<int, CombatStats>,
    low: Map<int, CombatStats>,
    targets: Seq<Entity>,
    amount: i32,
)
    requires
        dominates(stats, low),
        amount >= 0,
    ensures
        dominates(healed(stats, targets, amount), clamped(low)),
    decreases targets.len(),
{
    if targets.len() > 0 {
        lemma_healed_above_clamp(stats, low, targets.drop_last(), amount);
    }
}

/// Whoever stands on a tile has a position, and so exists in a well-formed
/// world.
pub proof fn lemma_standing_alive(w: WorldView, t: int, n: nat)
    requires
        w.wf(),
    ensures
        forall|k: int|
            0 <= k < standing(w, t, n).len() ==> w.is_alive(#[trigger] standing(w, t, n)[k]),
    decreases n,
{
    if n > 0 {
        lemma_standing_alive(w, t, (n - 1) as nat);
        let before = standing(w, t, (n - 1) as nat);
        assert forall|k: int| 0 <= k < standing(w, t, n).len() implies w.is_alive(
            #[trigger] standing(w, t, n)[k],
        ) by {
            if k < before.len() {
                assert(standing(w, t, n)[k] == before[k]);
            } else {
                assert(stands_on(w, n - 1, t));
                assert(w.positions.dom().contains(n - 1));
                assert(standing(w, t, n)[k] == (Entity { id: (n - 1) as usize }));
            }
        }
    }
}

/// The re-index keeps a world well formed and lists only entities that exist.
pub proof fn lemma_indexed_live(w: WorldView)
    requires
        w.wf(),
    ensures
        indexed(w).wf(),
        index_live(indexed(w)),
{
    let wi = indexed(w);
    assert forall|t: int, k: int|
        0 <= t < wi.map.tile_content.len() && 0 <= k < wi.map.tile_content[t].len() implies wi.is_alive(
        #[trigger] wi.map.tile_content[t][k],
    ) by {
        lemma_standing_alive(w, t, w.alive.len());
    }
}

/// A healing that is not negative always fits.
pub proof fn lemma_heal_fits(stats: Map<int, CombatStats>, targets: Seq<Entity>, amount: i32)
    requires
        amount >= 0,
    ensures
        heal_fits(stats, targets, amount),
    decreases targets.len(),
{
    if targets.len() > 0 {
        lemma_heal_fits(stats, targets.drop_last(), amount);
    }
}

/// With an index of the living, whoever stands on tiles of the grid exists.
pub proof fn lemma_crowd_alive(w: WorldView, tiles: Seq<Point>)
    requires
        w.map.wf(),
        index_live(w),
        forall|i: int| 0 <= i < tiles.len() ==> w.map.in_bounds(#[trigger] tiles[i]),
    ensures
        all_alive(w, crowd(w.map, tiles)),
    decreases tiles.len(),
{
    if tiles.len() > 0 {
        lemma_crowd_alive(w, tiles.drop_last());
        let p = tiles.last();
        assert(w.map.in_bounds(tiles[tiles.len() - 1]));
        lemma_xy_idx_in_range(w.map, p);
        let t = w.map.xy_idx(p.x as int, p.y as int);
        let before = crowd(w.map, tiles.drop_last());
        assert forall|i: int| 0 <= i < crowd(w.map, tiles).len() implies w.is_alive(
            #[trigger] crowd(w.map, tiles)[i],
        ) by {
            if i >= before.len() {
                let k = i - before.len();
                assert(crowd(w.map, tiles)[i] == w.map.tile_content[t][k]);
            }
        }
    }
}

/// The fields that readiness looks at, but for the intents, are the same in
/// both worlds.
pub open spec fn same_setting(a: WorldView, b: WorldView) -> bool {
    &&& a.alive == b.alive
    &&& a.names == b.names
    &&& a.map == b.map
    &&& a.player == b.player
    &&& a.area_of_effect == b.area_of_effect
    &&& a.provides_healing == b.provides_healing
    &&& a.provides_damage == b.provides_damage
    &&& a.consumables == b.consumables
}

/// The use pass keeps the setting.
pub proof fn lemma_use_pass_setting(w: WorldView, blasts: Seq<Seq<Point>>, n: nat)
    ensures
        same_setting(use_pass(w, blasts, n), w),
        use_pass(w, blasts, n).positions == w.positions,
        use_pass(w, blasts, n).wants_to_use == w.wants_to_use,
        use_pass(w, blasts, n).wants_to_drop == w.wants_to_drop,
    decreases n,
{
    if n > 0 {
        lemma_use_pass_setting(w, blasts, (n - 1) as nat);
    }
}

/// The pick-up pass keeps the setting.
pub proof fn lemma_pickup_pass_setting(w: WorldView, n: nat)
    ensures
        same_setting(pickup_pass(w, n), w),
        pickup_pass(w, n).combat_stats == w.combat_stats,
        pickup_pass(w, n).wants_to_pickup == w.wants_to_pickup,
        pickup_pass(w, n).wants_to_use == w.wants_to_use,
        pickup_pass(w, n).wants_to_drop == w.wants_to_drop,
        forall|e: int| #[trigger]
            w.positions.dom().contains(e) && !sought(w, e) ==> pickup_pass(
                w,
                n,
            ).positions.dom().contains(e),
    decreases n,
{
    if n > 0 {
        lemma_pickup_pass_setting(w, (n - 1) as nat);
        let before = pickup_pass(w, (n - 1) as nat);
        assert forall|e: int| #[trigger]
            w.positions.dom().contains(e) && !sought(w, e) implies pickup_pass(
            w,
            n,
        ).positions.dom().contains(e) by {
            if w.wants_to_pickup.dom().contains(n - 1) {
                assert(w.wants_to_pickup[n - 1].item@ != e);
            }
        }
    }
}

/// A use step finds what it needs in any world with the setting of one whose
/// index lists the living and whose intents are in order.
pub proof fn lemma_use_step_ready(w: WorldView, cur: WorldView, u: int, blast: Seq<Point>)
    requires
        w.wf(),
        index_live(w),
        intents_sound(w),
        same_setting(cur, w),
        cur.wants_to_use == w.wants_to_use,
        area_use(w, u).is_some() ==> forall|i: int|
            0 <= i < blast.len() ==> w.map.in_bounds(#[trigger] blast[i]),
        use_heals(cur, u) ==> heal_fits(
            cur.combat_stats,
            target_set(cur, Entity { id: u as usize }, blast),
            cur.provides_healing[cur.wants_to_use[u].item@].heal_amount,
        ),
    ensures
        use_step_ready(cur, u, blast),
{
    if cur.wants_to_use.dom().contains(u) {
        assert(w.wants_to_use.dom().contains(u));
        let user = Entity { id: u as usize };
        let intent = cur.wants_to_use[u];
        let item = intent.item@;
        let targets = target_set(cur, user, blast);
        assert(cur.is_alive(user)) by {
            assert(w.wants_to_use.dom().contains(u));
        }
        assert(all_alive(cur, targets)) by {
            match intent.target {
                None => {
                    assert(targets =~= seq![user]);
                },
                Some(p) => {
                    if cur.area_of_effect.dom().contains(item) {
                        let tiles = struck_tiles(cur.map, blast);
                        assert(area_use(w, u).is_some());
                        assert forall|i: int| 0 <= i < tiles.len() implies cur.map.in_bounds(
                            #[trigger] tiles[i],
                        ) by {
                            blast.lemma_filter_pred(off_border(cur.map), i);
                        }
                        lemma_crowd_alive(w, tiles);
                    } else {
                        lemma_xy_idx_in_range(w.map, p);
                    }
                },
            }
        }
    }
}

/// A steady world is ready for a pass of the pipeline.
pub proof fn lemma_steady_is_ready(w: WorldView)
    requires
        steady(w),
    ensures
        pipeline_ready(w),
{
    let n = w.alive.len();
    let wi = indexed(w);
    lemma_indexed_live(w);
    assert(intents_sound(wi));
    assert(melee_ready(wi)) by {
        assert forall|u: int| #[trigger] melee_step_ready(wi, u) by {
            assert(melee_step_ready(w, u));
        }
    }
    lemma_melee_pass_frame(wi, n);
    let w1 = melee_resolved(wi);
    assert(same_setting(w1, wi));
    let wd = damage_applied(w1);
    assert(same_setting(wd, wi));
    lemma_pickup_ready(wi, wd, n);
    lemma_pickup_pass_setting(wd, n);
    let w2 = before_use(w);
    assert(same_setting(w2, wi));
    assert(sight_ready(w2)) by {
        assert forall|u: int| area_use(w2, u).is_some() implies w2.map.in_bounds(
            (#[trigger] area_use(w2, u)).unwrap().0,
        ) && -MAX_SIGHT <= area_use(w2, u).unwrap().1 <= MAX_SIGHT by {
            assert(wi.wants_to_use.dom().contains(u));
        }
    }
    assert forall|blasts: Seq<Seq<Point>>| #[trigger] blasts_shaped(w2, blasts) implies use_pass_ready(
        w2,
        blasts,
        n,
    ) && drop_pass_ready(items_used(w2, blasts), n) by {
        lemma_use_ready(wi, w2, w2.combat_stats, blasts, n);
        lemma_use_pass_setting(w2, blasts, n);
        let w3 = items_used(w2, blasts);
        lemma_drop_ready_transfers(w2, w3, n);
    }
}

proof fn lemma_pickup_ready(w: WorldView, start: WorldView, n: nat)
    requires
        w.wf(),
        intents_sound(w),
        same_setting(start, w),
        start.wants_to_pickup == w.wants_to_pickup,
    ensures
        pickup_pass_ready(start, n),
    decreases n,
{
    if n > 0 {
        lemma_pickup_ready(w, start, (n - 1) as nat);
        lemma_pickup_pass_setting(start, (n - 1) as nat);
        let cur = pickup_pass(start, (n - 1) as nat);
        if cur.wants_to_pickup.dom().contains(n - 1) {
            assert(w.wants_to_pickup.dom().contains(n - 1));
        }
    }
}

proof fn lemma_use_ready(
    w: WorldView,
    start: WorldView,
    low: Map<int, CombatStats>,
    blasts: Seq<Seq<Point>>,
    n: nat,
)
    requires
        w.wf(),
        index_live(w),
        intents_sound(w),
        same_setting(start, w),
        start.wants_to_use == w.wants_to_use,
        blasts_shaped(start, blasts),
        n <= w.alive.len(),
        dominates(start.combat_stats, low),
        heals_sound(low, w, n),
    ensures
        use_pass_ready(start, blasts, n),
        dominates(use_pass(start, blasts, n).combat_stats, low_pass(low, w, n)),
    decreases n,
{
    if n > 0 {
        lemma_use_ready(w, start, low, blasts, (n - 1) as nat);
        lemma_use_pass_setting(start, blasts, (n - 1) as nat);
        let cur = use_pass(start, blasts, (n - 1) as nat);
        let floor = low_pass(low, w, (n - 1) as nat);
        let u = n - 1;
        let blast = blast_for(blasts, u);
        assert(area_use(w, u) == area_use(start, u));
        assert(area_use(w, u) == area_use(cur, u));
        if area_use(w, u).is_some() {
            assert(blast == blasts[u]);
        }
        if use_heals(cur, u) {
            assert(use_heals(w, u));
            let amount = cur.provides_healing[cur.wants_to_use[u].item@].heal_amount;
            let targets = target_set(cur, Entity { id: u as usize }, blast);
            if area_use(w, u).is_some() {
                lemma_heal_fits(cur.combat_stats, targets, amount);
                lemma_healed_above_clamp(cur.combat_stats, floor, targets, amount);
            } else {
                assert(targets == fixed_targets(w, u));
                lemma_healed_above(cur.combat_stats, floor, targets, amount);
            }
        }
        lemma_use_step_ready(w, cur, u, blast);
    }
}

/// Marks every entity that a pending pick-up is about.
fn mark_sought(world: &World) -> (marks: Vec<bool>)
    requires
        world@.wf(),
        forall|u: int| #[trigger]
            world@.wants_to_pickup.dom().contains(u) ==> world@.is_alive(
                world@.wants_to_pickup[u].item,
            ),
    ensures
        marks@.len() == world@.alive.len(),
        forall|e: int| 0 <= e < marks@.len() ==> marks@[e] == sought(world@, e),
{
    let n = world.alive.len();
    let mut marks: Vec<bool> = Vec::new();
    let mut i: usize = 0;
    while i < n
        invariant
            i <= n,
            marks@.len() == i,
            forall|e: int| 0 <= e < i ==> !marks@[e],
        decreases n - i,
    {
        marks.push(false);
        i += 1;
    }
    let mut v: usize = 0;
    while v < n
        invariant
            v <= n,
            n == world@.alive.len(),
            marks@.len() == n,
            world@.wf(),
            forall|u: int| #[trigger]
                world@.wants_to_pickup.dom().contains(u) ==> world@.is_alive(
                    world@.wants_to_pickup[u].item,
                ),
            forall|e: int|
                0 <= e < n ==> marks@[e] == exists|u: int|
                    0 <= u < v && #[trigger] world@.wants_to_pickup.dom().contains(u)
                        && world@.wants_to_pickup[u].item@ == e,
        decreases n - v,
    {
        let ghost before = marks@;
        if let Some(want) = world.wants_to_pickup.get(Entity { id: v }) {
            assert(world@.wants_to_pickup.dom().contains(v as int));
            let item = want.item;
            assert(world@.is_alive(item));
            marks[item.id] = true;
        }
        assert forall|e: int| 0 <= e < n implies marks@[e] == exists|u: int|
            0 <= u < v + 1 && #[trigger] world@.wants_to_pickup.dom().contains(u)
                && world@.wants_to_pickup[u].item@ == e by {
            if before[e] {
                let u = choose|u: int|
                    0 <= u < v && #[trigger] world@.wants_to_pickup.dom().contains(u)
                        && world@.wants_to_pickup[u].item@ == e;
                assert(0 <= u < v + 1 && world@.wants_to_pickup.dom().contains(u));
            }
            if marks@[e] && !before[e] {
                assert(world@.wants_to_pickup.dom().contains(v as int));
            }
            if exists|u: int|
                0 <= u < v + 1 && #[trigger] world@.wants_to_pickup.dom().contains(u)
                    && world@.wants_to_pickup[u].item@ == e {
                let u = choose|u: int|
                    0 <= u < v + 1 && #[trigger] world@.wants_to_pickup.dom().contains(u)
                        && world@.wants_to_pickup[u].item@ == e;
                if u < v {
                    assert(before[e]);
                }
            }
        }
        v += 1;
    }
    proof {
        assert forall|e: int| 0 <= e < marks@.len() implies marks@[e] == sought(world@, e) by {
            if sought(world@, e) {
                let u = choose|u: int| #[trigger]
                    world@.wants_to_pickup.dom().contains(u) && world@.wants_to_pickup[u].item@
                        == e;
                assert(0 <= u < n);
            }
        }
    }
    marks
}

/// Whether every pending intent is in order.
fn intents_are_sound(world: &World) -> (b: bool)
    requires
        world@.wf(),
    ensures
        b == intents_sound(world@),
{
    let n = world.alive.len();
    let mut u: usize = 0;
    while u < n
        invariant
            u <= n,
            n == world@.alive.len(),
            world@.wf(),
            forall|v: int|
                0 <= v < u && #[trigger] world@.wants_to_pickup.dom().contains(v)
                    ==> world@.is_alive(world@.wants_to_pickup[v].item),
            forall|v: int|
                0 <= v < u && #[trigger] world@.wants_to_use.dom().contains(v) ==> {
                    let intent = world@.wants_to_use[v];
                    intent.target matches Some(p) ==> {
                        &&& world@.map.in_bounds(p)
                        &&& world@.area_of_effect.dom().contains(intent.item@) ==> -MAX_SIGHT
                            <= world@.area_of_effect[intent.item@].radius <= MAX_SIGHT
                    }
                },
        decreases n - u,
    {
        let e = Entity { id: u };
        if let Some(want) = world.wants_to_pickup.get(e) {
            if !world.is_alive(want.item) {
                assert(world@.wants_to_pickup.dom().contains(u as int));
                return false;
            }
        }
        if let Some(intent) = world.wants_to_use.get(e) {
            assert(world@.wants_to_use.dom().contains(u as int));
            if let Some(p) = intent.target {
                if !world.map.in_bounds(Point { x: p.x, y: p.y }) {
                    return false;
                }
                if let Some(area) = world.area_of_effect.get(intent.item) {
                    if area.radius < -MAX_SIGHT || area.radius > MAX_SIGHT {
                        return false;
                    }
                }
            }
        }
        u += 1;
    }
    true
}

/// Whether every blow fits.
fn blows_fit(world: &World) -> (b: bool)
    requires
        world@.wf(),
    ensures
        b == melee_ready(world@),
{
    let n = world.alive.len();
    let mut u: usize = 0;
    while u < n
        invariant
            u <= n,
            n == world@.alive.len(),
            world@.wf(),
            forall|v: int| 0 <= v < u ==> #[trigger] melee_step_ready(world@, v),
        decreases n - u,
    {
        let attacker = Entity { id: u };
        if let Some(want) = world.wants_to_melee.get(attacker) {
            if let Some(a) = world.combat_stats.get(attacker) {
                if let Some(t) = world.combat_stats.get(want.target) {
                    if a.hp > 0 && t.hp > 0 && a.power as i64 - t.defense as i64 > i32::MAX as i64 {
                        assert(!melee_step_ready(world@, u as int));
                        return false;
                    }
                }
            }
        }
        u += 1;
    }
    assert forall|v: int| #[trigger] melee_step_ready(world@, v) by {
        if attack_lands(world@, v) {
            assert(world@.wants_to_melee.dom().contains(v));
            assert(0 <= v < n);
        }
    }
    true
}

/// A copy of the pending damage.
fn copy_pending(suffer: &Storage<SufferDamage>) -> (copy: Storage<SufferDamage>)
    ensures
        copy@ == suffer@,
{
    let n = suffer.bound();
    let mut copy: Storage<SufferDamage> = Storage::new();
    let mut i: usize = 0;
    assert(copy@ =~= suffer@.restrict(Set::new(|e: int| e < 0)));
    while i < n
        invariant
            i <= n,
            forall|e: int| suffer@.dom().contains(e) ==> 0 <= e < n,
            copy@ == suffer@.restrict(Set::new(|e: int| e < i)),
        decreases n - i,
    {
        if let Some(pending) = suffer.get(Entity { id: i }) {
            copy.insert(Entity { id: i }, pending.clone());
        }
        assert(copy@ =~= suffer@.restrict(Set::new(|e: int| e < i + 1)));
        i += 1;
    }
    assert(copy@ =~= suffer@);
    copy
}

/// The stats once the blows of this pass are queued and all pending damage
/// is applied, if that damage fits. The blows are resolved on a copy.
fn stats_after_blows(world: &World) -> (r: Option<Storage<CombatStats>>)
    requires
        world@.wf(),
        melee_ready(world@),
    ensures
        r.is_some() == damage_fits(melee_resolved(indexed(world@))),
        r matches Some(stats) ==> stats@ == before_use(world@).combat_stats,
{
    let ghost quiet = WorldView { log: Seq::empty(), ..world@ };
    let mut suffer = copy_pending(&world.suffer_damage);
    let mut log = GameLog::new();
    let n = world.alive.len();
    proof {
        assert forall|u: int| #[trigger] melee_step_ready(quiet, u) by {
            assert(melee_step_ready(world@, u));
        }
    }
    resolve_attacks(
        Ghost(quiet),
        n,
        &world.wants_to_melee,
        &world.combat_stats,
        &world.names,
        &mut suffer,
        &mut log,
    );
    let ghost w1 = melee_resolved(indexed(world@));
    proof {
        let wi = indexed(world@);
        lemma_melee_pass_same_damage(quiet, wi, n as nat);
        lemma_melee_pass_frame(wi, n as nat);
        lemma_indexed_live(world@);
        lemma_pickup_pass_setting(damage_applied(w1), n as nat);
    }
    if !pending_fits(&world.combat_stats, &suffer) {
        return None;
    }
    let bound = world.combat_stats.bound();
    let mut stats: Storage<CombatStats> = Storage::new();
    let mut i: usize = 0;
    let ghost goal = stats_after_damage(w1, n as int);
    assert(stats@ =~= goal.restrict(Set::new(|e: int| e < 0)));
    while i < bound
        invariant
            i <= bound,
            n == world@.alive.len(),
            world@.wf(),
            suffer@ == w1.suffer_damage,
            world@.combat_stats == w1.combat_stats,
            w1.alive == world@.alive,
            damage_fits(w1),
            goal == stats_after_damage(w1, n as int),
            forall|e: int| world@.combat_stats.dom().contains(e) ==> 0 <= e < bound,
            stats@ == goal.restrict(Set::new(|e: int| e < i)),
        decreases bound - i,
    {
        let e = Entity { id: i };
        if let Some(s) = world.combat_stats.get(e) {
            assert(world@.combat_stats.dom().contains(i as int));
            assert(i < n);
            let after = match suffer.get(e) {
                Some(pending) => {
                    let sum = sum_of(&pending.amount);
                    assert(w1.suffer_damage.dom().contains(i as int));
                    CombatStats {
                        max_hp: s.max_hp,
                        hp: (s.hp as i128 - sum) as i32,
                        defense: s.defense,
                        power: s.power,
                    }
                },
                None => *s,
            };
            stats.insert(e, after);
        }
        assert(stats@ =~= goal.restrict(Set::new(|e: int| e < i + 1)));
        i += 1;
    }
    assert(stats@ =~= goal);
    Some(stats)
}

/// Whoever stands on the tile `p` of the grid, by id.
fn standing_at(world: &World, p: Point) -> (found: Vec<Entity>)
    requires
        world@.wf(),
        world@.map.in_bounds(p),
    ensures
        found@ == indexed(world@).map.occupants(p),
{
    proof {
        lemma_xy_idx_in_range(world@.map, p);
    }
    let t = world.map.xy_idx(p.x, p.y);
    let n = world.alive.len();
    let mut found: Vec<Entity> = Vec::new();
    let mut i: usize = 0;
    while i < n
        invariant
            i <= n,
            world@.wf(),
            t == world@.map.xy_idx(p.x as int, p.y as int),
            found@ == standing(world@, t as int, i as nat),
        decreases n - i,
    {
        let e = Entity { id: i };
        if let Some(pos) = world.positions.get(e) {
            let at = Point { x: pos.x, y: pos.y };
            if world.map.in_bounds(at) {
                let idx = world.map.xy_idx(pos.x, pos.y);
                if idx == t {
                    found.push(e);
                }
            }
        }
        i += 1;
    }
    found
}

/// Heals the targets on the given stats, as long as each healing fits.
fn heal_floor(low: &mut Storage<CombatStats>, targets: &Vec<Entity>, amount: i32) -> (ok: bool)
    ensures
        ok == heal_fits(old(low)@, targets@, amount),
        ok ==> final(low)@ == healed(old(low)@, targets@, amount),
{
    let ghost low0 = low@;
    let mut k: usize = 0;
    while k < targets.len()
        invariant
            k <= targets@.len(),
            low0 == old(low)@,
            heal_fits(low0, targets@.take(k as int), amount),
            low@ == healed(low0, targets@.take(k as int), amount),
        decreases targets@.len() - k,
    {
        let t = targets[k];
        proof {
            let next = targets@.take(k + 1);
            assert(next.drop_last() =~= targets@.take(k as int));
            assert(next.last() == targets@[k as int]);
        }
        let found = match low.get(t) {
            Some(s) => Some(*s),
            None => None,
        };
        if let Some(s) = found {
            let sum: i64 = s.hp as i64 + amount as i64;
            if sum < i32::MIN as i64 {
                proof {
                    if heal_fits(low0, targets@, amount) {
                        lemma_heal_fits_prefix(low0, targets@, amount, k + 1);
                        let next = targets@.take(k + 1);
                        assert(heal_fits(low0, next, amount));
                        assert(healed(low0, next.drop_last(), amount) == low@);
                        assert(low@.dom().contains(next.last()@));
                        assert(false);
                    }
                }
                return false;
            }
            let hp: i32 = if sum < s.max_hp as i64 {
                sum as i32
            } else {
                s.max_hp
            };
            let bound = low.bound();
            assert(low@.dom().contains(t@));
            low.insert(t, CombatStats { max_hp: s.max_hp, hp, defense: s.defense, power: s.power });
        }
        k += 1;
    }
    assert(targets@.take(targets@.len() as int) =~= targets@);
    true
}

/// Brings every `hp` above its `max_hp` down to it.
fn clamp_all(low: &mut Storage<CombatStats>)
    ensures
        final(low)@ == clamped(old(low)@),
{
    let ghost low0 = low@;
    let bound = low.bound();
    let mut i: usize = 0;
    while i < bound
        invariant
            i <= bound,
            forall|e: int| low0.dom().contains(e) ==> 0 <= e < bound,
            low@.dom() =~= low0.dom(),
            forall|e: int|
                low0.dom().contains(e) ==> #[trigger] low@[e] == (if e < i {
                    clamped(low0)[e]
                } else {
                    low0[e]
                }),
        decreases bound - i,
    {
        let e = Entity { id: i };
        let found = match low.get(e) {
            Some(s) => Some(*s),
            None => None,
        };
        if let Some(s) = found {
            if s.hp > s.max_hp {
                low.insert(
                    e,
                    CombatStats { max_hp: s.max_hp, hp: s.max_hp, defense: s.defense, power: s.power },
                );
            }
        }
        i += 1;
    }
    assert(low@ =~= clamped(low0));
}

/// Whether every healing of the pending uses is sure to fit, starting from
/// the given stats, which are used up as the floor.
fn heals_are_sound(world: &World, stats: Storage<CombatStats>) -> (b: bool)
    requires
        world@.wf(),
        intents_sound(world@),
    ensures
        b == heals_sound(stats@, indexed(world@), world@.alive.len()),
{
    let ghost low0 = stats@;
    let ghost wi = indexed(world@);
    let mut low = stats;
    let n = world.alive.len();
    let mut u: usize = 0;
    while u < n
        invariant
            u <= n,
            n == world@.alive.len(),
            world@.wf(),
            intents_sound(world@),
            wi == indexed(world@),
            low0 == stats@,
            heals_sound(low0, wi, u as nat),
            low@ == low_pass(low0, wi, u as nat),
        decreases n - u,
    {
        let user = Entity { id: u };
        let ghost before = low@;
        if let Some(intent) = world.wants_to_use.get(user) {
            assert(world@.wants_to_use.dom().contains(u as int));
            if let Some(heal) = world.provides_healing.get(intent.item) {
                assert(use_heals(wi, u as int));
                let amount = heal.heal_amount;
                let over_area = intent.target.is_some() && world.area_of_effect.contains(
                    intent.item,
                );
                assert(over_area == area_use(wi, u as int).is_some());
                if over_area {
                    if amount < 0 {
                        proof {
                            assert(!low_step_sound(before, wi, u as int));
                            if heals_sound(low0, wi, n as nat) {
                                lemma_heals_sound_prefix(low0, wi, n as nat, (u + 1) as nat);
                                assert(before == low_pass(low0, wi, u as nat));
                                assert(low_step_sound(low_pass(low0, wi, u as nat), wi, u as int));
                                assert(false);
                            }
                        }
                        return false;
                    }
                    clamp_all(&mut low);
                } else {
                    let targets = match intent.target {
                        None => {
                            let mut only: Vec<Entity> = Vec::new();
                            only.push(user);
                            assert(only@ =~= seq![user]);
                            only
                        },
                        Some(p) => standing_at(world, Point { x: p.x, y: p.y }),
                    };
                    assert(targets@ == fixed_targets(wi, u as int));
                    if !heal_floor(&mut low, &targets, amount) {
                        proof {
                            assert(!low_step_sound(before, wi, u as int));
                            if heals_sound(low0, wi, n as nat) {
                                lemma_heals_sound_prefix(low0, wi, n as nat, (u + 1) as nat);
                                assert(before == low_pass(low0, wi, u as nat));
                                assert(low_step_sound(low_pass(low0, wi, u as nat), wi, u as int));
                                assert(false);
                            }
                        }
                        return false;
                    }
                }
            }
        }
        assert(low@ == low_step(before, wi, u as int));
        u += 1;
    }
    true
}

/// Whether no pending use heals over an area.
pub open spec fn no_area_heal(w: WorldView) -> bool {
    forall|u: int| #[trigger] use_heals(w, u) ==> area_use(w, u).is_none()
}

/// One empty tile list for each of `n` entities.
pub open spec fn no_blasts(n: nat) -> Seq<Seq<Point>> {
    Seq::new(n, |u: int| Seq::<Point>::empty())
}

/// Where no healing goes over an area, the floor under the stats is the stats
/// themselves, and the healings are sure to fit if the pass of uses finds
/// what it needs.
proof fn lemma_floor_is_exact(w: WorldView, start: WorldView, blasts: Seq<Seq<Point>>, n: nat)
    requires
        same_setting(start, w),
        start.wants_to_use == w.wants_to_use,
        no_area_heal(w),
        n <= usize::MAX,
        use_pass_ready(start, blasts, n),
    ensures
        low_pass(start.combat_stats, w, n) == use_pass(start, blasts, n).combat_stats,
        heals_sound(start.combat_stats, w, n),
    decreases n,
{
    if n > 0 {
        lemma_floor_is_exact(w, start, blasts, (n - 1) as nat);
        lemma_use_pass_setting(start, blasts, (n - 1) as nat);
        let cur = use_pass(start, blasts, (n - 1) as nat);
        let u = n - 1;
        if use_heals(w, u) {
            assert(use_heals(cur, u));
            assert(area_use(w, u).is_none());
            assert(target_set(cur, Entity { id: u as usize }, blast_for(blasts, u))
                == fixed_targets(w, u));
        }
    }
}

/// The converse of [`lemma_steady_is_ready`]: a well-formed world that is
/// ready for a pass of the pipeline is steady, unless a pending use heals over
/// an area. So the test for steadiness refuses no world that the pass takes,
/// but for worlds with such a use.
pub proof fn lemma_ready_is_steady(w: WorldView)
    requires
        w.wf(),
        pipeline_ready(w),
        no_area_heal(w),
    ensures
        steady(w),
{
    let n = w.alive.len();
    let wi = indexed(w);
    lemma_indexed_live(w);
    lemma_melee_pass_frame(wi, n);
    let w1 = melee_resolved(wi);
    let wd = damage_applied(w1);
    lemma_pickup_pass_setting(wd, n);
    let w2 = before_use(w);
    assert(same_setting(w2, wi));
    assert(melee_ready(w)) by {
        assert forall|u: int| #[trigger] melee_step_ready(w, u) by {
            assert(melee_step_ready(wi, u));
        }
    }
    let blasts = no_blasts(n);
    assert(blasts_shaped(w2, blasts));
    assert(use_pass_ready(w2, blasts, n));
    assert forall|u: int| #[trigger] w.wants_to_pickup.dom().contains(u) implies w.is_alive(
        w.wants_to_pickup[u].item,
    ) by {
        assert(0 <= u < n);
        lemma_pickup_pass_ready_prefix(wd, n, (u + 1) as nat);
        lemma_pickup_pass_setting(wd, u as nat);
        assert(pickup_step_ready(pickup_pass(wd, u as nat), u));
    }
    assert forall|u: int| #[trigger] w.wants_to_use.dom().contains(u) implies (w.wants_to_use[u].target matches Some(
        p,
    ) ==> {
        &&& w.map.in_bounds(p)
        &&& w.area_of_effect.dom().contains(w.wants_to_use[u].item@) ==> -MAX_SIGHT
            <= w.area_of_effect[w.wants_to_use[u].item@].radius <= MAX_SIGHT
    }) by {
        assert(0 <= u < n);
        lemma_use_pass_ready_prefix(w2, blasts, n, (u + 1) as nat);
        lemma_use_pass_setting(w2, blasts, u as nat);
        assert(use_step_ready(use_pass(w2, blasts, u as nat), u, blast_for(blasts, u)));
        assert(w2.wants_to_use.dom().contains(u));
        if area_use(w2, u).is_some() {
            assert(w2.map.in_bounds(area_use(w2, u).unwrap().0));
        }
    }
    assert(no_area_heal(wi)) by {
        assert forall|u: int| #[trigger] use_heals(wi, u) implies area_use(wi, u).is_none() by {
            assert(use_heals(w, u));
        }
    }
    lemma_floor_is_exact(wi, w2, blasts, n);
    lemma_use_pass_setting(w2, blasts, n);
    lemma_drop_ready_transfers(w2, items_used(w2, blasts), n);
}

/// Up to the pick-ups the pass changes neither who exists nor the pending
/// drops, and takes the position of exactly those whom somebody picks up.
pub proof fn lemma_before_use_frame(w: WorldView)
    requires
        w.wf(),
    ensures
        before_use(w).alive == w.alive,
        before_use(w).wants_to_drop == w.wants_to_drop,
        forall|e: int| #[trigger]
            before_use(w).positions.dom().contains(e) == (w.positions.dom().contains(e)
                && !sought(w, e)),
{
    let n = w.alive.len();
    let wi = indexed(w);
    lemma_melee_pass_frame(wi, n);
    let wd = damage_applied(melee_resolved(wi));
    lemma_pickup_pass_frame(wd, n);
    assert forall|e: int| #[trigger]
        before_use(w).positions.dom().contains(e) == (w.positions.dom().contains(e) && !sought(
            w,
            e,
        )) by {
        lemma_collected(wd, e, n);
        if sought(w, e) {
            let v = choose|v: int| #[trigger]
                w.wants_to_pickup.dom().contains(v) && w.wants_to_pickup[v].item@ == e;
            assert(0 <= v < n);
            lemma_last_seeker_some(wd, e, n, v);
        } else {
            if last_seeker(wd, e, n).is_some() {
                let v = last_seeker(wd, e, n).unwrap();
                assert(w.wants_to_pickup.dom().contains(v));
            }
        }
    }
}

/// Whether every drop finds its dropper standing somewhere, and its item in
/// existence, once the pick-ups of the pass are done.
fn drops_are_ready(world: &World) -> (b: bool)
    requires
        world@.wf(),
        intents_sound(world@),
    ensures
        b == drop_pass_ready(before_use(world@), world@.alive.len()),
{
    let ghost w2 = before_use(world@);
    let n = world.alive.len();
    let marks = mark_sought(world);
    let mut here: Vec<bool> = Vec::new();
    let mut i: usize = 0;
    proof {
        lemma_before_use_frame(world@);
    }
    while i < n
        invariant
            i <= n,
            n == world@.alive.len(),
            marks@.len() == n,
            forall|e: int| 0 <= e < n ==> marks@[e] == sought(world@, e),
            w2 == before_use(world@),
            forall|e: int| #[trigger]
                w2.positions.dom().contains(e) == (world@.positions.dom().contains(e) && !sought(
                    world@,
                    e,
                )),
            here@.len() == i,
            forall|e: int| 0 <= e < i ==> here@[e] == w2.positions.dom().contains(e),
        decreases n - i,
    {
        here.push(world.positions.contains(Entity { id: i }) && !marks[i]);
        i += 1;
    }
    let mut d: usize = 0;
    while d < n
        invariant
            d <= n,
            n == world@.alive.len(),
            world@.wf(),
            w2 == before_use(world@),
            w2.alive == world@.alive,
            w2.wants_to_drop == world@.wants_to_drop,
            here@.len() == n,
            drop_pass_ready(w2, d as nat),
            forall|e: int|
                0 <= e < n ==> here@[e] == drop_pass(w2, d as nat).positions.dom().contains(e),
        decreases n - d,
    {
        proof {
            lemma_drop_pass_frame(w2, d as nat);
        }
        let ghost cur = drop_pass(w2, d as nat);
        if let Some(want) = world.wants_to_drop.get(Entity { id: d }) {
            assert(cur.wants_to_drop.dom().contains(d as int));
            if !here[d] || !world.is_alive(want.item) {
                proof {
                    assert(!drop_step_ready(cur, d as int));
                    if drop_pass_ready(w2, n as nat) {
                        lemma_drop_pass_ready_prefix(w2, n as nat, (d + 1) as nat);
                        assert(false);
                    }
                }
                return false;
            }
            here[want.item.id] = true;
        }
        d += 1;
    }
    true
}

/// Whether the world is [`steady`], and so ready for a pass of the pipeline.
pub fn is_steady(world: &World) -> (b: bool)
    ensures
        b == steady(world@),
        b ==> pipeline_ready(world@),
        no_area_heal(world@) ==> b == (world@.wf() && pipeline_ready(world@)),
{
    proof {
        if world@.wf() && pipeline_ready(world@) && no_area_heal(world@) {
            lemma_ready_is_steady(world@);
        }
    }
    if !(world.is_well_formed() && intents_are_sound(world) && blows_fit(world)) {
        return false;
    }
    let b = match stats_after_blows(world) {
        Some(stats) => heals_are_sound(world, stats) && drops_are_ready(world),
        None => false,
    };
    proof {
        if b {
            lemma_steady_is_ready(world@);
        }
    }
    b
}

} // verus!
