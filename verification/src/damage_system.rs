use vstd::prelude::*;
use crate::components::{CombatStats, SufferDamage};
use crate::gamelog::{dead_line, dead_message, died_line, died_message};
use crate::storage::{Entity, Storage};
use crate::world::{lemma_without_all_wf, marked, World, WorldView};

verus! {

/// The sum of `amounts`.
pub open spec fn total(amounts: Seq<i32>) -> int
    decreases amounts.len(),
{
    if amounts.len() == 0 {
        0
    } else {
        total(amounts.drop_last()) + amounts.last()
    }
}

/// The stats after damage of `sum` in all: `hp` sinks by it, below zero if need
/// be; nothing else changes.
pub open spec fn hit(s: CombatStats, sum: int) -> CombatStats {
    CombatStats { hp: (s.hp - sum) as i32, ..s }
}

/// The stats table after pending damage was applied to the entities with an
/// id below `n`.
pub open spec fn stats_after_damage(w: WorldView, n: int) -> Map<int, CombatStats> {
    Map::new(
        |e: int| w.combat_stats.dom().contains(e),
        |e: int|
            if e < n && w.suffer_damage.dom().contains(e) {
                hit(w.combat_stats[e], total(w.suffer_damage[e]))
            } else {
                w.combat_stats[e]
            },
    )
}

/// The world after damage resolution: whoever has both stats and pending damage
/// lost the sum of the pending amounts, and nobody has pending damage any more.
pub open spec fn damage_applied(w: WorldView) -> WorldView {
    WorldView {
        combat_stats: stats_after_damage(w, w.alive.len() as int),
        suffer_damage: Map::empty(),
        ..w
    }
}

/// Whether every `hp` that subtracting the pending damage `suffer` from the
/// stats `stats` gives is one that an `i32` holds.
pub open spec fn pending_fit(stats: Map<int, CombatStats>, suffer: Map<int, Seq<i32>>) -> bool {
    forall|e: int|
        stats.dom().contains(e) && #[trigger] suffer.dom().contains(e) ==> i32::MIN
            <= stats[e].hp - total(suffer[e]) <= i32::MAX
}

/// Whether every `hp` that damage resolution computes is one that an `i32`
/// holds.
pub open spec fn damage_fits(w: WorldView) -> bool {
    pending_fit(w.combat_stats, w.suffer_damage)
}

/// Adds up `amounts`.
pub fn sum_of(amounts: &Vec<i32>) -> (sum: i128)
    ensures
        sum == total(amounts@),
        -0x8000_0000 * amounts@.len() <= sum <= 0x8000_0000 * amounts@.len(),
{
    let mut sum: i128 = 0;
    let mut i: usize = 0;
    while i < amounts.len()
        invariant
            i <= amounts@.len(),
            sum == total(amounts@.take(i as int)),
            -0x8000_0000 * i <= sum <= 0x8000_0000 * i,
        decreases amounts@.len() - i,
    {
        proof {
            let next = amounts@.take(i + 1);
            assert(next.drop_last() =~= amounts@.take(i as int));
            assert(next.last() == amounts@[i as int]);
        }
        sum = sum + amounts[i] as i128;
        i += 1;
    }
    assert(amounts@.take(amounts@.len() as int) =~= amounts@);
    sum
}

/// Whether the pending damage can be subtracted: see [`pending_fit`].
pub fn pending_fits(stats: &Storage<CombatStats>, suffer: &Storage<SufferDamage>) -> (b: bool)
    ensures
        b == pending_fit(stats@, suffer@),
{
    let n = stats.bound();
    let mut i: usize = 0;
    while i < n
        invariant
            i <= n,
            forall|e: int| stats@.dom().contains(e) ==> 0 <= e < n,
            forall|e: int|
                0 <= e < i && stats@.dom().contains(e) && #[trigger] suffer@.dom().contains(e)
                    ==> i32::MIN <= stats@[e].hp - total(suffer@[e]) <= i32::MAX,
        decreases n - i,
    {
        let e = Entity { id: i };
        if let Some(s) = stats.get(e) {
            if let Some(pending) = suffer.get(e) {
                let hits = pending.amount.len();
                let sum = sum_of(&pending.amount);
                assert(-0x8000_0000 * 0x1_0000_0000_0000_0000 <= sum <= 0x8000_0000
                    * 0x1_0000_0000_0000_0000) by (nonlinear_arith)
                    requires
                        -0x8000_0000 * hits <= sum <= 0x8000_0000 * hits,
                        hits <= 0xffff_ffff_ffff_ffff,
                ;
                let hp = s.hp as i128 - sum;
                if hp < i32::MIN as i128 || hp > i32::MAX as i128 {
                    assert(suffer@.dom().contains(i as int));
                    return false;
                }
            }
        }
        i += 1;
    }
    true
}

/// Whether damage resolution can run: see [`damage_fits`].
pub fn damage_will_fit(world: &World) -> (b: bool)
    ensures
        b == damage_fits(world@),
{
    pending_fits(&world.combat_stats, &world.suffer_damage)
}

/// The system that applies pending damage.
pub struct DamageSystem {}

impl DamageSystem {
    /// Subtracts from the `hp` of everybody who has stats the sum of their
    /// pending damage, then discards all pending damage, also that of entities
    /// without stats.
    pub fn run(&mut self, world: &mut World)
        requires
            old(world)@.wf(),
            damage_fits(old(world)@),
        ensures
            final(world)@ == damage_applied(old(world)@),
            final(world)@.wf(),
    {
        let ghost w0 = world@;
        let n = world.alive.len();
        let mut i: usize = 0;
        assert(world@.combat_stats =~= stats_after_damage(w0, 0));
        while i < n
            invariant
                i <= n,
                n == w0.alive.len(),
                w0.wf(),
                damage_fits(w0),
                world@ == (WorldView { combat_stats: stats_after_damage(w0, i as int), ..w0 }),
            decreases n - i,
        {
            let e = Entity { id: i };
            let found = match world.combat_stats.get(e) {
                Some(s) => Some(*s),
                None => None,
            };
            if let Some(s) = found {
                if let Some(pending) = world.suffer_damage.get(e) {
                    let sum = sum_of(&pending.amount);
                    assert(w0.suffer_damage.dom().contains(i as int));
                    let hp = (s.hp as i128 - sum) as i32;
                    world.combat_stats.insert(
                        e,
                        CombatStats { max_hp: s.max_hp, hp, defense: s.defense, power: s.power },
                    );
                }
            }
            assert(world@.combat_stats =~= stats_after_damage(w0, i + 1));
            i += 1;
        }
        world.suffer_damage.clear();
        assert(world@ =~= damage_applied(w0));
    }
}

/// Whether the entity of id `e` has stats with `hp` below one.
pub open spec fn is_dead(w: WorldView, e: int) -> bool {
    w.combat_stats.dom().contains(e) && w.combat_stats[e].hp < 1
}

/// The ids of the dead that the sweep deletes: all but the designated player.
pub open spec fn casualties(w: WorldView) -> Set<int> {
    Set::new(|e: int| is_dead(w, e) && e != w.player@)
}

/// The lines about the dead with an id below `n`, by id: for the player that
/// it is dead, for anybody else with a name that it died.
pub open spec fn obituaries(w: WorldView, n: nat) -> Seq<Seq<char>>
    decreases n,
{
    if n == 0 {
        Seq::empty()
    } else {
        let e = n - 1;
        let before = obituaries(w, (n - 1) as nat);
        if !is_dead(w, e) {
            before
        } else if e == w.player@ {
            before.push(dead_line())
        } else if w.names.dom().contains(e) {
            before.push(died_line(w.names[e]))
        } else {
            before
        }
    }
}

/// The world after the death sweep: the dead are reported, and all of them but
/// the designated player are deleted with everything they hold.
pub open spec fn dead_swept(w: WorldView) -> WorldView {
    WorldView { log: w.log + obituaries(w, w.alive.len()), ..w }.without_all(casualties(w))
}

/// Reports and removes the dead. The scan only reads; the deletions follow it.
pub fn delete_the_dead(ecs: &mut World)
    requires
        old(ecs)@.wf(),
    ensures
        final(ecs)@ == dead_swept(old(ecs)@),
        final(ecs)@.wf(),
{
    let ghost w0 = ecs@;
    let n = ecs.alive.len();
    let mut dead: Vec<bool> = Vec::new();
    let mut i: usize = 0;
    assert(ecs@.log =~= w0.log + obituaries(w0, 0));
    while i < n
        invariant
            i <= n,
            n == w0.alive.len(),
            w0.wf(),
            dead@.len() == i,
            forall|e: int| 0 <= e < i ==> dead@[e] == casualties(w0).contains(e),
            ecs@ == (WorldView { log: w0.log + obituaries(w0, i as nat), ..w0 }),
        decreases n - i,
    {
        let entity = Entity { id: i };
        let mut gone = false;
        let fallen = match ecs.combat_stats.get(entity) {
            Some(stats) => stats.hp < 1,
            None => false,
        };
        if fallen {
            if entity == ecs.player {
                ecs.log.push(dead_message());
            } else {
                let line = match ecs.names.get(entity) {
                    Some(name) => Some(died_message(name.name.as_str())),
                    None => None,
                };
                if let Some(text) = line {
                    ecs.log.push(text);
                }
                gone = true;
            }
        }
        dead.push(gone);
        assert(ecs@.log =~= w0.log + obituaries(w0, (i + 1) as nat));
        i += 1;
    }
    let ghost w1 = ecs@;
    assert(marked(dead@) =~= casualties(w0));
    ecs.delete_marked(&dead);
    assert(ecs@ =~= dead_swept(w0));
}

/// The sweep spares the designated player, deletes every other entity whose
/// `hp` is below one, and deletes nobody else.
pub proof fn lemma_sweep_spares_and_takes(w: WorldView, e: Entity)
    requires
        w.wf(),
        w.is_alive(e),
    ensures
        e == w.player ==> dead_swept(w).is_alive(e),
        e != w.player && is_dead(w, e@) ==> !dead_swept(w).is_alive(e),
        !is_dead(w, e@) ==> dead_swept(w).is_alive(e),
        dead_swept(w).is_alive(e) ==> dead_swept(w).combat_stats.dom().contains(e@)
            == w.combat_stats.dom().contains(e@),
{
    let logged = WorldView { log: w.log + obituaries(w, w.alive.len()), ..w };
    lemma_without_all_wf(logged, casualties(w));
}

} // verus!
