use vstd::prelude::*;
use crate::components::{CombatStats, Name, SufferDamage, WantsToMelee};
use crate::gamelog::{hit_line, hit_message, miss_line, miss_message, GameLog};
use crate::storage::{Entity, Storage};
use crate::world::{World, WorldView};

verus! {

/// Whether the attack pending for the entity of id `u` lands: both sides have
/// stats and neither is down.
pub open spec fn attack_lands(w: WorldView, u: int) -> bool {
    let target = w.wants_to_melee[u].target@;
    &&& w.wants_to_melee.dom().contains(u)
    &&& w.combat_stats.dom().contains(u)
    &&& w.combat_stats[u].hp > 0
    &&& w.combat_stats.dom().contains(target)
    &&& w.combat_stats[target].hp > 0
}

/// The damage of one blow: the attacker's power less the target's defense, and
/// never less than nothing.
pub open spec fn blow(attacker: CombatStats, target: CombatStats) -> int {
    if attacker.power > target.defense {
        attacker.power - target.defense
    } else {
        0
    }
}

/// The world after the attack pending for the entity of id `u` was resolved,
/// if there is one and it lands: a blow that hurts is queued as damage for the
/// target, and the blow is reported if both sides have a name. The intent
/// itself stays: the pass clears them all at its end.
pub open spec fn melee_step(w: WorldView, u: int) -> WorldView {
    if !attack_lands(w, u) {
        w
    } else {
        let target = w.wants_to_melee[u].target@;
        let damage = blow(w.combat_stats[u], w.combat_stats[target]);
        WorldView {
            suffer_damage: if damage > 0 {
                SufferDamage::with_hit(w.suffer_damage, target, damage as i32)
            } else {
                w.suffer_damage
            },
            log: if w.names.dom().contains(u) && w.names.dom().contains(target) {
                w.log.push(
                    if damage > 0 {
                        hit_line(w.names[u], w.names[target], damage as i32)
                    } else {
                        miss_line(w.names[u], w.names[target])
                    },
                )
            } else {
                w.log
            },
            ..w
        }
    }
}

/// What [`melee_step`] needs: a blow that an `i32` holds.
pub open spec fn melee_step_ready(w: WorldView, u: int) -> bool {
    attack_lands(w, u) ==> blow(
        w.combat_stats[u],
        w.combat_stats[w.wants_to_melee[u].target@],
    ) <= i32::MAX
}

/// The world after the attacks pending for the entities of id below `n`, in
/// the order of the attackers' ids.
pub open spec fn melee_pass(w: WorldView, n: nat) -> WorldView
    decreases n,
{
    if n == 0 {
        w
    } else {
        melee_step(melee_pass(w, (n - 1) as nat), n - 1)
    }
}

/// Whether every blow fits. The attacks change neither stats nor intents, so
/// this can be read off the world before the pass.
pub open spec fn melee_ready(w: WorldView) -> bool {
    forall|u: int| #[trigger] melee_step_ready(w, u)
}

/// The world after combat resolution: every pending attack was resolved, and
/// none is pending any more.
pub open spec fn melee_resolved(w: WorldView) -> WorldView {
    WorldView { wants_to_melee: Map::empty(), ..melee_pass(w, w.alive.len()) }
}

/// The attacks change nothing but the pending damage and the log, and what
/// they add to the pending damage depends neither on the log nor on the level.
pub proof fn lemma_melee_pass_frame(w: WorldView, n: nat)
    ensures
        melee_pass(w, n) == (WorldView {
            suffer_damage: melee_pass(w, n).suffer_damage,
            log: melee_pass(w, n).log,
            ..w
        }),
    decreases n,
{
    if n > 0 {
        lemma_melee_pass_frame(w, (n - 1) as nat);
        assert(melee_pass(w, n) =~= (WorldView {
            suffer_damage: melee_pass(w, n).suffer_damage,
            log: melee_pass(w, n).log,
            ..w
        }));
    }
}

/// Two worlds that differ in nothing but the log and the level queue the same
/// damage.
pub proof fn lemma_melee_pass_same_damage(w: WorldView, other: WorldView, n: nat)
    requires
        other == (WorldView { log: other.log, map: other.map, ..w }),
    ensures
        melee_pass(w, n).suffer_damage == melee_pass(other, n).suffer_damage,
    decreases n,
{
    if n > 0 {
        lemma_melee_pass_same_damage(w, other, (n - 1) as nat);
        lemma_melee_pass_frame(w, (n - 1) as nat);
        lemma_melee_pass_frame(other, (n - 1) as nat);
        let a = melee_pass(w, (n - 1) as nat);
        let b = melee_pass(other, (n - 1) as nat);
        assert(attack_lands(a, n - 1) == attack_lands(b, n - 1));
    }
}

/// The attacks keep a world well formed: damage is queued only for targets
/// that have stats, and so exist.
proof fn lemma_melee_pass_wf(w: WorldView, n: nat)
    requires
        w.wf(),
    ensures
        melee_pass(w, n).wf(),
    decreases n,
{
    if n > 0 {
        lemma_melee_pass_wf(w, (n - 1) as nat);
        lemma_melee_pass_frame(w, (n - 1) as nat);
    }
}

/// Resolves the attacks of `w` into the given pending damage and log.
pub(crate) fn resolve_attacks(
    Ghost(w): Ghost<WorldView>,
    n: usize,
    intents: &Storage<WantsToMelee>,
    stats: &Storage<CombatStats>,
    names: &Storage<Name>,
    suffer: &mut Storage<SufferDamage>,
    log: &mut GameLog,
)
    requires
        w.wf(),
        melee_ready(w),
        n == w.alive.len(),
        intents@ == w.wants_to_melee,
        stats@ == w.combat_stats,
        names@ == w.names,
        old(suffer)@ == w.suffer_damage,
        old(log)@ == w.log,
    ensures
        final(suffer)@ == melee_pass(w, n as nat).suffer_damage,
        final(log)@ == melee_pass(w, n as nat).log,
{
    let mut u: usize = 0;
    while u < n
        invariant
            u <= n,
            w.wf(),
            melee_ready(w),
            n == w.alive.len(),
            intents@ == w.wants_to_melee,
            stats@ == w.combat_stats,
            names@ == w.names,
            suffer@ == melee_pass(w, u as nat).suffer_damage,
            log@ == melee_pass(w, u as nat).log,
        decreases n - u,
    {
        proof {
            lemma_melee_pass_frame(w, u as nat);
            assert(melee_step_ready(w, u as int));
        }
        let ghost before = melee_pass(w, u as nat);
        let attacker = Entity { id: u };
        let target = match intents.get(attacker) {
            Some(want) => Some(want.target),
            None => None,
        };
        if let Some(victim) = target {
            let mine = match stats.get(attacker) {
                Some(s) => Some(*s),
                None => None,
            };
            let theirs = match stats.get(victim) {
                Some(s) => Some(*s),
                None => None,
            };
            if let (Some(a), Some(t)) = (mine, theirs) {
                if a.hp > 0 && t.hp > 0 {
                    assert(attack_lands(before, u as int));
                    let damage: i32 = if a.power > t.defense {
                        (a.power as i64 - t.defense as i64) as i32
                    } else {
                        0
                    };
                    let line = match (names.get(attacker), names.get(victim)) {
                        (Some(me), Some(them)) => Some(
                            if damage > 0 {
                                hit_message(me.name.as_str(), them.name.as_str(), damage)
                            } else {
                                miss_message(me.name.as_str(), them.name.as_str())
                            },
                        ),
                        _ => None,
                    };
                    if let Some(text) = line {
                        log.push(text);
                    }
                    if damage > 0 {
                        assert(w.is_alive(victim));
                        SufferDamage::new_damage(suffer, victim, damage);
                    }
                }
            }
        }
        assert(suffer@ == melee_step(before, u as int).suffer_damage);
        assert(log@ == melee_step(before, u as int).log);
        u += 1;
    }
}

/// The system that resolves "attack" intents.
pub struct MeleeCombatSystem {}

impl MeleeCombatSystem {
    /// Resolves every pending attack, in the order of the attackers' ids, then
    /// clears the intents. The damage is only queued: the damage system applies
    /// it.
    pub fn run(&mut self, world: &mut World)
        requires
            old(world)@.wf(),
            melee_ready(old(world)@),
        ensures
            final(world)@ == melee_resolved(old(world)@),
            final(world)@.wf(),
    {
        let ghost w0 = world@;
        let n = world.alive.len();
        resolve_attacks(
            Ghost(w0),
            n,
            &world.wants_to_melee,
            &world.combat_stats,
            &world.names,
            &mut world.suffer_damage,
            &mut world.log,
        );
        proof {
            lemma_melee_pass_frame(w0, n as nat);
            lemma_melee_pass_wf(w0, n as nat);
        }
        world.wants_to_melee.clear();
        assert(world@ =~= melee_resolved(w0));
    }
}


/// After combat resolution no attack is pending, whether it landed or not.
pub proof fn lemma_attacks_exhausted(w: WorldView)
    ensures
        melee_resolved(w).wants_to_melee.dom() =~= Set::<int>::empty(),
{
}

} // verus!
