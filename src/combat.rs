use vstd::prelude::*;
use crate::components::{CombatStats, SufferDamage, LEVEL_CAP, STAT_CAP};
use crate::world::{EntityData, LogEntry, World, damage_list, same_but_combat};
use crate::rng::roll_die;
use crate::state::RunState;
use bracket_lib::random::RandomNumberGenerator;

verus! {

/// The damage of one melee hit: attack minus defense, but never below one.
pub open spec fn hit_value(attack: int, defense: int) -> int {
    let d = attack - defense;
    if d < 1 {
        1
    } else if d > i32::MAX {
        i32::MAX as int
    } else {
        d
    }
}

pub fn melee_damage(attack: i32, defense: i32) -> (r: i32)
    ensures
        r == hit_value(attack as int, defense as int),
        r >= 1,
{
    let d: i64 = attack as i64 - defense as i64;
    if d < 1 {
        1
    } else if d > i32::MAX as i64 {
        i32::MAX
    } else {
        d as i32
    }
}

impl SufferDamage {
    /// Adds `amount` to the damage `victim` takes this turn; several hits in
    /// one turn accumulate.
    pub fn new_damage(world: &mut World, victim: usize, amount: i32)
        requires
            old(world).wf(),
            amount >= 0,
        ensures
            final(world).wf(),
            final(world).player == old(world).player,
            final(world).log == old(world).log,
            final(world).entities@.len() == old(world).entities@.len(),
            forall|e: int|
                #![trigger final(world).entities@[e]]
                0 <= e < old(world).entities@.len() && e != victim ==> final(world).entities@[e]
                    == old(world).entities@[e],
            old(world).live(victim as int) ==> {
                &&& final(world).live(victim as int)
                &&& final(world).ent(victim as int).suffer_damage is Some
                &&& damage_list(final(world).ent(victim as int)) == damage_list(old(world).ent(victim as int)).push(
                    amount,
                )
                &&& same_but_combat(old(world).ent(victim as int), final(world).ent(victim as int))
                &&& final(world).ent(victim as int).combat_stats == old(world).ent(victim as int).combat_stats
                &&& final(world).ent(victim as int).wants_to_melee == old(world).ent(victim as int).wants_to_melee
            },
            !old(world).live(victim as int) ==> final(world).entities@ == old(world).entities@,
    {
        if victim >= world.entities.len() {
            return;
        }
        let ghost w0 = *world;
        proof {
            if w0.live(victim as int) {
                assert(w0.ent(victim as int).in_range());
            }
            if w0.is_player(victim as int) {
                assert(victim == w0.player);
            }
        }
        let slot = world.take(victim);
        match slot {
            Some(mut d) => {
                let list = match d.suffer_damage {
                    Some(s) => {
                        let mut a = s.amount;
                        a.push(amount);
                        a
                    },
                    None => {
                        let mut a: Vec<i32> = Vec::new();
                        a.push(amount);
                        a
                    },
                };
                proof {
                    assert(list@ =~= damage_list(w0.ent(victim as int)).push(amount));
                }
                d.suffer_damage = Some(SufferDamage { amount: list });
                world.put(victim, Some(d));
            },
            None => {
                world.put(victim, None);
                assert(world.entities@ =~= w0.entities@);
            },
        }
    }
}

/// Entity `e` is alive, has statistics, and means to hit `t`, which is alive
/// and has statistics too.
pub open spec fn attacks(w: &World, e: int, t: int) -> bool {
    &&& w.live(e)
    &&& w.ent(e).combat_stats is Some
    &&& w.ent(e).wants_to_melee matches Some(m) && m.target == t
    &&& w.live(t)
    &&& w.ent(t).combat_stats is Some
}

/// The hits that the first `n` entities deal to `t`, in order.
pub open spec fn hits_on(w: &World, t: int, n: int) -> Seq<i32>
    decreases n,
{
    if n <= 0 {
        Seq::empty()
    } else if attacks(w, n - 1, t) {
        hits_on(w, t, n - 1).push(
            hit_value(
                w.ent(n - 1).combat_stats->Some_0.attack as int,
                w.ent(t).combat_stats->Some_0.defense as int,
            ) as i32,
        )
    } else {
        hits_on(w, t, n - 1)
    }
}

/// `after` is `before` once its melee intents are resolved: each entity's
/// pending damage has gained the hits dealt to it, and no intent is left.
pub open spec fn melee_resolved(before: &World, after: &World) -> bool {
    &&& after.wf()
    &&& after.player == before.player
    &&& after.entities@.len() == before.entities@.len()
    &&& before.log@.len() <= after.log@.len()
    &&& after.log@.subrange(0, before.log@.len() as int) == before.log@
    &&& forall|e: int|
        #![trigger after.entities@[e]]
        0 <= e < before.entities@.len() ==> (before.live(e) <==> after.live(e))
    &&& forall|e: int|
        #![trigger after.entities@[e]]
        0 <= e < before.entities@.len() && before.live(e) ==> {
            &&& same_but_combat(before.ent(e), after.ent(e))
            &&& after.ent(e).combat_stats == before.ent(e).combat_stats
            &&& after.ent(e).wants_to_melee is None
            &&& damage_list(after.ent(e)) == damage_list(before.ent(e)) + hits_on(
                before,
                e,
                before.entities@.len() as int,
            )
            &&& (after.ent(e).suffer_damage is Some <==> (before.ent(e).suffer_damage is Some || hits_on(
                before,
                e,
                before.entities@.len() as int,
            ).len() > 0))
        }
}

pub struct MeleeCombatSystem {}

impl MeleeCombatSystem {
    /// Resolves every melee intent: the attacker's hit is added to the
    /// target's pending damage and logged, and the intent is dropped. Death is
    /// left to damage resolution.
    pub fn run(&mut self, world: &mut World)
        requires
            old(world).wf(),
        ensures
            melee_resolved(old(world), final(world)),
    {
        let n = world.entities.len();
        let mut e: usize = 0;
        while e < n
            invariant
                world.wf(),
                n == world.entities@.len(),
                n == old(world).entities@.len(),
                e <= n,
                world.player == old(world).player,
                old(world).log@.len() <= world.log@.len(),
                world.log@.subrange(0, old(world).log@.len() as int) == old(world).log@,
                forall|f: int|
                    #![trigger world.entities@[f]]
                    0 <= f < n ==> (old(world).live(f) <==> world.live(f)),
                forall|f: int|
                    #![trigger world.entities@[f]]
                    0 <= f < n && old(world).live(f) ==> {
                        &&& same_but_combat(old(world).ent(f), world.ent(f))
                        &&& world.ent(f).combat_stats == old(world).ent(f).combat_stats
                        &&& (if f < e {
                            world.ent(f).wants_to_melee is None
                        } else {
                            world.ent(f).wants_to_melee == old(world).ent(f).wants_to_melee
                        })
                        &&& damage_list(world.ent(f)) == damage_list(old(world).ent(f)) + hits_on(
                            old(world),
                            f,
                            e as int,
                        )
                        &&& (world.ent(f).suffer_damage is Some <==> (old(world).ent(f).suffer_damage is Some
                            || hits_on(old(world), f, e as int).len() > 0))
                    },
            decreases n - e,
        {
            let ghost w0 = *world;
            // the attacker's intent and statistics, and the target's defense
            let mut target: usize = n;
            let mut attack: i32 = 0;
            if let Some(d) = &world.entities[e] {
                if let (Some(stats), Some(m)) = (&d.combat_stats, &d.wants_to_melee) {
                    target = m.target;
                    attack = stats.attack;
                }
            }
            let mut defense: Option<i32> = None;
            if target < n {
                if let Some(d) = &world.entities[target] {
                    if let Some(stats) = &d.combat_stats {
                        defense = Some(stats.defense);
                    }
                }
            }
            proof {
                assert(w0.entities@[e as int] == world.entities@[e as int]);
                if old(world).live(e as int) {
                    assert(world.live(e as int));
                }
            }
            match defense {
                Some(def) => {
                    proof {
                        assert(attacks(old(world), e as int, target as int));
                    }
                    let amount = melee_damage(attack, def);
                    SufferDamage::new_damage(world, target, amount);
                    let attacker = world.name_of(e);
                    let victim = world.name_of(target);
                    world.log_push(LogEntry::Hit { attacker, target: victim, amount });
                    proof {
                        assert(world.log@.subrange(0, old(world).log@.len() as int) =~= old(world).log@);
                    }
                },
                None => {
                    proof {
                        assert forall|t: int| !attacks(old(world), e as int, t) by {
                            if attacks(old(world), e as int, t) {
                                assert(world.entities@[t] == w0.entities@[t]);
                                assert(w0.live(t));
                            }
                        }
                    }
                },
            }
            let ghost w1 = *world;
            let has_intent = match &world.entities[e] {
                Some(d) => d.wants_to_melee.is_some(),
                None => false,
            };
            if has_intent {
                proof {
                    assert(world.live(e as int));
                    assert(world.ent(e as int).in_range());
                    if world.is_player(e as int) {
                        assert(e == world.player);
                    }
                }
                let slot = world.take(e);
                if let Some(mut rec) = slot {
                    rec.wants_to_melee = None;
                    world.put(e, Some(rec));
                }
            }
            proof {
                assert forall|f: int|
                    #![trigger world.entities@[f]]
                    0 <= f < n implies (old(world).live(f) <==> world.live(f)) by {
                    assert(w0.live(f) == w0.live(f));
                }
                assert forall|f: int|
                    #![trigger world.entities@[f]]
                    0 <= f < n && old(world).live(f) implies {
                        &&& same_but_combat(old(world).ent(f), world.ent(f))
                        &&& world.ent(f).combat_stats == old(world).ent(f).combat_stats
                        &&& (if f < e + 1 {
                            world.ent(f).wants_to_melee is None
                        } else {
                            world.ent(f).wants_to_melee == old(world).ent(f).wants_to_melee
                        })
                        &&& damage_list(world.ent(f)) == damage_list(old(world).ent(f)) + hits_on(
                            old(world),
                            f,
                            e as int + 1,
                        )
                        &&& (world.ent(f).suffer_damage is Some <==> (old(world).ent(f).suffer_damage is Some
                            || hits_on(old(world), f, e as int + 1).len() > 0))
                    } by {
                    assert(w0.live(f) == w0.live(f));
                    assert(old(world).live(f));
                    assert(w0.live(f));
                    if attacks(old(world), e as int, f) {
                        assert(f == target);
                        assert(damage_list(old(world).ent(f)) + hits_on(old(world), f, e as int + 1) =~= (
                        damage_list(old(world).ent(f)) + hits_on(old(world), f, e as int)).push(
                            hit_value(attack as int, defense->Some_0 as int) as i32,
                        ));
                    } else {
                        assert(hits_on(old(world), f, e as int + 1) == hits_on(old(world), f, e as int));
                    }
                }
            }
            e = e + 1;
        }
    }
}

} // verus!

verus! {

/// Experience a killed entity yields per level it had.
pub const XP_PER_LEVEL: i32 = 15;

/// Experience needed per current level to gain the next one.
pub const XP_TO_LEVEL: i32 = 100;

/// Health after pending damage: the old health minus the sum of the entries,
/// kept at or above `i32::MIN`.
pub open spec fn hp_after(d: EntityData) -> int {
    let v = d.combat_stats->Some_0.hp - SufferDamage::total(damage_list(d));
    if v < i32::MIN {
        i32::MIN as int
    } else {
        v
    }
}

pub proof fn lemma_total_nonneg(s: Seq<i32>)
    requires
        forall|k: int| 0 <= k < s.len() ==> s[k] >= 0,
    ensures
        SufferDamage::total(s) >= 0,
    decreases s.len(),
{
    if s.len() > 0 {
        lemma_total_nonneg(s.drop_last());
    }
}

/// Health once the pending damage, if any, is applied.
pub open spec fn damaged_hp(d: EntityData) -> int {
    if d.suffer_damage is Some {
        hp_after(d)
    } else {
        d.combat_stats->Some_0.hp as int
    }
}

/// Entity `e` is not the player and its pending damage kills it.
pub open spec fn killed(w: &World, e: int) -> bool {
    &&& w.live(e)
    &&& w.ent(e).combat_stats is Some
    &&& w.ent(e).suffer_damage is Some
    &&& hp_after(w.ent(e)) < 1
    &&& w.ent(e).player is None
}

/// The experience the kills among the first `n` entities are worth.
pub open spec fn kill_exp(w: &World, n: int) -> int
    decreases n,
{
    if n <= 0 {
        0
    } else {
        kill_exp(w, n - 1) + if killed(w, n - 1) {
            XP_PER_LEVEL * w.ent(n - 1).combat_stats->Some_0.level
        } else {
            0
        }
    }
}

/// Experience and level after spending experience on levels: while the
/// experience reaches `XP_TO_LEVEL` times the level (and the level is below
/// the cap), that much is spent and the level goes up by one.
pub open spec fn level_up(exp: int, level: int) -> (int, int)
    decreases LEVEL_CAP - level,
{
    if exp >= XP_TO_LEVEL * level && level < LEVEL_CAP {
        level_up(exp - XP_TO_LEVEL * level, level + 1)
    } else {
        (exp, level)
    }
}

/// The experience that levels `a` up to `b` cost, one level at a time.
pub open spec fn spent(a: int, b: int) -> int
    decreases b - a,
{
    if a >= b {
        0
    } else {
        XP_TO_LEVEL * a + spent(a + 1, b)
    }
}

/// Spending experience on levels: the level only rises, the experience
/// spent is what the levels gained cost, and below the level cap what is
/// left does not reach the next threshold.
pub proof fn lemma_level_up_spends(exp: int, level: int)
    requires
        0 <= exp,
        1 <= level <= LEVEL_CAP,
    ensures
        level <= level_up(exp, level).1 <= LEVEL_CAP,
        0 <= level_up(exp, level).0,
        exp == level_up(exp, level).0 + spent(level, level_up(exp, level).1),
        level_up(exp, level).1 < LEVEL_CAP ==> level_up(exp, level).0 < XP_TO_LEVEL * level_up(exp, level).1,
    decreases LEVEL_CAP - level,
{
    if exp >= XP_TO_LEVEL * level && level < LEVEL_CAP {
        lemma_level_up_spends(exp - XP_TO_LEVEL * level, level + 1);
    }
}

/// An attribute after `n` level-ups, each adding zero or one, up to the cap.
pub open spec fn grown(before: int, after: int, n: int) -> bool {
    before <= after <= if before + n > STAT_CAP { STAT_CAP as int } else { before + n }
}

/// Sums a list of damage entries.
fn sum_damage(amount: &Vec<i32>) -> (r: i128)
    ensures
        r == SufferDamage::total(amount@),
        -39614081257132168796771975168 <= r <= 39614081257132168796771975168,
{
    let mut total: i128 = 0;
    let mut k: usize = 0;
    while k < amount.len()
        invariant
            k <= amount@.len(),
            total == SufferDamage::total(amount@.take(k as int)),
            -2147483648 * k <= total <= 2147483648 * k,
        decreases amount@.len() - k,
    {
        proof {
            assert(amount@.take(k as int + 1).drop_last() =~= amount@.take(k as int));
        }
        total = total + amount[k] as i128;
        k = k + 1;
    }
    proof {
        assert(amount@.take(amount@.len() as int) =~= amount@);
        assert(amount@.len() <= usize::MAX);
    }
    total
}

} // verus!

verus! {

/// Statistics after the level-ups that `gain` experience buys, with each
/// attribute grown by zero or one per level and maximum health following
/// vitality.
pub open spec fn leveled(s: CombatStats, t: CombatStats, gain: int) -> bool {
    let (x, lv) = level_up(s.exp + gain, s.level as int);
    &&& t.level == lv
    &&& t.exp == if x > i32::MAX { i32::MAX as int } else { x }
    &&& t.hp == s.hp
    &&& t.attack == s.attack
    &&& t.defense == s.defense
    &&& grown(s.strength as int, t.strength as int, lv - s.level)
    &&& grown(s.agility as int, t.agility as int, lv - s.level)
    &&& grown(s.vitality as int, t.vitality as int, lv - s.level)
    &&& grown(s.magic as int, t.magic as int, lv - s.level)
    &&& (lv > s.level ==> t.max_hp == 5 * t.vitality)
    &&& (lv == s.level ==> t.max_hp == s.max_hp)
}

/// Rolls one attribute increase of zero or one, up to the cap.
fn grow(rng: &mut RandomNumberGenerator, v: i32) -> (r: i32)
    requires
        0 <= v <= STAT_CAP,
    ensures
        v <= r <= v + 1,
        r <= STAT_CAP,
{
    let d = roll_die(rng, 2) - 1;
    if v + d > STAT_CAP {
        STAT_CAP
    } else {
        v + d
    }
}

/// Adds `gain` experience to statistics `s` and spends it on levels.
pub fn gain_experience(s: CombatStats, gain: i64, rng: &mut RandomNumberGenerator) -> (r: (CombatStats, i32))
    requires
        s.in_range(),
        0 <= gain <= 2000000000000,
    ensures
        r.0.in_range(),
        leveled(s, r.0, gain as int),
        r.1 == r.0.level - s.level,
{
    let mut t = s;
    let mut exp: i64 = s.exp as i64 + gain;
    while exp >= XP_TO_LEVEL as i64 * t.level as i64 && t.level < LEVEL_CAP
        invariant
            t.in_range(),
            0 <= exp,
            exp <= s.exp + gain,
            level_up(exp as int, t.level as int) == level_up(s.exp + gain, s.level as int),
            s.level <= t.level,
            t.hp == s.hp,
            t.attack == s.attack,
            t.defense == s.defense,
            t.exp == s.exp,
            grown(s.strength as int, t.strength as int, t.level - s.level),
            grown(s.agility as int, t.agility as int, t.level - s.level),
            grown(s.vitality as int, t.vitality as int, t.level - s.level),
            grown(s.magic as int, t.magic as int, t.level - s.level),
            t.level > s.level ==> t.max_hp == 5 * t.vitality,
            t.level == s.level ==> t == s,
        decreases LEVEL_CAP - t.level,
    {
        exp = exp - XP_TO_LEVEL as i64 * t.level as i64;
        t.level = t.level + 1;
        t.strength = grow(rng, t.strength);
        t.agility = grow(rng, t.agility);
        t.vitality = grow(rng, t.vitality);
        t.magic = grow(rng, t.magic);
        t.max_hp = t.vitality * 5;
        assert(level_up(exp as int, t.level as int) == level_up(s.exp + gain, s.level as int));
    }
    t.exp = if exp > i32::MAX as i64 { i32::MAX } else { exp as i32 };
    let ups = t.level - s.level;
    (t, ups)
}

} // verus!

verus! {

/// `after` is `before` with an entity's pending damage applied to its health
/// and cleared.
pub open spec fn damage_applied(before: EntityData, after: EntityData) -> bool {
    &&& same_but_combat(before, after)
    &&& after.wants_to_melee == before.wants_to_melee
    &&& after.suffer_damage is None
    &&& (before.combat_stats is None ==> after.combat_stats is None)
    &&& (before.combat_stats matches Some(s) ==> after.combat_stats == Some(
        CombatStats { hp: damaged_hp(before) as i32, ..s },
    ))
}

/// `after` is `before` once damage is resolved: every entity's pending
/// damage is applied and cleared, and the player gains the experience of
/// this turn's kills, levelling up as far as it reaches, with one log line per
/// level.
pub open spec fn damage_resolved(before: &World, after: &World) -> bool {
    let p = before.player as int;
    let n = before.entities@.len() as int;
    &&& after.wf()
    &&& after.player == before.player
    &&& after.entities@.len() == n
    &&& forall|e: int| #![trigger after.entities@[e]] 0 <= e < n ==> (before.live(e) <==> after.live(e))
    &&& forall|e: int|
        #![trigger after.entities@[e]]
        0 <= e < n && before.live(e) && e != p ==> damage_applied(before.ent(e), after.ent(e))
    &&& if before.live(p) && before.ent(p).combat_stats is Some {
        let s = before.ent(p).combat_stats->Some_0;
        let t = after.ent(p).combat_stats->Some_0;
        let lv = level_up(s.exp + kill_exp(before, n), s.level as int).1;
        &&& same_but_combat(before.ent(p), after.ent(p))
        &&& after.ent(p).wants_to_melee == before.ent(p).wants_to_melee
        &&& after.ent(p).suffer_damage is None
        &&& after.ent(p).combat_stats is Some
        &&& leveled(CombatStats { hp: damaged_hp(before.ent(p)) as i32, ..s }, t, kill_exp(before, n))
        &&& after.log@.len() == before.log@.len() + (lv - s.level)
        &&& after.log@.subrange(0, before.log@.len() as int) == before.log@
        &&& forall|k: int| before.log@.len() <= k < after.log@.len() ==> #[trigger] after.log@[k] is LevelUp
    } else {
        &&& (before.live(p) ==> damage_applied(before.ent(p), after.ent(p)))
        &&& after.log == before.log
    }
}

pub struct DamageSystem {}

impl DamageSystem {
    /// Applies and clears all pending damage, then grants the player the
    /// experience of the entities killed this turn (which are only marked by
    /// their health; they are removed later).
    pub fn run(&mut self, world: &mut World, rng: &mut RandomNumberGenerator)
        requires
            old(world).wf(),
        ensures
            damage_resolved(old(world), final(world)),
    {
        let n = world.entities.len();
        let p = world.player;
        let mut gain: i64 = 0;
        let mut e: usize = 0;
        while e < n
            invariant
                world.wf(),
                n == world.entities@.len(),
                n == old(world).entities@.len(),
                e <= n,
                p == world.player,
                world.player == old(world).player,
                world.log == old(world).log,
                gain == kill_exp(old(world), e as int),
                0 <= gain <= 983040 * e,
                forall|f: int| #![trigger world.entities@[f]] 0 <= f < n ==> (old(world).live(f) <==> world.live(f)),
                forall|f: int|
                    #![trigger world.entities@[f]]
                    0 <= f < e && old(world).live(f) ==> damage_applied(old(world).ent(f), world.ent(f)),
                forall|f: int| #![trigger world.entities@[f]] e <= f < n ==> world.entities@[f] == old(world).entities@[f],
            decreases n - e,
        {
            let ghost w0 = *world;
            proof {
                assert(w0.entities@[e as int] == old(world).entities@[e as int]);
                if w0.live(e as int) {
                    assert(w0.ent(e as int).in_range());
                }
                if w0.is_player(e as int) {
                    assert(e == w0.player);
                }
            }
            let slot = world.take(e);
            assert(slot matches Some(x) ==> x.in_range());
            match slot {
                Some(mut d) => {
                    let dmg = match &d.suffer_damage {
                        Some(sd) => Some(sum_damage(&sd.amount)),
                        None => None,
                    };
                    if let (Some(total), Some(mut stats)) = (dmg, d.combat_stats) {
                        proof {
                            lemma_total_nonneg(damage_list(d));
                        }
                        let v: i128 = stats.hp as i128 - total;
                        let hp: i32 = if v < i32::MIN as i128 {
                            i32::MIN
                        } else {
                            v as i32
                        };
                        assert(stats.in_range());
                        if hp < 1 && d.player.is_none() {
                            let worth: i64 = XP_PER_LEVEL as i64 * stats.level as i64;
                            assert(worth <= 983040);
                            gain = gain + worth;
                        }
                        stats.hp = hp;
                        d.combat_stats = Some(stats);
                    }
                    d.suffer_damage = None;
                    world.put(e, Some(d));
                },
                None => {
                    world.put(e, None);
                },
            }
            proof {
                assert forall|f: int| #![trigger world.entities@[f]] 0 <= f < n implies (old(world).live(f) <==> world.live(f)) by {
                    assert(w0.live(f) == w0.live(f));
                }
                assert forall|f: int|
                    #![trigger world.entities@[f]]
                    0 <= f < e + 1 && old(world).live(f) implies damage_applied(old(world).ent(f), world.ent(f)) by {
                    assert(w0.live(f) == w0.live(f));
                }
                assert forall|f: int| #![trigger world.entities@[f]] e + 1 <= f < n implies world.entities@[f] == old(world).entities@[f] by {
                    assert(w0.live(f) == w0.live(f));
                }
            }
            e = e + 1;
        }
        let ghost w1 = *world;
        proof {
            assert(w1.log@.subrange(0, w1.log@.len() as int) =~= w1.log@);
        }
        if p < n {
            let has_stats = match &world.entities[p] {
                Some(d) => d.combat_stats.is_some(),
                None => false,
            };
            if has_stats {
                proof {
                    assert(world.live(p as int));
                    assert(world.ent(p as int).in_range());
                }
                let slot = world.take(p);
                if let Some(mut d) = slot {
                    if let Some(stats) = d.combat_stats {
                        let (t, ups) = gain_experience(stats, gain, rng);
                        d.combat_stats = Some(t);
                        world.put(p, Some(d));
                        let ghost w2 = *world;
                        let mut k: i32 = 0;
                        while k < ups
                            invariant
                                world.wf(),
                                0 <= k <= ups,
                                world.entities == w2.entities,
                                world.player == w2.player,
                                world.log@.len() == w2.log@.len() + k,
                                world.log@.subrange(0, w2.log@.len() as int) == w2.log@,
                                forall|q: int| w2.log@.len() <= q < world.log@.len() ==> #[trigger] world.log@[q] is LevelUp,
                            decreases ups - k,
                        {
                            world.log_push(LogEntry::LevelUp);
                            proof {
                                assert(world.log@.subrange(0, w2.log@.len() as int) =~= w2.log@);
                            }
                            k = k + 1;
                        }
                        proof {
                            assert(w2.log == old(world).log);
                        }
                    }
                }
            }
        }
    }
}

} // verus!

verus! {

/// Entity `e` is alive, has statistics, and its health is below one.
pub open spec fn dying(w: &World, e: int) -> bool {
    w.live(e) && w.ent(e).combat_stats is Some && w.ent(e).combat_stats->Some_0.hp < 1
}

/// `w1` and `r` are `w0` and `state` after the death sweep: every dying
/// entity but the player is removed; a dying player ends the run in `Dead`,
/// logged only on entering that state.
pub open spec fn dead_swept(w0: &World, w1: &World, state: RunState, r: RunState) -> bool {
    let p = w0.player as int;
    &&& w1.wf()
    &&& w1.player == w0.player
    &&& w1.entities@.len() == w0.entities@.len()
    &&& forall|e: int|
        #![trigger w1.entities@[e]]
        0 <= e < w0.entities@.len() ==> w1.entities@[e] == if dying(w0, e) && !w0.is_player(e) {
            None
        } else {
            w0.entities@[e]
        }
    &&& if w0.is_player(p) && dying(w0, p) {
        &&& r == RunState::Dead
        &&& w1.log@ == if state != RunState::Dead {
            w0.log@.push(LogEntry::PlayerDied)
        } else {
            w0.log@
        }
    } else {
        r == state && w1.log@ == w0.log@
    }
}

/// Removes every entity other than the player whose health is below one. If
/// the player's health is below one, the run ends: the state becomes `Dead`,
/// and the death is logged only on entering that state.
pub fn delete_dead(world: &mut World, state: RunState) -> (r: RunState)
    requires
        old(world).wf(),
    ensures
        dead_swept(old(world), final(world), state, r),
{
    let n = world.entities.len();
    let mut r = state;
    let mut e: usize = 0;
    while e < n
        invariant
            old(world).wf(),
            world.wf(),
            n == world.entities@.len(),
            n == old(world).entities@.len(),
            e <= n,
            world.player == old(world).player,
            forall|f: int|
                #![trigger world.entities@[f]]
                0 <= f < e ==> world.entities@[f] == if dying(old(world), f) && !old(world).is_player(f) {
                    None
                } else {
                    old(world).entities@[f]
                },
            forall|f: int| #![trigger world.entities@[f]] e <= f < n ==> world.entities@[f] == old(world).entities@[f],
            ({
                let p = old(world).player as int;
                if old(world).is_player(p) && dying(old(world), p) && p < e {
                    &&& r == RunState::Dead
                    &&& world.log@ == if state != RunState::Dead {
                        old(world).log@.push(LogEntry::PlayerDied)
                    } else {
                        old(world).log@
                    }
                } else {
                    r == state && world.log == old(world).log
                }
            }),
        decreases n - e,
    {
        let ghost w0 = *world;
        proof {
            assert(w0.entities@[e as int] == old(world).entities@[e as int]);
            if old(world).is_player(e as int) {
                assert(old(world).wf());
                assert(e == old(world).player);
            }
        }
        let (dead, is_player) = match &world.entities[e] {
            Some(d) => match &d.combat_stats {
                Some(s) => (s.hp < 1, d.player.is_some()),
                None => (false, false),
            },
            None => (false, false),
        };
        if dead {
            if !is_player {
                world.delete_entity(e);
            } else if r != RunState::Dead {
                r = RunState::Dead;
                world.log_push(LogEntry::PlayerDied);
            }
        }
        proof {
            assert forall|f: int| #![trigger world.entities@[f]] e + 1 <= f < n implies world.entities@[f] == old(world).entities@[f] by {
                assert(w0.entities@[f] == old(world).entities@[f]);
            }
            assert forall|f: int|
                #![trigger world.entities@[f]]
                0 <= f < e + 1 implies world.entities@[f] == if dying(old(world), f) && !old(world).is_player(f) {
                    None
                } else {
                    old(world).entities@[f]
                } by {
                assert(w0.entities@[f] == w0.entities@[f]);
            }
        }
        e = e + 1;
    }
    r
}

} // verus!

verus! {

proof fn lemma_single_attacker(w: &World, p: int, m: int, n: int)
    requires
        attacks(w, p, m),
        forall|e: int| e != p ==> !attacks(w, e, m),
        0 <= n,
    ensures
        hits_on(w, m, n) == if n > p {
            seq![hit_value(w.ent(p).combat_stats->Some_0.attack as int, w.ent(m).combat_stats->Some_0.defense as int) as i32]
        } else {
            Seq::<i32>::empty()
        },
    decreases n,
{
    if n > 0 {
        lemma_single_attacker(w, p, m, n - 1);
    }
}

proof fn lemma_single_kill(w: &World, m: int, n: int)
    requires
        killed(w, m),
        forall|e: int| e != m ==> !killed(w, e),
        0 <= n,
    ensures
        kill_exp(w, n) == if n > m { XP_PER_LEVEL * w.ent(m).combat_stats->Some_0.level } else { 0 },
    decreases n,
{
    if n > 0 {
        lemma_single_kill(w, m, n - 1);
    }
}

/// A player's melee hit on a monster that nothing else hits this turn lowers
/// the monster's health by attack minus defense (at least one) once melee and
/// then damage are resolved. If that kills the monster, no other entity dies,
/// and the player does not level up, the player gains `XP_PER_LEVEL` times the
/// monster's level in experience.
pub proof fn lemma_melee_then_damage(w0: &World, w1: &World, w2: &World, m: int)
    requires
        w0.wf(),
        melee_resolved(w0, w1),
        damage_resolved(w1, w2),
        w0.is_player(w0.player as int),
        w0.ent(w0.player as int).combat_stats is Some,
        m != w0.player,
        attacks(w0, w0.player as int, m),
        forall|e: int| e != w0.player ==> !attacks(w0, e, m),
        w0.ent(m).suffer_damage is None,
        w0.ent(m).combat_stats->Some_0.hp >= 1,
    ensures
        ({
            let p = w0.player as int;
            let h = w0.ent(m).combat_stats->Some_0.hp as int;
            let hit = hit_value(w0.ent(p).combat_stats->Some_0.attack as int, w0.ent(m).combat_stats->Some_0.defense as int);
            let ps = w0.ent(p).combat_stats->Some_0;
            let lvl = w0.ent(m).combat_stats->Some_0.level as int;
            &&& w2.live(m)
            &&& w2.ent(m).combat_stats is Some
            &&& w2.ent(m).combat_stats->Some_0.hp == h - hit
            &&& (h - hit < 1 && (forall|e: int| e != m ==> !killed(w1, e)) && ps.exp + XP_PER_LEVEL * lvl
                < XP_TO_LEVEL * ps.level) ==> w2.ent(p).combat_stats->Some_0.exp == ps.exp + XP_PER_LEVEL * lvl
        }),
{
    let p = w0.player as int;
    let n = w0.entities@.len() as int;
    assert(w0.live(m));
    assert(w1.entities@[m] == w1.entities@[m]);
    assert(w1.entities@[p] == w1.entities@[p]);
    lemma_single_attacker(w0, p, m, n);
    let hit = hit_value(w0.ent(p).combat_stats->Some_0.attack as int, w0.ent(m).combat_stats->Some_0.defense as int);
    assert(damage_list(w1.ent(m)) =~= seq![hit as i32]);
    assert(SufferDamage::total(seq![hit as i32]) == hit) by {
        assert(1 <= hit <= i32::MAX);
        assert(seq![hit as i32].drop_last() =~= Seq::<i32>::empty());
        assert(SufferDamage::total(Seq::<i32>::empty()) == 0);
    }
    assert(w2.entities@[m] == w2.entities@[m]);
    assert(w1.live(m));
    assert(damage_applied(w1.ent(m), w2.ent(m)));
    if w0.ent(m).combat_stats->Some_0.hp - hit < 1 && (forall|e: int| e != m ==> !killed(w1, e)) {
        assert(w0.ent(m).player is None) by {
            if w0.ent(m).player is Some {
                assert(w0.is_player(m));
            }
        }
        assert(killed(w1, m));
        lemma_single_kill(w1, m, n);
        assert(w1.live(p));
    }
}

} // verus!
