use vstd::prelude::*;
use crate::components::{CombatStats, InBackpack, Position};
use crate::world::{EntityData, LogEntry, World};

verus! {

/// Moves `item` into the backpack of `owner`: it leaves the map and records
/// its owner. Logged when the player is the owner.
pub fn pick_up(world: &mut World, owner: usize, item: usize)
    requires
        old(world).wf(),
    ensures
        final(world).wf(),
        final(world).player == old(world).player,
        final(world).log@.len() >= old(world).log@.len(),
        final(world).log@.subrange(0, old(world).log@.len() as int) == old(world).log@,
        old(world).live(item as int) ==> {
            &&& final(world).entities@ == old(world).entities@.update(
                item as int,
                Some(
                    EntityData {
                        position: None,
                        in_backpack: Some(InBackpack { owner }),
                        ..old(world).ent(item as int)
                    },
                ),
            )
            &&& final(world).log@.len() == old(world).log@.len() + if owner == old(world).player { 1int } else { 0 }
        },
        !old(world).live(item as int) ==> final(world).entities@ == old(world).entities@ && final(world).log == old(world).log,
{
    if item >= world.entities.len() {
        return;
    }
    let slot = world.take(item);
    match slot {
        Some(mut d) => {
            proof {
                assert(old(world).live(item as int));
                assert(old(world).ent(item as int).in_range());
                if old(world).is_player(item as int) {
                    assert(item == old(world).player);
                }
            }
            d.position = None;
            d.in_backpack = Some(InBackpack { owner });
            world.put(item, Some(d));
            if owner == world.player {
                let name = world.name_of(item);
                world.log_push(LogEntry::PickedUp { item: name });
                assert(world.log@.subrange(0, old(world).log@.len() as int) =~= old(world).log@);
            }
        },
        None => {
            world.put(item, None);
            assert(world.entities@ =~= old(world).entities@);
        },
    }
}

/// Takes `item` out of the backpack and lays it at `pos`. Logged when the
/// player drops it.
pub fn drop_item(world: &mut World, dropper: usize, item: usize, pos: Position)
    requires
        old(world).wf(),
    ensures
        final(world).wf(),
        final(world).player == old(world).player,
        final(world).log@.len() >= old(world).log@.len(),
        final(world).log@.subrange(0, old(world).log@.len() as int) == old(world).log@,
        old(world).live(item as int) ==> {
            &&& final(world).entities@ == old(world).entities@.update(
                item as int,
                Some(EntityData { position: Some(pos), in_backpack: None, ..old(world).ent(item as int) }),
            )
            &&& final(world).log@.len() == old(world).log@.len() + if dropper == old(world).player { 1int } else { 0 }
        },
        !old(world).live(item as int) ==> final(world).entities@ == old(world).entities@ && final(world).log == old(world).log,
{
    if item >= world.entities.len() {
        return;
    }
    let slot = world.take(item);
    match slot {
        Some(mut d) => {
            proof {
                assert(old(world).live(item as int));
                assert(old(world).ent(item as int).in_range());
                if old(world).is_player(item as int) {
                    assert(item == old(world).player);
                }
            }
            d.position = Some(pos);
            d.in_backpack = None;
            world.put(item, Some(d));
            if dropper == world.player {
                let name = world.name_of(item);
                world.log_push(LogEntry::Dropped { item: name });
                assert(world.log@.subrange(0, old(world).log@.len() as int) =~= old(world).log@);
            }
        },
        None => {
            world.put(item, None);
            assert(world.entities@ =~= old(world).entities@);
        },
    }
}

/// Health after a heal of `amount`, never above the maximum.
pub open spec fn healed(s: CombatStats, amount: int) -> int {
    if s.hp + amount > s.max_hp {
        s.max_hp as int
    } else {
        s.hp + amount
    }
}

/// The potion `potion` heals and the drinker has statistics.
pub open spec fn heals_drinker(s: Seq<Option<EntityData>>, drinker: int, potion: int) -> bool {
    &&& 0 <= potion < s.len()
    &&& s[potion] is Some
    &&& s[potion]->Some_0.heal_effect is Some
    &&& 0 <= drinker < s.len()
    &&& s[drinker] is Some
    &&& s[drinker]->Some_0.combat_stats is Some
}

/// The entities once `drinker` has used `potion`: a heal restores health up
/// to the maximum, and a potion that heals or is consumable is gone.
pub open spec fn drunk(s: Seq<Option<EntityData>>, drinker: int, potion: int) -> Seq<Option<EntityData>> {
    let live_potion = 0 <= potion < s.len() && s[potion] is Some;
    let pd = s[potion]->Some_0;
    let used_up = live_potion && (pd.heal_effect is Some || pd.consumable is Some);
    let dd = s[drinker]->Some_0;
    let mid = if heals_drinker(s, drinker, potion) {
        s.update(
            drinker,
            Some(
                EntityData {
                    combat_stats: Some(
                        CombatStats {
                            hp: healed(dd.combat_stats->Some_0, pd.heal_effect->Some_0.amount as int) as i32,
                            ..dd.combat_stats->Some_0
                        },
                    ),
                    ..dd
                },
            ),
        )
    } else {
        s
    };
    if used_up {
        mid.update(potion, None)
    } else {
        mid
    }
}

/// `drinker` uses `potion`: a heal effect restores that much health, up to
/// the maximum, and is logged for the player; a potion that heals or is
/// consumable is used up.
pub fn drink_potion(world: &mut World, drinker: usize, potion: usize)
    requires
        old(world).wf(),
    ensures
        final(world).wf(),
        final(world).player == old(world).player,
        final(world).log@.len() >= old(world).log@.len(),
        final(world).log@.subrange(0, old(world).log@.len() as int) == old(world).log@,
        final(world).entities@.len() == old(world).entities@.len(),
        final(world).entities@ == drunk(old(world).entities@, drinker as int, potion as int),
        final(world).log@.len() == old(world).log@.len() + if heals_drinker(old(world).entities@, drinker as int, potion as int)
            && drinker == old(world).player { 1int } else { 0 },
{
    let n = world.entities.len();
    if potion >= n {
        return;
    }
    let (heal, consumable) = match &world.entities[potion] {
        Some(d) => (
            match d.heal_effect {
                Some(h) => Some(h.amount),
                None => None,
            },
            d.consumable.is_some(),
        ),
        None => {
            return;
        },
    };
    proof {
        assert(world.live(potion as int));
        assert(world.ent(potion as int).in_range());
    }
    if let Some(amount) = heal {
        if drinker < n {
            let stats = match &world.entities[drinker] {
                Some(d) => d.combat_stats,
                None => None,
            };
            if let Some(mut s) = stats {
                proof {
                    assert(world.live(drinker as int));
                    assert(world.ent(drinker as int).in_range());
                    if world.is_player(drinker as int) {
                        assert(drinker == world.player);
                    }
                }
                let slot = world.take(drinker);
                if let Some(mut d) = slot {
                    s.hp = if s.hp + amount > s.max_hp {
                        s.max_hp
                    } else {
                        s.hp + amount
                    };
                    d.combat_stats = Some(s);
                    world.put(drinker, Some(d));
                }
                if drinker == world.player {
                    let name = world.name_of(potion);
                    world.log_push(LogEntry::Healed { item: name, amount });
                    assert(world.log@.subrange(0, old(world).log@.len() as int) =~= old(world).log@);
                }
            }
        }
    }
    if heal.is_some() || consumable {
        world.delete_entity(potion);
    }
}

} // verus!

verus! {

/// Entity `f` is alive and means to pick up `item`.
pub open spec fn picks(w: &World, f: int, item: int) -> bool {
    w.live(f) && (w.ent(f).wants_to_pickup_item matches Some(p) && p.item == item)
}

/// The last of the first `n` entities that mean to pick up `item`, or -1.
pub open spec fn last_picker(w: &World, item: int, n: int) -> int
    decreases n,
{
    if n <= 0 {
        -1
    } else if picks(w, n - 1, item) {
        n - 1
    } else {
        last_picker(w, item, n - 1)
    }
}

/// Entity `e` of `w` once the pickup intents of the first `n` entities are
/// carried out and dropped: an item someone picked up is off the map and in
/// the backpack of the last one who did.
pub open spec fn after_pickups(w: &World, e: int, n: int) -> EntityData {
    let d = w.ent(e);
    let k = last_picker(w, e, n);
    EntityData {
        wants_to_pickup_item: if e < n { None } else { d.wants_to_pickup_item },
        position: if k >= 0 { None } else { d.position },
        in_backpack: if k >= 0 {
            Some(InBackpack { owner: w.ent(k).wants_to_pickup_item->Some_0.collected_by })
        } else {
            d.in_backpack
        },
        ..d
    }
}

/// `w1` is `w0` once every pickup intent is carried out and dropped.
pub open spec fn pickups_done(w0: &World, w1: &World) -> bool {
    &&& w1.wf()
    &&& w1.player == w0.player
    &&& w1.entities@.len() == w0.entities@.len()
    &&& w0.log@.len() <= w1.log@.len()
    &&& w1.log@.subrange(0, w0.log@.len() as int) == w0.log@
    &&& forall|e: int|
        #![trigger w1.entities@[e]]
        0 <= e < w0.entities@.len() ==> w1.entities@[e] == if w0.live(e) {
            Some(after_pickups(w0, e, w0.entities@.len() as int))
        } else {
            None
        }
}

pub struct ItemCollectionSystem {}

impl ItemCollectionSystem {
    /// Carries out every pickup intent, in order of identity, then drops them
    /// all.
    pub fn run(&mut self, world: &mut World)
        requires
            old(world).wf(),
        ensures
            pickups_done(old(world), final(world)),
    {
        let n = world.entities.len();
        let mut e: usize = 0;
        while e < n
            invariant
                world.wf(),
                old(world).wf(),
                n == world.entities@.len(),
                n == old(world).entities@.len(),
                e <= n,
                world.player == old(world).player,
                old(world).log@.len() <= world.log@.len(),
                world.log@.subrange(0, old(world).log@.len() as int) == old(world).log@,
                forall|f: int|
                    #![trigger world.entities@[f]]
                    0 <= f < n ==> world.entities@[f] == if old(world).live(f) {
                        Some(after_pickups(old(world), f, e as int))
                    } else {
                        None
                    },
            decreases n - e,
        {
            let ghost w0 = *world;
            let intent = match &world.entities[e] {
                Some(d) => d.wants_to_pickup_item,
                None => None,
            };
            proof {
                assert(w0.entities@[e as int] == w0.entities@[e as int]);
            }
            if let Some(w) = intent {
                pick_up(world, w.collected_by, w.item);
                let ghost w1 = *world;
                proof {
                    assert(world.live(e as int)) by {
                        assert(w0.entities@[e as int] == w0.entities@[e as int]);
                        if w.item != e {
                            assert(world.entities@[e as int] == w0.entities@[e as int]);
                        }
                    }
                    assert(world.ent(e as int).in_range());
                    if world.is_player(e as int) {
                        assert(e == world.player);
                    }
                    assert(world.log@.subrange(0, old(world).log@.len() as int) =~= old(world).log@) by {
                        assert(w0.log@.subrange(0, old(world).log@.len() as int) == old(world).log@);
                        assert(world.log@.subrange(0, w0.log@.len() as int) == w0.log@);
                        assert(world.log@.subrange(0, old(world).log@.len() as int) =~= world.log@.subrange(
                            0,
                            w0.log@.len() as int,
                        ).subrange(0, old(world).log@.len() as int));
                    }
                }
                let slot = world.take(e);
                if let Some(mut d) = slot {
                    d.wants_to_pickup_item = None;
                    world.put(e, Some(d));
                }
                proof {
                    assert forall|f: int|
                        #![trigger world.entities@[f]]
                        0 <= f < n implies world.entities@[f] == if old(world).live(f) {
                            Some(after_pickups(old(world), f, e as int + 1))
                        } else {
                            None
                        } by {
                        assert(w0.entities@[f] == w0.entities@[f]);
                        assert(w1.entities@[f] == w1.entities@[f]);
                        if picks(old(world), e as int, f) {
                            assert(f == w.item);
                        } else {
                            assert(last_picker(old(world), f, e as int + 1) == last_picker(old(world), f, e as int));
                        }
                    }
                }
            } else {
                proof {
                    assert forall|f: int|
                        #![trigger world.entities@[f]]
                        0 <= f < n implies world.entities@[f] == if old(world).live(f) {
                            Some(after_pickups(old(world), f, e as int + 1))
                        } else {
                            None
                        } by {
                        assert(!picks(old(world), e as int, f));
                        assert(last_picker(old(world), f, e as int + 1) == last_picker(old(world), f, e as int));
                    }
                }
            }
            e = e + 1;
        }
    }
}

/// The drops that the first `n` entities mean to make, in order: for each
/// live entity with a position and a drop intent, itself, the item, and where
/// it stands.
pub open spec fn drop_list(w: &World, n: int) -> Seq<(usize, usize, Position)>
    decreases n,
{
    if n <= 0 {
        Seq::empty()
    } else {
        let f = n - 1;
        let d = w.ent(f);
        drop_list(w, n - 1) + if w.live(f) && d.wants_to_drop_item is Some && d.position is Some {
            seq![(f as usize, d.wants_to_drop_item->Some_0.item, d.position->Some_0)]
        } else {
            Seq::empty()
        }
    }
}

/// The place in the first `q` drops of `list` of the last one of `item`, or -1.
pub open spec fn last_drop(list: Seq<(usize, usize, Position)>, item: int, q: int) -> int
    decreases q,
{
    if q <= 0 {
        -1
    } else if list[q - 1].1 == item {
        q - 1
    } else {
        last_drop(list, item, q - 1)
    }
}

/// Entity `d`, identified as `e`, once the first `q` drops of `list` are made:
/// an item dropped lies where its last dropper stood, out of any backpack.
pub open spec fn after_drops(d: EntityData, e: int, list: Seq<(usize, usize, Position)>, q: int) -> EntityData {
    let k = last_drop(list, e, q);
    EntityData {
        position: if k >= 0 { Some(list[k].2) } else { d.position },
        in_backpack: if k >= 0 { None } else { d.in_backpack },
        ..d
    }
}

/// `w1` is `w0` once every drop intent of an entity with a position is
/// carried out, in order of identity, and all drop intents are dropped.
pub open spec fn drops_done(w0: &World, w1: &World) -> bool {
    let list = drop_list(w0, w0.entities@.len() as int);
    &&& w1.wf()
    &&& w1.player == w0.player
    &&& w1.entities@.len() == w0.entities@.len()
    &&& w0.log@.len() <= w1.log@.len()
    &&& w1.log@.subrange(0, w0.log@.len() as int) == w0.log@
    &&& forall|e: int|
        #![trigger w1.entities@[e]]
        0 <= e < w0.entities@.len() ==> w1.entities@[e] == if w0.live(e) {
            Some(
                EntityData {
                    wants_to_drop_item: None,
                    ..after_drops(w0.ent(e), e, list, list.len() as int)
                },
            )
        } else {
            None
        }
}

/// Lists the drops the entities mean to make.
fn collect_drops(world: &World) -> (r: Vec<(usize, usize, Position)>)
    ensures
        r@ == drop_list(world, world.entities@.len() as int),
{
    let mut r: Vec<(usize, usize, Position)> = Vec::new();
    let n = world.entities.len();
    let mut e: usize = 0;
    while e < n
        invariant
            n == world.entities@.len(),
            e <= n,
            r@ == drop_list(world, e as int),
        decreases n - e,
    {
        if let Some(d) = &world.entities[e] {
            if let (Some(w), Some(p)) = (d.wants_to_drop_item, d.position) {
                r.push((e, w.item, p));
            }
        }
        proof {
            assert(drop_list(world, e as int + 1) =~= r@);
        }
        e = e + 1;
    }
    r
}

pub struct ItemDropSystem {}

impl ItemDropSystem {
    /// Carries out every drop intent of an entity with a position, in order
    /// of identity, then drops all drop intents.
    pub fn run(&mut self, world: &mut World)
        requires
            old(world).wf(),
        ensures
            drops_done(old(world), final(world)),
    {
        let list = collect_drops(world);
        let n = world.entities.len();
        let mut q: usize = 0;
        while q < list.len()
            invariant
                world.wf(),
                n == world.entities@.len(),
                n == old(world).entities@.len(),
                q <= list@.len(),
                list@ == drop_list(old(world), n as int),
                world.player == old(world).player,
                old(world).log@.len() <= world.log@.len(),
                world.log@.subrange(0, old(world).log@.len() as int) == old(world).log@,
                forall|f: int|
                    #![trigger world.entities@[f]]
                    0 <= f < n ==> world.entities@[f] == if old(world).live(f) {
                        Some(after_drops(old(world).ent(f), f, list@, q as int))
                    } else {
                        None
                    },
            decreases list@.len() - q,
        {
            let ghost w0 = *world;
            let (dropper, item, pos) = list[q];
            drop_item(world, dropper, item, pos);
            proof {
                assert(world.log@.subrange(0, old(world).log@.len() as int) =~= world.log@.subrange(
                    0,
                    w0.log@.len() as int,
                ).subrange(0, old(world).log@.len() as int));
                assert forall|f: int|
                    #![trigger world.entities@[f]]
                    0 <= f < n implies world.entities@[f] == if old(world).live(f) {
                        Some(after_drops(old(world).ent(f), f, list@, q as int + 1))
                    } else {
                        None
                    } by {
                    assert(w0.entities@[f] == w0.entities@[f]);
                    if f != item {
                        assert(last_drop(list@, f, q as int + 1) == last_drop(list@, f, q as int));
                    }
                }
            }
            q = q + 1;
        }
        let mut e: usize = 0;
        while e < n
            invariant
                world.wf(),
                n == world.entities@.len(),
                n == old(world).entities@.len(),
                e <= n,
                list@ == drop_list(old(world), n as int),
                world.player == old(world).player,
                old(world).log@.len() <= world.log@.len(),
                world.log@.subrange(0, old(world).log@.len() as int) == old(world).log@,
                forall|f: int|
                    #![trigger world.entities@[f]]
                    0 <= f < n ==> world.entities@[f] == if old(world).live(f) {
                        if f < e {
                            Some(
                                EntityData {
                                    wants_to_drop_item: None,
                                    ..after_drops(old(world).ent(f), f, list@, list@.len() as int)
                                },
                            )
                        } else {
                            Some(after_drops(old(world).ent(f), f, list@, list@.len() as int))
                        }
                    } else {
                        None
                    },
            decreases n - e,
        {
            let ghost w0 = *world;
            proof {
                assert(w0.entities@[e as int] == w0.entities@[e as int]);
                if w0.live(e as int) {
                    assert(w0.ent(e as int).in_range());
                }
                if w0.is_player(e as int) {
                    assert(e == w0.player);
                }
            }
            let slot = world.take(e);
            match slot {
                Some(mut d) => {
                    d.wants_to_drop_item = None;
                    world.put(e, Some(d));
                },
                None => {
                    world.put(e, None);
                },
            }
            proof {
                assert forall|f: int|
                    #![trigger world.entities@[f]]
                    0 <= f < n implies world.entities@[f] == if old(world).live(f) {
                        if f < e + 1 {
                            Some(
                                EntityData {
                                    wants_to_drop_item: None,
                                    ..after_drops(old(world).ent(f), f, list@, list@.len() as int)
                                },
                            )
                        } else {
                            Some(after_drops(old(world).ent(f), f, list@, list@.len() as int))
                        }
                    } else {
                        None
                    } by {
                    assert(w0.entities@[f] == w0.entities@[f]);
                }
            }
            e = e + 1;
        }
    }
}

/// Entity `f` of `s` is alive, has statistics and means to use a potion.
pub open spec fn drinks(s: Seq<Option<EntityData>>, f: int) -> bool {
    0 <= f < s.len() && s[f] is Some && s[f]->Some_0.wants_to_drink_potion is Some
        && s[f]->Some_0.combat_stats is Some
}

/// The entities once the potion intents of the first `n` entities are
/// carried out in order (an entity used up on the way no longer acts).
pub open spec fn uses_upto(s0: Seq<Option<EntityData>>, n: int) -> Seq<Option<EntityData>>
    decreases n,
{
    if n <= 0 {
        s0
    } else {
        let s = uses_upto(s0, n - 1);
        if drinks(s, n - 1) {
            drunk(s, n - 1, s[n - 1]->Some_0.wants_to_drink_potion->Some_0.potion as int)
        } else {
            s
        }
    }
}

pub proof fn lemma_uses_len(s0: Seq<Option<EntityData>>, n: int)
    ensures
        uses_upto(s0, n).len() == s0.len(),
    decreases n,
{
    if n > 0 {
        lemma_uses_len(s0, n - 1);
    }
}

/// The slot with its potion intent dropped.
pub open spec fn without_drink(o: Option<EntityData>) -> Option<EntityData> {
    match o {
        Some(d) => Some(EntityData { wants_to_drink_potion: None, ..d }),
        None => None,
    }
}

/// `w1` is `w0` once every potion intent is carried out, in order of
/// identity, and all of them are dropped.
pub open spec fn potions_done(w0: &World, w1: &World) -> bool {
    let s = uses_upto(w0.entities@, w0.entities@.len() as int);
    &&& w1.wf()
    &&& w1.player == w0.player
    &&& w1.entities@.len() == w0.entities@.len()
    &&& w0.log@.len() <= w1.log@.len()
    &&& w1.log@.subrange(0, w0.log@.len() as int) == w0.log@
    &&& forall|e: int| #![trigger w1.entities@[e]] 0 <= e < w0.entities@.len() ==> w1.entities@[e] == without_drink(s[e])
}

pub struct ItemUseSystem {}

impl ItemUseSystem {
    /// Carries out every potion intent of an entity with statistics, in order
    /// of identity, then drops them all. Potions used up leave the world.
    pub fn run(&mut self, world: &mut World)
        requires
            old(world).wf(),
        ensures
            potions_done(old(world), final(world)),
    {
        let n = world.entities.len();
        let mut e: usize = 0;
        while e < n
            invariant
                world.wf(),
                n == world.entities@.len(),
                n == old(world).entities@.len(),
                e <= n,
                world.player == old(world).player,
                old(world).log@.len() <= world.log@.len(),
                world.log@.subrange(0, old(world).log@.len() as int) == old(world).log@,
                uses_upto(old(world).entities@, e as int).len() == n,
                forall|f: int|
                    #![trigger world.entities@[f]]
                    0 <= f < n ==> world.entities@[f] == if f < e {
                        without_drink(uses_upto(old(world).entities@, e as int)[f])
                    } else {
                        uses_upto(old(world).entities@, e as int)[f]
                    },
            decreases n - e,
        {
            let ghost w0 = *world;
            let ghost s = uses_upto(old(world).entities@, e as int);
            proof {
                lemma_uses_len(old(world).entities@, e as int + 1);
                assert(w0.entities@[e as int] == s[e as int]);
            }
            let (intent, fighter) = match &world.entities[e] {
                Some(d) => (d.wants_to_drink_potion, d.combat_stats.is_some()),
                None => (None, false),
            };
            if let (Some(w), true) = (intent, fighter) {
                proof {
                    assert(drinks(s, e as int));
                    // the intents dropped so far change nothing that the drink reads
                    assert(w0.entities@ =~= Seq::new(
                        n as nat,
                        |f: int| if f < e { without_drink(s[f]) } else { s[f] },
                    ));
                }
                drink_potion(world, e, w.potion);
                proof {
                    assert(world.log@.subrange(0, old(world).log@.len() as int) =~= world.log@.subrange(
                        0,
                        w0.log@.len() as int,
                    ).subrange(0, old(world).log@.len() as int));
                    let t = drunk(s, e as int, w.potion as int);
                    assert(uses_upto(old(world).entities@, e as int + 1) == t);
                    assert forall|f: int|
                        #![trigger world.entities@[f]]
                        0 <= f < n implies world.entities@[f] == if f < e {
                            without_drink(t[f])
                        } else {
                            t[f]
                        } by {
                        assert(w0.entities@[f] == w0.entities@[f]);
                        assert(heals_drinker(w0.entities@, e as int, w.potion as int) == heals_drinker(
                            s,
                            e as int,
                            w.potion as int,
                        ));
                    }
                }
            } else {
                proof {
                    assert(!drinks(s, e as int));
                    assert(uses_upto(old(world).entities@, e as int + 1) == s);
                }
            }
            let ghost w1 = *world;
            let ghost t = uses_upto(old(world).entities@, e as int + 1);
            let live_now = match &world.entities[e] {
                Some(_) => true,
                None => false,
            };
            if live_now {
                proof {
                    assert(world.live(e as int));
                    assert(world.ent(e as int).in_range());
                    if world.is_player(e as int) {
                        assert(e == world.player);
                    }
                }
                let slot = world.take(e);
                if let Some(mut d) = slot {
                    d.wants_to_drink_potion = None;
                    world.put(e, Some(d));
                }
            }
            proof {
                assert forall|f: int|
                    #![trigger world.entities@[f]]
                    0 <= f < n implies world.entities@[f] == if f < e + 1 {
                        without_drink(t[f])
                    } else {
                        t[f]
                    } by {
                    assert(w1.entities@[f] == w1.entities@[f]);
                }
            }
            e = e + 1;
        }
    }
}

/// `w1` is `w0` once the display requests are logged and dropped.
pub open spec fn listing_done(w0: &World, w1: &World) -> bool {
    &&& w1.wf()
    &&& w1.player == w0.player
    &&& w1.entities@.len() == w0.entities@.len()
    &&& forall|e: int|
            #![trigger w1.entities@[e]]
            0 <= e < w0.entities@.len() ==> w1.entities@[e] == match w0.entities@[e] {
                Some(d) => Some(EntityData { wants_to_display_content: None, ..d }),
                None => None,
            }
}

pub struct ItemListingSystem {}

impl ItemListingSystem {
    /// Logs the name of every named entity that asks to be shown, then drops
    /// those requests.
    pub fn run(&mut self, world: &mut World)
        requires
            old(world).wf(),
        ensures
            listing_done(old(world), final(world)),
    {
        let n = world.entities.len();
        let mut e: usize = 0;
        while e < n
            invariant
                world.wf(),
                n == world.entities@.len(),
                n == old(world).entities@.len(),
                e <= n,
                world.player == old(world).player,
                forall|f: int|
                    #![trigger world.entities@[f]]
                    0 <= f < e ==> world.entities@[f] == match old(world).entities@[f] {
                        Some(d) => Some(EntityData { wants_to_display_content: None, ..d }),
                        None => None,
                    },
                forall|f: int| #![trigger world.entities@[f]] e <= f < n ==> world.entities@[f] == old(world).entities@[f],
            decreases n - e,
        {
            let ghost w0 = *world;
            proof {
                assert(w0.entities@[e as int] == old(world).entities@[e as int]);
                if w0.live(e as int) {
                    assert(w0.ent(e as int).in_range());
                }
                if w0.is_player(e as int) {
                    assert(e == w0.player);
                }
            }
            let slot = world.take(e);
            if let Some(mut d) = slot {
                if d.wants_to_display_content.is_some() {
                    if let Some(nm) = &d.name {
                        let item = nm.name.clone();
                        world.log_push(LogEntry::ThereIsA { item });
                    }
                }
                d.wants_to_display_content = None;
                world.put(e, Some(d));
            } else {
                world.put(e, None);
            }
            proof {
                assert forall|f: int| #![trigger world.entities@[f]] e + 1 <= f < n implies world.entities@[f] == old(world).entities@[f] by {
                    assert(w0.entities@[f] == old(world).entities@[f]);
                }
                assert forall|f: int|
                    #![trigger world.entities@[f]]
                    0 <= f < e + 1 implies world.entities@[f] == match old(world).entities@[f] {
                        Some(d) => Some(EntityData { wants_to_display_content: None, ..d }),
                        None => None,
                    } by {
                    assert(w0.entities@[f] == w0.entities@[f]);
                }
            }
            e = e + 1;
        }
    }
}

} // verus!
