use vstd::prelude::*;
use crate::components::{
    BlocksTile, CombatStats, Consumable, HealEffect, InBackpack, Item, Monster, Name, Player, Position,
    Renderable, SufferDamage, Viewshed, WantsToDisplayContent, WantsToDrinkPotion, WantsToDropItem,
    WantsToMelee, WantsToPickupItem, STAT_CAP,
};

verus! {

/// Largest number of entities a world can hold over its lifetime.
pub const MAX_ENTITIES: usize = 1048576;

/// One entity: a fixed set of optional component slots.
#[derive(Debug)]
pub struct EntityData {
    pub position: Option<Position>,
    pub renderable: Option<Renderable>,
    pub name: Option<Name>,
    pub player: Option<Player>,
    pub monster: Option<Monster>,
    pub item: Option<Item>,
    pub blocks_tile: Option<BlocksTile>,
    pub consumable: Option<Consumable>,
    pub combat_stats: Option<CombatStats>,
    pub viewshed: Option<Viewshed>,
    pub heal_effect: Option<HealEffect>,
    pub in_backpack: Option<InBackpack>,
    pub suffer_damage: Option<SufferDamage>,
    pub wants_to_melee: Option<WantsToMelee>,
    pub wants_to_pickup_item: Option<WantsToPickupItem>,
    pub wants_to_drop_item: Option<WantsToDropItem>,
    pub wants_to_drink_potion: Option<WantsToDrinkPotion>,
    pub wants_to_display_content: Option<WantsToDisplayContent>,
}

impl EntityData {
    /// An entity with no component at all.
    pub fn empty() -> (r: EntityData)
        ensures
            r.position is None,
            r.renderable is None,
            r.name is None,
            r.player is None,
            r.monster is None,
            r.item is None,
            r.blocks_tile is None,
            r.consumable is None,
            r.combat_stats is None,
            r.viewshed is None,
            r.heal_effect is None,
            r.in_backpack is None,
            r.suffer_damage is None,
            r.wants_to_melee is None,
            r.wants_to_pickup_item is None,
            r.wants_to_drop_item is None,
            r.wants_to_drink_potion is None,
            r.wants_to_display_content is None,
    {
        EntityData {
            position: None,
            renderable: None,
            name: None,
            player: None,
            monster: None,
            item: None,
            blocks_tile: None,
            consumable: None,
            combat_stats: None,
            viewshed: None,
            heal_effect: None,
            in_backpack: None,
            suffer_damage: None,
            wants_to_melee: None,
            wants_to_pickup_item: None,
            wants_to_drop_item: None,
            wants_to_drink_potion: None,
            wants_to_display_content: None,
        }
    }

    /// The statistics and heal effect, where present, are in their ranges,
    /// and no pending hit is negative.
    pub open spec fn in_range(&self) -> bool {
        &&& (self.combat_stats matches Some(s) ==> s.in_range())
        &&& (self.suffer_damage matches Some(sd) ==> forall|k: int| 0 <= k < sd.amount@.len() ==> sd.amount@[k] >= 0)
        &&& (self.heal_effect matches Some(h) ==> 0 <= h.amount <= STAT_CAP)
    }
}

/// The damage entries an entity has pending this turn.
pub open spec fn damage_list(d: EntityData) -> Seq<i32> {
    match d.suffer_damage {
        Some(s) => s.amount@,
        None => Seq::empty(),
    }
}

/// Every component slot but pending damage, the melee intent and the combat
/// statistics is the same.
pub open spec fn same_but_combat(a: EntityData, b: EntityData) -> bool {
    &&& b.position == a.position
    &&& b.renderable == a.renderable
    &&& b.name == a.name
    &&& b.player == a.player
    &&& b.monster == a.monster
    &&& b.item == a.item
    &&& b.blocks_tile == a.blocks_tile
    &&& b.consumable == a.consumable
    &&& b.viewshed == a.viewshed
    &&& b.heal_effect == a.heal_effect
    &&& b.in_backpack == a.in_backpack
    &&& b.wants_to_pickup_item == a.wants_to_pickup_item
    &&& b.wants_to_drop_item == a.wants_to_drop_item
    &&& b.wants_to_drink_potion == a.wants_to_drink_potion
    &&& b.wants_to_display_content == a.wants_to_display_content
}

/// What the message log records, in the order it happened.
#[derive(Debug)]
pub enum LogEntry {
    Welcome,
    NothingToPickUp,
    ThereIsA { item: String },
    PickedUp { item: String },
    Dropped { item: String },
    Healed { item: String, amount: i32 },
    Hit { attacker: String, target: String, amount: i32 },
    LevelUp,
    PlayerDied,
}

/// The entity store: each entity is identified by its index, which stays the
/// same for its whole life; a deleted entity leaves an empty slot behind.
pub struct World {
    pub entities: Vec<Option<EntityData>>,
    pub player: usize,
    pub log: Vec<LogEntry>,
}

impl World {
    pub open spec fn live(&self, e: int) -> bool {
        0 <= e < self.entities@.len() && self.entities@[e] is Some
    }

    pub open spec fn ent(&self, e: int) -> EntityData {
        self.entities@[e]->Some_0
    }

    /// Entity `e` is alive and carries the player marker.
    pub open spec fn is_player(&self, e: int) -> bool {
        self.live(e) && self.ent(e).player is Some
    }

    /// Statistics stay in range, and the player marker is carried by the
    /// entity recorded as the player, if by any.
    pub open spec fn wf(&self) -> bool {
        &&& self.entities@.len() <= MAX_ENTITIES
        &&& forall|e: int| #[trigger] self.live(e) ==> self.ent(e).in_range()
        &&& forall|e: int| #[trigger] self.is_player(e) ==> e == self.player
    }

    /// Appends a line to the message log.
    pub fn log_push(&mut self, entry: LogEntry)
        requires
            old(self).wf(),
        ensures
            final(self).wf(),
            final(self).entities == old(self).entities,
            final(self).player == old(self).player,
            final(self).log@ == old(self).log@.push(entry),
    {
        self.log.push(entry);
        proof {
            assert forall|k: int| #[trigger] self.live(k) implies self.ent(k).in_range() by {
                assert(old(self).live(k));
            }
            assert forall|k: int| #[trigger] self.is_player(k) implies k == self.player by {
                assert(old(self).is_player(k));
            }
        }
    }

    /// Takes entity `e` out of its slot, leaving the slot empty.
    pub(crate) fn take(&mut self, e: usize) -> (r: Option<EntityData>)
        requires
            old(self).wf(),
            e < old(self).entities@.len(),
        ensures
            final(self).wf(),
            r == old(self).entities@[e as int],
            final(self).entities@ == old(self).entities@.update(e as int, None),
            final(self).player == old(self).player,
            final(self).log == old(self).log,
    {
        let mut slot: Option<EntityData> = None;
        std::mem::swap(&mut slot, &mut self.entities[e]);
        proof {
            assert(self.entities@ =~= old(self).entities@.update(e as int, None));
            assert forall|k: int| #[trigger] self.live(k) implies self.ent(k).in_range() by {
                assert(old(self).live(k));
            }
            assert forall|k: int| #[trigger] self.is_player(k) implies k == self.player by {
                assert(old(self).is_player(k));
            }
        }
        slot
    }

    /// Puts `d` into the slot of entity `e`.
    pub(crate) fn put(&mut self, e: usize, d: Option<EntityData>)
        requires
            old(self).wf(),
            e < old(self).entities@.len(),
            d matches Some(x) ==> x.in_range() && (x.player is Some ==> e == old(self).player),
        ensures
            final(self).wf(),
            final(self).entities@ == old(self).entities@.update(e as int, d),
            final(self).player == old(self).player,
            final(self).log == old(self).log,
    {
        self.entities.set(e, d);
        proof {
            assert forall|k: int| #[trigger] self.live(k) implies self.ent(k).in_range() by {
                if k != e {
                    assert(old(self).live(k));
                }
            }
            assert forall|k: int| #[trigger] self.is_player(k) implies k == self.player by {
                if k != e {
                    assert(old(self).is_player(k));
                }
            }
        }
    }

    /// An empty world whose log holds the welcome line.
    pub fn new() -> (r: World)
        ensures
            r.wf(),
            r.entities@.len() == 0,
            r.player == 0,
            r.log@.len() == 1,
            r.log@[0] is Welcome,
    {
        let mut log: Vec<LogEntry> = Vec::new();
        log.push(LogEntry::Welcome);
        World { entities: Vec::new(), player: 0, log }
    }

    /// Adds an entity and returns its identity.
    pub fn create_entity(&mut self, data: EntityData) -> (r: usize)
        requires
            old(self).wf(),
            old(self).entities@.len() < MAX_ENTITIES,
            data.in_range(),
            data.player is None,
        ensures
            final(self).wf(),
            r == old(self).entities@.len(),
            final(self).entities@ == old(self).entities@.push(Some(data)),
            final(self).player == old(self).player,
            final(self).log == old(self).log,
    {
        let r = self.entities.len();
        self.entities.push(Some(data));
        proof {
            assert forall|e: int| #[trigger] self.live(e) implies self.ent(e).in_range() by {
                if e < r {
                    assert(old(self).live(e));
                }
            }
            assert forall|e: int| #[trigger] self.is_player(e) implies e == self.player by {
                if e < r {
                    assert(old(self).is_player(e));
                }
            }
        }
        r
    }

    /// Removes an entity for good; its identity is never reused.
    pub fn delete_entity(&mut self, e: usize)
        requires
            old(self).wf(),
        ensures
            final(self).wf(),
            e < old(self).entities@.len() ==> final(self).entities@ == old(self).entities@.update(e as int, None),
            e >= old(self).entities@.len() ==> final(self).entities@ == old(self).entities@,
            final(self).player == old(self).player,
            final(self).log == old(self).log,
    {
        if e < self.entities.len() {
            self.entities.set(e, None);
            proof {
                assert forall|k: int| #[trigger] self.live(k) implies self.ent(k).in_range() by {
                    assert(old(self).live(k));
                }
                assert forall|k: int| #[trigger] self.is_player(k) implies k == self.player by {
                    assert(old(self).is_player(k));
                }
            }
        }
    }

    /// The name of a live entity, or an empty string for one without a name.
    pub fn name_of(&self, e: usize) -> (r: String)
        ensures
            (self.live(e as int) && self.ent(e as int).name is Some) ==> r@ == self.ent(
                e as int,
            ).name->Some_0.name@,
            !(self.live(e as int) && self.ent(e as int).name is Some) ==> r@.len() == 0,
    {
        if e < self.entities.len() {
            if let Some(d) = &self.entities[e] {
                if let Some(n) = &d.name {
                    return n.name.clone();
                }
            }
        }
        String::new()
    }
}

} // verus!
