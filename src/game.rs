use vstd::prelude::*;
use crate::ai::{MonsterAI, monsters_acted};
use crate::combat::{DamageSystem, MeleeCombatSystem, damage_resolved, dead_swept, delete_dead, dying, melee_resolved};
use crate::components::{InBackpack, Position, WantsToDrinkPotion, WantsToDropItem};
use crate::inventory::{
    ItemCollectionSystem, ItemDropSystem, ItemListingSystem, ItemUseSystem, drops_done, listing_done,
    pickups_done, potions_done,
};
use crate::map::DungeonMap;
use crate::map_indexing::{MapIndexingSystem, indexed};
use crate::player::{Command, input_applied, player_input};
use crate::state::RunState;
use crate::visibility::{VisibilitySystem, views_refreshed};
use crate::world::{EntityData, World};
use crate::generation::{MAX_ROOMS, MAX_SIZE, MIN_SIZE};
use crate::rng::rng_new;
use crate::spawner::{spawn_player, spawn_room_contents};
use bracket_lib::random::RandomNumberGenerator;

verus! {

/// The outcome of one frame of an item menu.
#[derive(Clone, Copy, Debug, PartialEq, Eq, Structural)]
pub enum ItemMenuResult {
    Cancel,
    NoResponse,
    Selected,
}

/// The outcome of one frame of the character sheet.
#[derive(Clone, Copy, Debug, PartialEq, Eq, Structural)]
pub enum CharacterMenuResult {
    Cancel,
    NoResponse,
}

/// What the frame brought: a command (read in `AwaitingInput`), and the
/// outcome of the open menu with the entity chosen in it, if any.
#[derive(Clone, Copy, Debug, PartialEq, Eq, Structural)]
pub struct TickEvent {
    pub key: Option<Command>,
    pub menu: ItemMenuResult,
    pub selection: Option<usize>,
}

/// The state the scheduler moves to from `s` on `ev`, before the death check.
pub open spec fn next_state(s: RunState, ev: TickEvent) -> RunState {
    match s {
        RunState::PreRun => RunState::AwaitingInput,
        RunState::AwaitingInput => match ev.key {
            None => RunState::AwaitingInput,
            Some(Command::Other) => RunState::AwaitingInput,
            Some(Command::Inventory) => RunState::ShowInventory,
            Some(Command::DropMenu) => RunState::ShowDropItem,
            Some(Command::Character) => RunState::ShowCharacter,
            Some(_) => RunState::PlayerTurn,
        },
        RunState::PlayerTurn => RunState::MonsterTurn,
        RunState::MonsterTurn => RunState::AwaitingInput,
        RunState::ShowInventory | RunState::ShowDropItem | RunState::ShowTargeting { .. } => match ev.menu {
            ItemMenuResult::Cancel => RunState::AwaitingInput,
            ItemMenuResult::Selected => if ev.selection is Some {
                RunState::PlayerTurn
            } else {
                s
            },
            ItemMenuResult::NoResponse => s,
        },
        RunState::ShowCharacter => if ev.menu == ItemMenuResult::Cancel {
            RunState::AwaitingInput
        } else {
            s
        },
        RunState::Dead => RunState::Dead,
    }
}

/// The states in which a frame runs the whole system pipeline.
pub open spec fn simulates(s: RunState) -> bool {
    s == RunState::PreRun || s == RunState::PlayerTurn || s == RunState::MonsterTurn
}

/// `(w1, m1)` is `(w0, m0)` after one run of the pipeline, its systems in
/// their fixed order: visibility, monsters, indexing, melee, damage, pickup,
/// listing, potions, drops.
pub open spec fn pipeline(
    w0: &World,
    m0: &DungeonMap,
    state: RunState,
    fovs: Seq<Vec<Position>>,
    paths: Seq<Vec<usize>>,
    w1: &World,
    m1: &DungeonMap,
) -> bool {
    exists|
        wa: World,
        ma: DungeonMap,
        wb: World,
        wc: World,
        wd: World,
        we: World,
        wf: World,
        wg: World,
    |
        {
            &&& views_refreshed(w0, &wa, m0, &ma, fovs)
            &&& monsters_acted(&wa, &wb, &ma, state, paths)
            &&& indexed(&wb, &ma, m1)
            &&& melee_resolved(&wb, &wc)
            &&& damage_resolved(&wc, &wd)
            &&& pickups_done(&wd, &we)
            &&& listing_done(&we, &wf)
            &&& potions_done(&wf, &wg)
            &&& drops_done(&wg, w1)
        }
}

/// `(w1, m1)` is `(w0, m0)` after the state handling of one frame in state
/// `s`, before the death sweep: a simulating state runs the pipeline;
/// `AwaitingInput` acts on the command; a menu turns a chosen item into the
/// player's intent to use or drop it; anything else changes nothing.
pub open spec fn stepped(
    w0: &World,
    m0: &DungeonMap,
    s: RunState,
    ev: TickEvent,
    fovs: Seq<Vec<Position>>,
    paths: Seq<Vec<usize>>,
    w1: &World,
    m1: &DungeonMap,
) -> bool {
    if simulates(s) {
        pipeline(w0, m0, s, fovs, paths, w1, m1)
    } else {
        &&& m1 == m0
        &&& match s {
            RunState::AwaitingInput => input_applied(w0, w1, m0, s, ev.key, next_state(s, ev)),
            RunState::ShowInventory | RunState::ShowTargeting { .. } => if ev.menu == ItemMenuResult::Selected
                && ev.selection is Some {
                use_requested(w0, w1, ev.selection->Some_0)
            } else {
                w1 == w0
            },
            RunState::ShowDropItem => if ev.menu == ItemMenuResult::Selected && ev.selection is Some {
                drop_requested(w0, w1, ev.selection->Some_0)
            } else {
                w1 == w0
            },
            _ => w1 == w0,
        }
    }
}

/// `w1` is `w0` with the intent to use `item` given to the player, if alive.
pub open spec fn use_requested(w0: &World, w1: &World, item: usize) -> bool {
    &&& w1.wf()
    &&& w1.player == w0.player
    &&& w1.log == w0.log
    &&& w1.entities@ == if w0.live(w0.player as int) {
        w0.entities@.update(
            w0.player as int,
            Some(EntityData { wants_to_drink_potion: Some(WantsToDrinkPotion { potion: item }), ..w0.ent(w0.player as int) }),
        )
    } else {
        w0.entities@
    }
}

/// Gives the player the intent to use `item`.
fn request_use(world: &mut World, item: usize)
    requires
        old(world).wf(),
    ensures
        use_requested(old(world), final(world), item),
{
    let p = world.player;
    if p >= world.entities.len() {
        return;
    }
    let slot = world.take(p);
    match slot {
        Some(mut d) => {
            proof {
                assert(old(world).live(p as int));
                assert(old(world).ent(p as int).in_range());
            }
            d.wants_to_drink_potion = Some(WantsToDrinkPotion { potion: item });
            world.put(p, Some(d));
            assert(world.entities@ =~= old(world).entities@.update(p as int, world.entities@[p as int]));
        },
        None => {
            world.put(p, None);
            assert(world.entities@ =~= old(world).entities@);
        },
    }
}

/// `w1` is `w0` with the intent to drop `item` given to the player, if alive.
pub open spec fn drop_requested(w0: &World, w1: &World, item: usize) -> bool {
    &&& w1.wf()
    &&& w1.player == w0.player
    &&& w1.log == w0.log
    &&& w1.entities@ == if w0.live(w0.player as int) {
        w0.entities@.update(
            w0.player as int,
            Some(EntityData { wants_to_drop_item: Some(WantsToDropItem { item }), ..w0.ent(w0.player as int) }),
        )
    } else {
        w0.entities@
    }
}

/// Gives the player the intent to drop `item`.
fn request_drop(world: &mut World, item: usize)
    requires
        old(world).wf(),
    ensures
        drop_requested(old(world), final(world), item),
{
    let p = world.player;
    if p >= world.entities.len() {
        return;
    }
    let slot = world.take(p);
    match slot {
        Some(mut d) => {
            proof {
                assert(old(world).live(p as int));
                assert(old(world).ent(p as int).in_range());
            }
            d.wants_to_drop_item = Some(WantsToDropItem { item });
            world.put(p, Some(d));
            assert(world.entities@ =~= old(world).entities@.update(p as int, world.entities@[p as int]));
        },
        None => {
            world.put(p, None);
            assert(world.entities@ =~= old(world).entities@);
        },
    }
}

/// The items in `owner`'s backpack, in order of identity.
pub fn inventory_of(world: &World, owner: usize) -> (r: Vec<usize>)
    ensures
        forall|k: int|
            0 <= k < r@.len() ==> world.live(#[trigger] r@[k] as int) && world.ent(r@[k] as int).item is Some
                && world.ent(r@[k] as int).in_backpack == Some(InBackpack { owner }),
        forall|e: int|
            world.live(e) && world.ent(e).item is Some && world.ent(e).in_backpack == Some(InBackpack { owner })
                ==> r@.contains(e as usize),
        forall|k: int, q: int| 0 <= k < q < r@.len() ==> r@[k] < r@[q],
{
    let mut r: Vec<usize> = Vec::new();
    let n = world.entities.len();
    let mut e: usize = 0;
    while e < n
        invariant
            n == world.entities@.len(),
            e <= n,
            forall|k: int|
                0 <= k < r@.len() ==> world.live(#[trigger] r@[k] as int) && world.ent(r@[k] as int).item is Some
                    && world.ent(r@[k] as int).in_backpack == Some(InBackpack { owner }),
            forall|k: int| 0 <= k < r@.len() ==> #[trigger] r@[k] < e,
            forall|f: int|
                0 <= f < e && world.live(f) && world.ent(f).item is Some && world.ent(f).in_backpack == Some(
                    InBackpack { owner },
                ) ==> r@.contains(f as usize),
            forall|k: int, q: int| 0 <= k < q < r@.len() ==> r@[k] < r@[q],
        decreases n - e,
    {
        if let Some(d) = &world.entities[e] {
            if d.item.is_some() && d.in_backpack == Some(InBackpack { owner }) {
                let ghost r0 = r@;
                r.push(e);
                proof {
                    assert forall|f: int|
                        0 <= f < e + 1 && world.live(f) && world.ent(f).item is Some && world.ent(f).in_backpack
                            == Some(InBackpack { owner }) implies r@.contains(f as usize) by {
                        if f < e {
                            let k = choose|k: int| 0 <= k < r0.len() && r0[k] == f as usize;
                            assert(r@[k] == f as usize);
                        } else {
                            assert(r@[r0.len() as int] == e);
                        }
                    }
                }
            }
        }
        e = e + 1;
    }
    r
}

/// A simulation: the entity store, the map, the scheduler's state and the
/// random number generator.
pub struct State {
    pub world: World,
    pub map: DungeonMap,
    pub run_state: RunState,
    pub rng: RandomNumberGenerator,
}

/// Width of a level, in tiles.
pub const MAP_X: i32 = 80;

/// Height of a level, in tiles.
pub const MAP_Y: i32 = 43;

impl State {
    pub open spec fn wf(&self) -> bool {
        self.world.wf() && self.map.wf()
    }

    /// A new run: a generated level, the player at the center of its first
    /// room, the other rooms filled with monsters and potions, and the
    /// scheduler about to run its first pipeline.
    pub fn new_game() -> (r: State)
        ensures
            r.wf(),
            r.run_state == RunState::PreRun,
            r.map.width == MAP_X,
            r.map.height == MAP_Y,
            r.map.rooms_laid_out(),
            r.map.rooms_carved(),
            r.map.room_sizes(MIN_SIZE as int, MAX_SIZE as int),
            r.map.rooms@.len() >= 1,
            r.map.rooms@.len() <= MAX_ROOMS,
            r.map.floor_only_laid(),
            r.map.border_walls(),
            forall|i: int|
                0 <= i < r.map.len() ==> !(#[trigger] r.map.revealed_tiles@[i]) && !r.map.visible_tiles@[i]
                    && !r.map.blocked@[i] && r.map.tile_content@[i]@.len() == 0,
            r.world.is_player(r.world.player as int),
            r.world.ent(r.world.player as int).position == Some(
                Position {
                    x: r.map.rooms@[0].center_spec().0 as i32,
                    y: r.map.rooms@[0].center_spec().1 as i32,
                },
            ),
    {
        let mut rng = rng_new();
        let map = DungeonMap::generate(MAP_X, MAP_Y, MAX_ROOMS, MIN_SIZE, MAX_SIZE, &mut rng);
        let (px, py) = map.rooms[0].center();
        let mut world = World::new();
        spawn_player(&mut world, px, py);
        let mut i: usize = 1;
        while i < map.rooms.len()
            invariant
                world.wf(),
                map.wf(),
                map.rooms_laid_out(),
                map.width == MAP_X,
                map.height == MAP_Y,
                1 <= i,
                map.rooms@.len() <= MAX_ROOMS,
                world.entities@.len() <= 1 + 4 * i,
                world.is_player(world.player as int),
                map.rooms@.len() > 0 ==> world.ent(world.player as int).position == Some(
                    Position { x: map.rooms@[0].center_spec().0 as i32, y: map.rooms@[0].center_spec().1 as i32 },
                ),
            decreases map.rooms@.len() - i,
        {
            let ghost w0 = world;
            let room = &map.rooms[i];
            assert(map.rooms@[i as int].within(MAP_X as int, MAP_Y as int));
            spawn_room_contents(&mut world, &mut rng, room);
            proof {
                let p = world.player as int;
                assert(world.entities@[p] == world.entities@.subrange(0, w0.entities@.len() as int)[p]);
            }
            i = i + 1;
        }
        State { world, map, run_state: RunState::PreRun, rng }
    }

    /// Runs every system once, in order. `fovs[e]` is the field of view the
    /// caller computed from entity `e`'s position and `paths[e]` the path it
    /// found from `e` toward the player, both as of the start of the run.
    pub fn run_systems(&mut self, fovs: &Vec<Vec<Position>>, paths: &Vec<Vec<usize>>)
        requires
            old(self).wf(),
            fovs@.len() == old(self).world.entities@.len(),
            paths@.len() == old(self).world.entities@.len(),
        ensures
            final(self).wf(),
            final(self).run_state == old(self).run_state,
            final(self).map.tiles == old(self).map.tiles,
            final(self).map.width == old(self).map.width,
            final(self).map.height == old(self).map.height,
            final(self).world.player == old(self).world.player,
            final(self).world.entities@.len() == old(self).world.entities@.len(),
            forall|i: int|
                0 <= i < final(self).map.len() ==> old(self).map.revealed_tiles@[i]
                    ==> #[trigger] final(self).map.revealed_tiles@[i],
            pipeline(
                &old(self).world,
                &old(self).map,
                old(self).run_state,
                fovs@,
                paths@,
                &final(self).world,
                &final(self).map,
            ),
    {
        let state = self.run_state;
        let mut vis = VisibilitySystem {};
        vis.run(&mut self.world, &mut self.map, fovs);
        let ghost wa = self.world;
        let ghost ma = self.map;
        let mut mob = MonsterAI {};
        mob.run(&mut self.world, &self.map, state, paths);
        let ghost wb = self.world;
        let mut map_index = MapIndexingSystem {};
        map_index.run(&self.world, &mut self.map);
        let mut melee = MeleeCombatSystem {};
        melee.run(&mut self.world);
        let ghost wc = self.world;
        let mut damage = DamageSystem {};
        damage.run(&mut self.world, &mut self.rng);
        let ghost wd = self.world;
        let mut pickup = ItemCollectionSystem {};
        pickup.run(&mut self.world);
        let ghost we = self.world;
        let mut item_listing = ItemListingSystem {};
        item_listing.run(&mut self.world);
        let ghost wf = self.world;
        let mut items = ItemUseSystem {};
        items.run(&mut self.world);
        let ghost wg = self.world;
        let mut drop = ItemDropSystem {};
        drop.run(&mut self.world);
        proof {
            assert(views_refreshed(&old(self).world, &wa, &old(self).map, &ma, fovs@));
            assert(monsters_acted(&wa, &wb, &ma, state, paths@));
            assert(indexed(&wb, &ma, &self.map));
            assert(melee_resolved(&wb, &wc));
            assert(damage_resolved(&wc, &wd));
            assert(pickups_done(&wd, &we));
            assert(listing_done(&we, &wf));
            assert(potions_done(&wf, &wg));
            assert(drops_done(&wg, &self.world));
        }
    }

    /// One frame of the scheduler. A simulating state runs the pipeline once
    /// and moves on; `AwaitingInput` turns the command into an action; a menu
    /// acts on its outcome (a chosen item becomes the player's intent to use
    /// or drop it); `Dead` stays. Last, the dead are swept away, and the run
    /// ends if the player is among them.
    pub fn tick(&mut self, ev: TickEvent, fovs: &Vec<Vec<Position>>, paths: &Vec<Vec<usize>>)
        requires
            old(self).wf(),
            fovs@.len() == old(self).world.entities@.len(),
            paths@.len() == old(self).world.entities@.len(),
        ensures
            final(self).wf(),
            final(self).world.player == old(self).world.player,
            final(self).world.entities@.len() == old(self).world.entities@.len(),
            final(self).map.tiles == old(self).map.tiles,
            forall|i: int|
                0 <= i < final(self).map.len() ==> old(self).map.revealed_tiles@[i]
                    ==> #[trigger] final(self).map.revealed_tiles@[i],
            final(self).run_state == if final(self).world.is_player(final(self).world.player as int) && dying(
                &final(self).world,
                final(self).world.player as int,
            ) {
                RunState::Dead
            } else {
                next_state(old(self).run_state, ev)
            },
            !simulates(old(self).run_state) ==> final(self).map == old(self).map,
            exists|w: World|
                {
                    &&& stepped(
                        &old(self).world,
                        &old(self).map,
                        old(self).run_state,
                        ev,
                        fovs@,
                        paths@,
                        &w,
                        &final(self).map,
                    )
                    &&& dead_swept(&w, &final(self).world, next_state(old(self).run_state, ev), final(self).run_state)
                },
    {
        let state = self.run_state;
        let next = match state {
            RunState::PreRun => {
                self.run_systems(fovs, paths);
                RunState::AwaitingInput
            },
            RunState::AwaitingInput => player_input(&mut self.world, &self.map, state, ev.key),
            RunState::PlayerTurn => {
                self.run_systems(fovs, paths);
                RunState::MonsterTurn
            },
            RunState::MonsterTurn => {
                self.run_systems(fovs, paths);
                RunState::AwaitingInput
            },
            RunState::ShowInventory | RunState::ShowTargeting { .. } => match (ev.menu, ev.selection) {
                (ItemMenuResult::Cancel, _) => RunState::AwaitingInput,
                (ItemMenuResult::Selected, Some(item)) => {
                    request_use(&mut self.world, item);
                    RunState::PlayerTurn
                },
                _ => state,
            },
            RunState::ShowDropItem => match (ev.menu, ev.selection) {
                (ItemMenuResult::Cancel, _) => RunState::AwaitingInput,
                (ItemMenuResult::Selected, Some(item)) => {
                    request_drop(&mut self.world, item);
                    RunState::PlayerTurn
                },
                _ => state,
            },
            RunState::ShowCharacter => if ev.menu == ItemMenuResult::Cancel {
                RunState::AwaitingInput
            } else {
                state
            },
            RunState::Dead => RunState::Dead,
        };
        assert(next == next_state(state, ev));
        let ghost w1 = self.world;
        proof {
            assert(stepped(&old(self).world, &old(self).map, state, ev, fovs@, paths@, &w1, &self.map));
        }
        self.run_state = delete_dead(&mut self.world, next);
        proof {
            assert(dead_swept(&w1, &self.world, next, self.run_state));
            let p = w1.player as int;
            if w1.is_player(p) {
                assert(self.world.entities@[p] == w1.entities@[p]);
            }
            if self.world.is_player(p) {
                assert(self.world.entities@[p] == w1.entities@[p]);
                assert(w1.live(p));
            }
        }
    }
}

} // verus!
