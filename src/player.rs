use vstd::prelude::*;
use crate::components::{Position, Viewshed, WantsToDisplayContent, WantsToMelee, WantsToPickupItem};
use crate::map::DungeonMap;
use crate::state::RunState;
use crate::world::{EntityData, LogEntry, World};

verus! {

/// A player command, already decoded from whatever input device produced it.
#[derive(Clone, Copy, Debug, PartialEq, Eq, Structural)]
pub enum Command {
    Left,
    Right,
    Up,
    Down,
    PickUp,
    Inventory,
    DropMenu,
    Character,
    Other,
}

/// The `q`-th occupant of a tile is an entity with combat statistics.
pub open spec fn fighter(w: &World, occ: Seq<usize>, q: int) -> bool {
    w.live(occ[q] as int) && w.ent(occ[q] as int).combat_stats is Some
}

/// The place in `occ` of its first fighter, from `q` on, or its length.
pub open spec fn first_fighter(w: &World, occ: Seq<usize>, q: int) -> int
    decreases occ.len() - q,
{
    if q >= occ.len() {
        occ.len() as int
    } else if fighter(w, occ, q) {
        q
    } else {
        first_fighter(w, occ, q + 1)
    }
}

pub proof fn lemma_first_fighter_bounds(w: &World, occ: Seq<usize>, q: int)
    requires
        0 <= q <= occ.len(),
    ensures
        q <= first_fighter(w, occ, q) <= occ.len(),
    decreases occ.len() - q,
{
    if q < occ.len() {
        lemma_first_fighter_bounds(w, occ, q + 1);
    }
}

/// Entity `e`, not the player, is an item listed in `occ` before place `k`.
pub open spec fn shown_item(w: &World, occ: Seq<usize>, k: int, e: int) -> bool {
    &&& e != w.player
    &&& w.live(e)
    &&& w.ent(e).item is Some
    &&& exists|q: int| 0 <= q < k && q < occ.len() && occ[q] == e
}

/// The player's destination when it moves by `(dx, dy)`.
pub open spec fn destination(w: &World, dx: i32, dy: i32) -> (int, int) {
    let pos = w.ent(w.player as int).position->Some_0;
    (pos.x + dx, pos.y + dy)
}

/// Every component slot but the position, the viewshed, the melee intent and
/// the display request is the same.
pub open spec fn same_but_step(a: EntityData, b: EntityData) -> bool {
    &&& b.renderable == a.renderable
    &&& b.name == a.name
    &&& b.player == a.player
    &&& b.monster == a.monster
    &&& b.item == a.item
    &&& b.blocks_tile == a.blocks_tile
    &&& b.consumable == a.consumable
    &&& b.combat_stats == a.combat_stats
    &&& b.heal_effect == a.heal_effect
    &&& b.in_backpack == a.in_backpack
    &&& b.suffer_damage == a.suffer_damage
    &&& b.wants_to_pickup_item == a.wants_to_pickup_item
    &&& b.wants_to_drop_item == a.wants_to_drop_item
    &&& b.wants_to_drink_potion == a.wants_to_drink_potion
}

/// The player can act: alive, with a position and a viewshed.
pub open spec fn player_ready(w: &World) -> bool {
    let p = w.player as int;
    w.live(p) && w.ent(p).position is Some && w.ent(p).viewshed is Some
}

} // verus!

verus! {

/// `w1` is `w0` once the player has tried to move by `(dx, dy)` in
/// state `state`, as `try_move_player` describes.
pub open spec fn player_moved(w0: &World, w1: &World, map: &DungeonMap, state: RunState, dx: i32, dy: i32) -> bool {
    let p = w0.player as int;
    let dest = destination(w0, dx, dy);
    if state == RunState::Dead || !player_ready(w0) || !map.in_bounds(dest.0, dest.1) {
        w1.entities == w0.entities
    } else {
        let occ = map.tile_content@[map.idx(dest.0, dest.1)]@;
        let k = first_fighter(w0, occ, 0);
        let pb = w0.ent(p);
        let pa = w1.ent(p);
        &&& forall|e: int|
            #![trigger w1.entities@[e]]
            0 <= e < w0.entities@.len() && e != p ==> if shown_item(w0, occ, k, e) {
                &&& w1.live(e)
                &&& same_but_step(w0.ent(e), w1.ent(e))
                &&& w1.ent(e).position == w0.ent(e).position
                &&& w1.ent(e).viewshed == w0.ent(e).viewshed
                &&& w1.ent(e).wants_to_melee == w0.ent(e).wants_to_melee
                &&& w1.ent(e).wants_to_display_content == Some(WantsToDisplayContent {})
            } else {
                w1.entities@[e] == w0.entities@[e]
            }
        &&& w1.live(p)
        &&& same_but_step(pb, pa)
        &&& pa.wants_to_display_content == pb.wants_to_display_content
        &&& if k < occ.len() {
            &&& pa.position == pb.position
            &&& pa.viewshed == pb.viewshed
            &&& pa.wants_to_melee == Some(WantsToMelee { target: occ[k] })
        } else if !map.blocked@[map.idx(dest.0, dest.1)] {
            &&& pa.position == Some(Position { x: dest.0 as i32, y: dest.1 as i32 })
            &&& pa.viewshed is Some
            &&& pa.viewshed->Some_0.visible_tiles == pb.viewshed->Some_0.visible_tiles
            &&& pa.viewshed->Some_0.range == pb.viewshed->Some_0.range
            &&& pa.viewshed->Some_0.dirty
            &&& pa.wants_to_melee == pb.wants_to_melee
        } else {
            &&& pa.position == pb.position
            &&& pa.viewshed == pb.viewshed
            &&& pa.wants_to_melee == pb.wants_to_melee
        }
    }
}

/// Sets the display request of entity `e`.
fn request_display(world: &mut World, e: usize)
    requires
        old(world).wf(),
        old(world).live(e as int),
    ensures
        final(world).wf(),
        final(world).player == old(world).player,
        final(world).log == old(world).log,
        final(world).entities@.len() == old(world).entities@.len(),
        forall|f: int|
            #![trigger final(world).entities@[f]]
            0 <= f < old(world).entities@.len() && f != e ==> final(world).entities@[f] == old(world).entities@[f],
        final(world).live(e as int),
        same_but_step(old(world).ent(e as int), final(world).ent(e as int)),
        final(world).ent(e as int).position == old(world).ent(e as int).position,
        final(world).ent(e as int).viewshed == old(world).ent(e as int).viewshed,
        final(world).ent(e as int).wants_to_melee == old(world).ent(e as int).wants_to_melee,
        final(world).ent(e as int).wants_to_display_content == Some(WantsToDisplayContent {}),
{
    proof {
        assert(old(world).ent(e as int).in_range());
        if old(world).is_player(e as int) {
            assert(e == old(world).player);
        }
    }
    let slot = world.take(e);
    if let Some(mut d) = slot {
        d.wants_to_display_content = Some(WantsToDisplayContent {});
        world.put(e, Some(d));
    }
}

/// Tries to move the player by `(dx, dy)`. Nothing happens once the run is
/// over, or if the destination is off the map. Otherwise the occupants of the
/// destination are examined in order: the first with combat statistics becomes
/// the target of a melee intent and the player stays put; items passed over
/// before it ask to be shown. With no such target, the player steps onto the
/// destination unless it is blocked, and its viewshed is marked for
/// recomputation.
pub fn try_move_player(world: &mut World, map: &DungeonMap, state: RunState, dx: i32, dy: i32)
    requires
        old(world).wf(),
        map.wf(),
    ensures
        final(world).wf(),
        final(world).player == old(world).player,
        final(world).log == old(world).log,
        final(world).entities@.len() == old(world).entities@.len(),
        player_moved(old(world), final(world), map, state, dx, dy),
{
    if state == RunState::Dead {
        return;
    }
    let p = world.player;
    if p >= world.entities.len() {
        return;
    }
    let pos = match &world.entities[p] {
        Some(d) => {
            if d.viewshed.is_none() {
                return;
            }
            match d.position {
                Some(pos) => pos,
                None => {
                    return;
                },
            }
        },
        None => {
            return;
        },
    };
    let x: i64 = pos.x as i64 + dx as i64;
    let y: i64 = pos.y as i64 + dy as i64;
    if x < 0 || x >= map.width as i64 || y < 0 || y >= map.height as i64 {
        return;
    }
    let idx = map.xy_idx(x as i32, y as i32);
    let occ = &map.tile_content[idx];
    let ghost k = first_fighter(old(world), occ@, 0);
    proof {
        lemma_first_fighter_bounds(old(world), occ@, 0);
    }
    let n = world.entities.len();
    let mut target: Option<usize> = None;
    let mut q: usize = 0;
    while q < occ.len() && target.is_none()
        invariant
            world.wf(),
            old(world).wf(),
            n == world.entities@.len(),
            n == old(world).entities@.len(),
            world.player == old(world).player,
            world.log == old(world).log,
            p == old(world).player,
            q <= occ@.len(),
            k == first_fighter(old(world), occ@, 0),
            target is None ==> q <= k && first_fighter(old(world), occ@, q as int) == k,
            target matches Some(t) ==> k < occ@.len() && t == occ@[k] && q == k + 1,
            forall|f: int|
                #![trigger world.entities@[f]]
                0 <= f < n ==> if shown_item(old(world), occ@, if target is None { q as int } else { k }, f) {
                    &&& world.live(f)
                    &&& same_but_step(old(world).ent(f), world.ent(f))
                    &&& world.ent(f).position == old(world).ent(f).position
                    &&& world.ent(f).viewshed == old(world).ent(f).viewshed
                    &&& world.ent(f).wants_to_melee == old(world).ent(f).wants_to_melee
                    &&& world.ent(f).wants_to_display_content == Some(WantsToDisplayContent {})
                } else {
                    world.entities@[f] == old(world).entities@[f]
                },
        decreases occ@.len() - q,
    {
        let ghost w0 = *world;
        let o = occ[q];
        let (is_fighter, is_item) = if o < n {
            match &world.entities[o] {
                Some(d) => (d.combat_stats.is_some(), d.item.is_some()),
                None => (false, false),
            }
        } else {
            (false, false)
        };
        proof {
            if o < n {
                assert(w0.entities@[o as int] == w0.entities@[o as int]);
                if old(world).live(o as int) {
                    assert(world.live(o as int));
                }
            }
        }
        proof {
            lemma_first_fighter_bounds(old(world), occ@, q as int + 1);
        }
        if is_fighter {
            assert(fighter(old(world), occ@, q as int));
            target = Some(o);
        } else {
            assert(!fighter(old(world), occ@, q as int));
            if is_item && o != p {
                request_display(world, o);
            }
        }
        proof {
            assert forall|f: int|
                #![trigger world.entities@[f]]
                0 <= f < n implies if shown_item(old(world), occ@, if target is None { q as int + 1 } else { k }, f) {
                    &&& world.live(f)
                    &&& same_but_step(old(world).ent(f), world.ent(f))
                    &&& world.ent(f).position == old(world).ent(f).position
                    &&& world.ent(f).viewshed == old(world).ent(f).viewshed
                    &&& world.ent(f).wants_to_melee == old(world).ent(f).wants_to_melee
                    &&& world.ent(f).wants_to_display_content == Some(WantsToDisplayContent {})
                } else {
                    world.entities@[f] == old(world).entities@[f]
                } by {
                assert(w0.entities@[f] == w0.entities@[f]);
                if is_fighter {
                    assert(k == q);
                } else {
                    if shown_item(old(world), occ@, q as int + 1, f) && !shown_item(old(world), occ@, q as int, f) {
                        let qq = choose|qq: int| 0 <= qq < q + 1 && qq < occ@.len() && occ@[qq] == f;
                        assert(qq == q);
                    }
                    if shown_item(old(world), occ@, q as int, f) {
                        let qq = choose|qq: int| 0 <= qq < q && qq < occ@.len() && occ@[qq] == f;
                        assert(shown_item(old(world), occ@, q as int + 1, f));
                    }
                }
            }
        }
        q = q + 1;
    }
    proof {
        if target is None {
            assert(q == occ@.len());
            assert(k == occ@.len());
        }
    }
    let ghost w1 = *world;
    proof {
        assert(w1.entities@[p as int] == old(world).entities@[p as int]);
        assert(old(world).live(p as int));
        assert(old(world).ent(p as int).in_range());
        assert(old(world).is_player(p as int) ==> p == old(world).player);
    }
    let blocked = map.blocked[idx];
    let slot = world.take(p);
    if let Some(mut d) = slot {
        match target {
            Some(t) => {
                d.wants_to_melee = Some(WantsToMelee { target: t });
            },
            None => {
                if !blocked {
                    d.position = Some(Position { x: x as i32, y: y as i32 });
                    let mut taken: Option<Viewshed> = None;
                    std::mem::swap(&mut taken, &mut d.viewshed);
                    if let Some(mut vs) = taken {
                        vs.dirty = true;
                        d.viewshed = Some(vs);
                    }
                }
            },
        }
        world.put(p, Some(d));
    }
    proof {
        assert forall|f: int|
            #![trigger world.entities@[f]]
            0 <= f < n && f != p implies world.entities@[f] == w1.entities@[f] by {}
    }
}

} // verus!

verus! {

/// The last of the first `n` entities that is an item lying at `pos`, or -1.
pub open spec fn last_item_at(w: &World, pos: Position, n: int) -> int
    decreases n,
{
    if n <= 0 {
        -1
    } else if w.live(n - 1) && w.ent(n - 1).item is Some && w.ent(n - 1).position == Some(pos) {
        n - 1
    } else {
        last_item_at(w, pos, n - 1)
    }
}

pub proof fn lemma_last_item_bounds(w: &World, pos: Position, n: int)
    requires
        0 <= n,
    ensures
        -1 <= last_item_at(w, pos, n) < n,
    decreases n,
{
    if n > 0 {
        lemma_last_item_bounds(w, pos, n - 1);
    }
}

/// `w1` is `w0` once the player has asked to pick up what lies under it: the
/// item found (the last one there) becomes the object of the player's pickup
/// intent; with none, the log says there is nothing to pick up.
pub open spec fn item_requested(w0: &World, w1: &World) -> bool {
    let p = w0.player as int;
    if w0.live(p) && w0.ent(p).position is Some {
        let t = last_item_at(w0, w0.ent(p).position->Some_0, w0.entities@.len() as int);
        if t >= 0 {
            &&& w1.log == w0.log
            &&& w1.entities@.len() == w0.entities@.len()
            &&& forall|e: int| #![trigger w1.entities@[e]] 0 <= e < w0.entities@.len() && e != p ==> w1.entities@[e] == w0.entities@[e]
            &&& w1.entities@[p] == Some(
                EntityData {
                    wants_to_pickup_item: Some(WantsToPickupItem { collected_by: p as usize, item: t as usize }),
                    ..w0.ent(p)
                },
            )
        } else {
            &&& w1.entities == w0.entities
            &&& w1.log@ == w0.log@.push(LogEntry::NothingToPickUp)
        }
    } else {
        w1.entities == w0.entities && w1.log == w0.log
    }
}

/// The player asks to pick up the item lying under it.
pub fn get_item(world: &mut World)
    requires
        old(world).wf(),
    ensures
        final(world).wf(),
        final(world).player == old(world).player,
        final(world).entities@.len() == old(world).entities@.len(),
        item_requested(old(world), final(world)),
{
    let p = world.player;
    let n = world.entities.len();
    if p >= n {
        return;
    }
    let pos = match &world.entities[p] {
        Some(d) => match d.position {
            Some(pos) => pos,
            None => {
                return;
            },
        },
        None => {
            return;
        },
    };
    let mut target: i64 = -1;
    let mut e: usize = 0;
    while e < n
        invariant
            world.wf(),
            n == world.entities@.len(),
            e <= n,
            target == last_item_at(world, pos, e as int),
        decreases n - e,
    {
        if let Some(d) = &world.entities[e] {
            if d.item.is_some() && d.position == Some(pos) {
                target = e as i64;
            }
        }
        e = e + 1;
    }
    proof {
        lemma_last_item_bounds(world, pos, n as int);
        assert(world.live(p as int));
        assert(world.ent(p as int).in_range());
    }
    if target < 0 {
        world.log_push(LogEntry::NothingToPickUp);
    } else {
        let slot = world.take(p);
        if let Some(mut d) = slot {
            d.wants_to_pickup_item = Some(WantsToPickupItem { collected_by: p, item: target as usize });
            world.put(p, Some(d));
        }
    }
}

/// `w1` and `r` are `w0` and the next state once the player's command
/// `key` is acted on, as `player_input` describes.
pub open spec fn input_applied(w0: &World, w1: &World, map: &DungeonMap, state: RunState, key: Option<Command>, r: RunState) -> bool {
    match key {
        None => r == RunState::AwaitingInput && w1 == w0,
        Some(Command::Other) => r == RunState::AwaitingInput && w1 == w0,
        Some(Command::Left) => r == RunState::PlayerTurn && player_moved(w0, w1, map, state, -1i32, 0i32),
        Some(Command::Right) => r == RunState::PlayerTurn && player_moved(w0, w1, map, state, 1, 0),
        Some(Command::Up) => r == RunState::PlayerTurn && player_moved(w0, w1, map, state, 0i32, -1i32),
        Some(Command::Down) => r == RunState::PlayerTurn && player_moved(w0, w1, map, state, 0, 1),
        Some(Command::PickUp) => r == RunState::PlayerTurn && item_requested(w0, w1),
        Some(Command::Inventory) => r == RunState::ShowInventory && w1 == w0,
        Some(Command::DropMenu) => r == RunState::ShowDropItem && w1 == w0,
        Some(Command::Character) => r == RunState::ShowCharacter && w1 == w0,
    }
}

/// Turns one command into an action of the player and picks the next state:
/// no command waits for one; a move or a pickup is attempted and hands the
/// turn to the player; a menu command opens that menu; any other command is
/// ignored.
pub fn player_input(world: &mut World, map: &DungeonMap, state: RunState, key: Option<Command>) -> (r: RunState)
    requires
        old(world).wf(),
        map.wf(),
    ensures
        final(world).wf(),
        final(world).player == old(world).player,
        final(world).entities@.len() == old(world).entities@.len(),
        input_applied(old(world), final(world), map, state, key, r),
{
    match key {
        None => RunState::AwaitingInput,
        Some(Command::Left) => {
            try_move_player(world, map, state, -1, 0);
            RunState::PlayerTurn
        },
        Some(Command::Right) => {
            try_move_player(world, map, state, 1, 0);
            RunState::PlayerTurn
        },
        Some(Command::Up) => {
            try_move_player(world, map, state, 0, -1);
            RunState::PlayerTurn
        },
        Some(Command::Down) => {
            try_move_player(world, map, state, 0, 1);
            RunState::PlayerTurn
        },
        Some(Command::PickUp) => {
            get_item(world);
            RunState::PlayerTurn
        },
        Some(Command::Inventory) => RunState::ShowInventory,
        Some(Command::DropMenu) => RunState::ShowDropItem,
        Some(Command::Character) => RunState::ShowCharacter,
        Some(Command::Other) => RunState::AwaitingInput,
    }
}

} // verus!
