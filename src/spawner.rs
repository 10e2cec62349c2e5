use vstd::prelude::*;
use crate::components::{
    BlocksTile, CombatStats, HealEffect, Item, Monster, Name, Player, Position, Renderable, Viewshed,
};
use crate::rect::Rect;
use crate::rng::{cp437, roll_die};
use crate::world::{EntityData, World, MAX_ENTITIES};
use bracket_lib::random::RandomNumberGenerator;

verus! {

pub const BASE_BG_COLOR: u32 = 0x1D2021;
pub const PLAYER_COLOR: u32 = 0xFB4934;
pub const BROWN_SHIRT_COLOR: u32 = 0xD65D0E;
pub const PURPLE_COLOR: u32 = 0xD3869B;

/// At most this many monsters, less two, are placed in a room.
pub const MAX_MONSTERS_PER_ROOM: i32 = 4;

/// At most this many items, less two, are placed in a room.
pub const MAX_ITEMS_PER_ROOM: i32 = 2;

/// Draws of a free spot for one spawn before giving up on it.
pub const SPAWN_TRIES: u32 = 100;

/// Creates the player at `(x, y)` and records it as the player.
pub fn spawn_player(world: &mut World, x: i32, y: i32) -> (r: usize)
    requires
        old(world).wf(),
        old(world).entities@.len() < MAX_ENTITIES,
        !old(world).is_player(old(world).player as int),
    ensures
        final(world).wf(),
        r == old(world).entities@.len(),
        final(world).player == r,
        final(world).log == old(world).log,
        final(world).entities@.len() == r + 1,
        forall|e: int| 0 <= e < r ==> #[trigger] final(world).entities@[e] == old(world).entities@[e],
        final(world).is_player(r as int),
        final(world).ent(r as int).blocks_tile is None,
        final(world).ent(r as int).monster is None,
        final(world).ent(r as int).item is None,
        final(world).ent(r as int).position == Some(Position { x, y }),
        final(world).ent(r as int).combat_stats == Some(
            CombatStats {
                max_hp: 30,
                hp: 30,
                attack: 5,
                defense: 2,
                strength: 1,
                agility: 1,
                vitality: 6,
                magic: 1,
                level: 1,
                exp: 0,
            },
        ),
        final(world).ent(r as int).viewshed matches Some(v) && v.visible_tiles@.len() == 0 && v.range == 8 && v.dirty,
{
    let mut d = EntityData::empty();
    d.position = Some(Position { x, y });
    d.renderable = Some(Renderable { glyph: cp437('@'), fg: PLAYER_COLOR, bg: BASE_BG_COLOR, render_order: 0 });
    d.player = Some(Player {});
    d.viewshed = Some(Viewshed { visible_tiles: Vec::new(), range: 8, dirty: true });
    d.name = Some(Name { name: "Player".to_string() });
    d.combat_stats = Some(
        CombatStats {
            max_hp: 30,
            hp: 30,
            attack: 5,
            defense: 2,
            strength: 1,
            agility: 1,
            vitality: 6,
            magic: 1,
            level: 1,
            exp: 0,
        },
    );
    let r = world.entities.len();
    world.entities.push(Some(d));
    world.player = r;
    proof {
        assert forall|e: int| #[trigger] world.live(e) implies world.ent(e).in_range() by {
            if e < r {
                assert(old(world).live(e));
            }
        }
        assert forall|e: int| #[trigger] world.is_player(e) implies e == world.player by {
            if e < r {
                assert(old(world).is_player(e));
            }
        }
    }
    r
}

/// The statistics every monster starts with.
pub open spec fn monster_stats() -> CombatStats {
    CombatStats {
        max_hp: 15,
        hp: 15,
        attack: 4,
        defense: 1,
        strength: 1,
        agility: 1,
        vitality: 3,
        magic: 1,
        level: 1,
        exp: 0,
    }
}

/// The entity is a monster that blocks its tile, fights with the standard
/// statistics, and has an unexplored viewshed of range 6.
pub open spec fn is_new_monster(d: EntityData, x: i32, y: i32) -> bool {
    &&& d.position == Some(Position { x, y })
    &&& d.monster is Some
    &&& d.blocks_tile is Some
    &&& d.player is None
    &&& d.combat_stats == Some(monster_stats())
    &&& d.viewshed matches Some(v) && v.visible_tiles@.len() == 0 && v.range == 6 && v.dirty
}

/// The entity is a health potion that heals 8.
pub open spec fn is_new_potion(d: EntityData, x: i32, y: i32) -> bool {
    &&& d.position == Some(Position { x, y })
    &&& d.item is Some
    &&& d.monster is None
    &&& d.player is None
    &&& d.heal_effect == Some(HealEffect { amount: 8 })
}

fn monster(world: &mut World, x: i32, y: i32, glyph: u16, name: String)
    requires
        old(world).wf(),
        old(world).entities@.len() < MAX_ENTITIES,
    ensures
        final(world).wf(),
        final(world).player == old(world).player,
        final(world).log == old(world).log,
        final(world).entities@.len() == old(world).entities@.len() + 1,
        final(world).entities@.drop_last() == old(world).entities@,
        final(world).live(old(world).entities@.len() as int),
        is_new_monster(final(world).ent(old(world).entities@.len() as int), x, y),
{
    let mut d = EntityData::empty();
    d.position = Some(Position { x, y });
    d.renderable = Some(Renderable { glyph, fg: BROWN_SHIRT_COLOR, bg: BASE_BG_COLOR, render_order: 1 });
    d.viewshed = Some(Viewshed { visible_tiles: Vec::new(), range: 6, dirty: true });
    d.monster = Some(Monster {});
    d.name = Some(Name { name });
    d.combat_stats = Some(
        CombatStats {
            max_hp: 15,
            hp: 15,
            attack: 4,
            defense: 1,
            strength: 1,
            agility: 1,
            vitality: 3,
            magic: 1,
            level: 1,
            exp: 0,
        },
    );
    d.blocks_tile = Some(BlocksTile {});
    world.create_entity(d);
    proof {
        assert(world.entities@.drop_last() =~= old(world).entities@);
    }
}

fn skeleton(world: &mut World, x: i32, y: i32)
    requires
        old(world).wf(),
        old(world).entities@.len() < MAX_ENTITIES,
    ensures
        final(world).wf(),
        final(world).player == old(world).player,
        final(world).log == old(world).log,
        final(world).entities@.len() == old(world).entities@.len() + 1,
        final(world).entities@.drop_last() == old(world).entities@,
        final(world).live(old(world).entities@.len() as int),
        is_new_monster(final(world).ent(old(world).entities@.len() as int), x, y),
{
    monster(world, x, y, cp437('s'), "Skeleton".to_string());
}

fn goblin(world: &mut World, x: i32, y: i32)
    requires
        old(world).wf(),
        old(world).entities@.len() < MAX_ENTITIES,
    ensures
        final(world).wf(),
        final(world).player == old(world).player,
        final(world).log == old(world).log,
        final(world).entities@.len() == old(world).entities@.len() + 1,
        final(world).entities@.drop_last() == old(world).entities@,
        final(world).live(old(world).entities@.len() as int),
        is_new_monster(final(world).ent(old(world).entities@.len() as int), x, y),
{
    monster(world, x, y, cp437('g'), "Goblin".to_string());
}

/// A skeleton or a goblin, evenly at random.
fn random_monster(world: &mut World, rng: &mut RandomNumberGenerator, x: i32, y: i32)
    requires
        old(world).wf(),
        old(world).entities@.len() < MAX_ENTITIES,
    ensures
        final(world).wf(),
        final(world).player == old(world).player,
        final(world).log == old(world).log,
        final(world).entities@.len() == old(world).entities@.len() + 1,
        final(world).entities@.drop_last() == old(world).entities@,
        final(world).live(old(world).entities@.len() as int),
        is_new_monster(final(world).ent(old(world).entities@.len() as int), x, y),
{
    if roll_die(rng, 2) == 1 {
        skeleton(world, x, y);
    } else {
        goblin(world, x, y);
    }
}

fn health_potion(world: &mut World, x: i32, y: i32)
    requires
        old(world).wf(),
        old(world).entities@.len() < MAX_ENTITIES,
    ensures
        final(world).wf(),
        final(world).player == old(world).player,
        final(world).log == old(world).log,
        final(world).entities@.len() == old(world).entities@.len() + 1,
        final(world).entities@.drop_last() == old(world).entities@,
        final(world).live(old(world).entities@.len() as int),
        is_new_potion(final(world).ent(old(world).entities@.len() as int), x, y),
{
    let mut d = EntityData::empty();
    d.position = Some(Position { x, y });
    d.renderable = Some(Renderable { glyph: cp437('i'), fg: PURPLE_COLOR, bg: BASE_BG_COLOR, render_order: 2 });
    d.name = Some(Name { name: "Health Potion".to_string() });
    d.item = Some(Item {});
    d.heal_effect = Some(HealEffect { amount: 8 });
    world.create_entity(d);
    proof {
        assert(world.entities@.drop_last() =~= old(world).entities@);
    }
}

} // verus!

verus! {

/// The point lies in the carved inside of the room.
pub open spec fn inside(room: Rect, p: Position) -> bool {
    room.x1 < p.x <= room.x2 && room.y1 < p.y <= room.y2
}

/// Draws up to `count` distinct points inside the room; a point that keeps
/// landing on spots already taken is given up after `SPAWN_TRIES` draws.
fn spawn_points(rng: &mut RandomNumberGenerator, room: &Rect, count: i32) -> (r: Vec<Position>)
    requires
        0 <= room.x1 < room.x2 < i32::MAX,
        0 <= room.y1 < room.y2 < i32::MAX,
    ensures
        r@.len() <= if count < 0 { 0 } else { count as int },
        forall|k: int| 0 <= k < r@.len() ==> inside(*room, #[trigger] r@[k]),
        forall|k: int, q: int| 0 <= k < q < r@.len() ==> r@[k] != r@[q],
{
    let mut points: Vec<Position> = Vec::new();
    let mut i: i32 = 0;
    while i < count
        invariant
            0 <= room.x1 < room.x2 < i32::MAX,
            0 <= room.y1 < room.y2 < i32::MAX,
            0 <= i,
            count >= 0 ==> i <= count,
            count < 0 ==> i == 0,
            points@.len() <= i,
            forall|k: int| 0 <= k < points@.len() ==> inside(*room, #[trigger] points@[k]),
            forall|k: int, q: int| 0 <= k < q < points@.len() ==> points@[k] != points@[q],
        decreases count - i,
    {
        let mut tries: u32 = 0;
        let mut placed = false;
        while tries < SPAWN_TRIES && !placed
            invariant
                0 <= room.x1 < room.x2 < i32::MAX,
                0 <= room.y1 < room.y2 < i32::MAX,
                points@.len() <= i + if placed { 1int } else { 0 },
                forall|k: int| 0 <= k < points@.len() ==> inside(*room, #[trigger] points@[k]),
                forall|k: int, q: int| 0 <= k < q < points@.len() ==> points@[k] != points@[q],
            decreases SPAWN_TRIES - tries,
        {
            let x = room.x1 + roll_die(rng, room.x2 - room.x1);
            let y = room.y1 + roll_die(rng, room.y2 - room.y1);
            let p = Position { x, y };
            let mut taken = false;
            let mut k: usize = 0;
            while k < points.len()
                invariant
                    k <= points@.len(),
                    taken == exists|q: int| 0 <= q < k && points@[q] == p,
                decreases points@.len() - k,
            {
                if points[k] == p {
                    taken = true;
                }
                k = k + 1;
            }
            if !taken {
                points.push(p);
                placed = true;
            }
            tries = tries + 1;
        }
        i = i + 1;
    }
    points
}

/// Places the monsters and potions of one room: up to three monsters and up
/// to one potion, each on a distinct spot among its kind inside the room.
pub fn spawn_room_contents(world: &mut World, rng: &mut RandomNumberGenerator, room: &Rect)
    requires
        old(world).wf(),
        old(world).entities@.len() + 8 <= MAX_ENTITIES,
        0 <= room.x1 < room.x2 < i32::MAX,
        0 <= room.y1 < room.y2 < i32::MAX,
    ensures
        final(world).wf(),
        final(world).player == old(world).player,
        final(world).log == old(world).log,
        old(world).entities@.len() <= final(world).entities@.len() <= old(world).entities@.len() + 4,
        final(world).entities@.subrange(0, old(world).entities@.len() as int) == old(world).entities@,
        forall|e: int|
            old(world).entities@.len() <= e < final(world).entities@.len() ==> {
                let d = #[trigger] final(world).ent(e);
                &&& final(world).live(e)
                &&& d.position is Some
                &&& inside(*room, d.position->Some_0)
                &&& (is_new_monster(d, d.position->Some_0.x, d.position->Some_0.y) || is_new_potion(
                    d,
                    d.position->Some_0.x,
                    d.position->Some_0.y,
                ))
            },
        forall|e: int, f: int|
            old(world).entities@.len() <= e < f < final(world).entities@.len() && (#[trigger] final(world).ent(e)).monster
                == (#[trigger] final(world).ent(f)).monster ==> final(world).ent(e).position != final(world).ent(
                f,
            ).position,
{
    let num_monsters = roll_die(rng, MAX_MONSTERS_PER_ROOM + 2) - 3;
    let num_items = roll_die(rng, MAX_ITEMS_PER_ROOM + 2) - 3;
    let monster_spots = spawn_points(rng, room, num_monsters);
    let item_spots = spawn_points(rng, room, num_items);
    let base = world.entities.len();
    let mut k: usize = 0;
    while k < monster_spots.len()
        invariant
            world.wf(),
            world.player == old(world).player,
            world.log == old(world).log,
            base == old(world).entities@.len(),
            base + 8 <= MAX_ENTITIES,
            monster_spots@.len() <= 3,
            k <= monster_spots@.len(),
            world.entities@.len() == base + k,
            world.entities@.subrange(0, base as int) == old(world).entities@,
            forall|q: int| 0 <= q < monster_spots@.len() ==> inside(*room, #[trigger] monster_spots@[q]),
            forall|e: int|
                base <= e < world.entities@.len() ==> world.live(e) && is_new_monster(
                    #[trigger] world.ent(e),
                    monster_spots@[e - base].x,
                    monster_spots@[e - base].y,
                ),
        decreases monster_spots@.len() - k,
    {
        let p = monster_spots[k];
        let ghost w0 = *world;
        random_monster(world, rng, p.x, p.y);
        proof {
            assert(world.entities@.subrange(0, base as int) =~= w0.entities@.subrange(0, base as int));
            assert forall|e: int| base <= e < world.entities@.len() implies world.live(e) && is_new_monster(
                #[trigger] world.ent(e),
                monster_spots@[e - base].x,
                monster_spots@[e - base].y,
            ) by {
                if e < world.entities@.len() - 1 {
                    assert(world.entities@[e] == world.entities@.drop_last()[e]);
                    assert(w0.live(e) && is_new_monster(w0.ent(e), monster_spots@[e - base].x, monster_spots@[e - base].y));
                }
            }
        }
        k = k + 1;
    }
    let mid = world.entities.len();
    let mut k2: usize = 0;
    while k2 < item_spots.len()
        invariant
            world.wf(),
            world.player == old(world).player,
            world.log == old(world).log,
            base == old(world).entities@.len(),
            mid == base + monster_spots@.len(),
            mid + 5 <= MAX_ENTITIES,
            item_spots@.len() <= 1,
            k2 <= item_spots@.len(),
            world.entities@.len() == mid + k2,
            world.entities@.subrange(0, base as int) == old(world).entities@,
            forall|q: int| 0 <= q < monster_spots@.len() ==> inside(*room, #[trigger] monster_spots@[q]),
            forall|q: int| 0 <= q < item_spots@.len() ==> inside(*room, #[trigger] item_spots@[q]),
            forall|e: int|
                base <= e < mid ==> world.live(e) && is_new_monster(
                    #[trigger] world.ent(e),
                    monster_spots@[e - base].x,
                    monster_spots@[e - base].y,
                ),
            forall|e: int|
                mid <= e < world.entities@.len() ==> world.live(e) && is_new_potion(
                    #[trigger] world.ent(e),
                    item_spots@[e - mid].x,
                    item_spots@[e - mid].y,
                ),
        decreases item_spots@.len() - k2,
    {
        let p = item_spots[k2];
        let ghost w0 = *world;
        health_potion(world, p.x, p.y);
        proof {
            assert(world.entities@.subrange(0, base as int) =~= w0.entities@.subrange(0, base as int));
            assert forall|e: int| base <= e < mid implies world.live(e) && is_new_monster(
                #[trigger] world.ent(e),
                monster_spots@[e - base].x,
                monster_spots@[e - base].y,
            ) by {
                assert(world.entities@[e] == world.entities@.drop_last()[e]);
                assert(w0.live(e) && is_new_monster(w0.ent(e), monster_spots@[e - base].x, monster_spots@[e - base].y));
            }
            assert forall|e: int| mid <= e < world.entities@.len() implies world.live(e) && is_new_potion(
                #[trigger] world.ent(e),
                item_spots@[e - mid].x,
                item_spots@[e - mid].y,
            ) by {
                if e < world.entities@.len() - 1 {
                    assert(world.entities@[e] == world.entities@.drop_last()[e]);
                    assert(w0.live(e) && is_new_potion(w0.ent(e), item_spots@[e - mid].x, item_spots@[e - mid].y));
                }
            }
        }
        k2 = k2 + 1;
    }
    proof {
        assert forall|e: int|
            old(world).entities@.len() <= e < world.entities@.len() implies {
                let d = #[trigger] world.ent(e);
                &&& world.live(e)
                &&& d.position is Some
                &&& inside(*room, d.position->Some_0)
                &&& (is_new_monster(d, d.position->Some_0.x, d.position->Some_0.y) || is_new_potion(
                    d,
                    d.position->Some_0.x,
                    d.position->Some_0.y,
                ))
            } by {
            if e < mid {
                assert(inside(*room, monster_spots@[e - base]));
            } else {
                assert(inside(*room, item_spots@[e - mid]));
            }
        }
        assert forall|e: int, f: int|
            old(world).entities@.len() <= e < f < world.entities@.len() && (#[trigger] world.ent(e)).monster
                == (#[trigger] world.ent(f)).monster implies world.ent(e).position != world.ent(f).position by {
            if f < mid {
                assert(monster_spots@[e - base] != monster_spots@[f - base]);
            } else if e >= mid {
                assert(item_spots@[e - mid] != item_spots@[f - mid]);
            } else {
                assert(world.ent(e).monster is Some);
            }
        }
    }
}

} // verus!
