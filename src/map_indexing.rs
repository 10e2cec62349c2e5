use vstd::prelude::*;
use crate::map::{DungeonMap, TileType};
use crate::world::World;

verus! {

/// Entity `e` is alive, has a position on the map, and that position is tile `i`.
pub open spec fn stands_at(w: &World, m: &DungeonMap, e: int, i: int) -> bool {
    &&& w.live(e)
    &&& w.ent(e).position is Some
    &&& m.in_bounds(w.ent(e).position->Some_0.x as int, w.ent(e).position->Some_0.y as int)
    &&& m.idx(w.ent(e).position->Some_0.x as int, w.ent(e).position->Some_0.y as int) == i
}

/// The entities among the first `n` that stand on tile `i`, in order.
pub open spec fn occupants(w: &World, m: &DungeonMap, i: int, n: int) -> Seq<usize>
    decreases n,
{
    if n <= 0 {
        Seq::empty()
    } else {
        occupants(w, m, i, n - 1) + if stands_at(w, m, n - 1, i) {
            seq![(n - 1) as usize]
        } else {
            Seq::empty()
        }
    }
}

/// One of the first `n` entities stands on tile `i` and blocks movement.
pub open spec fn blocker_upto(w: &World, m: &DungeonMap, i: int, n: int) -> bool {
    exists|e: int| 0 <= e < n && #[trigger] stands_at(w, m, e, i) && w.ent(e).blocks_tile is Some
}

/// `after` is `before` with its blocking and occupant grids rebuilt from `w`:
/// a tile is blocked when it is a wall or a blocking entity stands on it, and
/// its occupants are the entities standing on it, in order of identity.
pub open spec fn indexed(w: &World, before: &DungeonMap, after: &DungeonMap) -> bool {
    &&& after.wf()
    &&& after.tiles == before.tiles
    &&& after.rooms == before.rooms
    &&& after.width == before.width
    &&& after.height == before.height
    &&& after.revealed_tiles == before.revealed_tiles
    &&& after.visible_tiles == before.visible_tiles
    &&& forall|i: int|
        0 <= i < after.len() ==> #[trigger] after.blocked@[i] == (after.tiles@[i] == TileType::Wall
            || blocker_upto(w, after, i, w.entities@.len() as int))
    &&& forall|i: int|
        0 <= i < after.len() ==> (#[trigger] after.tile_content@[i])@ == occupants(
            w,
            after,
            i,
            w.entities@.len() as int,
        )
}

/// Rebuilding the blocking and occupant grids twice in a row, with no entity
/// moving in between, gives the same grids as doing it once.
pub proof fn lemma_indexing_idempotent(w: &World, m0: &DungeonMap, m1: &DungeonMap, m2: &DungeonMap)
    requires
        indexed(w, m0, m1),
        indexed(w, m1, m2),
    ensures
        m2.blocked@ == m1.blocked@,
        forall|i: int| 0 <= i < m2.len() ==> (#[trigger] m2.tile_content@[i])@ == m1.tile_content@[i]@,
        m2.tiles == m1.tiles,
        m2.revealed_tiles == m1.revealed_tiles,
        m2.visible_tiles == m1.visible_tiles,
{
    assert forall|i: int| 0 <= i < m2.len() implies #[trigger] m2.blocked@[i] == m1.blocked@[i] by {
        lemma_same_dims(w, m1, m2, i, w.entities@.len() as int);
    }
    assert(m2.blocked@ =~= m1.blocked@);
    assert forall|i: int| 0 <= i < m2.len() implies (#[trigger] m2.tile_content@[i])@ == m1.tile_content@[i]@ by {
        lemma_same_dims(w, m1, m2, i, w.entities@.len() as int);
    }
}

proof fn lemma_same_dims(w: &World, m1: &DungeonMap, m2: &DungeonMap, i: int, n: int)
    requires
        m1.width == m2.width,
        m1.height == m2.height,
    ensures
        occupants(w, m1, i, n) == occupants(w, m2, i, n),
        blocker_upto(w, m1, i, n) == blocker_upto(w, m2, i, n),
    decreases n,
{
    if n > 0 {
        lemma_same_dims(w, m1, m2, i, n - 1);
    }
    assert forall|e: int| stands_at(w, m1, e, i) == stands_at(w, m2, e, i) by {}
}

pub struct MapIndexingSystem {}

impl MapIndexingSystem {
    /// Rebuilds the map's blocking and occupant grids from the entities'
    /// current positions.
    pub fn run(&mut self, world: &World, map: &mut DungeonMap)
        requires
            old(map).wf(),
        ensures
            indexed(world, old(map), final(map)),
    {
        map.populate_blocked();
        map.clear_content();
        let ghost m0 = *map;
        let n = world.entities.len();
        let mut j: usize = 0;
        while j < n
            invariant
                map.wf(),
                n == world.entities@.len(),
                j <= n,
                map.tiles == old(map).tiles,
                map.rooms == old(map).rooms,
                map.width == old(map).width,
                map.height == old(map).height,
                map.revealed_tiles == old(map).revealed_tiles,
                map.visible_tiles == old(map).visible_tiles,
                forall|i: int|
                    0 <= i < map.len() ==> #[trigger] map.blocked@[i] == (map.tiles@[i] == TileType::Wall
                        || blocker_upto(world, map, i, j as int)),
                forall|i: int| 0 <= i < map.len() ==> (#[trigger] map.tile_content@[i])@ == occupants(world, map, i, j as int),
            decreases n - j,
        {
            let ghost before = *map;
            proof {
                assert forall|i: int| 0 <= i < map.len() implies blocker_upto(world, map, i, j as int + 1) == (
                blocker_upto(world, map, i, j as int) || (stands_at(world, map, j as int, i) && world.ent(
                    j as int,
                ).blocks_tile is Some)) by {
                    if blocker_upto(world, map, i, j as int + 1) {
                        let e = choose|e: int|
                            0 <= e < j + 1 && #[trigger] stands_at(world, map, e, i) && world.ent(e).blocks_tile is Some;
                        if e < j {
                            assert(blocker_upto(world, map, i, j as int));
                        }
                    }
                    if blocker_upto(world, map, i, j as int) {
                        let e = choose|e: int|
                            0 <= e < j && #[trigger] stands_at(world, map, e, i) && world.ent(e).blocks_tile is Some;
                        assert(blocker_upto(world, map, i, j as int + 1));
                    }
                }
            }
            if let Some(d) = &world.entities[j] {
                if let Some(pos) = d.position {
                    if 0 <= pos.x && pos.x < map.width && 0 <= pos.y && pos.y < map.height {
                        let idx = map.xy_idx(pos.x, pos.y);
                        if d.blocks_tile.is_some() {
                            map.blocked.set(idx, true);
                        }
                        let mut cell = Vec::new();
                        std::mem::swap(&mut cell, &mut map.tile_content[idx]);
                        cell.push(j);
                        std::mem::swap(&mut cell, &mut map.tile_content[idx]);
                    }
                }
            }
            proof {
                assert forall|i: int| 0 <= i < map.len() implies (#[trigger] map.tile_content@[i])@ == occupants(
                    world,
                    map,
                    i,
                    j as int + 1,
                ) by {
                    lemma_same_dims(world, &before, map, i, j as int);
                }
                assert forall|i: int| 0 <= i < map.len() implies #[trigger] map.blocked@[i] == (map.tiles@[i]
                    == TileType::Wall || blocker_upto(world, map, i, j as int + 1)) by {
                    lemma_same_dims(world, &before, map, i, j as int);
                    lemma_same_dims(world, &before, map, i, j as int + 1);
                }
            }
            j = j + 1;
        }
    }
}

} // verus!
