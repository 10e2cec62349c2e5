use vstd::prelude::*;
use crate::components::{Position, Viewshed};
use crate::map::DungeonMap;
use crate::world::{EntityData, World};

verus! {

impl DungeonMap {
    pub open spec fn holds_point(&self, p: Position) -> bool {
        self.in_bounds(p.x as int, p.y as int)
    }

    /// Some point of `pts` is the tile `i`.
    pub open spec fn marks(&self, pts: Seq<Position>, i: int) -> bool {
        exists|k: int| 0 <= k < pts.len() && self.idx(pts[k].x as int, pts[k].y as int) == i
    }
}

/// The points of `pts` that lie on the map, in order.
pub open spec fn on_map(m: &DungeonMap, pts: Seq<Position>) -> Seq<Position> {
    pts.filter(|p: Position| m.holds_point(p))
}

pub proof fn lemma_on_map_dims(m1: &DungeonMap, m2: &DungeonMap, pts: Seq<Position>)
    requires
        m1.width == m2.width,
        m1.height == m2.height,
    ensures
        on_map(m1, pts) == on_map(m2, pts),
{
    assert((|p: Position| m1.holds_point(p)) =~= (|p: Position| m2.holds_point(p)));
}

/// The player's view memory after a fresh field of view `seen` (all of whose
/// points lie on the map): exactly the tiles of `seen` are visible, and they
/// join what was already revealed.
pub open spec fn player_view_updated(before: &DungeonMap, after: &DungeonMap, seen: Seq<Position>) -> bool {
    &&& after.wf()
    &&& after.tiles == before.tiles
    &&& after.rooms == before.rooms
    &&& after.width == before.width
    &&& after.height == before.height
    &&& after.blocked == before.blocked
    &&& after.tile_content == before.tile_content
    &&& forall|i: int| 0 <= i < after.len() ==> #[trigger] after.visible_tiles@[i] == after.marks(seen, i)
    &&& forall|i: int|
        0 <= i < after.len() ==> #[trigger] after.revealed_tiles@[i] == (before.revealed_tiles@[i]
            || after.visible_tiles@[i])
}

/// Keeps the points of `pts` that lie on the map.
pub fn retain_on_map(map: &DungeonMap, pts: &Vec<Position>) -> (r: Vec<Position>)
    ensures
        r@ == on_map(map, pts@),
        forall|k: int| 0 <= k < r@.len() ==> map.holds_point(#[trigger] r@[k]),
{
    let mut r: Vec<Position> = Vec::new();
    let mut k: usize = 0;
    while k < pts.len()
        invariant
            k <= pts@.len(),
            r@ == on_map(map, pts@.take(k as int)),
        decreases pts@.len() - k,
    {
        let p = pts[k];
        proof {
            assert(pts@.take(k as int + 1).drop_last() =~= pts@.take(k as int));
            reveal(Seq::filter);
        }
        if 0 <= p.x && p.x < map.width && 0 <= p.y && p.y < map.height {
            r.push(p);
        }
        k = k + 1;
    }
    proof {
        assert(pts@.take(pts@.len() as int) =~= pts@);
        assert forall|k: int| 0 <= k < r@.len() implies map.holds_point(#[trigger] r@[k]) by {
            pts@.lemma_filter_pred(|p: Position| map.holds_point(p), k);
        }
    }
    r
}

/// Makes exactly the tiles of `seen` visible and reveals them, keeping what
/// was revealed before.
pub fn show_to_player(map: &mut DungeonMap, seen: &Vec<Position>)
    requires
        old(map).wf(),
        forall|k: int| 0 <= k < seen@.len() ==> old(map).holds_point(#[trigger] seen@[k]),
    ensures
        player_view_updated(old(map), final(map), seen@),
{
    let n = map.visible_tiles.len();
    let mut i: usize = 0;
    while i < n
        invariant
            map.wf(),
            n == map.len(),
            i <= n,
            map.tiles == old(map).tiles,
            map.rooms == old(map).rooms,
            map.width == old(map).width,
            map.height == old(map).height,
            map.blocked == old(map).blocked,
            map.tile_content == old(map).tile_content,
            map.revealed_tiles == old(map).revealed_tiles,
            forall|j: int| 0 <= j < i ==> !(#[trigger] map.visible_tiles@[j]),
        decreases n - i,
    {
        map.visible_tiles.set(i, false);
        i = i + 1;
    }
    let mut k: usize = 0;
    while k < seen.len()
        invariant
            map.wf(),
            n == map.len(),
            k <= seen@.len(),
            forall|q: int| 0 <= q < seen@.len() ==> map.holds_point(#[trigger] seen@[q]),
            map.tiles == old(map).tiles,
            map.rooms == old(map).rooms,
            map.width == old(map).width,
            map.height == old(map).height,
            map.blocked == old(map).blocked,
            map.tile_content == old(map).tile_content,
            forall|j: int| 0 <= j < n ==> #[trigger] map.visible_tiles@[j] == map.marks(seen@.take(k as int), j),
            forall|j: int|
                0 <= j < n ==> #[trigger] map.revealed_tiles@[j] == (old(map).revealed_tiles@[j]
                    || map.visible_tiles@[j]),
        decreases seen@.len() - k,
    {
        let p = seen[k];
        assert(map.holds_point(seen@[k as int]));
        let idx = map.xy_idx(p.x, p.y);
        map.revealed_tiles.set(idx, true);
        map.visible_tiles.set(idx, true);
        proof {
            let s1 = seen@.take(k as int + 1);
            let s0 = seen@.take(k as int);
            assert forall|j: int| 0 <= j < n implies #[trigger] map.visible_tiles@[j] == map.marks(s1, j) by {
                if map.marks(s0, j) {
                    let q = choose|q: int| 0 <= q < s0.len() && map.idx(s0[q].x as int, s0[q].y as int) == j;
                    assert(s1[q] == s0[q]);
                }
                if map.marks(s1, j) {
                    let q = choose|q: int| 0 <= q < s1.len() && map.idx(s1[q].x as int, s1[q].y as int) == j;
                    if q < k {
                        assert(s1[q] == s0[q]);
                    }
                }
                if j == idx {
                    assert(s1[k as int] == p);
                }
            }
        }
        k = k + 1;
    }
    proof {
        assert(seen@.take(seen@.len() as int) =~= seen@);
    }
}

/// The entity has a viewshed marked for recomputation, and a position.
pub open spec fn needs_view(d: EntityData) -> bool {
    d.position is Some && (d.viewshed matches Some(v) && v.dirty)
}

/// `after` is `before` with its viewshed recomputed from the field of view
/// `fov`: the points of `fov` on the map, and no longer marked.
pub open spec fn view_refreshed(m: &DungeonMap, before: EntityData, after: EntityData, fov: Seq<Position>) -> bool {
    &&& after.viewshed is Some
    &&& after.viewshed->Some_0.visible_tiles@ == on_map(m, fov)
    &&& after.viewshed->Some_0.range == before.viewshed->Some_0.range
    &&& !after.viewshed->Some_0.dirty
    &&& after.position == before.position
    &&& after.renderable == before.renderable
    &&& after.name == before.name
    &&& after.player == before.player
    &&& after.monster == before.monster
    &&& after.item == before.item
    &&& after.blocks_tile == before.blocks_tile
    &&& after.consumable == before.consumable
    &&& after.combat_stats == before.combat_stats
    &&& after.heal_effect == before.heal_effect
    &&& after.in_backpack == before.in_backpack
    &&& after.suffer_damage == before.suffer_damage
    &&& after.wants_to_melee == before.wants_to_melee
    &&& after.wants_to_pickup_item == before.wants_to_pickup_item
    &&& after.wants_to_drop_item == before.wants_to_drop_item
    &&& after.wants_to_drink_potion == before.wants_to_drink_potion
    &&& after.wants_to_display_content == before.wants_to_display_content
}

/// The entities whose viewshed must be recomputed this turn, in order of
/// identity.
pub fn dirty_viewsheds(world: &World) -> (r: Vec<usize>)
    ensures
        forall|k: int| 0 <= k < r@.len() ==> world.live(#[trigger] r@[k] as int) && needs_view(world.ent(r@[k] as int)),
        forall|e: int| world.live(e) && needs_view(world.ent(e)) ==> r@.contains(e as usize),
        forall|k: int, q: int| 0 <= k < q < r@.len() ==> r@[k] < r@[q],
{
    let mut r: Vec<usize> = Vec::new();
    let n = world.entities.len();
    let mut e: usize = 0;
    while e < n
        invariant
            n == world.entities@.len(),
            e <= n,
            forall|k: int| 0 <= k < r@.len() ==> world.live(#[trigger] r@[k] as int) && needs_view(world.ent(r@[k] as int)),
            forall|k: int| 0 <= k < r@.len() ==> #[trigger] r@[k] < e,
            forall|f: int| 0 <= f < e && world.live(f) && needs_view(world.ent(f)) ==> r@.contains(f as usize),
            forall|k: int, q: int| 0 <= k < q < r@.len() ==> r@[k] < r@[q],
        decreases n - e,
    {
        if let Some(d) = &world.entities[e] {
            let dirty = match &d.viewshed {
                Some(v) => v.dirty,
                None => false,
            };
            if dirty && d.position.is_some() {
                let ghost r0 = r@;
                r.push(e);
                proof {
                    assert forall|f: int| 0 <= f < e + 1 && world.live(f) && needs_view(world.ent(f)) implies r@.contains(
                        f as usize,
                    ) by {
                        if f < e {
                            let k = choose|k: int| 0 <= k < r0.len() && r0[k] == f as usize;
                            assert(r@[k] == f as usize);
                        } else {
                            assert(r@[r0.len() as int] == e);
                        }
                    }
                }
            }
        }
        e = e + 1;
    }
    r
}

/// `w1` and `m1` are `w0` and `m0` once the viewsheds are refreshed from `fovs`,
/// as `VisibilitySystem::run` describes.
pub open spec fn views_refreshed(w0: &World, w1: &World, m0: &DungeonMap, m1: &DungeonMap, fovs: Seq<Vec<Position>>) -> bool {
    &&& w1.wf()
    &&& w1.player == w0.player
    &&& w1.log == w0.log
    &&& w1.entities@.len() == w0.entities@.len()
    &&& forall|e: int|
            #![trigger w1.entities@[e]]
            0 <= e < w0.entities@.len() ==> if w0.live(e) && needs_view(w0.ent(e)) {
                w1.live(e) && view_refreshed(m0, w0.ent(e), w1.ent(e), fovs[e]@)
            } else {
                w1.entities@[e] == w0.entities@[e]
            }
    &&& m1.wf()
    &&& forall|i: int| 0 <= i < m1.len() ==> m0.revealed_tiles@[i] ==> #[trigger] m1.revealed_tiles@[i]
    &&& ({
            let p = w0.player as int;
            if w0.is_player(p) && needs_view(w0.ent(p)) {
                player_view_updated(m0, m1, on_map(m0, fovs[p]@))
            } else {
                *m1 == *m0
            }
        })
}

pub struct VisibilitySystem {}

impl VisibilitySystem {
    /// Refreshes every viewshed marked for recomputation from its field of view
    /// `fovs[e]` (computed from the entity's current position), keeping the
    /// points that lie on the map. For the player, the map's visible tiles
    /// become exactly those points, and they are revealed.
    pub fn run(&mut self, world: &mut World, map: &mut DungeonMap, fovs: &Vec<Vec<Position>>)
        requires
            old(world).wf(),
            old(map).wf(),
            fovs@.len() == old(world).entities@.len(),
        ensures
            views_refreshed(old(world), final(world), old(map), final(map), fovs@),
    {
        let n = world.entities.len();
        let mut e: usize = 0;
        while e < n
            invariant
                world.wf(),
                map.wf(),
                n == world.entities@.len(),
                n == old(world).entities@.len(),
                fovs@.len() == n,
                e <= n,
                world.player == old(world).player,
                world.log == old(world).log,
                map.width == old(map).width,
                map.height == old(map).height,
                forall|f: int|
                    #![trigger world.entities@[f]]
                    0 <= f < e ==> if old(world).live(f) && needs_view(old(world).ent(f)) {
                        world.live(f) && view_refreshed(old(map), old(world).ent(f), world.ent(f), fovs@[f]@)
                    } else {
                        world.entities@[f] == old(world).entities@[f]
                    },
                forall|f: int| #![trigger world.entities@[f]] e <= f < n ==> world.entities@[f] == old(world).entities@[f],
                forall|i: int| 0 <= i < map.len() ==> old(map).revealed_tiles@[i] ==> #[trigger] map.revealed_tiles@[i],
                ({
                    let p = old(world).player as int;
                    if old(world).is_player(p) && needs_view(old(world).ent(p)) && p < e {
                        player_view_updated(old(map), map, on_map(old(map), fovs@[p]@))
                    } else {
                        *map == *old(map)
                    }
                }),
            decreases n - e,
        {
            let ghost w0 = *world;
            assert(world.entities@[e as int] == old(world).entities@[e as int]);
            proof {
                if w0.live(e as int) {
                    assert(w0.ent(e as int).in_range());
                }
                if w0.is_player(e as int) {
                    assert(e == w0.player);
                }
                lemma_on_map_dims(map, old(map), fovs@[e as int]@);
            }
            let slot = world.take(e);
            match slot {
                Some(mut d) => {
                    let dirty = match &d.viewshed {
                        Some(v) => v.dirty,
                        None => false,
                    };
                    if dirty && d.position.is_some() {
                        let seen = retain_on_map(map, &fovs[e]);
                        let range = match &d.viewshed {
                            Some(v) => v.range,
                            None => 0,
                        };
                        if d.player.is_some() {
                            assert(old(world).is_player(e as int));
                            show_to_player(map, &seen);
                        }
                        d.viewshed = Some(Viewshed { visible_tiles: seen, range, dirty: false });
                    }
                    world.put(e, Some(d));
                },
                None => {
                    world.put(e, None);
                },
            }
            proof {
                assert forall|f: int| #![trigger world.entities@[f]] e + 1 <= f < n implies world.entities@[f] == old(world).entities@[f] by {
                    assert(w0.entities@[f] == world.entities@[f]);
                }
                assert forall|f: int|
                    #![trigger world.entities@[f]]
                    0 <= f < e + 1 implies if old(world).live(f) && needs_view(old(world).ent(f)) {
                        world.live(f) && view_refreshed(old(map), old(world).ent(f), world.ent(f), fovs@[f]@)
                    } else {
                        world.entities@[f] == old(world).entities@[f]
                    } by {
                    if f < e {
                        assert(w0.entities@[f] == world.entities@[f]);
                    }
                }
            }
            e = e + 1;
        }
    }
}

} // verus!
