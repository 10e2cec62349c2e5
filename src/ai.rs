use vstd::prelude::*;
use crate::components::{Position, Viewshed, WantsToMelee};
use crate::map::DungeonMap;
use crate::state::RunState;
use crate::world::{EntityData, World};

verus! {

/// What a monster does this turn.
#[derive(Clone, Copy, Debug, PartialEq, Eq, Structural)]
pub enum MonsterAction {
    Attack,
    Chase,
    Idle,
}

/// The straight-line distance between `a` and `b` is below 1.5 tiles, that
/// is, `b` is `a` or one of its eight neighbours.
pub open spec fn within_reach(a: Position, b: Position) -> bool {
    -1 <= a.x - b.x <= 1 && -1 <= a.y - b.y <= 1
}

pub open spec fn decision(pos: Position, target: Position, sees_target: bool) -> MonsterAction {
    if within_reach(pos, target) {
        MonsterAction::Attack
    } else if sees_target {
        MonsterAction::Chase
    } else {
        MonsterAction::Idle
    }
}

/// A monster next to the player attacks; one that sees the player chases it;
/// any other idles.
pub fn monster_decision(pos: Position, player_pos: Position, sees_player: bool) -> (r: MonsterAction)
    ensures
        r == decision(pos, player_pos, sees_player),
{
    let dx: i64 = pos.x as i64 - player_pos.x as i64;
    let dy: i64 = pos.y as i64 - player_pos.y as i64;
    if -1 <= dx && dx <= 1 && -1 <= dy && dy <= 1 {
        MonsterAction::Attack
    } else if sees_player {
        MonsterAction::Chase
    } else {
        MonsterAction::Idle
    }
}

/// The viewshed of `d` holds the tile `p`.
pub open spec fn sees(d: EntityData, p: Position) -> bool {
    d.viewshed matches Some(v) && v.visible_tiles@.contains(p)
}

/// Entity `d` is a monster with a viewshed and a position.
pub open spec fn is_actor(d: EntityData) -> bool {
    d.monster is Some && d.viewshed is Some && d.position is Some
}

/// Every component slot but the position, the viewshed and the melee intent
/// is the same.
pub open spec fn same_but_move(a: EntityData, b: EntityData) -> bool {
    &&& b.renderable == a.renderable
    &&& b.name == a.name
    &&& b.player == a.player
    &&& b.monster == a.monster
    &&& b.item == a.item
    &&& b.blocks_tile == a.blocks_tile
    &&& b.consumable == a.consumable
    &&& b.combat_stats == a.combat_stats
    &&& b.heal_effect == a.heal_effect
    &&& b.in_backpack == a.in_backpack
    &&& b.suffer_damage == a.suffer_damage
    &&& b.wants_to_pickup_item == a.wants_to_pickup_item
    &&& b.wants_to_drop_item == a.wants_to_drop_item
    &&& b.wants_to_drink_potion == a.wants_to_drink_potion
    &&& b.wants_to_display_content == a.wants_to_display_content
}

/// A path whose second step is a tile of the map.
pub open spec fn usable_path(m: &DungeonMap, path: Seq<usize>) -> bool {
    path.len() > 1 && path[1] < m.len()
}

/// `after` is the monster `before` once it has acted against the player
/// `player`, standing at `pp`, with `path` the shortest path from it to the
/// player: next to the player it means to attack; seeing the player it takes
/// the path's first step and marks its viewshed for recomputation; otherwise
/// it is unchanged.
pub open spec fn monster_acted(
    m: &DungeonMap,
    before: EntityData,
    after: EntityData,
    player: usize,
    pp: Position,
    path: Seq<usize>,
) -> bool {
    let pos = before.position->Some_0;
    match decision(pos, pp, sees(before, pp)) {
        MonsterAction::Attack => {
            &&& same_but_move(before, after)
            &&& after.position == before.position
            &&& after.viewshed == before.viewshed
            &&& after.wants_to_melee == Some(WantsToMelee { target: player })
        },
        MonsterAction::Chase => if usable_path(m, path) {
            &&& same_but_move(before, after)
            &&& after.wants_to_melee == before.wants_to_melee
            &&& after.position == Some(
                Position {
                    x: (path[1] as int % m.width as int) as i32,
                    y: (path[1] as int / m.width as int) as i32,
                },
            )
            &&& after.viewshed is Some
            &&& after.viewshed->Some_0.visible_tiles == before.viewshed->Some_0.visible_tiles
            &&& after.viewshed->Some_0.range == before.viewshed->Some_0.range
            &&& after.viewshed->Some_0.dirty
        } else {
            after == before
        },
        MonsterAction::Idle => after == before,
    }
}

} // verus!

verus! {

fn holds(tiles: &Vec<Position>, p: Position) -> (r: bool)
    ensures
        r == tiles@.contains(p),
{
    let mut k: usize = 0;
    while k < tiles.len()
        invariant
            k <= tiles@.len(),
            forall|q: int| 0 <= q < k ==> tiles@[q] != p,
        decreases tiles@.len() - k,
    {
        if tiles[k] == p {
            assert(tiles@[k as int] == p);
            return true;
        }
        k = k + 1;
    }
    false
}

/// `w1` is `w0` once the monsters have acted in state `state`, as
/// `MonsterAI::run` describes.
pub open spec fn monsters_acted(w0: &World, w1: &World, map: &DungeonMap, state: RunState, paths: Seq<Vec<usize>>) -> bool {
    &&& w1.wf()
    &&& w1.player == w0.player
    &&& w1.log == w0.log
    &&& w1.entities@.len() == w0.entities@.len()
    &&& ({
            let p = w0.player as int;
            if state == RunState::MonsterTurn && w0.live(p) && w0.ent(p).position is Some {
                forall|e: int|
                    #![trigger w1.entities@[e]]
                    0 <= e < w0.entities@.len() ==> if w0.live(e) && is_actor(w0.ent(e)) {
                        w1.live(e) && monster_acted(
                            map,
                            w0.ent(e),
                            w1.ent(e),
                            w0.player,
                            w0.ent(p).position->Some_0,
                            paths[e]@,
                        )
                    } else {
                        w1.entities@[e] == w0.entities@[e]
                    }
            } else {
                w1.entities == w0.entities
            }
        })
}

pub struct MonsterAI {}

impl MonsterAI {
    /// On the monsters' turn, each monster acts against the player.
    /// `paths[e]` is the path the caller found for monster `e` toward the
    /// player, as tile indices starting at its own tile, or empty where there
    /// is none; a chasing monster takes its second entry as its next tile.
    /// Nothing here checks that the path is a shortest one.
    pub fn run(&mut self, world: &mut World, map: &DungeonMap, state: RunState, paths: &Vec<Vec<usize>>)
        requires
            old(world).wf(),
            map.wf(),
            paths@.len() == old(world).entities@.len(),
        ensures
            monsters_acted(old(world), final(world), map, state, paths@),
    {
        if state != RunState::MonsterTurn {
            return;
        }
        let p = world.player;
        let n = world.entities.len();
        if p >= n {
            return;
        }
        let player_pos = match &world.entities[p] {
            Some(d) => match d.position {
                Some(pos) => pos,
                None => {
                    return;
                },
            },
            None => {
                return;
            },
        };
        let mut e: usize = 0;
        while e < n
            invariant
                world.wf(),
                old(world).wf(),
                map.wf(),
                n == world.entities@.len(),
                n == old(world).entities@.len(),
                paths@.len() == n,
                e <= n,
                p == old(world).player,
                world.player == old(world).player,
                world.log == old(world).log,
                old(world).live(p as int),
                old(world).ent(p as int).position == Some(player_pos),
                forall|f: int|
                    #![trigger world.entities@[f]]
                    0 <= f < e ==> if old(world).live(f) && is_actor(old(world).ent(f)) {
                        world.live(f) && monster_acted(map, old(world).ent(f), world.ent(f), p, player_pos, paths@[f]@)
                    } else {
                        world.entities@[f] == old(world).entities@[f]
                    },
                forall|f: int| #![trigger world.entities@[f]] e <= f < n ==> world.entities@[f] == old(world).entities@[f],
            decreases n - e,
        {
            let ghost w0 = *world;
            proof {
                assert(w0.entities@[e as int] == old(world).entities@[e as int]);
                if w0.live(e as int) {
                    assert(w0.ent(e as int).in_range());
                }
                if w0.is_player(e as int) {
                    assert(e == w0.player);
                }
            }
            let actor = match &world.entities[e] {
                Some(d) => d.monster.is_some() && d.viewshed.is_some() && d.position.is_some(),
                None => false,
            };
            if actor {
                let slot = world.take(e);
                if let Some(mut d) = slot {
                    let mut taken: Option<Viewshed> = None;
                    std::mem::swap(&mut taken, &mut d.viewshed);
                    if let (Some(pos), Some(mut vs)) = (d.position, taken) {
                        let sees_player = holds(&vs.visible_tiles, player_pos);
                        let action = monster_decision(pos, player_pos, sees_player);
                        match action {
                            MonsterAction::Attack => {
                                d.viewshed = Some(vs);
                                d.wants_to_melee = Some(WantsToMelee { target: p });
                            },
                            MonsterAction::Chase => {
                                let path = &paths[e];
                                if path.len() > 1 && path[1] < map.tiles.len() {
                                    let (x, y) = map.idx_xy(path[1]);
                                    d.position = Some(Position { x: x as i32, y: y as i32 });
                                    vs.dirty = true;
                                }
                                d.viewshed = Some(vs);
                            },
                            MonsterAction::Idle => {
                                d.viewshed = Some(vs);
                            },
                        }
                    }
                    world.put(e, Some(d));
                }
            }
            proof {
                assert forall|f: int| #![trigger world.entities@[f]] e + 1 <= f < n implies world.entities@[f] == old(world).entities@[f] by {
                    assert(w0.entities@[f] == old(world).entities@[f]);
                }
                assert forall|f: int|
                    #![trigger world.entities@[f]]
                    0 <= f < e + 1 implies if old(world).live(f) && is_actor(old(world).ent(f)) {
                        world.live(f) && monster_acted(map, old(world).ent(f), world.ent(f), p, player_pos, paths@[f]@)
                    } else {
                        world.entities@[f] == old(world).entities@[f]
                    } by {
                    assert(w0.entities@[f] == w0.entities@[f]);
                }
            }
            e = e + 1;
        }
    }
}

} // verus!
