use bracket_lib::prelude::{a_star_search, Algorithm2D, BaseMap, DistanceAlg, Point, SmallVec};
use bracket_lib::random::RandomNumberGenerator;
use dungeon_core::ai::{monster_decision, MonsterAI, MonsterAction};
use dungeon_core::combat::{delete_dead, gain_experience, melee_damage, DamageSystem, MeleeCombatSystem};
use dungeon_core::components::{
    BlocksTile, CombatStats, Item, Monster, Name, Position, SufferDamage, Viewshed, WantsToMelee,
};
use dungeon_core::map::{DungeonMap, TileType};
use dungeon_core::map_indexing::MapIndexingSystem;
use dungeon_core::player::{get_item, player_input, try_move_player, Command};
use dungeon_core::spawner::spawn_player;
use dungeon_core::state::RunState;
use dungeon_core::visibility::{dirty_viewsheds, VisibilitySystem};
use dungeon_core::world::{EntityData, LogEntry, World};

fn open_map(w: i32, h: i32) -> DungeonMap {
    let mut m = DungeonMap::new_blank(w, h);
    for t in m.tiles.iter_mut() {
        *t = TileType::Floor;
    }
    m.populate_blocked();
    m
}

struct Walkable<'a>(&'a DungeonMap);

impl BaseMap for Walkable<'_> {
    fn is_opaque(&self, idx: usize) -> bool {
        self.0.is_opaque(idx)
    }

    fn get_available_exits(&self, idx: usize) -> SmallVec<[(usize, f32); 10]> {
        self.0.get_available_exits(idx).into_iter().map(|i| (i, 1.0)).collect()
    }

    fn get_pathing_distance(&self, a: usize, b: usize) -> f32 {
        let (ax, ay) = self.0.idx_xy(a);
        let (bx, by) = self.0.idx_xy(b);
        DistanceAlg::Pythagoras.distance2d(Point::new(ax, ay), Point::new(bx, by))
    }
}

impl Algorithm2D for Walkable<'_> {
    fn dimensions(&self) -> Point {
        Point::new(self.0.width, self.0.height)
    }
}

fn stats(hp: i32, attack: i32, defense: i32) -> CombatStats {
    CombatStats {
        max_hp: hp,
        hp,
        attack,
        defense,
        strength: 1,
        agility: 1,
        vitality: 3,
        magic: 1,
        level: 1,
        exp: 0,
    }
}

fn add_monster(world: &mut World, x: i32, y: i32, hp: i32) -> usize {
    let mut d = EntityData::empty();
    d.position = Some(Position { x, y });
    d.monster = Some(Monster {});
    d.blocks_tile = Some(BlocksTile {});
    d.name = Some(Name { name: "Goblin".to_string() });
    d.combat_stats = Some(stats(hp, 4, 1));
    d.viewshed = Some(Viewshed { visible_tiles: Vec::new(), range: 6, dirty: true });
    world.create_entity(d)
}

fn add_potion(world: &mut World, x: i32, y: i32) -> usize {
    let mut d = EntityData::empty();
    d.position = Some(Position { x, y });
    d.item = Some(Item {});
    d.name = Some(Name { name: "Health Potion".to_string() });
    world.create_entity(d)
}

#[test]
fn path_on_open_floor_has_manhattan_length() {
    // the walking graph has four-way exits and leaves out the outermost ring,
    // so a 10 by 10 open floor is the tiles 1..=10 of a 12 by 12 map
    let m = open_map(12, 12);
    let path = a_star_search(m.xy_idx(1, 1), m.xy_idx(10, 10), &Walkable(&m));
    assert!(path.success);
    assert_eq!(path.steps.len() - 1, 18);
}

#[test]
fn melee_damage_is_attack_minus_defense_at_least_one() {
    assert_eq!(melee_damage(5, 2), 3);
    assert_eq!(melee_damage(1, 10), 1);
    assert_eq!(melee_damage(4, 4), 1);
    assert_eq!(melee_damage(i32::MAX, i32::MIN), i32::MAX);
}

#[test]
fn hundred_experience_levels_up_once() {
    let mut rng = RandomNumberGenerator::seeded(3);
    let s = stats(30, 5, 2);
    let (t, ups) = gain_experience(s, 100, &mut rng);
    assert_eq!(ups, 1);
    assert_eq!(t.level, 2);
    assert_eq!(t.exp, 0);
    assert_eq!(t.max_hp, t.vitality * 5);
    assert!(t.strength == 1 || t.strength == 2);
}

#[test]
fn experience_short_of_the_threshold_is_kept() {
    let mut rng = RandomNumberGenerator::seeded(3);
    let (t, ups) = gain_experience(stats(30, 5, 2), 99, &mut rng);
    assert_eq!((ups, t.level, t.exp, t.max_hp), (0, 1, 99, 30));
}

#[test]
fn monster_decides_by_distance_and_sight() {
    let p = Position { x: 5, y: 5 };
    assert_eq!(monster_decision(Position { x: 6, y: 6 }, p, false), MonsterAction::Attack);
    assert_eq!(monster_decision(Position { x: 7, y: 5 }, p, true), MonsterAction::Chase);
    assert_eq!(monster_decision(Position { x: 7, y: 5 }, p, false), MonsterAction::Idle);
}

#[test]
fn indexing_blocks_and_lists_occupants() {
    let mut m = open_map(10, 10);
    let mut world = World::new();
    let p = spawn_player(&mut world, 2, 2);
    let g = add_monster(&mut world, 3, 3, 10);
    let i = add_potion(&mut world, 3, 3);
    let mut sys = MapIndexingSystem {};
    sys.run(&world, &mut m);
    assert!(m.blocked[m.xy_idx(3, 3)]);
    assert!(!m.blocked[m.xy_idx(2, 2)]);
    assert_eq!(m.tile_content[m.xy_idx(3, 3)], vec![g, i]);
    assert_eq!(m.tile_content[m.xy_idx(2, 2)], vec![p]);
    let blocked = m.blocked.clone();
    let content = m.tile_content.clone();
    sys.run(&world, &mut m);
    assert_eq!(m.blocked, blocked);
    assert_eq!(m.tile_content, content);
}

#[test]
fn player_view_is_revealed_and_kept() {
    let mut m = open_map(10, 10);
    let mut world = World::new();
    let p = spawn_player(&mut world, 2, 2);
    assert_eq!(dirty_viewsheds(&world), vec![p]);
    let mut fovs = vec![vec![Position { x: 2, y: 2 }, Position { x: 3, y: 2 }, Position { x: -1, y: 2 }]];
    VisibilitySystem {}.run(&mut world, &mut m, &fovs);
    let vs = world.entities[p].as_ref().unwrap().viewshed.as_ref().unwrap();
    assert_eq!(vs.visible_tiles, vec![Position { x: 2, y: 2 }, Position { x: 3, y: 2 }]);
    assert!(!vs.dirty);
    assert!(m.visible_tiles[m.xy_idx(3, 2)] && m.revealed_tiles[m.xy_idx(3, 2)]);
    // the player moves on: what was seen stays revealed but is no longer visible
    world.entities[p].as_mut().unwrap().viewshed.as_mut().unwrap().dirty = true;
    fovs[0] = vec![Position { x: 5, y: 5 }];
    VisibilitySystem {}.run(&mut world, &mut m, &fovs);
    assert!(!m.visible_tiles[m.xy_idx(3, 2)]);
    assert!(m.revealed_tiles[m.xy_idx(3, 2)]);
    assert!(m.visible_tiles[m.xy_idx(5, 5)]);
    for i in 0..m.tiles.len() {
        assert!(!m.visible_tiles[i] || m.revealed_tiles[i]);
    }
}

#[test]
fn monster_view_leaves_the_map_memory_alone() {
    let mut m = open_map(10, 10);
    let mut world = World::new();
    spawn_player(&mut world, 2, 2);
    let g = add_monster(&mut world, 6, 6, 10);
    world.entities[0].as_mut().unwrap().viewshed.as_mut().unwrap().dirty = false;
    let fovs = vec![Vec::new(), vec![Position { x: 6, y: 6 }]];
    VisibilitySystem {}.run(&mut world, &mut m, &fovs);
    assert!(m.revealed_tiles.iter().all(|r| !r));
    let vs = world.entities[g].as_ref().unwrap().viewshed.as_ref().unwrap();
    assert_eq!(vs.visible_tiles, vec![Position { x: 6, y: 6 }]);
}

#[test]
fn player_bumping_a_monster_attacks_it() {
    let mut m = open_map(12, 12);
    let mut world = World::new();
    let p = spawn_player(&mut world, 5, 5);
    let g = add_monster(&mut world, 5, 6, 3);
    MapIndexingSystem {}.run(&world, &mut m);
    let next = player_input(&mut world, &m, RunState::AwaitingInput, Some(Command::Down));
    assert_eq!(next, RunState::PlayerTurn);
    let pd = world.entities[p].as_ref().unwrap();
    assert_eq!(pd.position, Some(Position { x: 5, y: 5 }));
    assert_eq!(pd.wants_to_melee, Some(WantsToMelee { target: g }));
    MeleeCombatSystem {}.run(&mut world);
    assert_eq!(world.entities[g].as_ref().unwrap().suffer_damage.as_ref().unwrap().amount, vec![4]);
    assert_eq!(world.entities[p].as_ref().unwrap().wants_to_melee, None);
    let mut rng = RandomNumberGenerator::seeded(1);
    DamageSystem {}.run(&mut world, &mut rng);
    assert_eq!(world.entities[g].as_ref().unwrap().combat_stats.unwrap().hp, -1);
    assert!(world.entities[g].as_ref().unwrap().suffer_damage.is_none());
    assert_eq!(world.entities[p].as_ref().unwrap().combat_stats.unwrap().exp, 15);
    let state = delete_dead(&mut world, RunState::PlayerTurn);
    assert_eq!(state, RunState::PlayerTurn);
    assert!(world.entities[g].is_none());
    assert!(world.entities[p].is_some());
}

#[test]
fn wounded_monster_survives_with_less_health() {
    let mut m = open_map(12, 12);
    let mut world = World::new();
    spawn_player(&mut world, 5, 5);
    let g = add_monster(&mut world, 5, 6, 15);
    MapIndexingSystem {}.run(&world, &mut m);
    player_input(&mut world, &m, RunState::AwaitingInput, Some(Command::Down));
    MeleeCombatSystem {}.run(&mut world);
    DamageSystem {}.run(&mut world, &mut RandomNumberGenerator::seeded(1));
    assert_eq!(world.entities[g].as_ref().unwrap().combat_stats.unwrap().hp, 11);
    delete_dead(&mut world, RunState::PlayerTurn);
    assert!(world.entities[g].is_some());
}

#[test]
fn hits_in_one_turn_accumulate() {
    let mut world = World::new();
    let p = spawn_player(&mut world, 5, 5);
    SufferDamage::new_damage(&mut world, p, 3);
    SufferDamage::new_damage(&mut world, p, 4);
    assert_eq!(world.entities[p].as_ref().unwrap().suffer_damage.as_ref().unwrap().amount, vec![3, 4]);
    DamageSystem {}.run(&mut world, &mut RandomNumberGenerator::seeded(1));
    assert_eq!(world.entities[p].as_ref().unwrap().combat_stats.unwrap().hp, 23);
}

#[test]
fn player_death_is_entered_once() {
    let mut world = World::new();
    let p = spawn_player(&mut world, 5, 5);
    world.entities[p].as_mut().unwrap().combat_stats.as_mut().unwrap().hp = 0;
    let before = world.log.len();
    let s = delete_dead(&mut world, RunState::MonsterTurn);
    assert_eq!(s, RunState::Dead);
    assert_eq!(world.log.len(), before + 1);
    assert!(matches!(world.log.last(), Some(LogEntry::PlayerDied)));
    let s = delete_dead(&mut world, s);
    assert_eq!(s, RunState::Dead);
    assert_eq!(world.log.len(), before + 1);
    assert!(world.entities[p].is_some());
}

#[test]
fn player_steps_onto_free_floor() {
    let mut m = open_map(12, 12);
    let mut world = World::new();
    let p = spawn_player(&mut world, 5, 5);
    world.entities[p].as_mut().unwrap().viewshed.as_mut().unwrap().dirty = false;
    MapIndexingSystem {}.run(&world, &mut m);
    try_move_player(&mut world, &m, RunState::AwaitingInput, 1, 0);
    let pd = world.entities[p].as_ref().unwrap();
    assert_eq!(pd.position, Some(Position { x: 6, y: 5 }));
    assert!(pd.viewshed.as_ref().unwrap().dirty);
}

#[test]
fn walls_and_death_stop_the_player() {
    let mut m = open_map(12, 12);
    let wall = m.xy_idx(6, 5);
    m.tiles[wall] = TileType::Wall;
    let mut world = World::new();
    let p = spawn_player(&mut world, 5, 5);
    MapIndexingSystem {}.run(&world, &mut m);
    try_move_player(&mut world, &m, RunState::AwaitingInput, 1, 0);
    assert_eq!(world.entities[p].as_ref().unwrap().position, Some(Position { x: 5, y: 5 }));
    try_move_player(&mut world, &m, RunState::Dead, 0, 1);
    assert_eq!(world.entities[p].as_ref().unwrap().position, Some(Position { x: 5, y: 5 }));
    let next = player_input(&mut world, &m, RunState::AwaitingInput, None);
    assert_eq!(next, RunState::AwaitingInput);
}

#[test]
fn item_underfoot_is_requested_or_reported_missing() {
    let mut world = World::new();
    let p = spawn_player(&mut world, 4, 4);
    get_item(&mut world);
    assert!(matches!(world.log.last(), Some(LogEntry::NothingToPickUp)));
    let i = add_potion(&mut world, 4, 4);
    get_item(&mut world);
    let want = world.entities[p].as_ref().unwrap().wants_to_pickup_item.unwrap();
    assert_eq!((want.collected_by, want.item), (p, i));
}

#[test]
fn monster_chases_along_its_path() {
    let m = open_map(12, 12);
    let mut world = World::new();
    spawn_player(&mut world, 2, 2);
    let g = add_monster(&mut world, 6, 2, 10);
    world.entities[g].as_mut().unwrap().viewshed.as_mut().unwrap().visible_tiles = vec![Position { x: 2, y: 2 }];
    world.entities[g].as_mut().unwrap().viewshed.as_mut().unwrap().dirty = false;
    let path = a_star_search(m.xy_idx(6, 2), m.xy_idx(2, 2), &Walkable(&m));
    let paths = vec![Vec::new(), path.steps];
    MonsterAI {}.run(&mut world, &m, RunState::PlayerTurn, &paths);
    assert_eq!(world.entities[g].as_ref().unwrap().position, Some(Position { x: 6, y: 2 }));
    MonsterAI {}.run(&mut world, &m, RunState::MonsterTurn, &paths);
    let gd = world.entities[g].as_ref().unwrap();
    assert_eq!(gd.position, Some(Position { x: 5, y: 2 }));
    assert!(gd.viewshed.as_ref().unwrap().dirty);
}

#[test]
fn adjacent_monster_attacks_the_player() {
    let m = open_map(12, 12);
    let mut world = World::new();
    let p = spawn_player(&mut world, 2, 2);
    let g = add_monster(&mut world, 3, 3, 10);
    let paths = vec![Vec::new(), Vec::new()];
    MonsterAI {}.run(&mut world, &m, RunState::MonsterTurn, &paths);
    let gd = world.entities[g].as_ref().unwrap();
    assert_eq!(gd.wants_to_melee, Some(WantsToMelee { target: p }));
    assert_eq!(gd.position, Some(Position { x: 3, y: 3 }));
}
