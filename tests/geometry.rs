use bracket_lib::random::RandomNumberGenerator;
use dungeon_core::map::{DungeonMap, TileType};
use dungeon_core::rect::Rect;

fn open_map(w: i32, h: i32) -> DungeonMap {
    let mut m = DungeonMap::new_blank(w, h);
    for t in m.tiles.iter_mut() {
        *t = TileType::Floor;
    }
    m
}

#[test]
fn rect_new_spans_width_and_height() {
    let r = Rect::new(2, 3, 6, 7);
    assert_eq!((r.x1, r.y1, r.x2, r.y2), (2, 3, 8, 10));
}

#[test]
fn rect_intersect_includes_boundaries() {
    let a = Rect::new(0, 0, 5, 5);
    let touching = Rect::new(5, 5, 3, 3);
    let apart = Rect::new(6, 0, 3, 3);
    assert!(a.intersect(&touching));
    assert!(touching.intersect(&a));
    assert!(!a.intersect(&apart));
}

#[test]
fn rect_center_is_integer_midpoint() {
    assert_eq!(Rect::new(0, 0, 7, 9).center(), (3, 4));
    assert_eq!(Rect::new(-4, -3, 1, 2).center(), (-3, -2));
}

#[test]
fn rect_out_of_bounds_checks_every_corner() {
    let m = DungeonMap::new_blank(20, 10);
    assert!(!Rect::new(1, 1, 5, 5).out_of_bounds(&m));
    assert!(Rect::new(15, 1, 5, 5).out_of_bounds(&m));
    assert!(Rect::new(1, 5, 5, 5).out_of_bounds(&m));
    assert!(Rect::new(-1, 1, 5, 5).out_of_bounds(&m));
}

#[test]
fn index_and_coordinates_agree() {
    let m = DungeonMap::new_blank(80, 43);
    assert_eq!(m.xy_idx(3, 2), 163);
    assert_eq!(m.idx_xy(163), (3, 2));
    assert_eq!(m.idx_xy(m.xy_idx(79, 42)), (79, 42));
}

#[test]
fn exits_stay_inside_playable_bounds() {
    let m = open_map(10, 10);
    assert!(!m.is_exit_valid(0, 5));
    assert!(!m.is_exit_valid(5, 0));
    assert!(m.is_exit_valid(8, 8));
    assert!(!m.is_exit_valid(9, 5));
    assert!(!m.is_exit_valid(5, 9));
    assert!(!m.is_exit_valid(10, 5));
    // tile (1, 1): left and up lead off the playable area
    assert_eq!(m.get_available_exits(m.xy_idx(1, 1)), vec![m.xy_idx(2, 1), m.xy_idx(1, 2)]);
    // tile (8, 8): right and down lead onto the outer ring
    assert_eq!(m.get_available_exits(m.xy_idx(8, 8)), vec![m.xy_idx(7, 8), m.xy_idx(8, 7)]);
    assert_eq!(
        m.get_available_exits(m.xy_idx(4, 4)),
        vec![m.xy_idx(3, 4), m.xy_idx(5, 4), m.xy_idx(4, 3), m.xy_idx(4, 5)]
    );
}

#[test]
fn blocked_exits_are_left_out() {
    let mut m = open_map(10, 10);
    let wall = m.xy_idx(5, 4);
    m.tiles[wall] = TileType::Wall;
    m.populate_blocked();
    assert!(m.is_opaque(m.xy_idx(5, 4)));
    assert!(!m.is_opaque(m.xy_idx(3, 4)));
    assert_eq!(m.get_available_exits(m.xy_idx(4, 4)), vec![m.xy_idx(3, 4), m.xy_idx(4, 3), m.xy_idx(4, 5)]);
}

fn flood_reaches(m: &DungeonMap, from: (i32, i32), to: (i32, i32)) -> bool {
    let mut seen = vec![false; m.tiles.len()];
    let mut stack = vec![from];
    while let Some((x, y)) = stack.pop() {
        if x < 0 || y < 0 || x >= m.width || y >= m.height {
            continue;
        }
        let i = m.xy_idx(x, y);
        if seen[i] || m.tiles[i] != TileType::Floor {
            continue;
        }
        seen[i] = true;
        if (x, y) == to {
            return true;
        }
        stack.extend([(x - 1, y), (x + 1, y), (x, y - 1), (x, y + 1)]);
    }
    false
}

#[test]
fn generated_rooms_are_apart_inside_and_connected() {
    for seed in 0..20u64 {
        let mut rng = RandomNumberGenerator::seeded(seed);
        let m = DungeonMap::generate(80, 43, 40, 6, 10, &mut rng);
        assert!(!m.rooms.is_empty());
        assert!(m.rooms.len() <= 40);
        for (i, a) in m.rooms.iter().enumerate() {
            assert!(!a.out_of_bounds(&m));
            assert!(a.x2 - a.x1 >= 6 && a.x2 - a.x1 < 10);
            for b in m.rooms.iter().skip(i + 1) {
                assert!(!a.intersect(b));
            }
            assert!(flood_reaches(&m, m.rooms[0].center(), a.center()));
        }
        assert!(m.revealed_tiles.iter().all(|r| !r));
        for x in 0..m.width {
            assert_eq!(m.tiles[m.xy_idx(x, 0)], TileType::Wall);
            assert_eq!(m.tiles[m.xy_idx(x, m.height - 1)], TileType::Wall);
        }
        for y in 0..m.height {
            assert_eq!(m.tiles[m.xy_idx(0, y)], TileType::Wall);
            assert_eq!(m.tiles[m.xy_idx(m.width - 1, y)], TileType::Wall);
        }
    }
}

#[test]
fn generation_carves_floor() {
    let mut rng = RandomNumberGenerator::seeded(7);
    let m = DungeonMap::generate(40, 30, 10, 4, 8, &mut rng);
    let floors = m.tiles.iter().filter(|t| **t == TileType::Floor).count();
    assert!(floors >= 9);
    let c = m.rooms[0].center();
    assert_eq!(m.tiles[m.xy_idx(c.0, c.1)], TileType::Floor);
}

#[test]
fn standard_level_has_standard_size() {
    let m = DungeonMap::new_map(80, 43);
    assert_eq!((m.width, m.height), (80, 43));
    assert_eq!(m.tiles.len(), 80 * 43);
    assert!(m.rooms.len() <= 40);
}

#[test]
fn room_sizes_and_places_vary_with_the_draws() {
    let mut widths = std::collections::HashSet::new();
    let mut corners = std::collections::HashSet::new();
    for seed in 0..10u64 {
        let mut rng = RandomNumberGenerator::seeded(seed);
        let m = DungeonMap::generate(80, 43, 40, 6, 10, &mut rng);
        assert!(m.rooms.len() > 1);
        for r in &m.rooms {
            widths.insert(r.x2 - r.x1);
            corners.insert((r.x1, r.y1));
        }
    }
    assert!(widths.len() > 1);
    assert!(corners.len() > 10);
}

#[test]
fn tight_map_still_gets_valid_rooms() {
    for seed in 0..10u64 {
        let mut rng = RandomNumberGenerator::seeded(seed);
        let m = DungeonMap::generate(11, 11, 20, 2, 10, &mut rng);
        assert!(!m.rooms.is_empty());
        for r in &m.rooms {
            assert!(!r.out_of_bounds(&m));
            let c = r.center();
            assert!(flood_reaches(&m, m.rooms[0].center(), c));
        }
    }
}
