use vstd::prelude::*;
use crate::map::{DungeonMap, TileType, MAX_TILES, lemma_index_in_grid, lemma_index_injective};
use crate::rect::Rect;
use crate::rng::{rng_new, rng_range, roll_die};
use bracket_lib::random::RandomNumberGenerator;

verus! {

/// Attempts at placing a room when a level is generated.
pub const MAX_ROOMS: i32 = 40;

/// Smallest width or height drawn for a room.
pub const MIN_SIZE: i32 = 6;

/// Width and height of a room are drawn below this bound.
pub const MAX_SIZE: i32 = 10;

pub open spec fn abs(a: int) -> int {
    if a < 0 {
        -a
    } else {
        a
    }
}

/// Two points are the same tile or share an edge.
pub open spec fn step(a: (int, int), b: (int, int)) -> bool {
    abs(a.0 - b.0) + abs(a.1 - b.1) <= 1
}

impl DungeonMap {
    pub open spec fn is_floor(&self, p: (int, int)) -> bool {
        self.in_bounds(p.0, p.1) && self.tile_at(p.0, p.1) == TileType::Floor
    }

    /// A walk over floor tiles, one edge at a time.
    pub open spec fn floor_path(&self, path: Seq<(int, int)>) -> bool {
        &&& path.len() >= 1
        &&& forall|i: int| 0 <= i < path.len() ==> self.is_floor(#[trigger] path[i])
        &&& forall|i: int| 0 <= i < path.len() - 1 ==> #[trigger] step(path[i], path[i + 1])
    }

    /// A floor flood fill from `a` reaches `b`.
    pub open spec fn connected(&self, a: (int, int), b: (int, int)) -> bool {
        exists|path: Seq<(int, int)>| self.floor_path(path) && path[0] == a && path.last() == b
    }

    /// Every floor tile of `self` is still floor in `other`.
    pub open spec fn floor_kept_in(&self, other: &DungeonMap) -> bool {
        &&& self.width == other.width
        &&& self.height == other.height
        &&& self.tiles@.len() == other.tiles@.len()
        &&& forall|i: int|
            0 <= i < self.tiles@.len() && self.tiles@[i] == TileType::Floor ==> #[trigger] other.tiles@[i]
                == TileType::Floor
    }

    /// Only tiles are touched, and only by turning them into floor.
    pub open spec fn only_carved_into(&self, other: &DungeonMap) -> bool {
        &&& other.wf()
        &&& self.floor_kept_in(other)
        &&& other.rooms == self.rooms
        &&& other.revealed_tiles == self.revealed_tiles
        &&& other.visible_tiles == self.visible_tiles
        &&& other.blocked == self.blocked
        &&& other.tile_content == self.tile_content
    }

    /// The inside of every room is floor.
    pub open spec fn rooms_carved(&self) -> bool {
        forall|i: int, x: int, y: int|
            #![trigger self.rooms@[i], self.is_floor((x, y))]
            0 <= i < self.rooms@.len() && self.rooms@[i].x1 < x <= self.rooms@[i].x2 && self.rooms@[i].y1 < y
                <= self.rooms@[i].y2 ==> self.is_floor((x, y))
    }

    /// Tile `p` lies inside room `i`, or on one of the two L-shaped corridors
    /// that can join the center of room `i - 1` to the center of room `i`.
    pub open spec fn laid_by(&self, i: int, p: (int, int)) -> bool {
        ||| (self.rooms@[i].x1 < p.0 <= self.rooms@[i].x2 && self.rooms@[i].y1 < p.1 <= self.rooms@[i].y2)
        ||| (i >= 1 && on_corridor(self.rooms@[i - 1].center_spec(), self.rooms@[i].center_spec(), p))
    }

    /// Floor is found only inside rooms and on the corridors between the
    /// centers of consecutive rooms; every other tile is wall.
    pub open spec fn floor_only_laid(&self) -> bool {
        forall|p: (int, int)|
            #[trigger] self.is_floor(p) ==> exists|i: int| 0 <= i < self.rooms@.len() && #[trigger] self.laid_by(i, p)
    }

    /// Every room keeps off the outermost ring of tiles on the far sides.
    pub open spec fn rooms_inset(&self) -> bool {
        forall|i: int|
            0 <= i < self.rooms@.len() ==> (#[trigger] self.rooms@[i]).x2 <= self.width - 2 && self.rooms@[i].y2
                <= self.height - 2
    }

    /// The outermost ring of tiles is wall.
    pub open spec fn border_walls(&self) -> bool {
        forall|x: int, y: int|
            self.in_bounds(x, y) && (x == 0 || y == 0 || x == self.width - 1 || y == self.height - 1)
                ==> #[trigger] self.tile_at(x, y) == TileType::Wall
    }

    /// Every room's width and height lie in `[min_size, max_size)`.
    pub open spec fn room_sizes(&self, min_size: int, max_size: int) -> bool {
        forall|i: int|
            0 <= i < self.rooms@.len() ==> min_size <= (#[trigger] self.rooms@[i]).x2 - self.rooms@[i].x1 < max_size
                && min_size <= self.rooms@[i].y2 - self.rooms@[i].y1 < max_size
    }

    /// The rooms of a generated level: inside the map, at least two tiles
    /// across, pairwise apart, and all reachable from the first one's center.
    pub open spec fn rooms_laid_out(&self) -> bool {
        &&& forall|i: int|
            0 <= i < self.rooms@.len() ==> (#[trigger] self.rooms@[i]).within(
                self.width as int,
                self.height as int,
            ) && self.rooms@[i].x2 - self.rooms@[i].x1 >= 2 && self.rooms@[i].y2 - self.rooms@[i].y1 >= 2
        &&& forall|i: int, j: int|
            0 <= i < j < self.rooms@.len() ==> !(#[trigger] self.rooms@[i]).overlaps(#[trigger] self.rooms@[j])
        &&& forall|i: int|
            0 <= i < self.rooms@.len() ==> self.connected(
                self.rooms@[0].center_spec(),
                (#[trigger] self.rooms@[i]).center_spec(),
            )
    }
}

pub open spec fn between(v: int, a: int, b: int) -> bool {
    a <= v <= b || b <= v <= a
}

/// Tile `p` lies on one of the two L-shaped corridors from `a` to `b`:
/// horizontal leg first, or vertical leg first.
pub open spec fn on_corridor(a: (int, int), b: (int, int), p: (int, int)) -> bool {
    ||| (p.1 == a.1 && between(p.0, a.0, b.0))
    ||| (p.0 == b.0 && between(p.1, a.1, b.1))
    ||| (p.0 == a.0 && between(p.1, a.1, b.1))
    ||| (p.1 == b.1 && between(p.0, a.0, b.0))
}

/// A level whose floor lies only in inset rooms and their corridors has a
/// wall border.
pub proof fn lemma_border_walls(m: &DungeonMap)
    requires
        m.wf(),
        m.rooms_laid_out(),
        m.rooms_inset(),
        m.floor_only_laid(),
    ensures
        m.border_walls(),
{
    assert forall|x: int, y: int|
        m.in_bounds(x, y) && (x == 0 || y == 0 || x == m.width - 1 || y == m.height - 1) implies #[trigger] m.tile_at(
        x,
        y,
    ) == TileType::Wall by {
        if m.tile_at(x, y) == TileType::Floor {
            assert(m.is_floor((x, y)));
            let i = choose|i: int| 0 <= i < m.rooms@.len() && #[trigger] m.laid_by(i, (x, y));
            assert(m.rooms@[i].within(m.width as int, m.height as int));
            if i >= 1 {
                assert(m.rooms@[i - 1].within(m.width as int, m.height as int));
                lemma_center_inside(m.rooms@[i - 1]);
                lemma_center_inside(m.rooms@[i]);
            }
        }
    }
}

/// The horizontal run of tiles from `(a, y)` to `(b, y)`.
pub open spec fn hseg(a: int, b: int, y: int) -> Seq<(int, int)> {
    Seq::new((abs(b - a) + 1) as nat, |i: int| (if a <= b { a + i } else { a - i }, y))
}

/// The vertical run of tiles from `(x, a)` to `(x, b)`.
pub open spec fn vseg(a: int, b: int, x: int) -> Seq<(int, int)> {
    Seq::new((abs(b - a) + 1) as nat, |i: int| (x, if a <= b { a + i } else { a - i }))
}

pub proof fn lemma_path_kept(m1: &DungeonMap, m2: &DungeonMap, path: Seq<(int, int)>)
    requires
        m1.wf(),
        m1.floor_kept_in(m2),
        m1.floor_path(path),
    ensures
        m2.floor_path(path),
{
    assert forall|i: int| 0 <= i < path.len() implies m2.is_floor(#[trigger] path[i]) by {
        assert(m1.is_floor(path[i]));
        lemma_index_in_grid(m1.width as int, m1.height as int, path[i].0, path[i].1);
    }
}

pub proof fn lemma_floor_kept_at(m1: &DungeonMap, m2: &DungeonMap, p: (int, int))
    requires
        m1.wf(),
        m1.floor_kept_in(m2),
        m1.is_floor(p),
    ensures
        m2.is_floor(p),
{
    lemma_index_in_grid(m1.width as int, m1.height as int, p.0, p.1);
}

pub proof fn lemma_connected_kept(m1: &DungeonMap, m2: &DungeonMap, a: (int, int), b: (int, int))
    requires
        m1.wf(),
        m1.floor_kept_in(m2),
        m1.connected(a, b),
    ensures
        m2.connected(a, b),
{
    let path = choose|path: Seq<(int, int)>| m1.floor_path(path) && path[0] == a && path.last() == b;
    lemma_path_kept(m1, m2, path);
}

pub proof fn lemma_connected_trans(m: &DungeonMap, a: (int, int), b: (int, int), c: (int, int))
    requires
        m.connected(a, b),
        m.connected(b, c),
    ensures
        m.connected(a, c),
{
    let p = choose|p: Seq<(int, int)>| m.floor_path(p) && p[0] == a && p.last() == b;
    let q = choose|q: Seq<(int, int)>| m.floor_path(q) && q[0] == b && q.last() == c;
    let r = p + q;
    assert forall|i: int| 0 <= i < r.len() implies m.is_floor(#[trigger] r[i]) by {
        if i < p.len() {
            assert(r[i] == p[i]);
        } else {
            assert(r[i] == q[i - p.len()]);
        }
    }
    assert forall|i: int| 0 <= i < r.len() - 1 implies #[trigger] step(r[i], r[i + 1]) by {
        if i < p.len() - 1 {
            assert(r[i] == p[i] && r[i + 1] == p[i + 1]);
        } else if i == p.len() - 1 {
            assert(r[i] == p.last() && r[i + 1] == q[0]);
        } else {
            assert(r[i] == q[i - p.len()] && r[i + 1] == q[i - p.len() + 1]);
        }
    }
    assert(m.floor_path(r));
    assert(r[0] == a);
    assert(r.last() == c);
}

/// An L-shaped corridor, horizontal leg first, joins its two ends once all of
/// its tiles are floor.
pub proof fn lemma_corridor_h_then_v(m: &DungeonMap, ax: int, ay: int, bx: int, by: int)
    requires
        forall|x: int| #![trigger m.is_floor((x, ay))] (ax <= x <= bx || bx <= x <= ax) ==> m.is_floor((x, ay)),
        forall|y: int| #![trigger m.is_floor((bx, y))] (ay <= y <= by || by <= y <= ay) ==> m.is_floor((bx, y)),
    ensures
        m.connected((ax, ay), (bx, ay)),
        m.connected((bx, ay), (bx, by)),
{
    let p = hseg(ax, bx, ay);
    assert forall|i: int| 0 <= i < p.len() implies m.is_floor(#[trigger] p[i]) by {
        let x = p[i].0;
        assert(m.is_floor((x, ay)));
    }
    assert forall|i: int| 0 <= i < p.len() - 1 implies #[trigger] step(p[i], p[i + 1]) by {}
    assert(m.floor_path(p));
    assert(p.last() == (bx, ay));
    let q = vseg(ay, by, bx);
    assert forall|i: int| 0 <= i < q.len() implies m.is_floor(#[trigger] q[i]) by {
        let y = q[i].1;
        assert(m.is_floor((bx, y)));
    }
    assert forall|i: int| 0 <= i < q.len() - 1 implies #[trigger] step(q[i], q[i + 1]) by {}
    assert(m.floor_path(q));
    assert(q.last() == (bx, by));
}

/// An L-shaped corridor, vertical leg first, joins its two ends once all of
/// its tiles are floor.
pub proof fn lemma_corridor_v_then_h(m: &DungeonMap, ax: int, ay: int, bx: int, by: int)
    requires
        forall|y: int| #![trigger m.is_floor((ax, y))] (ay <= y <= by || by <= y <= ay) ==> m.is_floor((ax, y)),
        forall|x: int| #![trigger m.is_floor((x, by))] (ax <= x <= bx || bx <= x <= ax) ==> m.is_floor((x, by)),
    ensures
        m.connected((ax, ay), (ax, by)),
        m.connected((ax, by), (bx, by)),
{
    let q = vseg(ay, by, ax);
    assert forall|i: int| 0 <= i < q.len() implies m.is_floor(#[trigger] q[i]) by {
        let y = q[i].1;
        assert(m.is_floor((ax, y)));
    }
    assert forall|i: int| 0 <= i < q.len() - 1 implies #[trigger] step(q[i], q[i + 1]) by {}
    assert(m.floor_path(q));
    assert(q.last() == (ax, by));
    let p = hseg(ax, bx, by);
    assert forall|i: int| 0 <= i < p.len() implies m.is_floor(#[trigger] p[i]) by {
        let x = p[i].0;
        assert(m.is_floor((x, by)));
    }
    assert forall|i: int| 0 <= i < p.len() - 1 implies #[trigger] step(p[i], p[i + 1]) by {}
    assert(m.floor_path(p));
    assert(p.last() == (bx, by));
}

/// A vector of `n` copies of `v`.
fn filled<T: Copy>(n: usize, v: T) -> (r: Vec<T>)
    ensures
        r@.len() == n,
        forall|i: int| 0 <= i < n ==> r@[i] == v,
{
    let mut r: Vec<T> = Vec::new();
    let mut i: usize = 0;
    while i < n
        invariant
            i <= n,
            r@.len() == i,
            forall|j: int| 0 <= j < i ==> r@[j] == v,
        decreases n - i,
    {
        r.push(v);
        i = i + 1;
    }
    r
}

impl DungeonMap {
    /// A map of walls only, with nothing revealed, visible, blocked or
    /// occupied, and no rooms.
    pub fn new_blank(width: i32, height: i32) -> (r: DungeonMap)
        requires
            0 < width,
            0 < height,
            width * height <= MAX_TILES,
        ensures
            r.wf(),
            r.width == width,
            r.height == height,
            r.rooms@.len() == 0,
            forall|i: int|
                0 <= i < r.len() ==> #[trigger] r.tiles@[i] == TileType::Wall && !r.revealed_tiles@[i]
                    && !r.visible_tiles@[i] && !r.blocked@[i] && r.tile_content@[i]@.len() == 0,
    {
        let n = (width * height) as usize;
        let mut content: Vec<Vec<usize>> = Vec::new();
        let mut i: usize = 0;
        while i < n
            invariant
                i <= n,
                content@.len() == i,
                forall|j: int| 0 <= j < i ==> (#[trigger] content@[j])@.len() == 0,
            decreases n - i,
        {
            content.push(Vec::new());
            i = i + 1;
        }
        DungeonMap {
            tiles: filled(n, TileType::Wall),
            rooms: Vec::new(),
            width,
            height,
            revealed_tiles: filled(n, false),
            visible_tiles: filled(n, false),
            blocked: filled(n, false),
            tile_content: content,
        }
    }

    /// Turns the tile `(x, y)` into floor if it lies on the map.
    fn carve(&mut self, x: i64, y: i64)
        requires
            old(self).wf(),
        ensures
            old(self).only_carved_into(final(self)),
            final(self).width == old(self).width,
            final(self).height == old(self).height,
            old(self).in_bounds(x as int, y as int) ==> final(self).is_floor((x as int, y as int)),
            forall|p: (int, int)| #[trigger] final(self).is_floor(p) ==> old(self).is_floor(p) || p == (x as int, y as int),
    {
        if 0 <= x && x < self.width as i64 && 0 <= y && y < self.height as i64 {
            let idx = self.xy_idx(x as i32, y as i32);
            self.tiles.set(idx, TileType::Floor);
            proof {
                assert forall|p: (int, int)| #[trigger] self.is_floor(p) implies old(self).is_floor(p) || p == (
                    x as int,
                    y as int,
                ) by {
                    lemma_index_in_grid(self.width as int, self.height as int, p.0, p.1);
                    if self.idx(p.0, p.1) == idx {
                        lemma_index_injective(self.width as int, p.0, p.1, x as int, y as int);
                    }
                }
            }
        }
    }

    /// Carves the row `y` from `x1` to `x2`, both included.
    fn apply_horizontal_tunnel(&mut self, x1: i32, x2: i32, y: i32)
        requires
            old(self).wf(),
        ensures
            old(self).only_carved_into(final(self)),
            final(self).width == old(self).width,
            final(self).height == old(self).height,
            forall|x: int|
                #![trigger final(self).is_floor((x, y as int))]
                (x1 <= x <= x2 || x2 <= x <= x1) && old(self).in_bounds(x, y as int) ==> final(self).is_floor(
                    (x, y as int),
                ),
            forall|p: (int, int)|
                #[trigger] final(self).is_floor(p) ==> old(self).is_floor(p) || (p.1 == y && (x1 <= p.0 <= x2 || x2
                    <= p.0 <= x1)),
    {
        let lo: i64 = if x1 < x2 { x1 as i64 } else { x2 as i64 };
        let hi: i64 = if x1 < x2 { x2 as i64 } else { x1 as i64 };
        let ghost start = *self;
        let mut x: i64 = lo;
        while x <= hi
            invariant
                start.wf(),
                start.only_carved_into(self),
                self.width == start.width,
                self.height == start.height,
                lo <= x <= hi + 1,
                lo == if x1 < x2 { x1 as int } else { x2 as int },
                hi == if x1 < x2 { x2 as int } else { x1 as int },
                forall|xx: int|
                    #![trigger self.is_floor((xx, y as int))]
                    lo <= xx < x && start.in_bounds(xx, y as int) ==> self.is_floor((xx, y as int)),
                forall|p: (int, int)| #[trigger] self.is_floor(p) ==> start.is_floor(p) || (p.1 == y && lo <= p.0 < x),
            decreases hi + 1 - x,
        {
            let ghost before = *self;
            self.carve(x, y as i64);
            proof {
                assert forall|xx: int|
                    #![trigger self.is_floor((xx, y as int))]
                    lo <= xx < x + 1 && start.in_bounds(xx, y as int) implies self.is_floor((xx, y as int)) by {
                    if xx < x {
                        assert(before.is_floor((xx, y as int)));
                        lemma_index_in_grid(start.width as int, start.height as int, xx, y as int);
                    }
                }
                assert forall|p: (int, int)| #[trigger] self.is_floor(p) implies start.is_floor(p) || (p.1 == y && lo
                    <= p.0 < x + 1) by {
                    if !(p == (x as int, y as int)) {
                        assert(before.is_floor(p));
                    }
                }
            }
            x = x + 1;
        }
    }

    /// Carves the column `x` from `y1` to `y2`, both included.
    fn apply_vertical_tunnel(&mut self, y1: i32, y2: i32, x: i32)
        requires
            old(self).wf(),
        ensures
            old(self).only_carved_into(final(self)),
            final(self).width == old(self).width,
            final(self).height == old(self).height,
            forall|y: int|
                #![trigger final(self).is_floor((x as int, y))]
                (y1 <= y <= y2 || y2 <= y <= y1) && old(self).in_bounds(x as int, y) ==> final(self).is_floor(
                    (x as int, y),
                ),
            forall|p: (int, int)|
                #[trigger] final(self).is_floor(p) ==> old(self).is_floor(p) || (p.0 == x && (y1 <= p.1 <= y2 || y2
                    <= p.1 <= y1)),
    {
        let lo: i64 = if y1 < y2 { y1 as i64 } else { y2 as i64 };
        let hi: i64 = if y1 < y2 { y2 as i64 } else { y1 as i64 };
        let ghost start = *self;
        let mut y: i64 = lo;
        while y <= hi
            invariant
                start.wf(),
                start.only_carved_into(self),
                self.width == start.width,
                self.height == start.height,
                lo <= y <= hi + 1,
                lo == if y1 < y2 { y1 as int } else { y2 as int },
                hi == if y1 < y2 { y2 as int } else { y1 as int },
                forall|yy: int|
                    #![trigger self.is_floor((x as int, yy))]
                    lo <= yy < y && start.in_bounds(x as int, yy) ==> self.is_floor((x as int, yy)),
                forall|p: (int, int)| #[trigger] self.is_floor(p) ==> start.is_floor(p) || (p.0 == x && lo <= p.1 < y),
            decreases hi + 1 - y,
        {
            let ghost before = *self;
            self.carve(x as i64, y);
            proof {
                assert forall|yy: int|
                    #![trigger self.is_floor((x as int, yy))]
                    lo <= yy < y + 1 && start.in_bounds(x as int, yy) implies self.is_floor((x as int, yy)) by {
                    if yy < y {
                        assert(before.is_floor((x as int, yy)));
                        lemma_index_in_grid(start.width as int, start.height as int, x as int, yy);
                    }
                }
                assert forall|p: (int, int)| #[trigger] self.is_floor(p) implies start.is_floor(p) || (p.0 == x && lo
                    <= p.1 < y + 1) by {
                    if !(p == (x as int, y as int)) {
                        assert(before.is_floor(p));
                    }
                }
            }
            y = y + 1;
        }
    }
}

impl DungeonMap {
    /// Carves the inside of a room, `x1 + 1 ..= x2` by `y1 + 1 ..= y2`; a room
    /// that does not lie on the map is left out.
    fn apply_room_to_map(&mut self, room: &Rect)
        requires
            old(self).wf(),
        ensures
            old(self).only_carved_into(final(self)),
            final(self).width == old(self).width,
            final(self).height == old(self).height,
            room.within(old(self).width as int, old(self).height as int) ==> forall|x: int, y: int|
                #![trigger final(self).is_floor((x, y))]
                room.x1 < x <= room.x2 && room.y1 < y <= room.y2 ==> final(self).is_floor((x, y)),
            !room.within(old(self).width as int, old(self).height as int) ==> *final(self) == *old(self),
            forall|p: (int, int)|
                #[trigger] final(self).is_floor(p) ==> old(self).is_floor(p) || (room.x1 < p.0 <= room.x2 && room.y1
                    < p.1 <= room.y2),
    {
        if room.out_of_bounds(self) {
            return;
        }
        let ghost start = *self;
        let mut y: i64 = room.y1 as i64 + 1;
        while y <= room.y2 as i64
            invariant
                start.wf(),
                start.only_carved_into(self),
                self.width == start.width,
                self.height == start.height,
                room.within(start.width as int, start.height as int),
                room.y1 + 1 <= y <= room.y2 + 1 || (room.y2 <= room.y1 && y == room.y1 + 1),
                forall|xx: int, yy: int|
                    #![trigger self.is_floor((xx, yy))]
                    room.x1 < xx <= room.x2 && room.y1 < yy < y ==> self.is_floor((xx, yy)),
                forall|p: (int, int)|
                    #[trigger] self.is_floor(p) ==> start.is_floor(p) || (room.x1 < p.0 <= room.x2 && room.y1 < p.1 < y),
            decreases room.y2 + 1 - y,
        {
            let mut x: i64 = room.x1 as i64 + 1;
            while x <= room.x2 as i64
                invariant
                    start.wf(),
                    start.only_carved_into(self),
                    self.width == start.width,
                    self.height == start.height,
                    room.within(start.width as int, start.height as int),
                    room.y1 + 1 <= y <= room.y2,
                    room.x1 + 1 <= x <= room.x2 + 1 || (room.x2 <= room.x1 && x == room.x1 + 1),
                    forall|xx: int, yy: int|
                        #![trigger self.is_floor((xx, yy))]
                        room.x1 < xx <= room.x2 && room.y1 < yy < y ==> self.is_floor((xx, yy)),
                    forall|xx: int| #![trigger self.is_floor((xx, y as int))] room.x1 < xx < x ==> self.is_floor((xx, y as int)),
                    forall|p: (int, int)|
                        #[trigger] self.is_floor(p) ==> start.is_floor(p) || (room.x1 < p.0 <= room.x2 && room.y1 < p.1 < y)
                            || (p.1 == y && room.x1 < p.0 < x),
                decreases room.x2 + 1 - x,
            {
                let ghost before = *self;
                self.carve(x, y);
                proof {
                    assert forall|xx: int, yy: int|
                        #![trigger self.is_floor((xx, yy))]
                        room.x1 < xx <= room.x2 && room.y1 < yy < y implies self.is_floor((xx, yy)) by {
                        lemma_floor_kept_at(&before, self, (xx, yy));
                    }
                    assert forall|xx: int| #![trigger self.is_floor((xx, y as int))] room.x1 < xx < x + 1 implies self.is_floor(
                        (xx, y as int),
                    ) by {
                        if xx < x {
                            lemma_floor_kept_at(&before, self, (xx, y as int));
                        }
                    }
                    assert forall|p: (int, int)|
                        #[trigger] self.is_floor(p) implies start.is_floor(p) || (room.x1 < p.0 <= room.x2 && room.y1 < p.1
                            < y) || (p.1 == y && room.x1 < p.0 < x + 1) by {
                        if !(p == (x as int, y as int)) {
                            assert(before.is_floor(p));
                        }
                    }
                }
                x = x + 1;
            }
            y = y + 1;
        }
    }
}

/// The center of a room at least two tiles across lies inside its carved part.
pub proof fn lemma_center_inside(r: Rect)
    requires
        0 <= r.x1,
        0 <= r.y1,
        r.x2 - r.x1 >= 2,
        r.y2 - r.y1 >= 2,
    ensures
        r.x1 < r.center_spec().0 <= r.x2,
        r.y1 < r.center_spec().1 <= r.y2,
{
}

impl DungeonMap {
    /// Generates a level of rooms joined by L-shaped corridors. Each of
    /// `max_rooms` attempts draws a room of width and height in
    /// `[min_size, max_size)` placed so that it fits on the map; it is kept only
    /// if it meets no room kept so far. Each kept room after the first is joined
    /// to the one kept before it, horizontal leg or vertical leg first at
    /// random.
    #[verifier::rlimit(100)]
    pub fn generate(
        width: i32,
        height: i32,
        max_rooms: i32,
        min_size: i32,
        max_size: i32,
        rng: &mut RandomNumberGenerator,
    ) -> (map: DungeonMap)
        requires
            2 <= min_size < max_size,
            max_size < width,
            max_size < height,
            width * height <= MAX_TILES,
        ensures
            map.wf(),
            map.width == width,
            map.height == height,
            map.rooms@.len() <= if max_rooms < 0 { 0 } else { max_rooms as int },
            map.rooms_laid_out(),
            map.rooms_carved(),
            map.room_sizes(min_size as int, max_size as int),
            max_rooms >= 1 ==> map.rooms@.len() >= 1,
            map.rooms_inset(),
            map.floor_only_laid(),
            map.border_walls(),
            forall|i: int|
                0 <= i < map.len() ==> !(#[trigger] map.revealed_tiles@[i]) && !map.visible_tiles@[i]
                    && !map.blocked@[i] && map.tile_content@[i]@.len() == 0,
    {
        let mut map = DungeonMap::new_blank(width, height);
        let ghost blank = map;
        proof {
            assert forall|p: (int, int)| #[trigger] map.is_floor(p) implies exists|i: int|
                0 <= i < map.rooms@.len() && #[trigger] map.laid_by(i, p) by {
                lemma_index_in_grid(width as int, height as int, p.0, p.1);
            }
        }
        let mut k: i32 = 0;
        while k < max_rooms
            invariant
                2 <= min_size < max_size,
                max_size < width,
                max_size < height,
                map.wf(),
                map.width == width,
                map.height == height,
                0 <= k,
                max_rooms >= 0 ==> k <= max_rooms,
                max_rooms < 0 ==> k == 0,
                map.rooms@.len() <= k,
                map.rooms_laid_out(),
                map.rooms_carved(),
                map.room_sizes(min_size as int, max_size as int),
                k > 0 ==> map.rooms@.len() > 0,
                map.rooms_inset(),
                map.floor_only_laid(),
                map.revealed_tiles == blank.revealed_tiles,
                map.visible_tiles == blank.visible_tiles,
                map.blocked == blank.blocked,
                map.tile_content == blank.tile_content,
            decreases max_rooms - k,
        {
            let w = rng_range(rng, min_size, max_size);
            let h = rng_range(rng, min_size, max_size);
            let x = roll_die(rng, map.width - w - 1) - 1;
            let y = roll_die(rng, map.height - h - 1) - 1;
            let new_room = Rect::new(x, y, w, h);
            let mut apart = true;
            let mut j: usize = 0;
            while j < map.rooms.len()
                invariant
                    j <= map.rooms@.len(),
                    apart == forall|i: int| 0 <= i < j ==> !new_room.overlaps(#[trigger] map.rooms@[i]),
                decreases map.rooms@.len() - j,
            {
                if new_room.intersect(&map.rooms[j]) {
                    apart = false;
                }
                j = j + 1;
            }
            if apart && !new_room.out_of_bounds(&map) {
                let ghost m0 = map;
                map.apply_room_to_map(&new_room);
                let ghost m1 = map;
                let n = map.rooms.len();
                proof {
                    lemma_center_inside(new_room);
                }
                if n > 0 {
                    let (new_x, new_y) = new_room.center();
                    let (prev_x, prev_y) = map.rooms[n - 1].center();
                    let ghost prev = map.rooms@[n - 1];
                    proof {
                        lemma_center_inside(prev);
                    }
                    if rng_range(rng, 0, 2) == 1 {
                        map.apply_horizontal_tunnel(prev_x, new_x, prev_y);
                        let ghost m2 = map;
                        map.apply_vertical_tunnel(prev_y, new_y, new_x);
                        proof {
                            assert forall|xx: int|
                                #![trigger map.is_floor((xx, prev_y as int))]
                                (prev_x <= xx <= new_x || new_x <= xx <= prev_x) implies map.is_floor(
                                (xx, prev_y as int),
                            ) by {
                                lemma_floor_kept_at(&m2, &map, (xx, prev_y as int));
                            }
                            lemma_corridor_h_then_v(&map, prev_x as int, prev_y as int, new_x as int, new_y as int);
                            lemma_connected_trans(
                                &map,
                                (prev_x as int, prev_y as int),
                                (new_x as int, prev_y as int),
                                (new_x as int, new_y as int),
                            );
                        }
                    } else {
                        map.apply_vertical_tunnel(prev_y, new_y, prev_x);
                        let ghost m2 = map;
                        map.apply_horizontal_tunnel(prev_x, new_x, new_y);
                        proof {
                            assert forall|yy: int|
                                #![trigger map.is_floor((prev_x as int, yy))]
                                (prev_y <= yy <= new_y || new_y <= yy <= prev_y) implies map.is_floor(
                                (prev_x as int, yy),
                            ) by {
                                lemma_floor_kept_at(&m2, &map, (prev_x as int, yy));
                            }
                            lemma_corridor_v_then_h(&map, prev_x as int, prev_y as int, new_x as int, new_y as int);
                            lemma_connected_trans(
                                &map,
                                (prev_x as int, prev_y as int),
                                (prev_x as int, new_y as int),
                                (new_x as int, new_y as int),
                            );
                        }
                    }
                    proof {
                        // every room joined before stays joined, and the new one
                        // hangs on to the previous one
                        assert(m0.floor_kept_in(&map));
                        assert forall|i: int| 0 <= i < n implies map.connected(
                            map.rooms@[0].center_spec(),
                            (#[trigger] map.rooms@[i]).center_spec(),
                        ) by {
                            assert(m0.connected(m0.rooms@[0].center_spec(), m0.rooms@[i].center_spec()));
                            lemma_connected_kept(&m0, &map, m0.rooms@[0].center_spec(), m0.rooms@[i].center_spec());
                        }
                        assert(map.connected(map.rooms@[0].center_spec(), prev.center_spec()));
                        lemma_connected_trans(
                            &map,
                            map.rooms@[0].center_spec(),
                            prev.center_spec(),
                            new_room.center_spec(),
                        );
                    }
                } else {
                    proof {
                        let c = new_room.center_spec();
                        assert(map.is_floor(c));
                        let path = seq![c];
                        assert(map.floor_path(path));
                        assert(path[0] == c && path.last() == c);
                        assert(map.connected(c, c));
                    }
                }
                let ghost m3 = map;
                proof {
                    assert forall|p: (int, int)| #[trigger] m3.is_floor(p) implies m0.is_floor(p) || (new_room.x1 < p.0
                        <= new_room.x2 && new_room.y1 < p.1 <= new_room.y2) || (n >= 1 && on_corridor(
                        m0.rooms@[n - 1].center_spec(),
                        new_room.center_spec(),
                        p,
                    )) by {}
                }
                proof {
                    assert(m0.floor_kept_in(&m3));
                    assert forall|i: int, x: int, y: int|
                        #![trigger m3.rooms@[i], m3.is_floor((x, y))]
                        0 <= i < m3.rooms@.len() && m3.rooms@[i].x1 < x <= m3.rooms@[i].x2 && m3.rooms@[i].y1 < y
                            <= m3.rooms@[i].y2 implies m3.is_floor((x, y)) by {
                        assert(m0.rooms@[i] == m3.rooms@[i]);
                        assert(m0.is_floor((x, y)));
                        lemma_floor_kept_at(&m0, &m3, (x, y));
                    }
                    assert forall|x: int, y: int|
                        new_room.x1 < x <= new_room.x2 && new_room.y1 < y <= new_room.y2 implies m3.is_floor((x, y)) by {
                        assert(m1.is_floor((x, y)));
                        lemma_floor_kept_at(&m1, &m3, (x, y));
                    }
                }
                map.rooms.push(new_room);
                proof {
                    assert forall|p: (int, int)| #[trigger] map.is_floor(p) implies exists|i: int|
                        0 <= i < map.rooms@.len() && #[trigger] map.laid_by(i, p) by {
                        assert(m3.is_floor(p));
                        if m0.is_floor(p) {
                            let i = choose|i: int| 0 <= i < m0.rooms@.len() && #[trigger] m0.laid_by(i, p);
                            assert(map.rooms@[i] == m0.rooms@[i]);
                            if i >= 1 {
                                assert(map.rooms@[i - 1] == m0.rooms@[i - 1]);
                            }
                            assert(map.laid_by(i, p));
                        } else {
                            assert(map.rooms@[n as int] == new_room);
                            if n >= 1 {
                                assert(map.rooms@[n - 1] == m0.rooms@[n - 1]);
                            }
                            assert(map.laid_by(n as int, p));
                        }
                    }
                    assert forall|i: int|
                        0 <= i < map.rooms@.len() implies (#[trigger] map.rooms@[i]).x2 <= map.width - 2
                        && map.rooms@[i].y2 <= map.height - 2 by {
                        if i < n {
                            assert(map.rooms@[i] == m3.rooms@[i]);
                        }
                    }
                    assert forall|i: int, x: int, y: int|
                        #![trigger map.rooms@[i], map.is_floor((x, y))]
                        0 <= i < map.rooms@.len() && map.rooms@[i].x1 < x <= map.rooms@[i].x2 && map.rooms@[i].y1 < y
                            <= map.rooms@[i].y2 implies map.is_floor((x, y)) by {
                        if i < n {
                            assert(map.rooms@[i] == m3.rooms@[i]);
                            assert(m3.is_floor((x, y)));
                        } else {
                            assert(map.rooms@[i] == new_room);
                            assert(m3.is_floor((x, y)));
                        }
                    }
                    assert forall|i: int|
                        0 <= i < map.rooms@.len() implies min_size <= (#[trigger] map.rooms@[i]).x2 - map.rooms@[i].x1
                        < max_size && min_size <= map.rooms@[i].y2 - map.rooms@[i].y1 < max_size by {
                        if i < n {
                            assert(map.rooms@[i] == m3.rooms@[i]);
                        }
                    }
                    assert forall|i: int| 0 <= i < map.rooms@.len() implies map.connected(
                        map.rooms@[0].center_spec(),
                        (#[trigger] map.rooms@[i]).center_spec(),
                    ) by {
                        if i < n {
                            assert(map.rooms@[i] == m3.rooms@[i]);
                            assert(m3.connected(m3.rooms@[0].center_spec(), m3.rooms@[i].center_spec()));
                        } else {
                            assert(map.rooms@[i] == new_room);
                        }
                        assert(map.rooms@[0] == if n == 0 { new_room } else { m3.rooms@[0] });
                    }
                    assert forall|i: int, j: int|
                        0 <= i < j < map.rooms@.len() implies !(#[trigger] map.rooms@[i]).overlaps(
                        #[trigger] map.rooms@[j],
                    ) by {
                        if j == n {
                            assert(!new_room.overlaps(m3.rooms@[i]));
                        } else {
                            assert(map.rooms@[i] == m3.rooms@[i] && map.rooms@[j] == m3.rooms@[j]);
                        }
                    }
                    assert(map.rooms_laid_out());
                }
            }
            k = k + 1;
        }
        proof {
            lemma_border_walls(&map);
            assert forall|i: int| 0 <= i < map.len() implies !(#[trigger] map.revealed_tiles@[i])
                && !map.visible_tiles@[i] && !map.blocked@[i] && map.tile_content@[i]@.len() == 0 by {
                assert(blank.tiles@[i] == TileType::Wall);
            }
        }
        map
    }

    /// A level of the standard size: `MAX_ROOMS` attempts at rooms from
    /// `MIN_SIZE` to `MAX_SIZE` tiles across, with a freshly seeded generator.
    pub fn new_map(max_x: i32, max_y: i32) -> (map: DungeonMap)
        requires
            MAX_SIZE < max_x,
            MAX_SIZE < max_y,
            max_x * max_y <= MAX_TILES,
        ensures
            map.wf(),
            map.width == max_x,
            map.height == max_y,
            map.rooms@.len() <= MAX_ROOMS,
            map.rooms_laid_out(),
            map.rooms_carved(),
            map.room_sizes(MIN_SIZE as int, MAX_SIZE as int),
            map.rooms@.len() >= 1,
            map.rooms_inset(),
            map.floor_only_laid(),
            map.border_walls(),
            forall|i: int|
                0 <= i < map.len() ==> !(#[trigger] map.revealed_tiles@[i]) && !map.visible_tiles@[i]
                    && !map.blocked@[i] && map.tile_content@[i]@.len() == 0,
    {
        let mut rng = rng_new();
        DungeonMap::generate(max_x, max_y, MAX_ROOMS, MIN_SIZE, MAX_SIZE, &mut rng)
    }
}

} // verus!
