use vstd::prelude::*;
use crate::rect::Rect;

verus! {

/// The largest number of tiles a map may have.
pub const MAX_TILES: i32 = 16777216;

#[derive(Clone, Copy, Debug, PartialEq, Eq, Structural)]
pub enum TileType {
    Wall,
    Floor,
}

/// The tile grid with its per-tile derived state. Every grid is stored row by
/// row: the tile `(x, y)` lives at index `y * width + x`.
pub struct DungeonMap {
    pub tiles: Vec<TileType>,
    pub rooms: Vec<Rect>,
    pub width: i32,
    pub height: i32,
    pub revealed_tiles: Vec<bool>,
    pub visible_tiles: Vec<bool>,
    pub blocked: Vec<bool>,
    pub tile_content: Vec<Vec<usize>>,
}

/// The row-major index of `(x, y)` on a grid `w` tiles wide.
pub open spec fn index_of(w: int, x: int, y: int) -> int {
    y * w + x
}

pub proof fn lemma_index_in_grid(w: int, h: int, x: int, y: int)
    requires
        0 <= x < w,
        0 <= y < h,
    ensures
        0 <= index_of(w, x, y) < w * h,
{
    assert(0 <= y * w) by (nonlinear_arith)
        requires
            0 <= y,
            0 < w,
    ;
    assert(y * w + x < w * h) by (nonlinear_arith)
        requires
            0 <= x < w,
            0 <= y < h,
    ;
}

pub proof fn lemma_index_injective(w: int, x1: int, y1: int, x2: int, y2: int)
    requires
        0 <= x1 < w,
        0 <= x2 < w,
        0 <= y1,
        0 <= y2,
        index_of(w, x1, y1) == index_of(w, x2, y2),
    ensures
        x1 == x2,
        y1 == y2,
{
    assert(y1 == y2) by (nonlinear_arith)
        requires
            0 <= x1 < w,
            0 <= x2 < w,
            0 <= y1,
            0 <= y2,
            y1 * w + x1 == y2 * w + x2,
    ;
}

pub proof fn lemma_index_decompose(w: int, h: int, i: int)
    requires
        0 < w,
        0 <= i < w * h,
    ensures
        0 <= i % w < w,
        0 <= i / w < h,
        index_of(w, i % w, i / w) == i,
{
    assert(0 <= i / w < h) by (nonlinear_arith)
        requires
            0 < w,
            0 <= i < w * h,
    ;
    vstd::arithmetic::div_mod::lemma_fundamental_div_mod(i, w);
    vstd::arithmetic::mul::lemma_mul_is_commutative(i / w, w);
}

impl DungeonMap {
    pub open spec fn len(&self) -> int {
        self.width * self.height
    }

    /// The grids all have one entry per tile, and every tile currently
    /// visible has been revealed.
    pub open spec fn wf(&self) -> bool {
        &&& 0 < self.width
        &&& 0 < self.height
        &&& self.width * self.height <= MAX_TILES
        &&& self.tiles@.len() == self.len()
        &&& self.revealed_tiles@.len() == self.len()
        &&& self.visible_tiles@.len() == self.len()
        &&& self.blocked@.len() == self.len()
        &&& self.tile_content@.len() == self.len()
        &&& forall|i: int| 0 <= i < self.len() && #[trigger] self.visible_tiles@[i] ==> self.revealed_tiles@[i]
    }

    pub open spec fn in_bounds(&self, x: int, y: int) -> bool {
        0 <= x < self.width && 0 <= y < self.height
    }

    pub open spec fn idx(&self, x: int, y: int) -> int {
        index_of(self.width as int, x, y)
    }

    pub open spec fn tile_at(&self, x: int, y: int) -> TileType {
        self.tiles@[self.idx(x, y)]
    }

    /// A tile that the walking graph may enter: inside the playable bounds,
    /// which leave out the outermost ring of tiles, and not blocked.
    pub open spec fn exit_valid(&self, x: int, y: int) -> bool {
        1 <= x <= self.width - 2 && 1 <= y <= self.height - 2 && !self.blocked@[self.idx(x, y)]
    }

    pub fn xy_idx(&self, x: i32, y: i32) -> (r: usize)
        requires
            self.wf(),
            self.in_bounds(x as int, y as int),
        ensures
            r as int == self.idx(x as int, y as int),
            r < self.len(),
    {
        proof {
            lemma_index_in_grid(self.width as int, self.height as int, x as int, y as int);
        }
        (y * self.width) as usize + x as usize
    }

    pub fn idx_xy(&self, idx: usize) -> (r: (usize, usize))
        requires
            self.wf(),
            idx < self.len(),
        ensures
            r.0 as int == idx as int % self.width as int,
            r.1 as int == idx as int / self.width as int,
            self.in_bounds(r.0 as int, r.1 as int),
            self.idx(r.0 as int, r.1 as int) == idx,
    {
        proof {
            lemma_index_decompose(self.width as int, self.height as int, idx as int);
        }
        (idx % self.width as usize, idx / self.width as usize)
    }

    pub fn is_exit_valid(&self, x: i32, y: i32) -> (r: bool)
        requires
            self.wf(),
        ensures
            r == self.exit_valid(x as int, y as int),
    {
        if x < 1 || x > self.width - 2 || y < 1 || y > self.height - 2 {
            return false;
        }
        let i = self.xy_idx(x, y);
        !self.blocked[i]
    }

    /// A tile hides what lies behind it exactly when it is a wall.
    pub fn is_opaque(&self, idx: usize) -> (r: bool)
        requires
            self.wf(),
            idx < self.len(),
        ensures
            r == (self.tiles@[idx as int] == TileType::Wall),
    {
        self.tiles[idx] == TileType::Wall
    }

    /// Blocks exactly the wall tiles; entities are laid over this afterwards.
    pub fn populate_blocked(&mut self)
        requires
            old(self).wf(),
        ensures
            final(self).wf(),
            final(self).tiles == old(self).tiles,
            final(self).rooms == old(self).rooms,
            final(self).width == old(self).width,
            final(self).height == old(self).height,
            final(self).revealed_tiles == old(self).revealed_tiles,
            final(self).visible_tiles == old(self).visible_tiles,
            final(self).tile_content == old(self).tile_content,
            forall|i: int|
                0 <= i < final(self).len() ==> #[trigger] final(self).blocked@[i] == (final(self).tiles@[i]
                    == TileType::Wall),
    {
        let n = self.tiles.len();
        let mut i: usize = 0;
        while i < n
            invariant
                self.wf(),
                n == self.len(),
                i <= n,
                self.tiles == old(self).tiles,
                self.rooms == old(self).rooms,
                self.width == old(self).width,
                self.height == old(self).height,
                self.revealed_tiles == old(self).revealed_tiles,
                self.visible_tiles == old(self).visible_tiles,
                self.tile_content == old(self).tile_content,
                forall|j: int| 0 <= j < i ==> #[trigger] self.blocked@[j] == (self.tiles@[j] == TileType::Wall),
            decreases n - i,
        {
            let wall = self.tiles[i] == TileType::Wall;
            self.blocked.set(i, wall);
            i = i + 1;
        }
    }

    /// Empties every tile's occupant list.
    pub fn clear_content(&mut self)
        requires
            old(self).wf(),
        ensures
            final(self).wf(),
            final(self).tiles == old(self).tiles,
            final(self).rooms == old(self).rooms,
            final(self).width == old(self).width,
            final(self).height == old(self).height,
            final(self).revealed_tiles == old(self).revealed_tiles,
            final(self).visible_tiles == old(self).visible_tiles,
            final(self).blocked == old(self).blocked,
            forall|i: int| 0 <= i < final(self).len() ==> (#[trigger] final(self).tile_content@[i])@.len() == 0,
    {
        let n = self.tile_content.len();
        let mut i: usize = 0;
        while i < n
            invariant
                self.wf(),
                n == self.len(),
                i <= n,
                self.tiles == old(self).tiles,
                self.rooms == old(self).rooms,
                self.width == old(self).width,
                self.height == old(self).height,
                self.revealed_tiles == old(self).revealed_tiles,
                self.visible_tiles == old(self).visible_tiles,
                self.blocked == old(self).blocked,
                forall|j: int| 0 <= j < i ==> (#[trigger] self.tile_content@[j])@.len() == 0,
            decreases n - i,
        {
            self.tile_content.set(i, Vec::new());
            i = i + 1;
        }
    }

    /// The neighbours that the walking graph links to the tile `idx`: left,
    /// right, up and down, in that order, each kept only if it is a valid exit.
    pub open spec fn exits(&self, idx: int) -> Seq<usize> {
        let x = idx % (self.width as int);
        let y = idx / (self.width as int);
        let w = self.width as int;
        (if self.exit_valid(x - 1, y) { seq![(idx - 1) as usize] } else { Seq::empty() })
            + (if self.exit_valid(x + 1, y) { seq![(idx + 1) as usize] } else { Seq::empty() })
            + (if self.exit_valid(x, y - 1) { seq![(idx - w) as usize] } else { Seq::empty() })
            + (if self.exit_valid(x, y + 1) { seq![(idx + w) as usize] } else { Seq::empty() })
    }

    pub fn get_available_exits(&self, idx: usize) -> (r: Vec<usize>)
        requires
            self.wf(),
            idx < self.len(),
        ensures
            r@ == self.exits(idx as int),
    {
        let (ux, uy) = self.idx_xy(idx);
        let x = ux as i32;
        let y = uy as i32;
        let w = self.width as usize;
        let mut exits: Vec<usize> = Vec::new();
        if self.is_exit_valid(x - 1, y) {
            exits.push(idx - 1);
        }
        let ghost e1 = exits@;
        if self.is_exit_valid(x + 1, y) {
            exits.push(idx + 1);
        }
        let ghost e2 = exits@;
        if self.is_exit_valid(x, y - 1) {
            proof {
                let (a, b) = (uy as int, w as int);
                assert(a * b >= b) by (nonlinear_arith)
                    requires
                        a >= 1,
                        b > 0,
                ;
            }
            exits.push(idx - w);
        }
        let ghost e3 = exits@;
        if self.is_exit_valid(x, y + 1) {
            exits.push(idx + w);
        }
        proof {
            let ws = self.width as int;
            assert(e1 =~= (if self.exit_valid(x - 1, y as int) { seq![(idx - 1) as usize] } else { Seq::empty() }));
            assert(e2 =~= e1 + (if self.exit_valid(x + 1, y as int) { seq![(idx + 1) as usize] } else { Seq::empty() }));
            assert(e3 =~= e2 + (if self.exit_valid(x as int, y - 1) { seq![(idx - ws) as usize] } else { Seq::empty() }));
            assert(exits@ =~= e3 + (if self.exit_valid(x as int, y + 1) { seq![(idx + ws) as usize] } else { Seq::empty() }));
        }
        exits
    }
}

} // verus!
