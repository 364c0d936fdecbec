//! The dense world grid: each position holds a block, a cell or nothing.

use vstd::prelude::*;
use crate::block::{Block, BlockType};
use crate::cell::{Cell, CellType};

verus! {

/// What can occupy a position of the world.
#[derive(Clone, Copy, Debug, PartialEq, Eq, Structural)]
pub enum Entity {
    Block(Block),
    Cell(Cell),
}

/// A `width` x `height` x `depth` grid, stored flat with `z` varying fastest.
pub struct World {
    pub grid: Vec<Option<Entity>>,
    pub width: usize,
    pub height: usize,
    pub depth: usize,
}

/// Where position `(x, y, z)` lies in a flat grid of the given height and depth.
pub open spec fn grid_index(x: int, y: int, z: int, height: int, depth: int) -> int {
    (x * height + y) * depth + z
}

proof fn lemma_grid_index_bounds(x: int, y: int, z: int, w: int, h: int, d: int)
    requires
        0 <= x < w,
        0 <= y < h,
        0 <= z < d,
    ensures
        0 <= x * h <= x * h + y < w * h,
        w * h <= w * h * d,
        0 <= (x * h + y) * d <= grid_index(x, y, z, h, d) < w * h * d,
{
    assert(0 <= x * h + y < w * h) by (nonlinear_arith)
        requires
            0 <= x < w,
            0 <= y < h,
    ;
    assert(0 <= x * h) by (nonlinear_arith)
        requires
            0 <= x,
            0 <= h,
    ;
    assert(0 <= (x * h + y) * d + z < (w * h) * d) by (nonlinear_arith)
        requires
            0 <= x * h + y < w * h,
            0 <= z < d,
    ;
    assert((w * h) * d == w * h * d) by (nonlinear_arith);
    assert(w * h <= (w * h) * d) by (nonlinear_arith)
        requires
            d >= 1,
            w * h >= 0,
    ;
    assert(0 <= (x * h + y) * d) by (nonlinear_arith)
        requires
            0 <= x * h + y,
            0 <= d,
    ;
}

/// Distinct positions of the grid have distinct places in it.
pub proof fn lemma_grid_index_injective(
    x1: int,
    y1: int,
    z1: int,
    x2: int,
    y2: int,
    z2: int,
    h: int,
    d: int,
)
    requires
        0 <= y1 < h,
        0 <= z1 < d,
        0 <= y2 < h,
        0 <= z2 < d,
        grid_index(x1, y1, z1, h, d) == grid_index(x2, y2, z2, h, d),
    ensures
        x1 == x2 && y1 == y2 && z1 == z2,
{
    let a1 = x1 * h + y1;
    let a2 = x2 * h + y2;
    assert(a1 == a2 && z1 == z2) by (nonlinear_arith)
        requires
            a1 * d + z1 == a2 * d + z2,
            0 <= z1 < d,
            0 <= z2 < d,
    ;
    assert(x1 == x2 && y1 == y2) by (nonlinear_arith)
        requires
            x1 * h + y1 == x2 * h + y2,
            0 <= y1 < h,
            0 <= y2 < h,
    ;
}

impl World {
    pub open spec fn wf(&self) -> bool {
        self.grid@.len() == self.width * self.height * self.depth
    }

    pub open spec fn in_bounds(&self, x: int, y: int, z: int) -> bool {
        0 <= x < self.width && 0 <= y < self.height && 0 <= z < self.depth
    }

    /// What occupies `(x, y, z)`; nothing outside the grid.
    pub open spec fn entity_at(&self, x: int, y: int, z: int) -> Option<Entity> {
        if self.in_bounds(x, y, z) {
            self.grid@[grid_index(x, y, z, self.height as int, self.depth as int)]
        } else {
            None
        }
    }

    /// An empty world of the given extents.
    pub fn new(width: usize, height: usize, depth: usize) -> (w: World)
        requires
            width * height * depth <= usize::MAX,
        ensures
            w.wf(),
            w.width == width && w.height == height && w.depth == depth,
            forall|x: int, y: int, z: int| w.entity_at(x, y, z) == None::<Entity>,
    {
        proof {
            assert(width * height * depth == (width * height) * depth) by (nonlinear_arith);
            if depth > 0 {
                assert(width * height <= (width * height) * depth) by (nonlinear_arith)
                    requires
                        depth > 0,
                ;
            }
        }
        let n: usize = if depth == 0 { 0 } else { width * height * depth };
        let mut grid: Vec<Option<Entity>> = Vec::new();
        let mut i: usize = 0;
        while i < n
            invariant
                i <= n,
                grid@.len() == i,
                forall|k: int| 0 <= k < i ==> grid@[k] == None::<Entity>,
            decreases n - i,
        {
            grid.push(None);
            i += 1;
        }
        let w = World { grid, width, height, depth };
        proof {
            if depth == 0 {
                assert(width * height * depth == 0) by (nonlinear_arith)
                    requires
                        depth == 0,
                ;
            }
            assert forall|x: int, y: int, z: int| w.entity_at(x, y, z) == None::<Entity> by {
                if w.in_bounds(x, y, z) {
                    lemma_grid_index_bounds(x, y, z, width as int, height as int, depth as int);
                }
            }
        }
        w
    }

    fn index(&self, x: usize, y: usize, z: usize) -> (i: usize)
        requires
            self.wf(),
            self.in_bounds(x as int, y as int, z as int),
        ensures
            i == grid_index(x as int, y as int, z as int, self.height as int, self.depth as int),
            i < self.grid@.len(),
    {
        proof {
            lemma_grid_index_bounds(
                x as int,
                y as int,
                z as int,
                self.width as int,
                self.height as int,
                self.depth as int,
            );
        }
        let n = self.grid.len();
        assert(n <= usize::MAX);
        let row = x * self.height + y;
        row * self.depth + z
    }

    /// Puts `entity` at `(x, y, z)`; does nothing outside the grid.
    pub fn set_entity(&mut self, x: usize, y: usize, z: usize, entity: Entity)
        requires
            old(self).wf(),
        ensures
            final(self).wf(),
            final(self).width == old(self).width,
            final(self).height == old(self).height,
            final(self).depth == old(self).depth,
            forall|a: int, b: int, c: int|
                #[trigger] final(self).entity_at(a, b, c) == if a == x && b == y && c == z
                    && old(self).in_bounds(a, b, c) {
                    Some(entity)
                } else {
                    old(self).entity_at(a, b, c)
                },
    {
        self.put(x, y, z, Some(entity));
    }

    /// Empties `(x, y, z)`; does nothing outside the grid.
    pub fn clear_entity(&mut self, x: usize, y: usize, z: usize)
        requires
            old(self).wf(),
        ensures
            final(self).wf(),
            final(self).width == old(self).width,
            final(self).height == old(self).height,
            final(self).depth == old(self).depth,
            forall|a: int, b: int, c: int|
                #[trigger] final(self).entity_at(a, b, c) == if a == x && b == y && c == z {
                    None
                } else {
                    old(self).entity_at(a, b, c)
                },
    {
        self.put(x, y, z, None);
    }

    fn put(&mut self, x: usize, y: usize, z: usize, value: Option<Entity>)
        requires
            old(self).wf(),
        ensures
            final(self).wf(),
            final(self).width == old(self).width,
            final(self).height == old(self).height,
            final(self).depth == old(self).depth,
            forall|a: int, b: int, c: int|
                #[trigger] final(self).entity_at(a, b, c) == if a == x && b == y && c == z
                    && old(self).in_bounds(a, b, c) {
                    value
                } else {
                    old(self).entity_at(a, b, c)
                },
    {
        if x < self.width && y < self.height && z < self.depth {
            let i = self.index(x, y, z);
            self.grid.set(i, value);
            proof {
                assert forall|a: int, b: int, c: int|
                    #[trigger] self.entity_at(a, b, c) == if a == x && b == y && c == z
                        && old(self).in_bounds(a, b, c) {
                        value
                    } else {
                        old(self).entity_at(a, b, c)
                    } by {
                    if self.in_bounds(a, b, c) && !(a == x && b == y && c == z) {
                        let h = self.height as int;
                        let d = self.depth as int;
                        lemma_grid_index_bounds(a, b, c, self.width as int, h, d);
                        if grid_index(a, b, c, h, d) == i {
                            lemma_grid_index_injective(a, b, c, x as int, y as int, z as int, h, d);
                        }
                    }
                }
            }
        }
    }

    /// What occupies `(x, y, z)`; `None` outside the grid.
    pub fn get_entity(&self, x: usize, y: usize, z: usize) -> (r: Option<&Entity>)
        requires
            self.wf(),
        ensures
            r.is_some() == self.entity_at(x as int, y as int, z as int).is_some(),
            r.is_some() ==> *r.unwrap() == self.entity_at(x as int, y as int, z as int).unwrap(),
    {
        if x < self.width && y < self.height && z < self.depth {
            let i = self.index(x, y, z);
            self.grid[i].as_ref()
        } else {
            None
        }
    }

    /// Holds a food block.
    pub open spec fn food_at(&self, x: int, y: int, z: int) -> bool {
        match self.entity_at(x, y, z) {
            Some(Entity::Block(b)) => b.block_type == BlockType::Food,
            _ => false,
        }
    }

    /// Holds a killer cell.
    pub open spec fn killer_at(&self, x: int, y: int, z: int) -> bool {
        match self.entity_at(x, y, z) {
            Some(Entity::Cell(c)) => c.cell_type == CellType::Killer,
            _ => false,
        }
    }

    /// How many steps along the facing `rotation` stay inside the grid,
    /// counting `p` itself.
    pub open spec fn edge_distance(&self, p: (int, int, int), rotation: int) -> int {
        if rotation == 0 {
            self.width - p.0
        } else if rotation == 1 {
            p.0 + 1
        } else if rotation == 2 {
            self.height - p.1
        } else if rotation == 3 {
            p.1 + 1
        } else if rotation == 4 {
            self.depth - p.2
        } else {
            p.2 + 1
        }
    }

    /// The food blocks and killer cells met on the line from `p` (included)
    /// along the facing `rotation`, up to the edge of the grid.
    pub open spec fn ray_counts(&self, p: (int, int, int), rotation: int) -> (nat, nat)
        decreases self.edge_distance(p, rotation),
    {
        if !self.in_bounds(p.0, p.1, p.2) {
            (0, 0)
        } else {
            let dir = crate::geometry::facing(rotation);
            let rest = self.ray_counts((p.0 + dir.0, p.1 + dir.1, p.2 + dir.2), rotation);
            (
                rest.0 + if self.food_at(p.0, p.1, p.2) { 1nat } else { 0nat },
                rest.1 + if self.killer_at(p.0, p.1, p.2) { 1nat } else { 0nat },
            )
        }
    }
}

/// Neighbour number `k` (0 to 26) of a position, as an offset: `k` read in
/// base 3, each digit less one; number 13 is the position itself.
pub open spec fn neighbour_offset(k: int) -> (int, int, int) {
    (k / 9 - 1, (k / 3) % 3 - 1, k % 3 - 1)
}

impl World {
    /// The occupants of the first `k` neighbour numbers of `(x, y, z)` (the
    /// position itself left out), in order; positions outside the grid and
    /// empty ones give nothing.
    pub open spec fn neighbours_upto(&self, x: int, y: int, z: int, k: int) -> Seq<Entity>
        decreases k,
    {
        if k <= 0 {
            Seq::empty()
        } else {
            let d = neighbour_offset(k - 1);
            let e = self.entity_at(x + d.0, y + d.1, z + d.2);
            self.neighbours_upto(x, y, z, k - 1) + if k - 1 != 13 && e.is_some() {
                seq![e.unwrap()]
            } else {
                Seq::empty()
            }
        }
    }

    /// The occupants of the 26 positions around `(x, y, z)` that lie inside
    /// the grid, in the order of `neighbour_offset`.
    pub fn get_adjacent_entities(&self, x: usize, y: usize, z: usize) -> (r: Vec<Entity>)
        requires
            self.wf(),
        ensures
            r@ == self.neighbours_upto(x as int, y as int, z as int, 27),
    {
        let mut r: Vec<Entity> = Vec::new();
        let mut k: usize = 0;
        while k < 27
            invariant
                k <= 27,
                self.wf(),
                r@ == self.neighbours_upto(x as int, y as int, z as int, k as int),
            decreases 27 - k,
        {
            let nx: i128 = x as i128 + (k / 9) as i128 - 1;
            let ny: i128 = y as i128 + ((k / 3) % 3) as i128 - 1;
            let nz: i128 = z as i128 + (k % 3) as i128 - 1;
            if k != 13 && 0 <= nx && nx < self.width as i128 && 0 <= ny && ny < self.height as i128
                && 0 <= nz && nz < self.depth as i128 {
                match self.get_entity(nx as usize, ny as usize, nz as usize) {
                    Some(e) => {
                        r.push(*e);
                    },
                    None => {},
                }
            }
            k += 1;
        }
        r
    }
}

} // verus!
