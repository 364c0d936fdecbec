//! The cells that organisms are made of: one typed capability each, at an
//! offset from the organism's anchor.

use vstd::prelude::*;
use crate::block::{Block, BlockType};
use crate::geometry::{clamp_coord, facing, facing_vector, negate_coord, offset_coord};
use crate::world::{Entity, World};
use crate::random::{random_range, roll};

verus! {

/// The largest value of a brain weight, which stands for 1.
pub const MAX_WEIGHT: u8 = 100;

/// The largest change that one mutation makes to a brain weight.
pub const WEIGHT_STEP: i8 = 20;

/// The number of capabilities that a cell other than the brain can have.
pub const NON_BRAIN_KINDS: u8 = 6;

/// The weights that steer an organism, as percentages (0 to `MAX_WEIGHT`).
#[derive(Clone, Copy, Debug, PartialEq, Eq, Structural)]
pub struct Brain {
    pub aggression: u8,
    pub hunger: u8,
}

/// A cell that makes food.
#[derive(Clone, Copy, Debug, PartialEq, Eq, Structural)]
pub struct Producer {}

impl Producer {
    /// A food block at the origin.
    pub fn produce(&self) -> (b: Block)
        ensures
            b == (Block { block_type: BlockType::Food, x: 0, y: 0, z: 0 }),
    {
        Block::new(BlockType::Food, 0, 0, 0)
    }
}

/// A cell that sees along the axis given by its cell's rotation.
#[derive(Clone, Copy, Debug, PartialEq, Eq, Structural)]
pub struct Eye {}

impl Eye {
    /// Scans the world from `(x, y, z)` along the facing `rotation` up to the
    /// edge of the grid, and counts the food blocks and the killer cells met.
    pub fn look(&self, rotation: i8, world: &World, x: usize, y: usize, z: usize) -> (r: (i32, i32))
        requires
            world.wf(),
            world.width <= i32::MAX,
            world.height <= i32::MAX,
            world.depth <= i32::MAX,
        ensures
            r.0 == world.ray_counts((x as int, y as int, z as int), rotation as int).0,
            r.1 == world.ray_counts((x as int, y as int, z as int), rotation as int).1,
    {
        if !(x < world.width && y < world.height && z < world.depth) {
            return (0, 0);
        }
        let (dx, dy, dz) = facing_vector(rotation);
        let ghost start = (x as int, y as int, z as int);
        let ghost rot = rotation as int;
        let ghost e0 = world.edge_distance(start, rot);
        let mut cx: i64 = x as i64;
        let mut cy: i64 = y as i64;
        let mut cz: i64 = z as i64;
        let mut food: i32 = 0;
        let mut killers: i32 = 0;
        while 0 <= cx && cx < world.width as i64 && 0 <= cy && cy < world.height as i64 && 0 <= cz
            && cz < world.depth as i64
            invariant
                world.wf(),
                world.width <= i32::MAX,
                world.height <= i32::MAX,
                world.depth <= i32::MAX,
                (dx as int, dy as int, dz as int) == facing(rot),
                rot == rotation as int,
                -1 <= cx <= world.width,
                -1 <= cy <= world.height,
                -1 <= cz <= world.depth,
                0 <= e0 <= i32::MAX,
                0 <= world.edge_distance((cx as int, cy as int, cz as int), rot),
                0 <= food <= e0 - world.edge_distance((cx as int, cy as int, cz as int), rot),
                0 <= killers <= e0 - world.edge_distance((cx as int, cy as int, cz as int), rot),
                food + world.ray_counts((cx as int, cy as int, cz as int), rot).0 == world.ray_counts(
                    start,
                    rot,
                ).0,
                killers + world.ray_counts((cx as int, cy as int, cz as int), rot).1
                    == world.ray_counts(start, rot).1,
            decreases world.edge_distance((cx as int, cy as int, cz as int), rot),
        {
            match world.get_entity(cx as usize, cy as usize, cz as usize) {
                Some(Entity::Block(b)) => {
                    match b.block_type {
                        BlockType::Food => {
                            food += 1;
                        },
                        _ => {},
                    }
                },
                Some(Entity::Cell(c)) => {
                    match c.cell_type {
                        CellType::Killer => {
                            killers += 1;
                        },
                        _ => {},
                    }
                },
                None => {},
            }
            cx = cx + dx as i64;
            cy = cy + dy as i64;
            cz = cz + dz as i64;
        }
        (food, killers)
    }
}

#[derive(Clone, Copy, Debug, PartialEq, Eq, Structural)]
pub enum CellType {
    Brain(Brain),
    Eye(Eye),
    Armor,
    Killer,
    Eater,
    Mover,
    Producer(Producer),
}

#[derive(Clone, Copy, Debug, PartialEq, Eq, Structural)]
pub struct Cell {
    pub cell_type: CellType,
    pub rotation: i8,
    pub local_x: i8,
    pub local_y: i8,
    pub local_z: i8,
}

/// A weight held to `0..=MAX_WEIGHT`.
pub open spec fn clamp_weight(v: int) -> u8 {
    if v < 0 {
        0
    } else if v > MAX_WEIGHT {
        MAX_WEIGHT
    } else {
        v as u8
    }
}

/// The capability that a roll picks among the non-brain ones.
pub open spec fn kind_of_roll(roll: int) -> CellType {
    let k = roll % (NON_BRAIN_KINDS as int);
    if k == 0 {
        CellType::Eye(Eye {})
    } else if k == 1 {
        CellType::Armor
    } else if k == 2 {
        CellType::Killer
    } else if k == 3 {
        CellType::Eater
    } else if k == 4 {
        CellType::Mover
    } else {
        CellType::Producer(Producer {})
    }
}

pub fn kind_for_roll(roll: u8) -> (t: CellType)
    ensures
        t == kind_of_roll(roll as int),
        !(t is Brain),
{
    match roll % NON_BRAIN_KINDS {
        0 => CellType::Eye(Eye {}),
        1 => CellType::Armor,
        2 => CellType::Killer,
        3 => CellType::Eater,
        4 => CellType::Mover,
        _ => CellType::Producer(Producer {}),
    }
}

fn shift_weight(w: u8, d: i8) -> (r: u8)
    ensures
        r == clamp_weight(w + d),
{
    let v: i16 = w as i16 + d as i16;
    if v < 0 {
        0
    } else if v > MAX_WEIGHT as i16 {
        MAX_WEIGHT
    } else {
        v as u8
    }
}

/// The offset of a cell turned by one of the six axis transforms.
pub open spec fn turned_offset(x: int, y: int, z: int, direction: int) -> (int, int, int) {
    if direction == 0 {
        (x, -z, y)
    } else if direction == 1 {
        (x, z, -y)
    } else if direction == 2 {
        (-z, y, x)
    } else if direction == 3 {
        (z, y, -x)
    } else if direction == 4 {
        (x, y, z)
    } else {
        (-x, y, z)
    }
}

impl Cell {
    pub open spec fn is_brain(&self) -> bool {
        self.cell_type is Brain
    }

    /// This cell after a mutation with the given roll and weight changes: a
    /// brain keeps its type and moves its weights, any other cell takes the
    /// capability that the roll picks.
    pub open spec fn mutated(self, roll: int, aggression_delta: int, hunger_delta: int) -> Cell {
        match self.cell_type {
            CellType::Brain(b) => Cell {
                cell_type: CellType::Brain(
                    Brain {
                        aggression: clamp_weight(b.aggression + aggression_delta),
                        hunger: clamp_weight(b.hunger + hunger_delta),
                    },
                ),
                ..self
            },
            _ => Cell { cell_type: kind_of_roll(roll), ..self },
        }
    }

    /// This cell after the whole organism turned in `direction` (0 to 5):
    /// the offset is transformed and the facing advances by `direction`.
    pub open spec fn turned(self, direction: int) -> Cell {
        let t = turned_offset(self.local_x as int, self.local_y as int, self.local_z as int, direction);
        Cell {
            cell_type: self.cell_type,
            rotation: ((self.rotation + direction) % 6) as i8,
            local_x: clamp_coord(t.0),
            local_y: clamp_coord(t.1),
            local_z: clamp_coord(t.2),
        }
    }

    pub fn new(cell_type: CellType, rotation: i8, local_x: i8, local_y: i8, local_z: i8) -> (c: Cell)
        ensures
            c == (Cell { cell_type, rotation, local_x, local_y, local_z }),
    {
        Cell { cell_type, rotation, local_x, local_y, local_z }
    }

    /// Mutates the cell with the given draws (see `mutated`).
    pub fn mutate_with(&mut self, roll: u8, aggression_delta: i8, hunger_delta: i8)
        ensures
            *final(self) == old(self).mutated(roll as int, aggression_delta as int, hunger_delta as int),
    {
        match self.cell_type {
            CellType::Brain(b) => {
                let aggression = shift_weight(b.aggression, aggression_delta);
                let hunger = shift_weight(b.hunger, hunger_delta);
                self.cell_type = CellType::Brain(Brain { aggression, hunger });
            },
            _ => {
                self.cell_type = kind_for_roll(roll);
            },
        }
    }

    /// Mutates the cell at random: a brain moves each weight by at most
    /// `WEIGHT_STEP` and stays within `0..=MAX_WEIGHT`; any other cell takes
    /// one of the non-brain capabilities, drawn uniformly.
    pub fn mutate(&mut self)
        ensures
            exists|r: int, da: int, dh: int|
                0 <= r < NON_BRAIN_KINDS && -WEIGHT_STEP <= da <= WEIGHT_STEP && -WEIGHT_STEP <= dh
                    <= WEIGHT_STEP && *final(self) == #[trigger] old(self).mutated(r, da, dh),
    {
        let r = roll(NON_BRAIN_KINDS);
        let da = random_range(-WEIGHT_STEP as i64, WEIGHT_STEP as i64 + 1) as i8;
        let dh = random_range(-WEIGHT_STEP as i64, WEIGHT_STEP as i64 + 1) as i8;
        self.mutate_with(r, da, dh);
    }

    /// Moves the cell's offset, held to the signed 8-bit range.
    pub fn shift(&mut self, x: i8, y: i8, z: i8)
        ensures
            *final(self) == (Cell {
                local_x: clamp_coord(old(self).local_x + x),
                local_y: clamp_coord(old(self).local_y + y),
                local_z: clamp_coord(old(self).local_z + z),
                ..*old(self)
            }),
    {
        self.local_x = offset_coord(self.local_x, x as i64);
        self.local_y = offset_coord(self.local_y, y as i64);
        self.local_z = offset_coord(self.local_z, z as i64);
    }

    /// A copy of the cell, brain weights included.
    pub fn clone(&self) -> (c: Cell)
        ensures
            c == *self,
    {
        *self
    }

    /// Turns the cell with its organism (see `turned`).
    pub fn turn(&mut self, direction: u8)
        requires
            direction < 6,
        ensures
            *final(self) == old(self).turned(direction as int),
    {
        let x = self.local_x;
        let y = self.local_y;
        let z = self.local_z;
        let (nx, ny, nz) = match direction {
            0 => (x, negate_coord(z), y),
            1 => (x, z, negate_coord(y)),
            2 => (negate_coord(z), y, x),
            3 => (z, y, negate_coord(x)),
            4 => (x, y, z),
            _ => (negate_coord(x), y, z),
        };
        let base: u16 = (self.rotation as i16 + 132) as u16;
        let rotation = ((base + direction as u16) % 6) as i8;
        proof {
            vstd::arithmetic::div_mod::lemma_mod_multiples_vanish(22, self.rotation + direction, 6);
        }
        self.local_x = nx;
        self.local_y = ny;
        self.local_z = nz;
        self.rotation = rotation;
    }
}

/// A copy of a list of cells.
pub fn copy_cells(cells: &Vec<Cell>) -> (r: Vec<Cell>)
    ensures
        r@ == cells@,
{
    let mut r: Vec<Cell> = Vec::new();
    let mut i: usize = 0;
    while i < cells.len()
        invariant
            i <= cells.len(),
            r@ == cells@.subrange(0, i as int),
        decreases cells.len() - i,
    {
        r.push(cells[i]);
        i += 1;
    }
    assert(cells@.subrange(0, cells.len() as int) =~= cells@);
    r
}

} // verus!
