//! Organisms: an ordered list of cells with exactly one brain, three vital
//! counters and a position.
//!
//! "Nearby" means within Chebyshev distance 1 everywhere: for eating, for
//! attacks and for the danger that vision reports. Vital counters saturate:
//! they never fall below 0, and eating never lifts energy above `MAX_VITAL`.

use vstd::prelude::*;
use crate::block::{Block, BlockType};
use crate::cell::{
    Brain, Cell, CellType, Eye, Producer, copy_cells, kind_for_roll, NON_BRAIN_KINDS, WEIGHT_STEP,
};
use crate::geometry::{
    abs_diff, adjacent, clamp_coord, facing, facing_vector, is_adjacent, is_on_ray, offset_coord,
    on_ray,
};
use crate::random::{choose_one, random_below, random_range, roll, unit_step};

verus! {

/// The value at which every vital counter starts and which none exceeds
/// through eating.
pub const MAX_VITAL: u8 = 100;

/// Energy gained by eating one food block.
pub const FOOD_ENERGY: u8 = 10;

/// Energy that a parent pays for one child.
pub const REPRODUCTION_COST: u8 = 10;

/// Health taken from each organism that a killer reaches.
pub const ATTACK_DAMAGE: u8 = 10;

/// Energy spent on every tick.
pub const METABOLIC_COST: u8 = 2;

/// Lifespan spent on every tick.
pub const AGING_COST: u8 = 1;

/// The brain weights of a new organism.
pub const INITIAL_WEIGHT: u8 = 50;

pub struct Organism {
    pub cells: Vec<Cell>,
    pub health: u8,
    pub energy: u8,
    pub lifespan: u8,
    pub x: i8,
    pub y: i8,
    pub z: i8,
}

/// `a - b`, or 0 where `b` is larger.
pub open spec fn sat_sub(a: int, b: int) -> u8 {
    if a <= b { 0 } else { (a - b) as u8 }
}

/// Two cell types of the same capability, whatever their payloads.
pub open spec fn same_kind(a: CellType, b: CellType) -> bool {
    match (a, b) {
        (CellType::Brain(_), CellType::Brain(_)) => true,
        (CellType::Eye(_), CellType::Eye(_)) => true,
        (CellType::Armor, CellType::Armor) => true,
        (CellType::Killer, CellType::Killer) => true,
        (CellType::Eater, CellType::Eater) => true,
        (CellType::Mover, CellType::Mover) => true,
        (CellType::Producer(_), CellType::Producer(_)) => true,
        _ => false,
    }
}

pub fn is_same_kind(a: CellType, b: CellType) -> (r: bool)
    ensures
        r == same_kind(a, b),
{
    match (a, b) {
        (CellType::Brain(_), CellType::Brain(_)) => true,
        (CellType::Eye(_), CellType::Eye(_)) => true,
        (CellType::Armor, CellType::Armor) => true,
        (CellType::Killer, CellType::Killer) => true,
        (CellType::Eater, CellType::Eater) => true,
        (CellType::Mover, CellType::Mover) => true,
        (CellType::Producer(_), CellType::Producer(_)) => true,
        _ => false,
    }
}

/// The cells of a list that have the capability of `kind`.
pub open spec fn cells_of_kind(cells: Seq<Cell>, kind: CellType) -> Seq<Cell> {
    cells.filter(|c: Cell| same_kind(c.cell_type, kind))
}

/// How many cells of a list have the capability of `kind`.
pub open spec fn kind_count(cells: Seq<Cell>, kind: CellType) -> nat {
    cells_of_kind(cells, kind).len()
}

/// How many brain cells a list holds.
pub open spec fn brain_count(cells: Seq<Cell>) -> nat {
    cells.filter(|c: Cell| c.is_brain()).len()
}

/// A cell list with its brain first and no other brain.
pub open spec fn brain_first(cells: Seq<Cell>) -> bool {
    &&& cells.len() >= 1
    &&& cells[0].is_brain()
    &&& forall|i: int| 1 <= i < cells.len() ==> !(#[trigger] cells[i]).is_brain()
}

proof fn lemma_brain_first_count(cells: Seq<Cell>)
    requires
        brain_first(cells),
    ensures
        brain_count(cells) == 1,
    decreases cells.len(),
{
    if cells.len() == 1 {
        Seq::<Cell>::empty().lemma_filter_push(cells[0], |c: Cell| c.is_brain());
        assert(cells == Seq::<Cell>::empty().push(cells[0]));
        assert(Seq::<Cell>::empty().filter(|c: Cell| c.is_brain()) =~= Seq::<Cell>::empty());
    } else {
        let init = cells.drop_last();
        assert(cells == init.push(cells.last()));
        init.lemma_filter_push(cells.last(), |c: Cell| c.is_brain());
        assert(!cells[cells.len() - 1].is_brain());
        lemma_brain_first_count(init);
    }
}

/// A step of the count loops: the count over a prefix grows by the next cell.
proof fn lemma_kind_count_step(cells: Seq<Cell>, i: int, kind: CellType)
    requires
        0 <= i < cells.len(),
    ensures
        kind_count(cells.subrange(0, i + 1), kind) == kind_count(cells.subrange(0, i), kind) + if same_kind(
            cells[i].cell_type,
            kind,
        ) {
            1nat
        } else {
            0nat
        },
{
    assert(cells.subrange(0, i + 1) == cells.subrange(0, i).push(cells[i]));
    cells.subrange(0, i).lemma_filter_push(cells[i], |c: Cell| same_kind(c.cell_type, kind));
}


/// Every cell of a list turned in `direction`.
pub open spec fn turned_cells(cells: Seq<Cell>, direction: int) -> Seq<Cell> {
    Seq::new(cells.len(), |i: int| cells[i].turned(direction))
}

/// A clamped move never goes further than the move asked for.
pub proof fn lemma_clamp_moves_at_most(a: i8, d: int)
    ensures
        abs_diff(clamp_coord(a + d) as int, a as int) <= abs_diff(d, 0),
{
}

/// Scaling a step beyond 256 changes nothing once clamped to the 8-bit range.
proof fn lemma_scale_cap(a: i8, d: int, m: int)
    requires
        m > 256,
    ensures
        clamp_coord(a + d * 256) == clamp_coord(a + d * m),
{
    if d > 0 {
        assert(d * m >= m && d * 256 >= 256) by (nonlinear_arith)
            requires
                d >= 1,
                m >= 0,
        ;
    } else if d < 0 {
        assert(d * m <= -m && d * 256 <= -256) by (nonlinear_arith)
            requires
                d <= -1,
                m >= 0,
        ;
    }
}

/// `clamp_coord(a + d * m)`, computed without overflow for any count `m`.
fn scaled_offset(a: i8, d: i8, m: usize) -> (r: i8)
    ensures
        r == clamp_coord(a + d * m),
{
    let scale: i64 = if m > 256 { 256 } else { m as i64 };
    proof {
        if m > 256 {
            lemma_scale_cap(a, d as int, m as int);
        }
        assert(-32768 <= d * scale <= 32768) by (nonlinear_arith)
            requires
                -128 <= d <= 127,
                0 <= scale <= 256,
        ;
    }
    offset_coord(a, d as i64 * scale)
}

/// Where a random teleport with steps `(dx, dy, dz)` puts `o`: each step
/// scaled by its number of mover cells, held to the 8-bit range.
pub open spec fn teleport_target(o: Organism, dx: int, dy: int, dz: int) -> (i8, i8, i8) {
    let m = o.count(CellType::Mover);
    (clamp_coord(o.x + dx * m), clamp_coord(o.y + dy * m), clamp_coord(o.z + dz * m))
}

/// `new` is `old` after a random teleport: a step of -1, 0 or 1 per axis
/// scaled by the mover count, the cells unchanged or all turned one way,
/// the vitals unchanged.
pub open spec fn teleport_outcome(old: Organism, new: Organism) -> bool {
    &&& exists|dx: int, dy: int, dz: int|
        -1 <= dx <= 1 && -1 <= dy <= 1 && -1 <= dz <= 1 && #[trigger] teleport_target(old, dx, dy, dz) == (
            new.x,
            new.y,
            new.z,
        )
    &&& (new.cells@ == old.cells@ || exists|d: int|
        0 <= d < 6 && new.cells@ == #[trigger] turned_cells(old.cells@, d))
    &&& new.health == old.health
    &&& new.energy == old.energy
    &&& new.lifespan == old.lifespan
}

/// `new` is `old` after looking along the facing `rotation`: a step along
/// or against the line of sight where vision decides, a random teleport
/// where it does not.
pub open spec fn vision_outcome(
    old: Organism,
    new: Organism,
    rotation: int,
    organisms: Seq<Organism>,
    blocks: Seq<Block>,
) -> bool {
    let s = vision_decision(
        vision_score(
            food_in_line(blocks, old.pos(), rotation) as int,
            danger_in_line(organisms, old.pos(), rotation) as int,
            old.brain().hunger as int,
            old.brain().aggression as int,
        ),
    );
    let dir = facing(rotation);
    if s != 0 {
        &&& new.x == clamp_coord(old.x + s * dir.0)
        &&& new.y == clamp_coord(old.y + s * dir.1)
        &&& new.z == clamp_coord(old.z + s * dir.2)
        &&& new.cells@ == old.cells@
        &&& new.health == old.health
        &&& new.energy == old.energy
        &&& new.lifespan == old.lifespan
    } else {
        teleport_outcome(old, new)
    }
}

/// `new` is `old` with one non-brain cell removed, where there is one to
/// remove, and unchanged otherwise.
pub open spec fn removal_outcome(old: Seq<Cell>, new: Seq<Cell>) -> bool {
    if old.len() > 1 {
        exists|i: int| 1 <= i < old.len() && !old[i].is_brain() && new == #[trigger] old.remove(i)
    } else {
        new == old
    }
}

/// `new` is `old` after one random mutation: a non-brain cell appended, one
/// cell mutated (see `Cell::mutated`), or a non-brain cell removed.
pub open spec fn mutation_outcome(old: Seq<Cell>, new: Seq<Cell>) -> bool {
    ||| (new.len() == old.len() + 1 && new.drop_last() == old && !new.last().is_brain())
    ||| exists|i: int, r: int, da: int, dh: int|
        0 <= i < old.len() && 0 <= r < NON_BRAIN_KINDS && -WEIGHT_STEP <= da <= WEIGHT_STEP && -WEIGHT_STEP
            <= dh <= WEIGHT_STEP && new == #[trigger] old.update(i, old[i].mutated(r, da, dh))
    ||| removal_outcome(old, new)
}

/// One of the eye cells of a list faces `rotation`.
pub open spec fn is_eye_facing(cells: Seq<Cell>, rotation: i8) -> bool {
    exists|i: int| 0 <= i < cells.len() && (#[trigger] cells[i]).cell_type is Eye && cells[i].rotation == rotation
}

pub open spec fn block_pos(b: Block) -> (int, int, int) {
    (b.x as int, b.y as int, b.z as int)
}

/// Energy after eating one food block: `FOOD_ENERGY` more, up to
/// `MAX_VITAL` (energy already at or above it stays as it is).
pub open spec fn fed_energy(e: int) -> u8 {
    if e >= MAX_VITAL {
        e as u8
    } else if e + FOOD_ENERGY > MAX_VITAL {
        MAX_VITAL
    } else {
        (e + FOOD_ENERGY) as u8
    }
}

/// The food blocks of a list that lie on the line of sight from `pos` along
/// the facing `rotation`.
pub open spec fn food_in_line(blocks: Seq<Block>, pos: (int, int, int), rotation: int) -> nat {
    blocks.filter(|b: Block| b.block_type == BlockType::Food && on_ray(pos, facing(rotation), block_pos(b))).len()
}

/// The organisms of a list that bear a killer cell and stand next to `pos`
/// on the line of sight along the facing `rotation`.
pub open spec fn danger_in_line(organisms: Seq<Organism>, pos: (int, int, int), rotation: int) -> nat {
    organisms.filter(|o: Organism| is_danger(o, pos, rotation)).len()
}

pub open spec fn is_danger(o: Organism, pos: (int, int, int), rotation: int) -> bool {
    adjacent(o.pos(), pos) && on_ray(pos, facing(rotation), o.pos()) && o.has(CellType::Killer)
}

/// The vision score, in thousandths: `0.1 * food * hunger + 0.2 * danger *
/// aggression - danger` with the weights as percentages.
pub open spec fn vision_score(food: int, danger: int, hunger: int, aggression: int) -> int {
    food * hunger + 2 * danger * aggression - 1000 * danger
}

/// Where vision sends an organism: -1 away along the line of sight (score
/// below -0.5), 1 along it (score above 0.5), 0 nowhere in particular.
pub open spec fn vision_decision(score: int) -> int {
    if score < -500 {
        -1
    } else if score > 500 {
        1
    } else {
        0
    }
}

/// The health of an organism after one attack.
pub open spec fn wounded_health(h: int) -> u8 {
    sat_sub(h, ATTACK_DAMAGE as int)
}

impl Organism {
    /// Its cells hold exactly one brain, which comes first, and no vital
    /// counter exceeds `MAX_VITAL`.
    pub open spec fn wf(&self) -> bool {
        &&& brain_first(self.cells@)
        &&& self.health <= MAX_VITAL
        &&& self.energy <= MAX_VITAL
        &&& self.lifespan <= MAX_VITAL
    }

    pub open spec fn pos(&self) -> (int, int, int) {
        (self.x as int, self.y as int, self.z as int)
    }

    /// How many of its cells have the capability of `kind`.
    pub open spec fn count(&self, kind: CellType) -> nat {
        kind_count(self.cells@, kind)
    }

    pub open spec fn has(&self, kind: CellType) -> bool {
        self.count(kind) > 0
    }

    pub open spec fn dead(&self) -> bool {
        self.health == 0 || self.energy == 0 || self.lifespan == 0
    }

    /// The food blocks that its body becomes: one per cell, at the cell's
    /// absolute position.
    pub open spec fn corpse(&self) -> Seq<Block> {
        Seq::new(
            self.cells@.len(),
            |i: int|
                Block {
                    block_type: BlockType::Food,
                    x: clamp_coord(self.x + self.cells@[i].local_x),
                    y: clamp_coord(self.y + self.cells@[i].local_y),
                    z: clamp_coord(self.z + self.cells@[i].local_z),
                },
        )
    }

    /// A single brain cell at the origin of the organism, vitals at maximum.
    pub fn new() -> (o: Organism)
        ensures
            o.wf(),
            o.cells@ == seq![
                Cell {
                    cell_type: CellType::Brain(Brain { aggression: INITIAL_WEIGHT, hunger: INITIAL_WEIGHT }),
                    rotation: 0,
                    local_x: 0,
                    local_y: 0,
                    local_z: 0,
                },
            ],
            o.health == MAX_VITAL && o.energy == MAX_VITAL && o.lifespan == MAX_VITAL,
            o.x == 0 && o.y == 0 && o.z == 0,
    {
        let brain = Brain { aggression: INITIAL_WEIGHT, hunger: INITIAL_WEIGHT };
        let brain_cell = Cell::new(CellType::Brain(brain), 0, 0, 0, 0);
        let mut cells: Vec<Cell> = Vec::new();
        cells.push(brain_cell);
        Organism {
            cells,
            health: MAX_VITAL,
            energy: MAX_VITAL,
            lifespan: MAX_VITAL,
            x: 0,
            y: 0,
            z: 0,
        }
    }

    /// How many of its cells have the capability of `kind`.
    pub fn count_cells(&self, kind: CellType) -> (n: usize)
        ensures
            n == self.count(kind),
    {
        let mut n: usize = 0;
        let mut i: usize = 0;
        while i < self.cells.len()
            invariant
                i <= self.cells.len(),
                n <= i,
                n == kind_count(self.cells@.subrange(0, i as int), kind),
            decreases self.cells.len() - i,
        {
            proof {
                lemma_kind_count_step(self.cells@, i as int, kind);
            }
            if is_same_kind(self.cells[i].cell_type, kind) {
                n += 1;
            }
            i += 1;
        }
        assert(self.cells@.subrange(0, self.cells.len() as int) =~= self.cells@);
        n
    }

    /// Whether one of its cells has the capability of `kind`.
    pub fn has_cell(&self, kind: CellType) -> (r: bool)
        ensures
            r == self.has(kind),
    {
        self.count_cells(kind) > 0
    }

    /// A deep copy: the same cells, vitals and position.
    pub fn duplicate(&self) -> (o: Organism)
        ensures
            o.same_as(*self),
    {
        Organism {
            cells: copy_cells(&self.cells),
            health: self.health,
            energy: self.energy,
            lifespan: self.lifespan,
            x: self.x,
            y: self.y,
            z: self.z,
        }
    }

    /// The same cells, vitals and position.
    pub open spec fn same_as(&self, other: Organism) -> bool {
        &&& self.cells@ == other.cells@
        &&& self.health == other.health
        &&& self.energy == other.energy
        &&& self.lifespan == other.lifespan
        &&& self.x == other.x && self.y == other.y && self.z == other.z
    }

    /// True iff health, energy or lifespan is 0.
    pub fn is_dead(&self) -> (r: bool)
        ensures
            r == (self.health == 0 || self.energy == 0 || self.lifespan == 0),
    {
        self.health == 0 || self.energy == 0 || self.lifespan == 0
    }

    /// One food block per cell, at the cell's absolute position.
    pub fn kill(&self) -> (blocks: Vec<Block>)
        ensures
            blocks@ == self.corpse(),
    {
        let mut blocks: Vec<Block> = Vec::new();
        let mut i: usize = 0;
        while i < self.cells.len()
            invariant
                i <= self.cells.len(),
                blocks@ == self.corpse().subrange(0, i as int),
            decreases self.cells.len() - i,
        {
            let c = self.cells[i];
            blocks.push(
                Block::new(
                    BlockType::Food,
                    offset_coord(self.x, c.local_x as i64),
                    offset_coord(self.y, c.local_y as i64),
                    offset_coord(self.z, c.local_z as i64),
                ),
            );
            i += 1;
            assert(blocks@ =~= self.corpse().subrange(0, i as int));
        }
        assert(blocks@ =~= self.corpse());
        blocks
    }

    /// Moves the organism, held to the signed 8-bit range.
    pub fn shift(&mut self, dx: i8, dy: i8, dz: i8)
        ensures
            final(self).x == clamp_coord(old(self).x + dx),
            final(self).y == clamp_coord(old(self).y + dy),
            final(self).z == clamp_coord(old(self).z + dz),
            final(self).cells == old(self).cells,
            final(self).health == old(self).health,
            final(self).energy == old(self).energy,
            final(self).lifespan == old(self).lifespan,
    {
        self.x = offset_coord(self.x, dx as i64);
        self.y = offset_coord(self.y, dy as i64);
        self.z = offset_coord(self.z, dz as i64);
    }

    /// The cost of living one tick: lifespan falls by `AGING_COST` and
    /// energy by `METABOLIC_COST`, neither below 0.
    pub fn age_one_tick(&mut self)
        ensures
            final(self).lifespan == sat_sub(old(self).lifespan as int, AGING_COST as int),
            final(self).energy == sat_sub(old(self).energy as int, METABOLIC_COST as int),
            final(self).health == old(self).health,
            old(self).wf() ==> final(self).wf(),
            final(self).cells == old(self).cells,
            final(self).x == old(self).x && final(self).y == old(self).y && final(self).z == old(self).z,
    {
        self.lifespan = if self.lifespan > AGING_COST { self.lifespan - AGING_COST } else { 0 };
        self.energy = if self.energy > METABOLIC_COST { self.energy - METABOLIC_COST } else { 0 };
    }

    /// Appends `cell`; a brain cell is refused, so the organism keeps its
    /// single brain.
    pub fn add_cell(&mut self, cell: Cell)
        ensures
            final(self).cells@ == if cell.is_brain() {
                old(self).cells@
            } else {
                old(self).cells@.push(cell)
            },
            old(self).wf() ==> final(self).wf(),
            final(self).health == old(self).health,
            final(self).energy == old(self).energy,
            final(self).lifespan == old(self).lifespan,
            final(self).x == old(self).x && final(self).y == old(self).y && final(self).z == old(self).z,
    {
        match cell.cell_type {
            CellType::Brain(_) => {},
            _ => {
                self.cells.push(cell);
            },
        }
    }

    /// Appends a cell of a random non-brain capability, at a random offset of
    /// at most one step and with a random facing.
    pub fn add_random_cell(&mut self)
        ensures
            final(self).cells@.len() == old(self).cells@.len() + 1,
            final(self).cells@.drop_last() == old(self).cells@,
            !final(self).cells@.last().is_brain(),
            0 <= final(self).cells@.last().rotation < 6,
            -1 <= final(self).cells@.last().local_x <= 1,
            -1 <= final(self).cells@.last().local_y <= 1,
            -1 <= final(self).cells@.last().local_z <= 1,
            old(self).wf() ==> final(self).wf(),
            final(self).health == old(self).health,
            final(self).energy == old(self).energy,
            final(self).lifespan == old(self).lifespan,
            final(self).x == old(self).x && final(self).y == old(self).y && final(self).z == old(self).z,
    {
        let kind = kind_for_roll(roll(NON_BRAIN_KINDS));
        let dx = unit_step();
        let dy = unit_step();
        let dz = unit_step();
        let rotation = roll(6) as i8;
        self.add_cell(Cell::new(kind, rotation, dx, dy, dz));
        assert(self.cells@.drop_last() =~= old(self).cells@);
    }

    /// Mutates the cell at `index` with the given draws (see `Cell::mutated`);
    /// does nothing where `index` is out of range.
    pub fn mutate_cell(&mut self, index: usize, roll: u8, aggression_delta: i8, hunger_delta: i8)
        ensures
            final(self).cells@ == if index < old(self).cells@.len() {
                old(self).cells@.update(
                    index as int,
                    old(self).cells@[index as int].mutated(
                        roll as int,
                        aggression_delta as int,
                        hunger_delta as int,
                    ),
                )
            } else {
                old(self).cells@
            },
            old(self).wf() ==> final(self).wf(),
            final(self).health == old(self).health,
            final(self).energy == old(self).energy,
            final(self).lifespan == old(self).lifespan,
            final(self).x == old(self).x && final(self).y == old(self).y && final(self).z == old(self).z,
    {
        if index < self.cells.len() {
            let mut c = self.cells[index];
            c.mutate_with(roll, aggression_delta, hunger_delta);
            self.cells.set(index, c);
            assert(forall|i: int|
                0 <= i < self.cells@.len() ==> (#[trigger] self.cells@[i]).is_brain()
                    == old(self).cells@[i].is_brain());
        }
    }

    /// Removes the cell at `index` unless it is the brain, it is out of
    /// range, or it is the only cell.
    pub fn remove_cell(&mut self, index: usize)
        ensures
            final(self).cells@ == if index < old(self).cells@.len() && old(self).cells@.len() > 1
                && !old(self).cells@[index as int].is_brain() {
                old(self).cells@.remove(index as int)
            } else {
                old(self).cells@
            },
            old(self).wf() ==> final(self).wf(),
            final(self).health == old(self).health,
            final(self).energy == old(self).energy,
            final(self).lifespan == old(self).lifespan,
            final(self).x == old(self).x && final(self).y == old(self).y && final(self).z == old(self).z,
    {
        if index < self.cells.len() && self.cells.len() > 1 {
            match self.cells[index].cell_type {
                CellType::Brain(_) => {},
                _ => {
                    self.cells.remove(index);
                    proof {
                        if old(self).wf() {
                            assert(index > 0);
                            assert(self.cells@[0] == old(self).cells@[0]);
                            assert forall|i: int| 1 <= i < self.cells@.len() implies !(
                            #[trigger] self.cells@[i]).is_brain() by {
                                if i < index {
                                    assert(self.cells@[i] == old(self).cells@[i]);
                                } else {
                                    assert(self.cells@[i] == old(self).cells@[i + 1]);
                                }
                            }
                        }
                    }
                },
            }
        }
    }

    /// Removes one cell other than the brain, drawn uniformly; does nothing
    /// where the brain is the only cell.
    pub fn remove_random_cell(&mut self)
        requires
            old(self).wf(),
        ensures
            final(self).wf(),
            removal_outcome(old(self).cells@, final(self).cells@),
            final(self).health == old(self).health,
            final(self).energy == old(self).energy,
            final(self).lifespan == old(self).lifespan,
            final(self).x == old(self).x && final(self).y == old(self).y && final(self).z == old(self).z,
    {
        let n = self.cells.len();
        if n > 1 {
            let index = 1 + random_below(n - 1);
            self.remove_cell(index);
            assert(!old(self).cells@[index as int].is_brain());
        }
    }

    /// Picks uniformly one of: add a random cell, mutate a random cell,
    /// remove a random non-brain cell.
    pub fn mutate(&mut self)
        requires
            old(self).wf(),
        ensures
            final(self).wf(),
            mutation_outcome(old(self).cells@, final(self).cells@),
            final(self).health == old(self).health,
            final(self).energy == old(self).energy,
            final(self).lifespan == old(self).lifespan,
            final(self).x == old(self).x && final(self).y == old(self).y && final(self).z == old(self).z,
    {
        let choice = roll(3);
        if choice == 0 {
            self.add_random_cell();
        } else if choice == 1 {
            let index = random_below(self.cells.len());
            let mut c = self.cells[index];
            c.mutate();
            self.cells.set(index, c);
            assert(forall|i: int|
                0 <= i < self.cells@.len() ==> (#[trigger] self.cells@[i]).is_brain()
                    == old(self).cells@[i].is_brain());
            proof {
                let (r, da, dh) = choose|r: int, da: int, dh: int|
                    0 <= r < NON_BRAIN_KINDS && -WEIGHT_STEP <= da <= WEIGHT_STEP && -WEIGHT_STEP <= dh
                        <= WEIGHT_STEP && c == #[trigger] old(self).cells@[index as int].mutated(r, da, dh);
                assert(self.cells@ == old(self).cells@.update(
                    index as int,
                    old(self).cells@[index as int].mutated(r, da, dh),
                ));
            }
        } else {
            self.remove_random_cell();
        }
    }

    /// Turns every cell in `direction` (0 to 5): offsets are transformed and
    /// facings advance (see `Cell::turned`).
    pub fn rotate_by(&mut self, direction: u8)
        requires
            direction < 6,
        ensures
            final(self).cells@ == turned_cells(old(self).cells@, direction as int),
            old(self).wf() ==> final(self).wf(),
            final(self).health == old(self).health,
            final(self).energy == old(self).energy,
            final(self).lifespan == old(self).lifespan,
            final(self).x == old(self).x && final(self).y == old(self).y && final(self).z == old(self).z,
    {
        let mut i: usize = 0;
        while i < self.cells.len()
            invariant
                0 <= i <= self.cells@.len(),
                direction < 6,
                self.cells@.len() == old(self).cells@.len(),
                forall|j: int| 0 <= j < i ==> self.cells@[j] == old(self).cells@[j].turned(direction as int),
                forall|j: int| i <= j < self.cells@.len() ==> self.cells@[j] == old(self).cells@[j],
                self.health == old(self).health,
                self.energy == old(self).energy,
                self.lifespan == old(self).lifespan,
                self.x == old(self).x && self.y == old(self).y && self.z == old(self).z,
            decreases self.cells.len() - i,
        {
            let mut c = self.cells[i];
            c.turn(direction);
            self.cells.set(i, c);
            i += 1;
        }
        assert(self.cells@ =~= turned_cells(old(self).cells@, direction as int));
        assert(forall|i: int|
            0 <= i < self.cells@.len() ==> (#[trigger] self.cells@[i]).is_brain()
                == old(self).cells@[i].is_brain());
    }

    /// Turns every cell in a direction drawn at random.
    pub fn rotate(&mut self)
        ensures
            exists|d: int|
                0 <= d < 6 && final(self).cells@ == #[trigger] turned_cells(old(self).cells@, d),
            old(self).wf() ==> final(self).wf(),
            final(self).health == old(self).health,
            final(self).energy == old(self).energy,
            final(self).lifespan == old(self).lifespan,
            final(self).x == old(self).x && final(self).y == old(self).y && final(self).z == old(self).z,
    {
        let direction = rand::random::<u8>() % 6;
        self.rotate_by(direction);
    }

    /// Moves `(dx, dy, dz)` scaled by the number of mover cells (none: no
    /// move), held to the signed 8-bit range.
    pub fn teleport_by(&mut self, dx: i8, dy: i8, dz: i8)
        ensures
            final(self).x == clamp_coord(old(self).x + dx * old(self).count(CellType::Mover)),
            final(self).y == clamp_coord(old(self).y + dy * old(self).count(CellType::Mover)),
            final(self).z == clamp_coord(old(self).z + dz * old(self).count(CellType::Mover)),
            final(self).cells == old(self).cells,
            final(self).health == old(self).health,
            final(self).energy == old(self).energy,
            final(self).lifespan == old(self).lifespan,
    {
        let movers = self.count_cells(CellType::Mover);
        self.x = scaled_offset(self.x, dx, movers);
        self.y = scaled_offset(self.y, dy, movers);
        self.z = scaled_offset(self.z, dz, movers);
    }

    /// A random step of -1, 0 or 1 on each axis, scaled by the number of
    /// mover cells; then, with probability one half, a random rotation.
    pub fn teleport_random(&mut self)
        ensures
            teleport_outcome(*old(self), *final(self)),
            old(self).wf() ==> final(self).wf(),
    {
        let dx = unit_step();
        let dy = unit_step();
        let dz = unit_step();
        self.teleport_by(dx, dy, dz);
        assert(teleport_target(*old(self), dx as int, dy as int, dz as int) == (self.x, self.y, self.z));
        if roll(2) == 0 {
            self.rotate();
        }
    }

    /// Pays `REPRODUCTION_COST` energy (all that is left, if less) for a
    /// child with a copy of this organism's cells, full vitals, placed at
    /// this organism's position moved by `(dx, dy, dz)`.
    pub fn reproduce_at(&mut self, dx: i16, dy: i16, dz: i16) -> (child: Organism)
        ensures
            final(self).energy == sat_sub(old(self).energy as int, REPRODUCTION_COST as int),
            final(self).cells == old(self).cells,
            final(self).health == old(self).health,
            final(self).lifespan == old(self).lifespan,
            final(self).x == old(self).x && final(self).y == old(self).y && final(self).z == old(self).z,
            child.cells@ == old(self).cells@,
            child.health == MAX_VITAL && child.energy == MAX_VITAL && child.lifespan == MAX_VITAL,
            child.x == clamp_coord(old(self).x + dx),
            child.y == clamp_coord(old(self).y + dy),
            child.z == clamp_coord(old(self).z + dz),
            old(self).wf() ==> child.wf(),
    {
        self.energy = if self.energy >= REPRODUCTION_COST { self.energy - REPRODUCTION_COST } else { 0 };
        let mut child = Organism::new();
        child.cells = copy_cells(&self.cells);
        child.x = offset_coord(self.x, dx as i64);
        child.y = offset_coord(self.y, dy as i64);
        child.z = offset_coord(self.z, dz as i64);
        child
    }

    /// A child as in `reproduce_at`, at a random offset of at most twice the
    /// parent's cell count on each axis.
    pub fn reproduce(&mut self) -> (child: Organism)
        ensures
            final(self).energy == sat_sub(old(self).energy as int, REPRODUCTION_COST as int),
            final(self).cells == old(self).cells,
            final(self).health == old(self).health,
            final(self).lifespan == old(self).lifespan,
            final(self).x == old(self).x && final(self).y == old(self).y && final(self).z == old(self).z,
            child.cells@ == old(self).cells@,
            child.health == MAX_VITAL && child.energy == MAX_VITAL && child.lifespan == MAX_VITAL,
            abs_diff(child.x as int, old(self).x as int) <= 2 * old(self).cells@.len(),
            abs_diff(child.y as int, old(self).y as int) <= 2 * old(self).cells@.len(),
            abs_diff(child.z as int, old(self).z as int) <= 2 * old(self).cells@.len(),
            old(self).wf() ==> child.wf(),
    {
        let size: i64 = if self.cells.len() > 127 { 127 } else { self.cells.len() as i64 };
        assert(0 <= size <= 127 && size <= self.cells@.len());
        let span: i64 = 2 * size;
        let dx = random_range(-span, span + 1) as i16;
        let dy = random_range(-span, span + 1) as i16;
        let dz = random_range(-span, span + 1) as i16;
        proof {
            lemma_clamp_moves_at_most(self.x, dx as int);
            lemma_clamp_moves_at_most(self.y, dy as int);
            lemma_clamp_moves_at_most(self.z, dz as int);
        }
        self.reproduce_at(dx, dy, dz)
    }

    /// A food block at this organism's position moved by `(dx, dy, dz)`, if
    /// it has a producer cell and `food_count` is below `max_food`.
    pub fn produce_food_at(&self, food_count: usize, max_food: usize, dx: i8, dy: i8, dz: i8) -> (r:
        Option<Block>)
        ensures
            r == if self.has(CellType::Producer(Producer {})) && food_count < max_food {
                Some(
                    Block {
                        block_type: BlockType::Food,
                        x: clamp_coord(self.x + dx),
                        y: clamp_coord(self.y + dy),
                        z: clamp_coord(self.z + dz),
                    },
                )
            } else {
                None
            },
    {
        if food_count < max_food && self.has_cell(CellType::Producer(Producer {})) {
            Some(
                Block::new(
                    BlockType::Food,
                    offset_coord(self.x, dx as i64),
                    offset_coord(self.y, dy as i64),
                    offset_coord(self.z, dz as i64),
                ),
            )
        } else {
            None
        }
    }

    /// A food block at a random position adjacent to this organism (or at
    /// it), if it has a producer cell and the food budget is not used up.
    pub fn produce_food(&self, food_count: usize, max_food: usize) -> (r: Option<Block>)
        ensures
            r.is_some() == (self.has(CellType::Producer(Producer {})) && food_count < max_food),
            r matches Some(b) ==> b.block_type == BlockType::Food && adjacent(
                (b.x as int, b.y as int, b.z as int),
                self.pos(),
            ),
    {
        let dx = unit_step();
        let dy = unit_step();
        let dz = unit_step();
        proof {
            lemma_clamp_moves_at_most(self.x, dx as int);
            lemma_clamp_moves_at_most(self.y, dy as int);
            lemma_clamp_moves_at_most(self.z, dz as int);
        }
        self.produce_food_at(food_count, max_food, dx, dy, dz)
    }

    /// A food block next to this organism (or at its position).
    pub open spec fn edible(&self, b: Block) -> bool {
        b.block_type == BlockType::Food && adjacent(block_pos(b), self.pos())
    }

    /// The weights of its brain, the first cell of a well-formed organism.
    pub open spec fn brain(&self) -> Brain {
        match self.cells@[0].cell_type {
            CellType::Brain(b) => b,
            _ => Brain { aggression: 0, hunger: 0 },
        }
    }

    /// Eats the first food block of `blocks` that lies next to this organism
    /// (or at its position): the block is removed and energy rises by
    /// `FOOD_ENERGY`, up to `MAX_VITAL`. Without such a block nothing changes.
    pub fn eat(&mut self, blocks: &mut Vec<Block>)
        ensures
            (forall|i: int| 0 <= i < old(blocks)@.len() ==> !old(self).edible(#[trigger] old(blocks)@[i]))
                ==> final(blocks)@ == old(blocks)@ && final(self).energy == old(self).energy,
            forall|i: int|
                0 <= i < old(blocks)@.len() && old(self).edible(#[trigger] old(blocks)@[i]) && (forall|j: int|
                    0 <= j < i ==> !old(self).edible(old(blocks)@[j]))
                    ==> final(blocks)@ == old(blocks)@.remove(i)
                    && final(self).energy == fed_energy(old(self).energy as int),
            final(blocks)@ == old(blocks)@ || exists|i: int|
                0 <= i < old(blocks)@.len() && old(blocks)@[i].block_type == BlockType::Food && old(self).edible(
                    old(blocks)@[i],
                ) && final(blocks)@ == #[trigger] old(blocks)@.remove(i),
            final(blocks)@ == old(blocks)@ ==> final(self).energy == old(self).energy,
            final(blocks)@ != old(blocks)@ ==> final(self).energy == fed_energy(old(self).energy as int),
            old(self).wf() ==> final(self).wf(),
            final(self).cells == old(self).cells,
            final(self).health == old(self).health,
            final(self).lifespan == old(self).lifespan,
            final(self).x == old(self).x && final(self).y == old(self).y && final(self).z == old(self).z,
    {
        let mut i: usize = 0;
        while i < blocks.len()
            invariant
                i <= blocks@.len(),
                blocks@ == old(blocks)@,
                *self == *old(self),
                forall|j: int| 0 <= j < i ==> !old(self).edible(#[trigger] old(blocks)@[j]),
            decreases blocks.len() - i,
        {
            let b = blocks[i];
            let food = match b.block_type {
                BlockType::Food => true,
                BlockType::Wall => false,
            };
            if food && is_adjacent(b.x, b.y, b.z, self.x, self.y, self.z) {
                blocks.remove(i);
                self.energy = if self.energy >= MAX_VITAL {
                    self.energy
                } else if self.energy + FOOD_ENERGY > MAX_VITAL {
                    MAX_VITAL
                } else {
                    self.energy + FOOD_ENERGY
                };
                proof {
                    assert forall|k: int|
                        0 <= k < old(blocks)@.len() && old(self).edible(#[trigger] old(blocks)@[k])
                            && (forall|j: int| 0 <= j < k ==> !old(self).edible(old(blocks)@[j])) implies k
                        == i by {
                        if k > i {
                            assert(old(self).edible(old(blocks)@[i as int]));
                        }
                    }
                }
                return;
            }
            i += 1;
        }
    }

    /// The organisms of `organisms` within Chebyshev distance 1 of this one
    /// (itself included, where it is in the list), in their order.
    pub fn get_nearby_organisms<'a>(&self, organisms: &'a Vec<Organism>) -> (r: Vec<&'a Organism>)
        ensures
            r@.len() == organisms@.filter(|o: Organism| adjacent(o.pos(), self.pos())).len(),
            forall|k: int|
                0 <= k < r@.len() ==> *r@[k] == organisms@.filter(
                    |o: Organism| adjacent(o.pos(), self.pos()),
                )[k],
    {
        let ghost pred = |o: Organism| adjacent(o.pos(), self.pos());
        let mut r: Vec<&'a Organism> = Vec::new();
        let mut i: usize = 0;
        while i < organisms.len()
            invariant
                i <= organisms@.len(),
                pred == (|o: Organism| adjacent(o.pos(), self.pos())),
                r@.len() == organisms@.subrange(0, i as int).filter(pred).len(),
                forall|k: int| 0 <= k < r@.len() ==> *r@[k] == organisms@.subrange(0, i as int).filter(pred)[k],
            decreases organisms.len() - i,
        {
            let o = &organisms[i];
            proof {
                assert(organisms@.subrange(0, i + 1) == organisms@.subrange(0, i as int).push(organisms@[i as int]));
                organisms@.subrange(0, i as int).lemma_filter_push(organisms@[i as int], pred);
            }
            if is_adjacent(o.x, o.y, o.z, self.x, self.y, self.z) {
                r.push(o);
            }
            i += 1;
        }
        assert(organisms@.subrange(0, organisms@.len() as int) =~= organisms@);
        r
    }

    /// The blocks of `blocks` within Chebyshev distance 1 of this organism,
    /// in their order.
    pub fn get_nearby_blocks<'a>(&self, blocks: &'a Vec<Block>) -> (r: Vec<&'a Block>)
        ensures
            r@.len() == blocks@.filter(|b: Block| adjacent(block_pos(b), self.pos())).len(),
            forall|k: int|
                0 <= k < r@.len() ==> *r@[k] == blocks@.filter(
                    |b: Block| adjacent(block_pos(b), self.pos()),
                )[k],
    {
        let ghost pred = |b: Block| adjacent(block_pos(b), self.pos());
        let mut r: Vec<&'a Block> = Vec::new();
        let mut i: usize = 0;
        while i < blocks.len()
            invariant
                i <= blocks@.len(),
                pred == (|b: Block| adjacent(block_pos(b), self.pos())),
                r@.len() == blocks@.subrange(0, i as int).filter(pred).len(),
                forall|k: int| 0 <= k < r@.len() ==> *r@[k] == blocks@.subrange(0, i as int).filter(pred)[k],
            decreases blocks.len() - i,
        {
            let b = &blocks[i];
            proof {
                assert(blocks@.subrange(0, i + 1) == blocks@.subrange(0, i as int).push(blocks@[i as int]));
                blocks@.subrange(0, i as int).lemma_filter_push(blocks@[i as int], pred);
            }
            if is_adjacent(b.x, b.y, b.z, self.x, self.y, self.z) {
                r.push(b);
            }
            i += 1;
        }
        assert(blocks@.subrange(0, blocks@.len() as int) =~= blocks@);
        r
    }

    /// The weights of the first brain cell, if there is one.
    fn first_brain(&self) -> (r: Option<Brain>)
        ensures
            r.is_none() == (forall|i: int| 0 <= i < self.cells@.len() ==> !(#[trigger] self.cells@[i]).is_brain()),
            r matches Some(b) ==> exists|i: int|
                0 <= i < self.cells@.len() && #[trigger] self.cells@[i].cell_type == CellType::Brain(b)
                    && forall|j: int| 0 <= j < i ==> !self.cells@[j].is_brain(),
            self.wf() ==> r == Some(self.brain()),
    {
        let mut i: usize = 0;
        while i < self.cells.len()
            invariant
                i <= self.cells@.len(),
                forall|j: int| 0 <= j < i ==> !(#[trigger] self.cells@[j]).is_brain(),
            decreases self.cells.len() - i,
        {
            match self.cells[i].cell_type {
                CellType::Brain(b) => {
                    return Some(b);
                },
                _ => {},
            }
            i += 1;
        }
        None
    }

    /// The hunger weight of the brain (a percentage), if there is a brain.
    pub fn get_hunger(&self) -> (r: Option<u8>)
        ensures
            self.wf() ==> r == Some(self.brain().hunger),
            r.is_none() == (forall|i: int| 0 <= i < self.cells@.len() ==> !(#[trigger] self.cells@[i]).is_brain()),
    {
        match self.first_brain() {
            Some(b) => Some(b.hunger),
            None => None,
        }
    }

    /// The aggression weight of the brain (a percentage), if there is a brain.
    pub fn get_aggression(&self) -> (r: Option<u8>)
        ensures
            self.wf() ==> r == Some(self.brain().aggression),
            r.is_none() == (forall|i: int| 0 <= i < self.cells@.len() ==> !(#[trigger] self.cells@[i]).is_brain()),
    {
        match self.first_brain() {
            Some(b) => Some(b.aggression),
            None => None,
        }
    }

    /// How many food blocks of `blocks` lie on the line of sight along the
    /// facing `rotation`.
    pub fn food_in_sight(&self, rotation: i8, blocks: &Vec<Block>) -> (n: usize)
        ensures
            n == food_in_line(blocks@, self.pos(), rotation as int),
    {
        let dir = facing_vector(rotation);
        let ghost pred = |b: Block| b.block_type == BlockType::Food && on_ray(self.pos(), facing(rotation as int), block_pos(b));
        let mut n: usize = 0;
        let mut i: usize = 0;
        while i < blocks.len()
            invariant
                i <= blocks@.len(),
                n <= i,
                (dir.0 as int, dir.1 as int, dir.2 as int) == facing(rotation as int),
                pred == (|b: Block| b.block_type == BlockType::Food && on_ray(self.pos(), facing(rotation as int), block_pos(b))),
                n == blocks@.subrange(0, i as int).filter(pred).len(),
            decreases blocks.len() - i,
        {
            let b = blocks[i];
            proof {
                assert(blocks@.subrange(0, i + 1) == blocks@.subrange(0, i as int).push(blocks@[i as int]));
                blocks@.subrange(0, i as int).lemma_filter_push(blocks@[i as int], pred);
            }
            let food = match b.block_type {
                BlockType::Food => true,
                BlockType::Wall => false,
            };
            if food && is_on_ray(self.x, self.y, self.z, dir, b.x, b.y, b.z) {
                n += 1;
            }
            i += 1;
        }
        assert(blocks@.subrange(0, blocks@.len() as int) =~= blocks@);
        n
    }

    /// How many organisms of `organisms` bear a killer cell and stand next to
    /// this one on the line of sight along the facing `rotation`.
    pub fn danger_in_sight(&self, rotation: i8, organisms: &Vec<Organism>) -> (n: usize)
        ensures
            n == danger_in_line(organisms@, self.pos(), rotation as int),
    {
        let dir = facing_vector(rotation);
        let ghost pred = |o: Organism| is_danger(o, self.pos(), rotation as int);
        let mut n: usize = 0;
        let mut i: usize = 0;
        while i < organisms.len()
            invariant
                i <= organisms@.len(),
                n <= i,
                (dir.0 as int, dir.1 as int, dir.2 as int) == facing(rotation as int),
                pred == (|o: Organism| is_danger(o, self.pos(), rotation as int)),
                n == organisms@.subrange(0, i as int).filter(pred).len(),
            decreases organisms.len() - i,
        {
            let o = &organisms[i];
            proof {
                assert(organisms@.subrange(0, i + 1) == organisms@.subrange(0, i as int).push(organisms@[i as int]));
                organisms@.subrange(0, i as int).lemma_filter_push(organisms@[i as int], pred);
            }
            if is_adjacent(o.x, o.y, o.z, self.x, self.y, self.z) && is_on_ray(
                self.x,
                self.y,
                self.z,
                dir,
                o.x,
                o.y,
                o.z,
            ) && o.has_cell(CellType::Killer) {
                n += 1;
            }
            i += 1;
        }
        assert(organisms@.subrange(0, organisms@.len() as int) =~= organisms@);
        n
    }

    /// The vision decision for the facing `rotation` (see `vision_decision`),
    /// from the food and danger in sight and the brain's weights.
    pub fn vision_step(&self, rotation: i8, organisms: &Vec<Organism>, blocks: &Vec<Block>) -> (r: i8)
        requires
            self.wf(),
        ensures
            r == vision_decision(
                vision_score(
                    food_in_line(blocks@, self.pos(), rotation as int) as int,
                    danger_in_line(organisms@, self.pos(), rotation as int) as int,
                    self.brain().hunger as int,
                    self.brain().aggression as int,
                ),
            ),
    {
        let food = self.food_in_sight(rotation, blocks);
        let danger = self.danger_in_sight(rotation, organisms);
        let brain = match self.first_brain() {
            Some(b) => b,
            None => Brain { aggression: 0, hunger: 0 },
        };
        let f: i128 = food as i128;
        let d: i128 = danger as i128;
        proof {
            assert(0 <= f * brain.hunger <= 0x1_0000_0000_0000_0000 * 255) by (nonlinear_arith)
                requires
                    0 <= f <= usize::MAX,
                    0 <= brain.hunger <= 255,
            ;
            assert(0 <= d * brain.aggression <= 0x1_0000_0000_0000_0000 * 255) by (nonlinear_arith)
                requires
                    0 <= d <= usize::MAX,
                    0 <= brain.aggression <= 255,
            ;
        }
        let score: i128 = f * brain.hunger as i128 + 2 * (d * brain.aggression as i128) - 1000 * d;
        assert(score == vision_score(f as int, d as int, brain.hunger as int, brain.aggression as int))
            by (nonlinear_arith)
            requires
                score == f * brain.hunger + 2 * (d * brain.aggression) - 1000 * d,
        ;
        if score < -500 {
            -1
        } else if score > 500 {
            1
        } else {
            0
        }
    }

    /// Moves one step along the line of sight of the facing `rotation`, or
    /// one step against it, as vision decides; returns whether it moved.
    pub fn move_with_vision(&mut self, rotation: i8, organisms: &Vec<Organism>, blocks: &Vec<Block>) -> (moved: bool)
        requires
            old(self).wf(),
        ensures
            ({
                let s = vision_decision(
                    vision_score(
                        food_in_line(blocks@, old(self).pos(), rotation as int) as int,
                        danger_in_line(organisms@, old(self).pos(), rotation as int) as int,
                        old(self).brain().hunger as int,
                        old(self).brain().aggression as int,
                    ),
                );
                let dir = facing(rotation as int);
                &&& moved == (s != 0)
                &&& final(self).x == clamp_coord(old(self).x + s * dir.0)
                &&& final(self).y == clamp_coord(old(self).y + s * dir.1)
                &&& final(self).z == clamp_coord(old(self).z + s * dir.2)
            }),
            final(self).cells == old(self).cells,
            final(self).health == old(self).health,
            final(self).energy == old(self).energy,
            final(self).lifespan == old(self).lifespan,
    {
        let step = self.vision_step(rotation, organisms, blocks);
        let (dx, dy, dz) = facing_vector(rotation);
        if step < 0 {
            self.shift(-dx, -dy, -dz);
            true
        } else if step > 0 {
            self.shift(dx, dy, dz);
            true
        } else {
            false
        }
    }

    /// The facings of its eye cells, in the order of the cells.
    fn eye_rotations(&self) -> (r: Vec<i8>)
        ensures
            r@.len() == self.count(CellType::Eye(Eye {})),
            forall|k: int| 0 <= k < r@.len() ==> is_eye_facing(self.cells@, #[trigger] r@[k]),
    {
        let ghost eye = CellType::Eye(Eye {});
        let mut r: Vec<i8> = Vec::new();
        let mut i: usize = 0;
        while i < self.cells.len()
            invariant
                i <= self.cells@.len(),
                eye == CellType::Eye(Eye {}),
                r@.len() == kind_count(self.cells@.subrange(0, i as int), eye),
                forall|k: int| 0 <= k < r@.len() ==> is_eye_facing(self.cells@, #[trigger] r@[k]),
            decreases self.cells.len() - i,
        {
            proof {
                lemma_kind_count_step(self.cells@, i as int, eye);
            }
            match self.cells[i].cell_type {
                CellType::Eye(_) => {
                    assert(is_eye_facing(self.cells@, self.cells@[i as int].rotation));
                    r.push(self.cells[i].rotation);
                },
                _ => {},
            }
            i += 1;
        }
        assert(self.cells@.subrange(0, self.cells@.len() as int) =~= self.cells@);
        r
    }

    /// Looks through one of its eyes, drawn uniformly, and moves as vision
    /// decides (see `move_with_vision`); where vision decides nothing, moves
    /// at random (see `teleport_random`).
    pub fn move_better(&mut self, organisms: &Vec<Organism>, blocks: &Vec<Block>)
        requires
            old(self).wf(),
            old(self).has(CellType::Eye(Eye {})),
        ensures
            final(self).wf(),
            exists|i: int|
                0 <= i < old(self).cells@.len() && (#[trigger] old(self).cells@[i]).cell_type is Eye
                    && vision_outcome(
                    *old(self),
                    *final(self),
                    old(self).cells@[i].rotation as int,
                    organisms@,
                    blocks@,
                ),
    {
        let rotations = self.eye_rotations();
        let rotation = choose_one(&rotations);
        if !self.move_with_vision(rotation, organisms, blocks) {
            self.teleport_random();
        }
        proof {
            let k = choose|k: int| 0 <= k < rotations@.len() && rotations@[k] == rotation;
            assert(is_eye_facing(old(self).cells@, rotations@[k]));
            let i = choose|i: int|
                0 <= i < old(self).cells@.len() && (#[trigger] old(self).cells@[i]).cell_type is Eye
                    && old(self).cells@[i].rotation == rotations@[k];
            assert(vision_outcome(*old(self), *self, old(self).cells@[i].rotation as int, organisms@, blocks@));
        }
    }

    /// If this organism has a killer cell, every organism of `organisms`
    /// within Chebyshev distance 1 of it, but the one at `own_index` (this
    /// organism's own place in the list, if it is there), loses
    /// `ATTACK_DAMAGE` health, down to 0.
    pub fn damage_nearby_organisms(&self, own_index: usize, organisms: &mut Vec<Organism>)
        ensures
            final(organisms)@.len() == old(organisms)@.len(),
            forall|j: int|
                0 <= j < old(organisms)@.len() ==> {
                    let o = #[trigger] old(organisms)@[j];
                    let f = final(organisms)@[j];
                    &&& f.health == if self.has(CellType::Killer) && j != own_index && adjacent(o.pos(), self.pos()) {
                        wounded_health(o.health as int)
                    } else {
                        o.health
                    }
                    &&& f.cells == o.cells
                    &&& f.energy == o.energy
                    &&& f.lifespan == o.lifespan
                    &&& f.x == o.x && f.y == o.y && f.z == o.z
                },
    {
        if !self.has_cell(CellType::Killer) {
            return;
        }
        let mut j: usize = 0;
        while j < organisms.len()
            invariant
                j <= organisms@.len(),
                organisms@.len() == old(organisms)@.len(),
                self.has(CellType::Killer),
                forall|k: int|
                    0 <= k < old(organisms)@.len() ==> {
                        let o = #[trigger] old(organisms)@[k];
                        let f = organisms@[k];
                        &&& f.health == if k < j && k != own_index && adjacent(o.pos(), self.pos()) {
                            wounded_health(o.health as int)
                        } else {
                            o.health
                        }
                        &&& f.cells == o.cells
                        &&& f.energy == o.energy
                        &&& f.lifespan == o.lifespan
                        &&& f.x == o.x && f.y == o.y && f.z == o.z
                    },
            decreases organisms.len() - j,
        {
            if j != own_index && is_adjacent(organisms[j].x, organisms[j].y, organisms[j].z, self.x, self.y, self.z) {
                let h = organisms[j].health;
                organisms[j].health = if h > ATTACK_DAMAGE { h - ATTACK_DAMAGE } else { 0 };
            }
            j += 1;
        }
    }
}

/// Exactly one brain in a well-formed organism.
pub proof fn lemma_one_brain(o: &Organism)
    requires
        o.wf(),
    ensures
        brain_count(o.cells@) == 1,
{
    lemma_brain_first_count(o.cells@);
}

/// A dead organism yields one food block per cell, each at the organism's
/// position plus that cell's offset (where the sum is a valid coordinate).
pub proof fn lemma_corpse_at_cells(o: &Organism)
    requires
        forall|i: int|
            0 <= i < o.cells@.len() ==> i8::MIN <= o.x + (#[trigger] o.cells@[i]).local_x <= i8::MAX
                && i8::MIN <= o.y + o.cells@[i].local_y <= i8::MAX && i8::MIN <= o.z + o.cells@[i].local_z
                <= i8::MAX,
    ensures
        o.corpse().len() == o.cells@.len(),
        forall|i: int|
            0 <= i < o.cells@.len() ==> #[trigger] o.corpse()[i] == (Block {
                block_type: BlockType::Food,
                x: (o.x + o.cells@[i].local_x) as i8,
                y: (o.y + o.cells@[i].local_y) as i8,
                z: (o.z + o.cells@[i].local_z) as i8,
            }),
{
    assert forall|i: int| 0 <= i < o.cells@.len() implies #[trigger] o.corpse()[i] == (Block {
        block_type: BlockType::Food,
        x: (o.x + o.cells@[i].local_x) as i8,
        y: (o.y + o.cells@[i].local_y) as i8,
        z: (o.z + o.cells@[i].local_z) as i8,
    }) by {
        let c = o.cells@[i];
        assert(i8::MIN <= o.x + c.local_x <= i8::MAX);
    }
}

} // verus!
