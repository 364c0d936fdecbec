//! One tick of the simulation over the whole population and the free blocks.

use vstd::prelude::*;
use crate::block::{Block, BlockType};
use crate::cell::{CellType, Eye, Producer};
use crate::geometry::adjacent;
use crate::organism::{
    block_pos, fed_energy, mutation_outcome, sat_sub, turned_cells, Organism, AGING_COST, ATTACK_DAMAGE,
    MAX_VITAL, METABOLIC_COST, REPRODUCTION_COST,
};
use crate::random::roll;
use crate::world::World;

verus! {

/// One chance in this many, per organism and tick, to reproduce.
pub const CHANCE_OF_REPRODUCTION: u8 = 30;

/// One chance in this many, per organism and tick, of a random mutation.
pub const CHANCE_OF_MUTATION: u8 = 100;

/// One chance in this many, per organism and tick, to produce food.
pub const CHANCE_OF_FOOD_PRODUCTION: u8 = 30;

/// One chance in this many that a newborn organism mutates.
pub const CHANCE_OF_CHILD_MUTATION: u8 = 2;

/// The soft cap on the population: reproduction is checked against the
/// population at the start of a tick, so one tick can overshoot it.
pub const MAX_ORGANISMS: usize = 100;

/// The budget of free blocks for production; food from dead organisms may
/// exceed it.
pub const MAX_BLOCKS: usize = 100;

pub open spec fn all_wf(os: Seq<Organism>) -> bool {
    forall|i: int| 0 <= i < os.len() ==> (#[trigger] os[i]).wf()
}

/// The living organisms of a list, in order.
pub open spec fn survivors(os: Seq<Organism>) -> Seq<Organism> {
    os.filter(|o: Organism| !o.dead())
}

/// The food that the dead organisms of a list become, in order.
pub open spec fn corpses(os: Seq<Organism>) -> Seq<Block>
    decreases os.len(),
{
    if os.len() == 0 {
        Seq::empty()
    } else {
        corpses(os.drop_last()) + if os.last().dead() {
            os.last().corpse()
        } else {
            Seq::empty()
        }
    }
}

/// Removes every dead organism, each turned into food exactly once (see
/// `Organism::kill`); the living keep their order.
pub fn reap_dead(organisms: &mut Vec<Organism>, blocks: &mut Vec<Block>)
    ensures
        final(organisms)@ == survivors(old(organisms)@),
        final(blocks)@ == old(blocks)@ + corpses(old(organisms)@),
{
    let ghost start = old(organisms)@;
    let ghost pred = |o: Organism| !o.dead();
    let ghost n = start.len();
    let mut i: usize = 0;
    let ghost mut k: int = 0;
    assert(start.subrange(0, 0).filter(pred) =~= Seq::<Organism>::empty());
    assert(old(blocks)@ + corpses(start.subrange(0, 0)) =~= old(blocks)@);
    assert(start.subrange(0, n as int) =~= start);
    while i < organisms.len()
        invariant
            i <= organisms@.len(),
            0 <= k <= n,
            pred == (|o: Organism| !o.dead()),
            n == start.len(),
            organisms@ == start.subrange(0, k).filter(pred) + start.subrange(k, n as int),
            i == start.subrange(0, k).filter(pred).len(),
            blocks@ == old(blocks)@ + corpses(start.subrange(0, k)),
        decreases organisms@.len() - i,
    {
        let ghost kept = start.subrange(0, k).filter(pred);
        assert(k < n);
        proof {
            assert(organisms@[i as int] == start[k]);
            assert(start.subrange(0, k + 1) == start.subrange(0, k).push(start[k]));
            start.subrange(0, k).lemma_filter_push(start[k], pred);
            assert(start.subrange(0, k + 1).drop_last() == start.subrange(0, k));
        }
        if organisms[i].is_dead() {
            let mut food = organisms[i].kill();
            blocks.append(&mut food);
            organisms.remove(i);
            assert(organisms@ =~= kept + start.subrange(k + 1, n as int));
        } else {
            assert(organisms@ =~= kept.push(start[k]) + start.subrange(k + 1, n as int));
            i += 1;
        }
        proof {
            k = k + 1;
        }
    }
    assert(k == n) by {
        if k < n {
            assert(organisms@.len() > i);
        }
    }
    assert(start.subrange(0, n as int) =~= start);
    assert(organisms@ =~= survivors(start));
}

/// The living organisms of a list are all living and well formed.
proof fn lemma_survivors(os: Seq<Organism>)
    requires
        all_wf(os),
    ensures
        all_wf(survivors(os)),
        forall|i: int| 0 <= i < survivors(os).len() ==> !(#[trigger] survivors(os)[i]).dead(),
{
    let pred = |o: Organism| !o.dead();
    assert forall|i: int| 0 <= i < survivors(os).len() implies (#[trigger] survivors(os)[i]).wf() && !survivors(
        os,
    )[i].dead() by {
        let s = survivors(os);
        assert(s.contains(s[i]));
        os.lemma_filter_contains_rev(pred, s[i]);
        let j = choose|j: int| 0 <= j < os.len() && os[j] == s[i];
        assert(os[j].wf());
        os.lemma_filter_pred(pred, i);
    }
}

/// A deep copy of a population.
fn copy_population(os: &Vec<Organism>) -> (r: Vec<Organism>)
    ensures
        r@.len() == os@.len(),
        forall|i: int| 0 <= i < os@.len() ==> (#[trigger] r@[i]).same_as(os@[i]),
{
    let mut r: Vec<Organism> = Vec::new();
    let mut i: usize = 0;
    while i < os.len()
        invariant
            i <= os@.len(),
            r@.len() == i,
            forall|j: int| 0 <= j < i ==> (#[trigger] r@[j]).same_as(os@[j]),
        decreases os.len() - i,
    {
        r.push(os[i].duplicate());
        i += 1;
    }
    r
}

/// The larger of two numbers.
pub open spec fn max_of(a: int, b: int) -> int {
    if a > b { a } else { b }
}

/// The energy that living one tick can leave from `e0`: maybe the cost of a
/// child (only where `may_reproduce`), maybe one meal, then the metabolic cost.
pub open spec fn tick_energy(e0: int, e: int, may_reproduce: bool, ate: bool) -> bool {
    let paid = sat_sub(e0, REPRODUCTION_COST as int) as int;
    if ate {
        ||| e == sat_sub(fed_energy(e0) as int, METABOLIC_COST as int)
        ||| may_reproduce && e == sat_sub(fed_energy(paid) as int, METABOLIC_COST as int)
    } else {
        ||| e == sat_sub(e0, METABOLIC_COST as int)
        ||| may_reproduce && e == sat_sub(paid, METABOLIC_COST as int)
    }
}

/// How many of the flags are set.
pub open spec fn count_true(s: Seq<bool>) -> nat
    decreases s.len(),
{
    if s.len() == 0 {
        0
    } else {
        count_true(s.drop_last()) + if s.last() { 1nat } else { 0nat }
    }
}

/// `l` is `o` after the chances of one tick and the cost of living: aged by
/// `AGING_COST`, energy as `tick_energy` allows (with a meal only where it
/// `ate`, which takes an eater cell), the same health and position, and the
/// cells unchanged or mutated once.
pub open spec fn lived_from(o: Organism, l: Organism, may_reproduce: bool, ate: bool) -> bool {
    &&& l.wf()
    &&& l.lifespan == sat_sub(o.lifespan as int, AGING_COST as int)
    &&& tick_energy(o.energy as int, l.energy as int, may_reproduce, ate)
    &&& (ate ==> l.has(CellType::Eater))
    &&& l.health == o.health
    &&& l.x == o.x && l.y == o.y && l.z == o.z
    &&& (l.cells@ == o.cells@ || mutation_outcome(o.cells@, l.cells@))
}

/// How many organisms among the first `n` of `os`, other than number `i`,
/// are alive, bear a killer cell and stand within Chebyshev distance 1 of
/// number `i`.
pub open spec fn attackers(os: Seq<Organism>, i: int, n: int) -> nat
    decreases n,
{
    if n <= 0 {
        0
    } else {
        attackers(os, i, n - 1) + if n - 1 != i && !os[n - 1].dead() && os[n - 1].has(CellType::Killer)
            && adjacent(os[i].pos(), os[n - 1].pos()) {
            1nat
        } else {
            0nat
        }
    }
}

/// Number `i` of `lived` after the damage and movement passes: it loses
/// `ATTACK_DAMAGE` health per living killer next to it, keeps its energy and
/// lifespan, keeps or turns its cells, and stays in place without a mover cell.
pub open spec fn ended_from(lived: Seq<Organism>, i: int, e: Organism) -> bool {
    let l = lived[i];
    &&& e.wf()
    &&& e.health == sat_sub(l.health as int, ATTACK_DAMAGE * attackers(lived, i, lived.len() as int))
    &&& e.energy == l.energy
    &&& e.lifespan == l.lifespan
    &&& (e.cells@ == l.cells@ || exists|d: int| 0 <= d < 6 && e.cells@ == #[trigger] turned_cells(l.cells@, d))
    &&& (!l.has(CellType::Mover) ==> e.x == l.x && e.y == l.y && e.z == l.z)
}

/// Some organism of `os` stands within Chebyshev distance 1 of block `b`.
pub open spec fn near_some(os: Seq<Organism>, b: Block) -> bool {
    exists|j: int| 0 <= j < os.len() && adjacent(block_pos(b), (#[trigger] os[j]).pos())
}

/// `fed` is `before` after the organisms `os` produced (where `made`) and
/// ate (where `ate`): one block more per producer, which had a producer
/// cell, one less per meal; it grows beyond `before` only up to
/// `max_blocks`, every new block is food, and a block leaves only if it is
/// food next to one of `os`.
pub open spec fn blocks_after_living(
    before: Seq<Block>,
    fed: Seq<Block>,
    os: Seq<Organism>,
    max_blocks: int,
    made: Seq<bool>,
    ate: Seq<bool>,
) -> bool {
    &&& made.len() == os.len() && ate.len() == os.len()
    &&& fed.len() + count_true(ate) == before.len() + count_true(made)
    &&& forall|i: int| 0 <= i < os.len() && #[trigger] made[i] ==> os[i].has(CellType::Producer(Producer {}))
    &&& fed.len() <= max_of(before.len() as int, max_blocks)
    &&& forall|k: int| 0 <= k < fed.len() ==> (#[trigger] fed[k]).block_type == BlockType::Food || before.contains(fed[k])
    &&& forall|k: int|
        0 <= k < before.len() ==> fed.contains(#[trigger] before[k]) || (before[k].block_type == BlockType::Food
            && near_some(os, before[k]))
}

/// The stages of one tick: each organism after living (`lived`), after the
/// damage and movement passes (`ended`), and the blocks after living (`fed`).
pub open spec fn tick_trace(
    start: Seq<Organism>,
    blocks: Seq<Block>,
    lived: Seq<Organism>,
    ended: Seq<Organism>,
    fed: Seq<Block>,
    made: Seq<bool>,
    ate: Seq<bool>,
    max_organisms: int,
    max_blocks: int,
) -> bool {
    &&& lived.len() == start.len()
    &&& ended.len() == start.len()
    &&& forall|i: int|
        0 <= i < start.len() ==> lived_from(start[i], #[trigger] lived[i], start.len() < max_organisms, ate[i])
    &&& forall|i: int| 0 <= i < start.len() ==> ended_from(lived, i, #[trigger] ended[i])
    &&& blocks_after_living(blocks, fed, start, max_blocks, made, ate)
}

/// `child` was born of `parent` this tick: a copy of its cells, maybe
/// mutated once, with full vitals.
pub open spec fn born_of(parent: Organism, child: Organism) -> bool {
    &&& child.wf()
    &&& (child.cells@ == parent.cells@ || mutation_outcome(parent.cells@, child.cells@))
    &&& child.health == MAX_VITAL && child.energy == MAX_VITAL && child.lifespan == MAX_VITAL
}

/// `child` was born this tick of one of `parents`.
pub open spec fn born_of_some(parents: Seq<Organism>, child: Organism) -> bool {
    exists|j: int| 0 <= j < parents.len() && born_of(#[trigger] parents[j], child)
}

proof fn lemma_remove_keeps(s: Seq<Block>, i: int, x: Block)
    requires
        0 <= i < s.len(),
        s.contains(x),
        s[i] != x,
    ensures
        s.remove(i).contains(x),
{
    let m = choose|m: int| 0 <= m < s.len() && s[m] == x;
    if m < i {
        assert(s.remove(i)[m] == x);
    } else {
        assert(s.remove(i)[m - 1] == x);
    }
}

/// The chances of one organism in one tick: reproduce (while `population` is
/// below `max_organisms`), produce food (within `max_blocks`), mutate, eat
/// (with an eater cell), and pay the cost of living.
fn live_one_tick(
    o: &mut Organism,
    population: usize,
    new_organisms: &mut Vec<Organism>,
    blocks: &mut Vec<Block>,
    max_organisms: usize,
    max_blocks: usize,
) -> (r: (bool, bool))
    requires
        old(o).wf(),
    ensures
        lived_from(*old(o), *final(o), population < max_organisms, r.1),
        r.0 ==> old(o).has(CellType::Producer(Producer {})),
        final(blocks)@.len() + (if r.1 { 1int } else { 0int }) == old(blocks)@.len() + (if r.0 { 1int } else { 0int }),
        final(new_organisms)@ == old(new_organisms)@ || (population < max_organisms && final(new_organisms)@
            == old(new_organisms)@.push(final(new_organisms)@.last()) && born_of(*old(o), final(new_organisms)@.last())),
        final(blocks)@.len() <= max_of(old(blocks)@.len() as int, max_blocks as int),
        forall|k: int|
            0 <= k < final(blocks)@.len() ==> (#[trigger] final(blocks)@[k]).block_type == BlockType::Food || old(
                blocks,
            )@.contains(final(blocks)@[k]),
        forall|k: int|
            0 <= k < old(blocks)@.len() ==> final(blocks)@.contains(#[trigger] old(blocks)@[k]) || (old(blocks)@[k].block_type
                == BlockType::Food && adjacent(block_pos(old(blocks)@[k]), old(o).pos())),
{
    let ghost b0 = blocks@;
    let mut made = false;
    let mut ate = false;
    if roll(CHANCE_OF_REPRODUCTION) == 0 && population < max_organisms {
        let mut child = o.reproduce();
        if roll(CHANCE_OF_CHILD_MUTATION) == 0 {
            child.mutate();
        }
        new_organisms.push(child);
    }
    if roll(CHANCE_OF_FOOD_PRODUCTION) == 0 {
        match o.produce_food(blocks.len(), max_blocks) {
            Some(b) => {
                blocks.push(b);
                made = true;
                assert(forall|k: int| 0 <= k < b0.len() ==> blocks@[k] == b0[k]);
            },
            None => {},
        }
    }
    let ghost b1 = blocks@;
    assert(forall|k: int| 0 <= k < b0.len() ==> b1.contains(#[trigger] b0[k])) by {
        assert forall|k: int| 0 <= k < b0.len() implies b1.contains(#[trigger] b0[k]) by {
            assert(b1[k] == b0[k]);
        }
    }
    if roll(CHANCE_OF_MUTATION) == 0 {
        o.mutate();
    }
    let ghost o2 = *o;
    if o.has_cell(CellType::Eater) {
        let n = blocks.len();
        o.eat(blocks);
        ate = blocks.len() != n;
    }
    proof {
        let b2 = blocks@;
        assert forall|k: int| 0 <= k < b0.len() implies b2.contains(#[trigger] b0[k]) || (b0[k].block_type
            == BlockType::Food && adjacent(block_pos(b0[k]), old(o).pos())) by {
            if b2 != b1 {
                let i = choose|i: int|
                    0 <= i < b1.len() && b1[i].block_type == BlockType::Food && o2.edible(b1[i]) && b2
                        == #[trigger] b1.remove(i);
                if b1[i] != b0[k] {
                    lemma_remove_keeps(b1, i, b0[k]);
                }
            }
        }
        assert forall|k: int| 0 <= k < b2.len() implies (#[trigger] b2[k]).block_type == BlockType::Food || b0.contains(
            b2[k],
        ) by {
            if b2 != b1 {
                let i = choose|i: int|
                    0 <= i < b1.len() && b1[i].block_type == BlockType::Food && o2.edible(b1[i]) && b2
                        == #[trigger] b1.remove(i);
                if k < i {
                    assert(b2[k] == b1[k]);
                } else {
                    assert(b2[k] == b1[k + 1]);
                }
            }
        }
    }
    o.age_one_tick();
    (made, ate)
}

/// Advances the population by one tick. Each organism, in order, may
/// reproduce into `new_organisms`, produce food, mutate and eat, then pays
/// the cost of living. Then, from a snapshot taken before anyone moves,
/// every living killer damages its neighbours, and every living organism
/// with a mover cell moves, by vision where it has an eye. Last, the dead
/// become food, each exactly once, and leave. The world grid is handed over
/// with the population for the tick's use; this tick does not read it.
pub fn update_world(
    organisms: &mut Vec<Organism>,
    new_organisms: &mut Vec<Organism>,
    blocks: &mut Vec<Block>,
    max_organisms: usize,
    max_blocks: usize,
    _sim_world: &mut World,
)
    requires
        all_wf(old(organisms)@),
    ensures
        all_wf(final(organisms)@),
        forall|i: int| 0 <= i < final(organisms)@.len() ==> !(#[trigger] final(organisms)@[i]).dead(),
        exists|lived: Seq<Organism>, ended: Seq<Organism>, fed: Seq<Block>, made: Seq<bool>, ate: Seq<bool>|
            #[trigger] tick_trace(
                old(organisms)@,
                old(blocks)@,
                lived,
                ended,
                fed,
                made,
                ate,
                max_organisms as int,
                max_blocks as int,
            ) && final(organisms)@ == survivors(ended) && final(blocks)@ == fed + corpses(ended),
        final(new_organisms)@.subrange(0, old(new_organisms)@.len() as int) == old(new_organisms)@,
        old(new_organisms)@.len() <= final(new_organisms)@.len() <= old(new_organisms)@.len() + if old(
            organisms,
        )@.len() < max_organisms {
            old(organisms)@.len() as int
        } else {
            0int
        },
        forall|k: int|
            old(new_organisms)@.len() <= k < final(new_organisms)@.len() ==> born_of_some(
                old(organisms)@,
                #[trigger] final(new_organisms)@[k],
            ),
{
    let population = organisms.len();
    let ghost start = organisms@;
    let ghost b0 = blocks@;
    let ghost first = new_organisms@;
    let ghost may = population < max_organisms;
    let ghost mut made_seq: Seq<bool> = Seq::empty();
    let ghost mut ate_seq: Seq<bool> = Seq::empty();
    let mut i: usize = 0;
    while i < organisms.len()
        invariant
            i <= organisms@.len(),
            organisms@.len() == population,
            population == start.len(),
            may == (population < max_organisms),
            all_wf(start),
            made_seq.len() == i && ate_seq.len() == i,
            forall|j: int| 0 <= j < i ==> lived_from(start[j], #[trigger] organisms@[j], may, ate_seq[j]),
            forall|j: int| 0 <= j < i && #[trigger] made_seq[j] ==> start[j].has(CellType::Producer(Producer {})),
            blocks@.len() + count_true(ate_seq) == b0.len() + count_true(made_seq),
            forall|j: int| i <= j < organisms@.len() ==> #[trigger] organisms@[j] == start[j],
            new_organisms@.subrange(0, first.len() as int) == first,
            first.len() <= new_organisms@.len() <= first.len() + if may {
                i as int
            } else {
                0int
            },
            forall|k: int| first.len() <= k < new_organisms@.len() ==> born_of_some(start, #[trigger] new_organisms@[k]),
            blocks@.len() <= max_of(b0.len() as int, max_blocks as int),
            forall|k: int| 0 <= k < blocks@.len() ==> (#[trigger] blocks@[k]).block_type == BlockType::Food || b0.contains(blocks@[k]),
            forall|k: int|
                0 <= k < b0.len() ==> blocks@.contains(#[trigger] b0[k]) || (b0[k].block_type == BlockType::Food
                    && near_some(start, b0[k])),
        decreases organisms@.len() - i,
    {
        let ghost before = new_organisms@;
        let ghost bb = blocks@;
        assert(start[i as int].wf());
        let (made, ate) = live_one_tick(&mut organisms[i], population, new_organisms, blocks, max_organisms, max_blocks);
        proof {
            let ms = made_seq;
            let ats = ate_seq;
            made_seq = made_seq.push(made);
            ate_seq = ate_seq.push(ate);
            assert(made_seq.drop_last() == ms);
            assert(ate_seq.drop_last() == ats);
            assert(new_organisms@.subrange(0, first.len() as int) =~= before.subrange(0, first.len() as int));
            assert forall|k: int| first.len() <= k < new_organisms@.len() implies born_of_some(
                start,
                #[trigger] new_organisms@[k],
            ) by {
                if k < before.len() {
                    assert(new_organisms@[k] == before[k]);
                } else {
                    assert(born_of(start[i as int], new_organisms@[k]));
                }
            }
            assert forall|k: int| 0 <= k < blocks@.len() implies (#[trigger] blocks@[k]).block_type == BlockType::Food
                || b0.contains(blocks@[k]) by {
                if blocks@[k].block_type != BlockType::Food {
                    let m = choose|m: int| 0 <= m < bb.len() && bb[m] == blocks@[k];
                    assert(bb[m].block_type == BlockType::Food || b0.contains(bb[m]));
                }
            }
            assert forall|k: int| 0 <= k < b0.len() implies blocks@.contains(#[trigger] b0[k]) || (b0[k].block_type
                == BlockType::Food && near_some(start, b0[k])) by {
                if bb.contains(b0[k]) {
                    let m = choose|m: int| 0 <= m < bb.len() && bb[m] == b0[k];
                    assert(blocks@.contains(bb[m]) || (bb[m].block_type == BlockType::Food && adjacent(
                        block_pos(bb[m]),
                        start[i as int].pos(),
                    )));
                    if !blocks@.contains(b0[k]) {
                        assert(adjacent(block_pos(b0[k]), start[i as int].pos()));
                    }
                }
            }
        }
        i += 1;
    }
    let ghost lived = organisms@;
    let ghost fed = blocks@;
    assert(blocks_after_living(b0, fed, start, max_blocks as int, made_seq, ate_seq));
    let snapshot = copy_population(organisms);
    let mut a: usize = 0;
    while a < snapshot.len()
        invariant
            a <= snapshot@.len(),
            snapshot@.len() == lived.len(),
            organisms@.len() == lived.len(),
            forall|j: int| 0 <= j < lived.len() ==> (#[trigger] snapshot@[j]).same_as(lived[j]),
            forall|j: int| 0 <= j < lived.len() ==> lived[j].wf(),
            forall|j: int|
                0 <= j < lived.len() ==> {
                    let o = #[trigger] organisms@[j];
                    &&& o.health == sat_sub(lived[j].health as int, ATTACK_DAMAGE * attackers(lived, j, a as int))
                    &&& o.cells@ == lived[j].cells@
                    &&& o.energy == lived[j].energy
                    &&& o.lifespan == lived[j].lifespan
                    &&& o.x == lived[j].x && o.y == lived[j].y && o.z == lived[j].z
                },
        decreases snapshot@.len() - a,
    {
        let ghost before = organisms@;
        if !snapshot[a].is_dead() && snapshot[a].has_cell(CellType::Killer) {
            snapshot[a].damage_nearby_organisms(a, organisms);
        }
        proof {
            assert forall|j: int| 0 <= j < lived.len() implies {
                let o = #[trigger] organisms@[j];
                &&& o.health == sat_sub(lived[j].health as int, ATTACK_DAMAGE * attackers(lived, j, a + 1))
                &&& o.cells@ == lived[j].cells@
                &&& o.energy == lived[j].energy
                &&& o.lifespan == lived[j].lifespan
                &&& o.x == lived[j].x && o.y == lived[j].y && o.z == lived[j].z
            } by {
                let sn = snapshot@[a as int];
                assert(sn.same_as(lived[a as int]));
                assert(sn.count(CellType::Killer) == lived[a as int].count(CellType::Killer));
                assert(sn.pos() == lived[a as int].pos());
                assert(before[j].pos() == lived[j].pos());
                let c = attackers(lived, j, a as int);
                let h = lived[j].health as int;
                assert(sat_sub(sat_sub(h, ATTACK_DAMAGE * c) as int, ATTACK_DAMAGE as int) == sat_sub(
                    h,
                    ATTACK_DAMAGE * (c + 1),
                ));
                assert(attackers(lived, j, a + 1) == attackers(lived, j, a as int) + if a != j && !lived[a as int].dead()
                    && lived[a as int].has(CellType::Killer) && adjacent(lived[j].pos(), lived[a as int].pos()) {
                    1nat
                } else {
                    0nat
                });
            }
        }
        a += 1;
    }
    let mut i: usize = 0;
    while i < organisms.len()
        invariant
            i <= organisms@.len(),
            organisms@.len() == lived.len(),
            forall|j: int| 0 <= j < lived.len() ==> lived[j].wf(),
            forall|j: int| 0 <= j < i ==> ended_from(lived, j, #[trigger] organisms@[j]),
            forall|j: int|
                i <= j < lived.len() ==> {
                    let o = #[trigger] organisms@[j];
                    &&& o.health == sat_sub(lived[j].health as int, ATTACK_DAMAGE * attackers(lived, j, lived.len() as int))
                    &&& o.cells@ == lived[j].cells@
                    &&& o.energy == lived[j].energy
                    &&& o.lifespan == lived[j].lifespan
                    &&& o.x == lived[j].x && o.y == lived[j].y && o.z == lived[j].z
                },
        decreases organisms@.len() - i,
    {
        let ghost before = organisms@;
        assert(lived[i as int].wf());
        assert(organisms@[i as int].wf());
        if !organisms[i].is_dead() && organisms[i].has_cell(CellType::Mover) {
            if organisms[i].has_cell(CellType::Eye(Eye {})) {
                organisms[i].move_better(&snapshot, blocks);
            } else {
                organisms[i].teleport_random();
            }
        }
        assert(ended_from(lived, i as int, organisms@[i as int]));
        assert(forall|j: int| 0 <= j < organisms@.len() && j != i ==> organisms@[j] == before[j]);
        i += 1;
    }
    let ghost ended = organisms@;
    reap_dead(organisms, blocks);
    proof {
        lemma_survivors(ended);
        assert(tick_trace(start, b0, lived, ended, fed, made_seq, ate_seq, max_organisms as int, max_blocks as int));
    }
}

} // verus!
