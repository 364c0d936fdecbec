use cellsim::block::{Block, BlockType};
use cellsim::cell::{Brain, Cell, CellType, Eye, Producer};
use cellsim::organism::Organism;
use cellsim::simulation::reap_dead;

fn with_cells(extra: &[Cell]) -> Organism {
    let mut o = Organism::new();
    for c in extra {
        o.cells.push(*c);
    }
    o
}

fn cell(t: CellType, x: i8, y: i8, z: i8) -> Cell {
    Cell::new(t, 0, x, y, z)
}

fn one_brain_first(o: &Organism) -> bool {
    matches!(o.cells[0].cell_type, CellType::Brain(_))
        && o.cells.iter().filter(|c| matches!(c.cell_type, CellType::Brain(_))).count() == 1
}

#[test]
fn new_organism_is_a_brain_at_full_vitals() {
    let o = Organism::new();
    assert_eq!(o.cells.len(), 1);
    assert_eq!(o.cells[0].cell_type, CellType::Brain(Brain { aggression: 50, hunger: 50 }));
    assert_eq!((o.health, o.energy, o.lifespan), (100, 100, 100));
    assert_eq!((o.x, o.y, o.z), (0, 0, 0));
    assert_eq!(o.get_hunger(), Some(50));
    assert_eq!(o.get_aggression(), Some(50));
}

#[test]
fn dead_iff_a_vital_is_zero() {
    let values = [0u8, 1, 2, 50, 99, 100, 255];
    for &h in &values {
        for &e in &values {
            for &l in &values {
                let mut o = Organism::new();
                o.health = h;
                o.energy = e;
                o.lifespan = l;
                assert_eq!(o.is_dead(), h == 0 || e == 0 || l == 0);
            }
        }
    }
}

#[test]
fn kill_gives_one_food_per_cell_at_absolute_positions() {
    let mut o = with_cells(&[cell(CellType::Armor, 1, 0, 0), cell(CellType::Mover, -1, 2, 3)]);
    o.x = 10;
    o.y = -5;
    o.z = 0;
    let food = o.kill();
    assert_eq!(
        food,
        vec![
            Block::new(BlockType::Food, 10, -5, 0),
            Block::new(BlockType::Food, 11, -5, 0),
            Block::new(BlockType::Food, 9, -3, 3),
        ]
    );
}

#[test]
fn reproduce_at_pays_and_copies() {
    let mut o = with_cells(&[cell(CellType::Eater, 1, 1, 0)]);
    o.energy = 50;
    o.x = 3;
    let before = o.cells.clone();
    let child = o.reproduce_at(-4, 0, 2);
    assert_eq!(o.energy, 40);
    assert_eq!(o.cells, before);
    assert_eq!(child.cells, before);
    assert_eq!((child.x, child.y, child.z), (-1, 0, 2));
    assert_eq!((child.health, child.energy, child.lifespan), (100, 100, 100));
    o.energy = 7;
    let _ = o.reproduce_at(0, 0, 0);
    assert_eq!(o.energy, 0);
}

#[test]
fn reproduce_lands_within_twice_the_size() {
    for _ in 0..100 {
        let mut o = with_cells(&[cell(CellType::Eater, 1, 1, 0), cell(CellType::Armor, 0, 1, 0)]);
        o.energy = 15;
        let before = o.cells.clone();
        let child = o.reproduce();
        assert_eq!(o.energy, 5);
        assert_eq!(child.cells, before);
        assert_eq!(o.cells, before);
        assert!(child.x.abs() <= 6 && child.y.abs() <= 6 && child.z.abs() <= 6);
    }
}

#[test]
fn producer_respects_the_food_budget() {
    let o = with_cells(&[cell(CellType::Producer(Producer {}), 0, 1, 0)]);
    assert_eq!(o.produce_food(1, 1), None);
    assert_eq!(o.produce_food_at(1, 1, 1, 1, 1), None);
    let b = o.produce_food(0, 1).unwrap();
    assert_eq!(b.block_type, BlockType::Food);
    assert!(b.x.abs() <= 1 && b.y.abs() <= 1 && b.z.abs() <= 1);
    assert_eq!(o.produce_food_at(0, 1, 1, -1, 0), Some(Block::new(BlockType::Food, 1, -1, 0)));
    let no_producer = Organism::new();
    assert_eq!(no_producer.produce_food(0, 10), None);
}

#[test]
fn eat_takes_the_first_adjacent_food_only() {
    let mut o = Organism::new();
    o.energy = 50;
    let mut blocks = vec![
        Block::new(BlockType::Wall, 1, 0, 0),
        Block::new(BlockType::Food, 5, 0, 0),
        Block::new(BlockType::Food, 1, 1, -1),
        Block::new(BlockType::Food, 0, 0, 0),
    ];
    o.eat(&mut blocks);
    assert_eq!(o.energy, 60);
    assert_eq!(
        blocks,
        vec![
            Block::new(BlockType::Wall, 1, 0, 0),
            Block::new(BlockType::Food, 5, 0, 0),
            Block::new(BlockType::Food, 0, 0, 0),
        ]
    );
    o.energy = 95;
    o.eat(&mut blocks);
    assert_eq!(o.energy, 100);
    assert_eq!(blocks.len(), 2);
    o.eat(&mut blocks);
    assert_eq!(o.energy, 100);
    assert_eq!(blocks, vec![Block::new(BlockType::Wall, 1, 0, 0), Block::new(BlockType::Food, 5, 0, 0)]);
}

#[test]
fn teleport_by_scales_with_movers() {
    let mut o = with_cells(&[cell(CellType::Mover, 1, 0, 0), cell(CellType::Mover, 0, 1, 0)]);
    o.teleport_by(1, -1, 0);
    assert_eq!((o.x, o.y, o.z), (2, -2, 0));
    let mut still = Organism::new();
    still.teleport_by(1, 1, 1);
    assert_eq!((still.x, still.y, still.z), (0, 0, 0));
    for _ in 0..50 {
        still.teleport_random();
        assert_eq!((still.x, still.y, still.z), (0, 0, 0));
    }
}

#[test]
fn shift_and_rotate() {
    let mut o = with_cells(&[cell(CellType::Armor, 1, 2, 3)]);
    o.shift(1, 2, -3);
    assert_eq!((o.x, o.y, o.z), (1, 2, -3));
    o.rotate_by(2);
    assert_eq!((o.cells[1].local_x, o.cells[1].local_y, o.cells[1].local_z), (-3, 2, 1));
    assert_eq!(o.cells[1].rotation, 2);
    o.rotate();
    assert!(one_brain_first(&o));
}

#[test]
fn brain_is_never_added_or_removed() {
    let mut o = with_cells(&[cell(CellType::Armor, 1, 0, 0)]);
    o.add_cell(Cell::new(CellType::Brain(Brain { aggression: 1, hunger: 1 }), 0, 0, 0, 0));
    assert_eq!(o.cells.len(), 2);
    o.remove_cell(0);
    assert_eq!(o.cells.len(), 2);
    o.remove_cell(1);
    assert_eq!(o.cells.len(), 1);
    o.remove_random_cell();
    assert_eq!(o.cells.len(), 1);
    assert!(one_brain_first(&o));
}

#[test]
fn random_mutations_keep_exactly_one_brain() {
    let mut o = Organism::new();
    for _ in 0..500 {
        o.mutate();
        assert!(one_brain_first(&o));
        if o.cells.len() > 1 {
            o.remove_random_cell();
            assert!(one_brain_first(&o));
        }
        o.add_random_cell();
        let last = o.cells[o.cells.len() - 1];
        assert!(last.local_x.abs() <= 1 && last.rotation >= 0 && last.rotation < 6);
    }
}

#[test]
fn mutate_cell_targets_one_cell() {
    let mut o = with_cells(&[cell(CellType::Armor, 1, 0, 0)]);
    o.mutate_cell(1, 2, 0, 0);
    assert_eq!(o.cells[1].cell_type, CellType::Killer);
    o.mutate_cell(0, 2, 10, -10);
    assert_eq!(o.cells[0].cell_type, CellType::Brain(Brain { aggression: 60, hunger: 40 }));
    o.mutate_cell(5, 2, 10, -10);
    assert_eq!(o.cells.len(), 2);
}

#[test]
fn killer_damages_other_neighbours_only() {
    let killer = with_cells(&[cell(CellType::Killer, 1, 0, 0)]);
    let mut a = Organism::new();
    a.x = 1;
    a.y = 1;
    a.z = 1;
    let mut b = Organism::new();
    b.x = 2;
    let mut c = Organism::new();
    c.x = -1;
    c.health = 5;
    let mut population = vec![killer.duplicate(), a, b, c];
    killer.damage_nearby_organisms(0, &mut population);
    assert_eq!(population[0].health, 100);
    assert_eq!(population[1].health, 90);
    assert_eq!(population[2].health, 100);
    assert_eq!(population[3].health, 0);
    let harmless = Organism::new();
    harmless.damage_nearby_organisms(9, &mut population);
    assert_eq!(population[1].health, 90);
}

#[test]
fn one_tick_of_living_leaves_a_weak_organism_alive() {
    let mut o = Organism::new();
    o.health = 5;
    o.energy = 50;
    o.lifespan = 50;
    o.age_one_tick();
    assert_eq!((o.health, o.energy, o.lifespan), (5, 48, 49));
    assert!(!o.is_dead());
}

#[test]
fn starving_organism_dies_and_turns_to_food_once() {
    let mut o = with_cells(&[cell(CellType::Armor, 1, 0, 0), cell(CellType::Eater, 0, 0, 1)]);
    o.energy = 1;
    o.age_one_tick();
    assert_eq!(o.energy, 0);
    assert!(o.is_dead());
    let mut population = vec![o, Organism::new()];
    let mut blocks = vec![Block::new(BlockType::Wall, 9, 9, 9)];
    reap_dead(&mut population, &mut blocks);
    assert_eq!(population.len(), 1);
    assert_eq!(blocks.len(), 1 + 3);
    assert!(blocks[1..].iter().all(|b| b.block_type == BlockType::Food));
    reap_dead(&mut population, &mut blocks);
    assert_eq!(population.len(), 1);
    assert_eq!(blocks.len(), 4);
}

#[test]
fn nearby_lists_keep_order() {
    let mut far = Organism::new();
    far.x = 3;
    let mut near = Organism::new();
    near.z = -1;
    let me = Organism::new();
    let population = vec![far, me.duplicate(), near];
    let nearby = me.get_nearby_organisms(&population);
    assert_eq!(nearby.len(), 2);
    assert_eq!(nearby[1].z, -1);
    let blocks = vec![
        Block::new(BlockType::Food, 1, 1, 1),
        Block::new(BlockType::Wall, 2, 0, 0),
        Block::new(BlockType::Wall, 0, -1, 0),
    ];
    let nb = me.get_nearby_blocks(&blocks);
    assert_eq!(nb, vec![&blocks[0], &blocks[2]]);
}

#[test]
fn vision_follows_food_and_flees_danger() {
    let me = with_cells(&[Cell::new(CellType::Eye(Eye {}), 0, 1, 0, 0), cell(CellType::Mover, 0, 1, 0)]);
    let mut blocks = Vec::new();
    for i in 1..=10 {
        blocks.push(Block::new(BlockType::Food, i, 0, 0));
    }
    blocks.push(Block::new(BlockType::Food, 0, 3, 0));
    assert_eq!(me.food_in_sight(0, &blocks), 10);
    assert_eq!(me.vision_step(0, &vec![], &blocks), 0);
    blocks.push(Block::new(BlockType::Food, 20, 0, 0));
    assert_eq!(me.vision_step(0, &vec![], &blocks), 1);
    let mut mover = me.duplicate();
    assert!(mover.move_with_vision(0, &vec![], &blocks));
    assert_eq!((mover.x, mover.y, mover.z), (1, 0, 0));

    let mut enemy = with_cells(&[cell(CellType::Killer, 0, 1, 0)]);
    enemy.z = 1;
    let population = vec![me.duplicate(), enemy];
    assert_eq!(me.danger_in_sight(4, &population), 1);
    assert_eq!(me.danger_in_sight(0, &population), 0);
    assert_eq!(me.vision_step(4, &population, &vec![]), -1);
    let mut runner = me.duplicate();
    assert!(runner.move_with_vision(4, &population, &vec![]));
    assert_eq!((runner.x, runner.y, runner.z), (0, 0, -1));
    let mut idle = me.duplicate();
    assert!(!idle.move_with_vision(2, &population, &vec![]));
    assert_eq!((idle.x, idle.y, idle.z), (0, 0, 0));
    for _ in 0..20 {
        let mut m = me.duplicate();
        m.move_better(&population, &blocks);
        assert!(one_brain_first(&m));
    }
}

#[test]
fn random_removal_always_removes_a_non_brain_cell() {
    for _ in 0..50 {
        let mut o = with_cells(&[cell(CellType::Armor, 1, 0, 0), cell(CellType::Eater, 0, 1, 0)]);
        o.remove_random_cell();
        assert_eq!(o.cells.len(), 2);
        assert!(one_brain_first(&o));
    }
}

#[test]
fn random_teleport_moves_by_whole_mover_counts() {
    for _ in 0..50 {
        let mut o = with_cells(&[
            cell(CellType::Mover, 1, 0, 0),
            cell(CellType::Mover, 0, 1, 0),
            cell(CellType::Mover, 0, 0, 1),
        ]);
        o.teleport_random();
        for v in [o.x, o.y, o.z] {
            assert!(v == -3 || v == 0 || v == 3);
        }
        assert_eq!(o.cells.len(), 4);
    }
}
