use cellsim::block::{Block, BlockType};
use cellsim::cell::{Cell, CellType, Eye, Producer};
use cellsim::organism::Organism;
use cellsim::simulation::{update_world, MAX_BLOCKS, MAX_ORGANISMS};
use cellsim::world::World;

fn one_brain_first(o: &Organism) -> bool {
    matches!(o.cells[0].cell_type, CellType::Brain(_))
        && o.cells.iter().filter(|c| matches!(c.cell_type, CellType::Brain(_))).count() == 1
}

#[test]
fn ticks_keep_every_organism_alive_and_well_formed() {
    let mut world = World::new(16, 16, 16);
    let mut population = Vec::new();
    for i in 0..10i8 {
        let mut o = Organism::new();
        o.x = i;
        o.cells.push(Cell::new(CellType::Killer, 0, 1, 0, 0));
        o.cells.push(Cell::new(CellType::Mover, 0, 0, 1, 0));
        o.cells.push(Cell::new(CellType::Eye(Eye {}), (i % 6) as i8, 0, 0, 1));
        o.cells.push(Cell::new(CellType::Eater, 0, -1, 0, 0));
        o.cells.push(Cell::new(CellType::Producer(Producer {}), 0, 0, -1, 0));
        population.push(o);
    }
    let mut blocks = vec![Block::new(BlockType::Food, 0, 0, 1)];
    for _ in 0..100 {
        let before = population.len();
        let mut born = Vec::new();
        update_world(&mut population, &mut born, &mut blocks, MAX_ORGANISMS, MAX_BLOCKS, &mut world);
        assert!(population.len() <= before);
        assert!(born.len() <= before);
        assert!(population.iter().all(|o| !o.is_dead() && one_brain_first(o)));
        assert!(born.iter().all(one_brain_first));
        population.append(&mut born);
    }
}

#[test]
fn a_starving_population_turns_into_food() {
    let mut world = World::new(4, 4, 4);
    let mut o = Organism::new();
    o.energy = 2;
    o.cells.push(Cell::new(CellType::Armor, 0, 1, 0, 0));
    let mut population = vec![o];
    let mut born = Vec::new();
    let mut blocks = Vec::new();
    update_world(&mut population, &mut born, &mut blocks, 0, 0, &mut world);
    assert!(population.is_empty());
    assert!(born.is_empty());
    // one food block per cell; a rare mutation may have added or removed one
    assert!(blocks.len() >= 1 && blocks.len() <= 3);
    assert!(blocks.iter().all(|b| b.block_type == BlockType::Food));
}

#[test]
fn a_healthy_organism_survives_one_tick() {
    let mut world = World::new(4, 4, 4);
    let mut o = Organism::new();
    o.health = 5;
    o.energy = 50;
    o.lifespan = 50;
    let mut population = vec![o];
    let mut born = Vec::new();
    let mut blocks = Vec::new();
    update_world(&mut population, &mut born, &mut blocks, 100, 100, &mut world);
    assert_eq!(population.len(), 1);
    assert_eq!(population[0].health, 5);
    assert_eq!(population[0].lifespan, 49);
    assert!(population[0].energy == 48 || population[0].energy == 38);
}

#[test]
fn no_food_is_produced_beyond_the_budget() {
    let mut world = World::new(4, 4, 4);
    let mut o = Organism::new();
    o.cells.push(Cell::new(CellType::Producer(Producer {}), 0, 1, 0, 0));
    let far = Block::new(BlockType::Food, 50, 50, 50);
    for _ in 0..100 {
        let mut population = vec![o.duplicate()];
        let mut born = Vec::new();
        let mut blocks = vec![far];
        update_world(&mut population, &mut born, &mut blocks, 1, 1, &mut world);
        assert_eq!(blocks, vec![far]);
        assert_eq!(population.len(), 1);
    }
}
