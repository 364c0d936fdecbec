use cellsim::block::{Block, BlockType};
use cellsim::cell::{kind_for_roll, Brain, Cell, CellType, Eye, Producer};
use cellsim::world::{Entity, World};

fn brain_cell(aggression: u8, hunger: u8) -> Cell {
    Cell::new(CellType::Brain(Brain { aggression, hunger }), 0, 0, 0, 0)
}

#[test]
fn block_new_keeps_fields() {
    let b = Block::new(BlockType::Wall, -3, 4, 127);
    assert_eq!(b.block_type, BlockType::Wall);
    assert_eq!((b.x, b.y, b.z), (-3, 4, 127));
}

#[test]
fn producer_makes_food_at_origin() {
    let b = Producer {}.produce();
    assert_eq!(b, Block::new(BlockType::Food, 0, 0, 0));
}

#[test]
fn brain_mutation_clamps_weights() {
    let mut c = brain_cell(95, 10);
    c.mutate_with(3, 20, -20);
    assert_eq!(c.cell_type, CellType::Brain(Brain { aggression: 100, hunger: 0 }));
    let mut d = brain_cell(50, 50);
    d.mutate_with(0, -7, 12);
    assert_eq!(d.cell_type, CellType::Brain(Brain { aggression: 43, hunger: 62 }));
}

#[test]
fn non_brain_mutation_takes_rolled_kind() {
    let mut c = Cell::new(CellType::Armor, 2, 1, 0, -1);
    c.mutate_with(4, 0, 0);
    assert_eq!(c.cell_type, CellType::Mover);
    assert_eq!((c.rotation, c.local_x, c.local_y, c.local_z), (2, 1, 0, -1));
    c.mutate_with(8, 0, 0);
    assert_eq!(c.cell_type, CellType::Killer);
    assert_eq!(kind_for_roll(0), CellType::Eye(Eye {}));
    assert_eq!(kind_for_roll(5), CellType::Producer(Producer {}));
}

#[test]
fn random_mutation_keeps_brain_a_brain() {
    for _ in 0..200 {
        let mut c = brain_cell(50, 50);
        c.mutate();
        match c.cell_type {
            CellType::Brain(b) => {
                assert!(b.aggression <= 100 && b.hunger <= 100);
                assert!(b.aggression >= 30 && b.aggression <= 70);
            }
            _ => panic!("a brain lost its type"),
        }
        let mut e = Cell::new(CellType::Eater, 0, 0, 0, 0);
        e.mutate();
        assert!(!matches!(e.cell_type, CellType::Brain(_)));
    }
}

#[test]
fn shift_saturates() {
    let mut c = Cell::new(CellType::Mover, 0, 120, -120, 0);
    c.shift(10, -10, 5);
    assert_eq!((c.local_x, c.local_y, c.local_z), (127, -128, 5));
}

#[test]
fn clone_copies_brain_weights() {
    let c = brain_cell(12, 34);
    assert_eq!(c.clone(), c);
}

#[test]
fn turn_transforms_offset_and_facing() {
    let mut c = Cell::new(CellType::Eye(Eye {}), 5, 1, 2, 3);
    c.turn(0);
    assert_eq!((c.local_x, c.local_y, c.local_z), (1, -3, 2));
    assert_eq!(c.rotation, 5);
    c.turn(3);
    assert_eq!((c.local_x, c.local_y, c.local_z), (2, -3, -1));
    assert_eq!(c.rotation, 2);
    let mut d = Cell::new(CellType::Armor, 0, -128, 0, 0);
    d.turn(5);
    assert_eq!(d.local_x, 127);
}

#[test]
fn eye_sees_one_food_along_plus_x() {
    let mut world = World::new(8, 8, 8);
    world.set_entity(3, 0, 0, Entity::Block(Block::new(BlockType::Food, 3, 0, 0)));
    assert_eq!(Eye {}.look(0, &world, 0, 0, 0), (1, 0));
}

#[test]
fn eye_counts_killers_and_ignores_other_lines() {
    let mut world = World::new(8, 8, 8);
    world.set_entity(3, 0, 0, Entity::Block(Block::new(BlockType::Food, 3, 0, 0)));
    world.set_entity(5, 0, 0, Entity::Cell(Cell::new(CellType::Killer, 0, 0, 0, 0)));
    world.set_entity(6, 0, 0, Entity::Block(Block::new(BlockType::Wall, 6, 0, 0)));
    world.set_entity(3, 1, 0, Entity::Block(Block::new(BlockType::Food, 3, 1, 0)));
    assert_eq!(Eye {}.look(0, &world, 0, 0, 0), (1, 1));
    assert_eq!(Eye {}.look(1, &world, 7, 0, 0), (1, 1));
    assert_eq!(Eye {}.look(2, &world, 3, 0, 0), (2, 0));
    assert_eq!(Eye {}.look(3, &world, 3, 0, 0), (1, 0));
    assert_eq!(Eye {}.look(0, &world, 8, 0, 0), (0, 0));
}

#[test]
fn world_get_set_clear() {
    let mut world = World::new(4, 5, 6);
    assert!(world.get_entity(1, 2, 3).is_none());
    let e = Entity::Block(Block::new(BlockType::Wall, 1, 2, 3));
    world.set_entity(1, 2, 3, e);
    assert_eq!(world.get_entity(1, 2, 3), Some(&e));
    assert!(world.get_entity(1, 2, 4).is_none());
    assert!(world.get_entity(3, 4, 5).is_none());
    world.set_entity(4, 0, 0, e);
    assert!(world.get_entity(4, 0, 0).is_none());
    world.clear_entity(1, 2, 3);
    assert!(world.get_entity(1, 2, 3).is_none());
    world.set_entity(3, 4, 5, e);
    assert_eq!(world.get_entity(3, 4, 5), Some(&e));
}

#[test]
fn adjacent_entities_are_clipped_to_the_grid() {
    let mut world = World::new(3, 3, 3);
    let wall = Entity::Block(Block::new(BlockType::Wall, 0, 0, 0));
    let food = Entity::Block(Block::new(BlockType::Food, 1, 1, 2));
    world.set_entity(0, 0, 0, wall);
    world.set_entity(1, 1, 2, food);
    world.set_entity(1, 1, 1, Entity::Cell(Cell::new(CellType::Armor, 0, 0, 0, 0)));
    assert_eq!(world.get_adjacent_entities(1, 1, 1), vec![wall, food]);
    assert_eq!(world.get_adjacent_entities(0, 0, 0), vec![Entity::Cell(Cell::new(CellType::Armor, 0, 0, 0, 0))]);
    assert_eq!(world.get_adjacent_entities(2, 2, 2).len(), 2);
    assert!(World::new(3, 3, 3).get_adjacent_entities(1, 1, 1).is_empty());
}
