use cellsim::octrees::{Octree, OctreeNode};

#[test]
fn query_finds_inserted_ids() {
    let mut t = Octree::new([0, 0, 0], 64, 1);
    t.insert(7, [3, -4, 10]);
    t.insert(9, [-20, 20, -20]);
    t.insert(11, [31, 31, 31]);
    let r = t.query(&[0, -10, 0, 5, 0, 15]);
    assert!(r.contains(&7));
    let r = t.query(&[-20, 20, -20, -20, 20, -20]);
    assert!(r.contains(&9));
    assert!(!r.contains(&7));
    let r = t.query(&[-32, -32, -32, 32, 32, 32]);
    assert!(r.contains(&7) && r.contains(&9) && r.contains(&11));
}

#[test]
fn query_outside_the_tree_is_empty() {
    let mut t = Octree::new([0, 0, 0], 16, 1);
    t.insert(1, [2, 2, 2]);
    assert!(t.query(&[100, 100, 100, 200, 200, 200]).is_empty());
}

#[test]
fn same_id_twice_is_stored_once() {
    let mut t = Octree::new([0, 0, 0], 16, 1);
    t.insert(5, [1, 1, 1]);
    t.insert(5, [1, 1, 1]);
    let r = t.query(&[0, 0, 0, 2, 2, 2]);
    assert_eq!(r.iter().filter(|&&x| x == 5).count(), 1);
}

#[test]
fn insert_subdivides_to_the_minimum_size() {
    let mut t = Octree::new([0, 0, 0], 16, 1);
    assert_eq!(t.nodes.len(), 1);
    t.insert(3, [5, -5, 5]);
    assert!(t.nodes.len() > 1);
    assert!(t.nodes[0].children.is_some());
    let leaf = t.nodes.iter().find(|n| n.organisms.contains(&3)).unwrap();
    for a in 0..3 {
        assert!(leaf.hi[a] - leaf.lo[a] <= 2);
    }
}

#[test]
fn octant_and_intersection() {
    let n = OctreeNode::new([0, 0, 0], [9, 9, 9]);
    assert_eq!(n.get_octant([0, 0, 0]), 0);
    assert_eq!(n.get_octant([5, 0, 0]), 1);
    assert_eq!(n.get_octant([4, 5, 5]), 6);
    assert_eq!(n.get_octant([9, 9, 9]), 7);
    assert!(n.intersects(&[9, 9, 9, 20, 20, 20]));
    assert!(!n.intersects(&[10, 0, 0, 20, 9, 9]));
    assert!(n.intersects(&[-5, -5, -5, 0, 0, 0]));
}

#[test]
fn inserting_again_changes_nothing() {
    let mut t = Octree::new([0, 0, 0], 32, 1);
    t.insert(4, [3, 3, 3]);
    let nodes = t.nodes.len();
    let before = t.query(&[-16, -16, -16, 16, 16, 16]);
    t.insert(4, [3, 3, 3]);
    assert_eq!(t.nodes.len(), nodes);
    assert_eq!(t.query(&[-16, -16, -16, 16, 16, 16]), before);
    assert_eq!(before, vec![4]);
}
