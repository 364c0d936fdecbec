//! A sparse octree over organism positions, for range queries. Nodes live in
//! one vector; a subdivided node points at its eight children, which sit
//! next to each other after it.

use vstd::prelude::*;

verus! {

/// An axis-aligned box of integer positions, bounds included, with the ids
/// stored at this resolution and, once subdivided, the index of its first
/// child.
pub struct OctreeNode {
    pub lo: [i32; 3],
    pub hi: [i32; 3],
    pub organisms: Vec<usize>,
    pub children: Option<usize>,
}

/// The middle of `lo..=hi`, rounded down.
pub open spec fn mid(lo: int, hi: int) -> int {
    if hi > lo { lo + (hi - lo) / 2 } else { lo }
}

/// The bounds on one axis of a child: the lower half, or the upper half.
pub open spec fn half_bounds(lo: int, hi: int, upper: bool) -> (int, int) {
    if !upper {
        (lo, mid(lo, hi))
    } else if hi > lo {
        (mid(lo, hi) + 1, hi)
    } else {
        (lo, hi)
    }
}

/// Whether child `k` (0 to 7) lies in the upper half on axis `a`: bit `a`
/// of `k`.
pub open spec fn upper_on(k: int, a: int) -> bool {
    if a == 0 {
        k % 2 == 1
    } else if a == 1 {
        (k / 2) % 2 == 1
    } else {
        (k / 4) % 2 == 1
    }
}

/// The position on axis `a`.
pub open spec fn coord(p: (int, int, int), a: int) -> int {
    if a == 0 {
        p.0
    } else if a == 1 {
        p.1
    } else {
        p.2
    }
}

/// The query box `[min x, min y, min z, max x, max y, max z]` holds `p`.
pub open spec fn box_contains(query_box: [i32; 6], p: (int, int, int)) -> bool {
    &&& query_box[0] <= p.0 <= query_box[3]
    &&& query_box[1] <= p.1 <= query_box[4]
    &&& query_box[2] <= p.2 <= query_box[5]
}

pub open spec fn array_pos(position: [i32; 3]) -> (int, int, int) {
    (position[0] as int, position[1] as int, position[2] as int)
}

impl OctreeNode {
    pub open spec fn contains(&self, p: (int, int, int)) -> bool {
        &&& self.lo[0] <= p.0 <= self.hi[0]
        &&& self.lo[1] <= p.1 <= self.hi[1]
        &&& self.lo[2] <= p.2 <= self.hi[2]
    }

    /// The box meets the query box.
    pub open spec fn meets(&self, query_box: [i32; 6]) -> bool {
        !(query_box[0] > self.hi[0] || query_box[3] < self.lo[0] || query_box[1] > self.hi[1]
            || query_box[4] < self.lo[1] || query_box[2] > self.hi[2] || query_box[5] < self.lo[2])
    }

    /// Which child holds `p`: bit `a` is set where `p` lies beyond the middle
    /// on axis `a`.
    pub open spec fn octant(&self, p: (int, int, int)) -> int {
        (if p.0 > mid(self.lo[0] as int, self.hi[0] as int) { 1int } else { 0int })
            + (if p.1 > mid(self.lo[1] as int, self.hi[1] as int) { 2int } else { 0int })
            + (if p.2 > mid(self.lo[2] as int, self.hi[2] as int) { 4int } else { 0int })
    }

    /// The bounds of child `k` on axis `a`.
    pub open spec fn child_bounds(&self, k: int, a: int) -> (int, int) {
        half_bounds(self.lo[a] as int, self.hi[a] as int, upper_on(k, a))
    }

    /// The node is fine enough to hold ids itself: no side longer than twice
    /// the minimum half-size.
    pub open spec fn is_leaf(&self, min_size: int) -> bool {
        &&& self.hi[0] - self.lo[0] <= 2 * min_size
        &&& self.hi[1] - self.lo[1] <= 2 * min_size
        &&& self.hi[2] - self.lo[2] <= 2 * min_size
    }

    /// The sum of the box's side lengths, which shrinks from parent to child.
    pub open spec fn extent(&self) -> int {
        (self.hi[0] - self.lo[0]) + (self.hi[1] - self.lo[1]) + (self.hi[2] - self.lo[2])
    }

    pub open spec fn ordered(&self) -> bool {
        self.lo[0] <= self.hi[0] && self.lo[1] <= self.hi[1] && self.lo[2] <= self.hi[2]
    }

    /// An empty node over the box `lo..=hi`.
    pub fn new(lo: [i32; 3], hi: [i32; 3]) -> (n: OctreeNode)
        ensures
            n.lo == lo && n.hi == hi,
            n.organisms@ == Seq::<usize>::empty(),
            n.children.is_none(),
    {
        OctreeNode { lo, hi, organisms: Vec::new(), children: None }
    }

    /// Which child holds `position` (see `octant`).
    pub fn get_octant(&self, position: [i32; 3]) -> (k: usize)
        requires
            self.ordered(),
        ensures
            k == self.octant(array_pos(position)),
            k < 8,
    {
        let mut index: usize = 0;
        if position[0] as i64 > mid_of(self.lo[0], self.hi[0]) {
            index = index + 1;
        }
        if position[1] as i64 > mid_of(self.lo[1], self.hi[1]) {
            index = index + 2;
        }
        if position[2] as i64 > mid_of(self.lo[2], self.hi[2]) {
            index = index + 4;
        }
        index
    }

    /// Whether the node's box meets `query_box`.
    pub fn intersects(&self, query_box: &[i32; 6]) -> (r: bool)
        ensures
            r == self.meets(*query_box),
    {
        !(query_box[0] > self.hi[0] || query_box[3] < self.lo[0] || query_box[1] > self.hi[1]
            || query_box[4] < self.lo[1] || query_box[2] > self.hi[2] || query_box[5] < self.lo[2])
    }
}

fn mid_of(lo: i32, hi: i32) -> (m: i64)
    requires
        lo <= hi,
    ensures
        m == mid(lo as int, hi as int),
        lo <= m <= hi,
{
    if hi > lo {
        lo as i64 + (hi as i64 - lo as i64) / 2
    } else {
        lo as i64
    }
}

fn child_of(n: &OctreeNode, k: usize) -> (c: OctreeNode)
    requires
        n.ordered(),
        k < 8,
    ensures
        forall|a: int| 0 <= a < 3 ==> (c.lo[a] as int, c.hi[a] as int) == #[trigger] n.child_bounds(k as int, a),
        c.ordered(),
        c.organisms@ == Seq::<usize>::empty(),
        c.children.is_none(),
{
    let mut lo: [i32; 3] = [0, 0, 0];
    let mut hi: [i32; 3] = [0, 0, 0];
    let bits: [bool; 3] = [k % 2 == 1, (k / 2) % 2 == 1, (k / 4) % 2 == 1];
    let mut a: usize = 0;
    while a < 3
        invariant
            a <= 3,
            n.ordered(),
            bits@ == seq![k % 2 == 1, (k / 2) % 2 == 1, (k / 4) % 2 == 1],
            forall|b: int| 0 <= b < a ==> (lo[b] as int, hi[b] as int) == #[trigger] n.child_bounds(k as int, b),
            forall|b: int| 0 <= b < a ==> lo[b] <= hi[b],
        decreases 3 - a,
    {
        let l = n.lo[a];
        let h = n.hi[a];
        let m = mid_of(l, h);
        if !bits[a] {
            lo[a] = l;
            hi[a] = m as i32;
        } else if h > l {
            lo[a] = (m + 1) as i32;
            hi[a] = h;
        } else {
            lo[a] = l;
            hi[a] = h;
        }
        a += 1;
    }
    OctreeNode::new(lo, hi)
}

/// `child` has the bounds of child `k` of `parent`.
pub open spec fn is_child(parent: OctreeNode, child: OctreeNode, k: int) -> bool {
    &&& (child.lo[0] as int, child.hi[0] as int) == parent.child_bounds(k, 0)
    &&& (child.lo[1] as int, child.hi[1] as int) == parent.child_bounds(k, 1)
    &&& (child.lo[2] as int, child.hi[2] as int) == parent.child_bounds(k, 2)
}

/// Node `i` has ordered bounds and, once subdivided, eight children placed
/// after it with the bounds of its eight octants.
pub open spec fn node_ok(nodes: Seq<OctreeNode>, i: int) -> bool {
    &&& nodes[i].ordered()
    &&& match nodes[i].children {
        None => true,
        Some(c) => {
            &&& i < c
            &&& c + 8 <= nodes.len()
            &&& forall|k: int| 0 <= k < 8 ==> is_child(nodes[i], #[trigger] nodes[c as int + k], k)
        },
    }
}

pub open spec fn tree_ok(nodes: Seq<OctreeNode>) -> bool {
    &&& nodes.len() >= 1
    &&& forall|i: int| 0 <= i < nodes.len() ==> #[trigger] node_ok(nodes, i)
}

/// `id` is stored on the path that `p` takes from node `i` down through the
/// octants, every node of which holds `p`.
pub open spec fn found(nodes: Seq<OctreeNode>, i: int, id: usize, p: (int, int, int)) -> bool
    decreases nodes.len() - i,
{
    if 0 <= i < nodes.len() {
        let n = nodes[i];
        n.contains(p) && (n.organisms@.contains(id) || match n.children {
            Some(c) => if i < c && c + 8 <= nodes.len() {
                found(nodes, c as int + n.octant(p), id, p)
            } else {
                false
            },
            None => false,
        })
    } else {
        false
    }
}

/// The ids that a query of node `i` collects: those of every node met by the
/// query box, a node before its children and the children in order.
pub open spec fn query_seq(nodes: Seq<OctreeNode>, i: int, query_box: [i32; 6]) -> Seq<usize>
    decreases nodes.len() - i,
{
    if 0 <= i < nodes.len() && nodes[i].meets(query_box) {
        let n = nodes[i];
        match n.children {
            Some(ch) => if i < ch && ch + 8 <= nodes.len() {
                let c = ch as int;
                n.organisms@ + query_seq(nodes, c, query_box) + query_seq(nodes, c + 1, query_box)
                    + query_seq(nodes, c + 2, query_box) + query_seq(nodes, c + 3, query_box)
                    + query_seq(nodes, c + 4, query_box) + query_seq(nodes, c + 5, query_box)
                    + query_seq(nodes, c + 6, query_box) + query_seq(nodes, c + 7, query_box)
            } else {
                n.organisms@
            },
            None => n.organisms@,
        }
    } else {
        Seq::empty()
    }
}

/// A node as it may become: same bounds, the same children once it has
/// some, and every id it held.
pub open spec fn node_extends(old: OctreeNode, new: OctreeNode) -> bool {
    &&& new.lo == old.lo
    &&& new.hi == old.hi
    &&& (old.children is Some ==> new.children == old.children)
    &&& forall|x: usize| old.organisms@.contains(x) ==> #[trigger] new.organisms@.contains(x)
}

/// A node vector as it may become by insertions.
pub open spec fn tree_extends(old: Seq<OctreeNode>, new: Seq<OctreeNode>) -> bool {
    &&& old.len() <= new.len()
    &&& forall|j: int| 0 <= j < old.len() ==> node_extends(old[j], #[trigger] new[j])
}

proof fn lemma_found_extends(old: Seq<OctreeNode>, new: Seq<OctreeNode>, i: int, id: usize, p: (int, int, int))
    requires
        tree_extends(old, new),
        found(old, i, id, p),
    ensures
        found(new, i, id, p),
    decreases old.len() - i,
{
    let n = old[i];
    assert(node_extends(n, new[i]));
    if !n.organisms@.contains(id) {
        let c = n.children->Some_0 as int;
        lemma_found_extends(old, new, c + n.octant(p), id, p);
    }
}

proof fn lemma_concat_contains(a: Seq<usize>, b: Seq<usize>, x: usize)
    requires
        a.contains(x) || b.contains(x),
    ensures
        (a + b).contains(x),
{
    if a.contains(x) {
        let k = choose|k: int| 0 <= k < a.len() && a[k] == x;
        assert((a + b)[k] == x);
    } else {
        let k = choose|k: int| 0 <= k < b.len() && b[k] == x;
        assert((a + b)[a.len() + k] == x);
    }
}

/// No false negatives below a node: an id found on the path of a position
/// that the query box holds is collected by the query.
proof fn lemma_query_finds(nodes: Seq<OctreeNode>, i: int, id: usize, p: (int, int, int), query_box: [i32; 6])
    requires
        found(nodes, i, id, p),
        box_contains(query_box, p),
    ensures
        query_seq(nodes, i, query_box).contains(id),
    decreases nodes.len() - i,
{
    let n = nodes[i];
    assert(n.meets(query_box));
    match n.children {
        Some(ch) => {
            if i < ch && ch + 8 <= nodes.len() {
                let c = ch as int;
                let q0 = n.organisms@;
                let q = |k: int| query_seq(nodes, c + k, query_box);
                let o = n.octant(p);
                if !n.organisms@.contains(id) {
                    lemma_query_finds(nodes, c + o, id, p, query_box);
                }
                let s1 = q0 + q(0);
                let s2 = s1 + q(1);
                let s3 = s2 + q(2);
                let s4 = s3 + q(3);
                let s5 = s4 + q(4);
                let s6 = s5 + q(5);
                let s7 = s6 + q(6);
                let s8 = s7 + q(7);
                assert(0 <= o < 8);
                if n.organisms@.contains(id) || o == 0 {
                    lemma_concat_contains(q0, q(0), id);
                }
                if s1.contains(id) || o == 1 {
                    lemma_concat_contains(s1, q(1), id);
                }
                if s2.contains(id) || o == 2 {
                    lemma_concat_contains(s2, q(2), id);
                }
                if s3.contains(id) || o == 3 {
                    lemma_concat_contains(s3, q(3), id);
                }
                if s4.contains(id) || o == 4 {
                    lemma_concat_contains(s4, q(4), id);
                }
                if s5.contains(id) || o == 5 {
                    lemma_concat_contains(s5, q(5), id);
                }
                if s6.contains(id) || o == 6 {
                    lemma_concat_contains(s6, q(6), id);
                }
                if s7.contains(id) || o == 7 {
                    lemma_concat_contains(s7, q(7), id);
                }
                assert(query_seq(nodes, i, query_box) == s8);
            }
        },
        None => {},
    }
}

/// A value pushed back into the `i32` range.
pub open spec fn clamp_i32(v: int) -> i32 {
    if v < i32::MIN {
        i32::MIN
    } else if v > i32::MAX {
        i32::MAX
    } else {
        v as i32
    }
}

fn clamped_i32(v: i64) -> (r: i32)
    ensures
        r == clamp_i32(v as int),
{
    if v < i32::MIN as i64 {
        i32::MIN
    } else if v > i32::MAX as i64 {
        i32::MAX
    } else {
        v as i32
    }
}

/// A child of a node that is not a leaf is smaller than its parent.
proof fn lemma_child_smaller(parent: OctreeNode, child: OctreeNode, k: int, min_size: int)
    requires
        parent.ordered(),
        !parent.is_leaf(min_size),
        min_size >= 0,
        is_child(parent, child, k),
    ensures
        child.ordered(),
        0 <= child.extent() < parent.extent(),
{
}

/// The child that the octant of a position picks holds the position.
proof fn lemma_octant_child_contains(parent: OctreeNode, child: OctreeNode, p: (int, int, int))
    requires
        parent.ordered(),
        parent.contains(p),
        is_child(parent, child, parent.octant(p)),
    ensures
        child.contains(p),
{
    let o = parent.octant(p);
    assert(upper_on(o, 0) == (p.0 > mid(parent.lo[0] as int, parent.hi[0] as int)));
    assert(upper_on(o, 1) == (p.1 > mid(parent.lo[1] as int, parent.hi[1] as int)));
    assert(upper_on(o, 2) == (p.2 > mid(parent.lo[2] as int, parent.hi[2] as int)));
}

/// A leaf never has children; a node above the leaves holds no ids.
pub open spec fn leaf_ok(n: OctreeNode, min_size: int) -> bool {
    if n.is_leaf(min_size) {
        n.children.is_none()
    } else {
        n.organisms@.len() == 0
    }
}

pub open spec fn leaves_ok(nodes: Seq<OctreeNode>, min_size: int) -> bool {
    forall|j: int| 0 <= j < nodes.len() ==> leaf_ok(#[trigger] nodes[j], min_size)
}

/// Some node holds `x`.
pub open spec fn has_id(nodes: Seq<OctreeNode>, x: usize) -> bool {
    exists|j: int| 0 <= j < nodes.len() && (#[trigger] nodes[j]).organisms@.contains(x)
}

/// Every id that a node of `new` holds is `id` or was held by the same node
/// of `old`.
pub open spec fn grows_only_by(old: Seq<OctreeNode>, new: Seq<OctreeNode>, id: usize) -> bool {
    forall|j: int, x: usize|
        0 <= j < new.len() && #[trigger] new[j].organisms@.contains(x) ==> x == id || (j < old.len()
            && old[j].organisms@.contains(x))
}

/// Every element of `s` is held by some node.
pub open spec fn all_held(nodes: Seq<OctreeNode>, s: Seq<usize>) -> bool {
    forall|k: int| 0 <= k < s.len() ==> has_id(nodes, #[trigger] s[k])
}

proof fn lemma_all_held_concat(nodes: Seq<OctreeNode>, a: Seq<usize>, b: Seq<usize>)
    requires
        all_held(nodes, a),
        all_held(nodes, b),
    ensures
        all_held(nodes, a + b),
{
    assert forall|k: int| 0 <= k < (a + b).len() implies has_id(nodes, #[trigger] (a + b)[k]) by {
        if k < a.len() {
            assert((a + b)[k] == a[k]);
        } else {
            assert((a + b)[k] == b[k - a.len()]);
        }
    }
}

/// A query returns only ids that some node holds.
proof fn lemma_query_held(nodes: Seq<OctreeNode>, i: int, query_box: [i32; 6])
    ensures
        all_held(nodes, query_seq(nodes, i, query_box)),
    decreases nodes.len() - i,
{
    if 0 <= i < nodes.len() && nodes[i].meets(query_box) {
        let n = nodes[i];
        assert forall|k: int| 0 <= k < n.organisms@.len() implies has_id(nodes, #[trigger] n.organisms@[k]) by {
            assert(nodes[i].organisms@.contains(n.organisms@[k]));
        }
        match n.children {
            Some(ch) => {
                if i < ch && ch + 8 <= nodes.len() {
                    let c = ch as int;
                    let q = |k: int| query_seq(nodes, c + k, query_box);
                    lemma_query_held(nodes, c, query_box);
                    lemma_query_held(nodes, c + 1, query_box);
                    lemma_query_held(nodes, c + 2, query_box);
                    lemma_query_held(nodes, c + 3, query_box);
                    lemma_query_held(nodes, c + 4, query_box);
                    lemma_query_held(nodes, c + 5, query_box);
                    lemma_query_held(nodes, c + 6, query_box);
                    lemma_query_held(nodes, c + 7, query_box);
                    let s1 = n.organisms@ + q(0);
                    lemma_all_held_concat(nodes, n.organisms@, q(0));
                    let s2 = s1 + q(1);
                    lemma_all_held_concat(nodes, s1, q(1));
                    let s3 = s2 + q(2);
                    lemma_all_held_concat(nodes, s2, q(2));
                    let s4 = s3 + q(3);
                    lemma_all_held_concat(nodes, s3, q(3));
                    let s5 = s4 + q(4);
                    lemma_all_held_concat(nodes, s4, q(4));
                    let s6 = s5 + q(5);
                    lemma_all_held_concat(nodes, s5, q(5));
                    let s7 = s6 + q(6);
                    lemma_all_held_concat(nodes, s6, q(6));
                    lemma_all_held_concat(nodes, s7, q(7));
                    assert(query_seq(nodes, i, query_box) == s7 + q(7));
                }
            },
            None => {},
        }
    }
}

fn holds_id(ids: &Vec<usize>, id: usize) -> (r: bool)
    ensures
        r == ids@.contains(id),
{
    let mut i: usize = 0;
    while i < ids.len()
        invariant
            i <= ids@.len(),
            forall|j: int| 0 <= j < i ==> ids@[j] != id,
        decreases ids.len() - i,
    {
        if ids[i] == id {
            assert(ids@[i as int] == id);
            return true;
        }
        i += 1;
    }
    false
}

/// An octree over the integer box given at construction. Ids are stored in
/// the nodes whose side is at most twice `min_size`.
pub struct Octree {
    pub nodes: Vec<OctreeNode>,
    pub min_size: u32,
}

impl Octree {
    pub open spec fn wf(&self) -> bool {
        tree_ok(self.nodes@) && leaves_ok(self.nodes@, self.min_size as int)
    }

    /// Some node holds `x`.
    pub open spec fn has_id(&self, x: usize) -> bool {
        has_id(self.nodes@, x)
    }

    /// `id` was inserted at `p`, inside the root's box, and stays where a
    /// query of a box holding `p` finds it.
    pub open spec fn holds(&self, id: usize, p: (int, int, int)) -> bool {
        found(self.nodes@, 0, id, p)
    }

    /// The ids that a query of `query_box` returns, in order.
    pub open spec fn query_result(&self, query_box: [i32; 6]) -> Seq<usize> {
        query_seq(self.nodes@, 0, query_box)
    }

    /// An empty octree over the cube of side `size` centred on `center`
    /// (held to the `i32` range).
    pub fn new(center: [i32; 3], size: u32, min_size: u32) -> (t: Octree)
        ensures
            t.wf(),
            forall|x: usize| !t.has_id(x),
            t.min_size == min_size,
            t.nodes@.len() == 1,
            t.nodes@[0].organisms@ == Seq::<usize>::empty(),
            t.nodes@[0].children.is_none(),
            forall|a: int|
                0 <= a < 3 ==> t.nodes@[0].lo[a] == clamp_i32(center[a] - size / 2) && t.nodes@[0].hi[a]
                    == clamp_i32(center[a] + size / 2),
    {
        let half: i64 = (size / 2) as i64;
        let lo: [i32; 3] = [
            clamped_i32(center[0] as i64 - half),
            clamped_i32(center[1] as i64 - half),
            clamped_i32(center[2] as i64 - half),
        ];
        let hi: [i32; 3] = [
            clamped_i32(center[0] as i64 + half),
            clamped_i32(center[1] as i64 + half),
            clamped_i32(center[2] as i64 + half),
        ];
        let mut nodes: Vec<OctreeNode> = Vec::new();
        nodes.push(OctreeNode::new(lo, hi));
        let t = Octree { nodes, min_size };
        assert(node_ok(t.nodes@, 0));
        assert(leaf_ok(t.nodes@[0], min_size as int));
        t
    }

    /// Gives node `i`, which must not be subdivided yet, its eight children.
    pub fn subdivide(&mut self, i: usize)
        requires
            old(self).wf(),
            i < old(self).nodes@.len(),
            old(self).nodes@[i as int].children.is_none(),
            !old(self).nodes@[i as int].is_leaf(old(self).min_size as int),
        ensures
            final(self).wf(),
            tree_extends(old(self).nodes@, final(self).nodes@),
            final(self).nodes@.len() == old(self).nodes@.len() + 8,
            final(self).nodes@[i as int].children == Some(old(self).nodes@.len() as usize),
            final(self).nodes@[i as int].lo == old(self).nodes@[i as int].lo,
            final(self).nodes@[i as int].hi == old(self).nodes@[i as int].hi,
            final(self).nodes@[i as int].organisms@ == old(self).nodes@[i as int].organisms@,
            forall|j: int| 0 <= j < old(self).nodes@.len() && j != i ==> #[trigger] final(self).nodes@[j] == old(self).nodes@[j],
            forall|k: int|
                0 <= k < 8 ==> {
                    let n = #[trigger] final(self).nodes@[old(self).nodes@.len() + k];
                    &&& is_child(final(self).nodes@[i as int], n, k)
                    &&& n.organisms@ == Seq::<usize>::empty()
                    &&& n.children.is_none()
                },
            final(self).min_size == old(self).min_size,
    {
        let c = self.nodes.len();
        let mut kids: Vec<OctreeNode> = Vec::new();
        let mut k: usize = 0;
        assert(node_ok(self.nodes@, i as int));
        while k < 8
            invariant
                k <= 8,
                i < self.nodes@.len(),
                self.nodes@ == old(self).nodes@,
                self.nodes@[i as int].ordered(),
                kids@.len() == k,
                forall|j: int|
                    0 <= j < k ==> is_child(self.nodes@[i as int], #[trigger] kids@[j], j) && kids@[j].ordered()
                        && kids@[j].children.is_none() && kids@[j].organisms@ == Seq::<usize>::empty(),
            decreases 8 - k,
        {
            let kid = child_of(&self.nodes[i], k);
            assert(is_child(self.nodes@[i as int], kid, k as int));
            kids.push(kid);
            k += 1;
        }
        let ghost before = self.nodes@;
        let ghost kid_seq = kids@;
        self.nodes.append(&mut kids);
        self.nodes[i].children = Some(c);
        proof {
            let nodes = self.nodes@;
            assert forall|j: int| 0 <= j < nodes.len() implies #[trigger] node_ok(nodes, j) by {
                if j < c {
                    assert(node_ok(old(self).nodes@, j));
                    if j != i {
                        match nodes[j].children {
                            Some(cc) => {
                                assert forall|kk: int| 0 <= kk < 8 implies is_child(
                                    nodes[j],
                                    #[trigger] nodes[cc as int + kk],
                                    kk,
                                ) by {
                                    assert(is_child(before[j], before[cc as int + kk], kk));
                                }
                            },
                            None => {},
                        }
                    } else {
                        assert forall|kk: int| 0 <= kk < 8 implies is_child(
                            nodes[j],
                            #[trigger] nodes[c as int + kk],
                            kk,
                        ) by {
                            assert(nodes[c as int + kk] == kid_seq[kk]);
                        }
                    }
                } else {
                    assert(nodes[j] == kid_seq[j - c]);
                }
            }
            assert forall|j: int| 0 <= j < old(self).nodes@.len() implies node_extends(
                old(self).nodes@[j],
                #[trigger] nodes[j],
            ) by {}
            assert forall|j: int| 0 <= j < nodes.len() implies leaf_ok(#[trigger] nodes[j], self.min_size as int) by {
                if j < c {
                    assert(leaf_ok(old(self).nodes@[j], self.min_size as int));
                } else {
                    assert(nodes[j] == kid_seq[j - c]);
                }
            }
            assert forall|k: int| 0 <= k < 8 implies {
                let n = #[trigger] nodes[c + k];
                &&& is_child(nodes[i as int], n, k)
                &&& n.organisms@ == Seq::<usize>::empty()
                &&& n.children.is_none()
            } by {
                assert(nodes[c + k] == kid_seq[k]);
            }
        }
    }

    fn store_at(&mut self, i: usize, organism_id: usize)
        requires
            old(self).wf(),
            i < old(self).nodes@.len(),
            old(self).nodes@[i as int].is_leaf(old(self).min_size as int),
        ensures
            final(self).wf(),
            tree_extends(old(self).nodes@, final(self).nodes@),
            grows_only_by(old(self).nodes@, final(self).nodes@, organism_id),
            final(self).nodes@.len() == old(self).nodes@.len(),
            final(self).nodes@[i as int].organisms@.contains(organism_id),
            old(self).nodes@[i as int].organisms@.contains(organism_id) ==> final(self).nodes@ == old(self).nodes@,
            final(self).min_size == old(self).min_size,
    {
        if !holds_id(&self.nodes[i].organisms, organism_id) {
            self.nodes[i].organisms.push(organism_id);
            proof {
                let nodes = self.nodes@;
                assert(nodes[i as int].organisms@.last() == organism_id);
                assert forall|j: int| 0 <= j < nodes.len() implies #[trigger] node_ok(nodes, j) by {
                    assert(node_ok(old(self).nodes@, j));
                    match nodes[j].children {
                        Some(cc) => {
                            assert forall|kk: int| 0 <= kk < 8 implies is_child(
                                nodes[j],
                                #[trigger] nodes[cc as int + kk],
                                kk,
                            ) by {
                                assert(is_child(old(self).nodes@[j], old(self).nodes@[cc as int + kk], kk));
                            }
                        },
                        None => {},
                    }
                }
                assert forall|j: int| 0 <= j < nodes.len() implies leaf_ok(#[trigger] nodes[j], self.min_size as int) by {
                    assert(leaf_ok(old(self).nodes@[j], self.min_size as int));
                }
                assert forall|j: int, x: usize|
                    0 <= j < nodes.len() && #[trigger] nodes[j].organisms@.contains(x) implies x == organism_id || (j
                        < old(self).nodes@.len() && old(self).nodes@[j].organisms@.contains(x)) by {
                    if j == i && x != organism_id {
                        let w = choose|w: int| 0 <= w < nodes[j].organisms@.len() && nodes[j].organisms@[w] == x;
                        assert(old(self).nodes@[j].organisms@[w] == x);
                    }
                }
                assert forall|j: int| 0 <= j < old(self).nodes@.len() implies node_extends(
                    old(self).nodes@[j],
                    #[trigger] nodes[j],
                ) by {
                    if j == i {
                        assert forall|x: usize| old(self).nodes@[j].organisms@.contains(x) implies #[trigger] nodes[j].organisms@.contains(x) by {
                            let w = choose|w: int| 0 <= w < old(self).nodes@[j].organisms@.len() && old(self).nodes@[j].organisms@[w] == x;
                            assert(nodes[j].organisms@[w] == x);
                        }
                    }
                }
            }
        }
    }

    fn insert_at(&mut self, i: usize, organism_id: usize, position: [i32; 3])
        requires
            old(self).wf(),
            i < old(self).nodes@.len(),
        ensures
            final(self).wf(),
            tree_extends(old(self).nodes@, final(self).nodes@),
            final(self).min_size == old(self).min_size,
            old(self).nodes@[i as int].contains(array_pos(position)) ==> found(
                final(self).nodes@,
                i as int,
                organism_id,
                array_pos(position),
            ),
            grows_only_by(old(self).nodes@, final(self).nodes@, organism_id),
            exists|j: int|
                0 <= j < final(self).nodes@.len() && (#[trigger] final(self).nodes@[j]).organisms@.contains(organism_id)
                    && final(self).nodes@[j].is_leaf(final(self).min_size as int) && (old(self).nodes@[i as int].contains(
                    array_pos(position),
                ) ==> final(self).nodes@[j].contains(array_pos(position))),
            found(old(self).nodes@, i as int, organism_id, array_pos(position)) ==> final(self).nodes@ == old(
                self,
            ).nodes@,
        decreases old(self).nodes@[i as int].extent(),
    {
        let ghost p = array_pos(position);
        let ghost start = self.nodes@;
        assert(node_ok(self.nodes@, i as int));
        let min: i64 = 2 * self.min_size as i64;
        let n = &self.nodes[i];
        let leaf = n.hi[0] as i64 - n.lo[0] as i64 <= min && n.hi[1] as i64 - n.lo[1] as i64 <= min
            && n.hi[2] as i64 - n.lo[2] as i64 <= min;
        if leaf {
            assert(leaf_ok(start[i as int], self.min_size as int));
            self.store_at(i, organism_id);
            assert(self.nodes@[i as int] == self.nodes@[i as int]);
            return;
        }
        assert(leaf_ok(start[i as int], self.min_size as int));
        if self.nodes[i].children.is_none() {
            self.subdivide(i);
            assert forall|j: int| start.len() <= j < self.nodes@.len() implies (#[trigger] self.nodes@[j]).organisms@.len()
                == 0 by {
                assert(self.nodes@[start.len() + (j - start.len())].organisms@ == Seq::<usize>::empty());
            }
        }
        let ghost mid_state = self.nodes@;
        assert(forall|j: int| start.len() <= j < mid_state.len() ==> (#[trigger] mid_state[j]).organisms@.len() == 0);
        assert(forall|j: int| 0 <= j < start.len() && j != i ==> #[trigger] mid_state[j] == start[j]);
        assert(mid_state[i as int].organisms@ == start[i as int].organisms@);
        assert(node_ok(mid_state, i as int));
        assert(node_extends(start[i as int], mid_state[i as int]));
        let c = match self.nodes[i].children {
            Some(c) => c,
            None => 0,
        };
        let k = self.nodes[i].get_octant(position);
        let len = self.nodes.len();
        assert(c + 8 <= len);
        assert(is_child(mid_state[i as int], mid_state[c + k], k as int));
        proof {
            lemma_child_smaller(mid_state[i as int], mid_state[c + k], k as int, self.min_size as int);
        }
        self.insert_at(c + k, organism_id, position);
        proof {
            assert forall|j: int, x: usize|
                0 <= j < self.nodes@.len() && #[trigger] self.nodes@[j].organisms@.contains(x) implies x == organism_id
                || (j < start.len() && start[j].organisms@.contains(x)) by {
                if x != organism_id {
                    assert(mid_state[j].organisms@.contains(x));
                    if start.len() <= j {
                        assert(mid_state[j].organisms@.len() == 0);
                    } else if j != i {
                        assert(mid_state[j] == start[j]);
                    }
                }
            }
            assert(tree_extends(start, self.nodes@)) by {
                assert forall|j: int| 0 <= j < start.len() implies node_extends(start[j], #[trigger] self.nodes@[j]) by {
                    assert(node_extends(start[j], mid_state[j]));
                    assert(node_extends(mid_state[j], self.nodes@[j]));
                }
            }
            if start[i as int].contains(p) {
                lemma_octant_child_contains(mid_state[i as int], mid_state[c + k], p);
                assert(node_extends(mid_state[i as int], self.nodes@[i as int]));
                assert(found(self.nodes@, i as int, organism_id, p));
            }
        }
    }

    /// Stores `organism_id` for `position`: descends from the root by octants,
    /// subdividing on the way, to a node fine enough to hold it.
    pub fn insert(&mut self, organism_id: usize, position: [i32; 3])
        requires
            old(self).wf(),
        ensures
            final(self).wf(),
            final(self).min_size == old(self).min_size,
            final(self).nodes@[0].lo == old(self).nodes@[0].lo,
            final(self).nodes@[0].hi == old(self).nodes@[0].hi,
            old(self).nodes@[0].contains(array_pos(position)) ==> final(self).holds(organism_id, array_pos(position)),
            forall|id: usize, p: (int, int, int)| old(self).holds(id, p) ==> #[trigger] final(self).holds(id, p),
            forall|x: usize| #[trigger] final(self).has_id(x) <==> (old(self).has_id(x) || x == organism_id),
            exists|j: int|
                0 <= j < final(self).nodes@.len() && (#[trigger] final(self).nodes@[j]).organisms@.contains(organism_id)
                    && final(self).nodes@[j].is_leaf(final(self).min_size as int) && (old(self).nodes@[0].contains(
                    array_pos(position),
                ) ==> final(self).nodes@[j].contains(array_pos(position))),
            old(self).holds(organism_id, array_pos(position)) ==> final(self).nodes@ == old(self).nodes@,
    {
        self.insert_at(0, organism_id, position);
        proof {
            assert forall|x: usize| #[trigger] self.has_id(x) <==> (old(self).has_id(x) || x == organism_id) by {
                if self.has_id(x) {
                    let j = choose|j: int| 0 <= j < self.nodes@.len() && (#[trigger] self.nodes@[j]).organisms@.contains(x);
                    if x != organism_id {
                        assert(old(self).nodes@[j].organisms@.contains(x));
                    }
                }
                if old(self).has_id(x) {
                    let j = choose|j: int|
                        0 <= j < old(self).nodes@.len() && (#[trigger] old(self).nodes@[j]).organisms@.contains(x);
                    assert(node_extends(old(self).nodes@[j], self.nodes@[j]));
                }
            }
            assert(node_extends(old(self).nodes@[0], self.nodes@[0]));
            assert forall|id: usize, p: (int, int, int)| old(self).holds(id, p) implies #[trigger] self.holds(id, p) by {
                lemma_found_extends(old(self).nodes@, self.nodes@, 0, id, p);
            }
        }
    }

    fn query_node(&self, i: usize, query_box: &[i32; 6], out: &mut Vec<usize>)
        requires
            self.wf(),
            i < self.nodes@.len(),
        ensures
            final(out)@ == old(out)@ + query_seq(self.nodes@, i as int, *query_box),
        decreases self.nodes@.len() - i,
    {
        let n = &self.nodes[i];
        if !n.intersects(query_box) {
            assert(old(out)@ + Seq::<usize>::empty() =~= old(out)@);
            return;
        }
        let mut j: usize = 0;
        while j < n.organisms.len()
            invariant
                j <= n.organisms@.len(),
                out@ == old(out)@ + n.organisms@.subrange(0, j as int),
            decreases n.organisms.len() - j,
        {
            out.push(n.organisms[j]);
            j += 1;
            assert(out@ =~= old(out)@ + n.organisms@.subrange(0, j as int));
        }
        assert(n.organisms@.subrange(0, n.organisms@.len() as int) =~= n.organisms@);
        assert(node_ok(self.nodes@, i as int));
        match n.children {
            Some(c) => {
                let ghost q = |k: int| query_seq(self.nodes@, c + k, *query_box);
                let ghost base = old(out)@ + n.organisms@;
                let len = self.nodes.len();
                assert(c + 8 <= len);
                self.query_node(c, query_box, out);
                self.query_node(c + 1, query_box, out);
                assert(out@ =~= base + q(0) + q(1));
                self.query_node(c + 2, query_box, out);
                self.query_node(c + 3, query_box, out);
                assert(out@ =~= base + q(0) + q(1) + q(2) + q(3));
                self.query_node(c + 4, query_box, out);
                self.query_node(c + 5, query_box, out);
                assert(out@ =~= base + q(0) + q(1) + q(2) + q(3) + q(4) + q(5));
                self.query_node(c + 6, query_box, out);
                self.query_node(c + 7, query_box, out);
                assert(out@ =~= base + q(0) + q(1) + q(2) + q(3) + q(4) + q(5) + q(6) + q(7));
                assert(out@ =~= old(out)@ + query_seq(self.nodes@, i as int, *query_box));
            },
            None => {},
        }
    }

    /// The ids stored in every node whose box meets `query_box`
    /// (`[min x, min y, min z, max x, max y, max z]`).
    pub fn query(&self, query_box: &[i32; 6]) -> (r: Vec<usize>)
        requires
            self.wf(),
        ensures
            r@ == self.query_result(*query_box),
            forall|k: int| 0 <= k < r@.len() ==> self.has_id(#[trigger] r@[k]),
    {
        proof {
            lemma_query_held(self.nodes@, 0, *query_box);
        }
        let mut r: Vec<usize> = Vec::new();
        self.query_node(0, query_box, &mut r);
        assert(Seq::<usize>::empty() + self.query_result(*query_box) =~= self.query_result(*query_box));
        r
    }
}

/// No false negatives: an id inserted at a position inside the root's box
/// is returned by every query whose box holds that position.
pub proof fn lemma_query_complete(t: &Octree, query_box: [i32; 6], id: usize, p: (int, int, int))
    requires
        t.holds(id, p),
        box_contains(query_box, p),
    ensures
        t.query_result(query_box).contains(id),
{
    lemma_query_finds(t.nodes@, 0, id, p, query_box);
}

} // verus!
