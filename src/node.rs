use vstd::prelude::*;
use vstd::multiset::Multiset;
use crate::point::{Point, octant_of, child_center, in_bounds};

verus! {

broadcast use vstd::seq_lib::group_to_multiset_ensures;

/// A cell whose size is at or below this never subdivides: 0.1 units.
pub const MIN_CELL_SIZE: u64 = 1_000;

/// A cubic cell of the octree. A leaf holds its points; an internal node
/// holds eight children, one per octant, and no points.
pub struct OctreeNode {
    pub center: Point,
    /// Edge length of the cell.
    pub size: u64,
    pub points: Vec<Point>,
    pub children: Option<Vec<OctreeNode>>,
}

/// Result of an exact lookup of `q` among the points of `m`.
pub open spec fn lookup(m: Multiset<Point>, q: Point) -> Option<Point> {
    if m.count(q) > 0 {
        Some(q)
    } else {
        None
    }
}

/// `child` is the well-placed child of index `octant` of a cell of the given
/// center and size: it sits at that octant's offset, has half the size, and
/// holds only points that fall in that octant.
pub open spec fn child_ok(center: Point, size: u64, child: OctreeNode, octant: int) -> bool {
    &&& child.center == child_center(center, (size / 2) as int, octant)
    &&& child.size == size / 2
    &&& forall|q: Point| #[trigger] child.contents().count(q) > 0 ==> octant_of(center, q) == octant
}

/// The points held by eight children together.
pub open spec fn children_contents(ch: Seq<OctreeNode>) -> Multiset<Point> {
    ch[0].contents().add(ch[1].contents()).add(ch[2].contents()).add(ch[3].contents()).add(
        ch[4].contents(),
    ).add(ch[5].contents()).add(ch[6].contents()).add(ch[7].contents())
}

/// Eight well-formed children, each well placed in a cell of the given
/// center and size.
pub open spec fn children_ok(center: Point, size: u64, ch: Seq<OctreeNode>) -> bool {
    &&& ch.len() == 8
    &&& forall|i: int| #![trigger ch[i]] 0 <= i < 8 ==> ch[i].wf() && child_ok(center, size, ch[i], i)
}

/// Replacing one child by one that holds `p` as well adds `p` to the whole.
proof fn lemma_children_update(ch: Seq<OctreeNode>, i: int, c: OctreeNode, p: Point)
    requires
        ch.len() == 8,
        0 <= i < 8,
        c.contents() == ch[i].contents().insert(p),
    ensures
        children_contents(ch.update(i, c)) =~= children_contents(ch).insert(p),
{
    let u = ch.update(i, c);
    assert forall|q: Point| #[trigger]
        children_contents(u).count(q) == children_contents(ch).insert(p).count(q) by {
        if i == 0 {
        } else if i == 1 {
        } else if i == 2 {
        } else if i == 3 {
        } else if i == 4 {
        } else if i == 5 {
        } else if i == 6 {
        } else {
        }
    }
}

/// A point of the children's contents lies in the child of its octant alone.
proof fn lemma_routing(center: Point, size: u64, ch: Seq<OctreeNode>, q: Point)
    requires
        children_ok(center, size, ch),
    ensures
        0 <= octant_of(center, q) < 8,
        children_contents(ch).count(q) == ch[octant_of(center, q)].contents().count(q),
{
    let o = octant_of(center, q);
    assert forall|j: int| 0 <= j < 8 && j != o implies #[trigger] ch[j].contents().count(q) == 0 by {
        assert(child_ok(center, size, ch[j], j));
    }
}

impl OctreeNode {
    /// The structural invariant of a subtree: every cell fits in bounds, a
    /// cell at or below `MIN_CELL_SIZE` is a leaf, a larger cell holds no
    /// points of its own, and an internal cell has eight well-placed,
    /// well-formed children.
    pub open spec fn wf(self) -> bool
        decreases self,
    {
        &&& in_bounds(self.center, self.size)
        &&& match self.children {
            None => self.size > MIN_CELL_SIZE ==> self.points@.len() == 0,
            Some(ch) => {
                &&& self.size > MIN_CELL_SIZE
                &&& self.points@.len() == 0
                &&& ch.len() == 8
                &&& forall|i: int|
                    #![trigger ch[i]]
                    0 <= i < 8 ==> ch[i].wf() && child_ok(
                        self.center,
                        self.size,
                        ch[i],
                        i,
                    )
            },
        }
    }

    /// The points held in this subtree, with their multiplicities.
    pub open spec fn contents(self) -> Multiset<Point>
        decreases self,
    {
        match self.children {
            None => self.points@.to_multiset(),
            Some(ch) => if ch.len() == 8 {
                ch[0].contents().add(ch[1].contents()).add(ch[2].contents()).add(
                    ch[3].contents(),
                ).add(ch[4].contents()).add(ch[5].contents()).add(ch[6].contents()).add(
                    ch[7].contents(),
                )
            } else {
                Multiset::empty()
            },
        }
    }

    /// The node reached from this one by following the child indices of
    /// `path`, if each step finds a child.
    pub open spec fn node_at(self, path: Seq<int>) -> Option<OctreeNode>
        decreases path.len(),
    {
        if path.len() == 0 {
            Some(self)
        } else {
            match self.children {
                Some(ch) => if 0 <= path[0] < ch.len() {
                    ch[path[0]].node_at(path.drop_first())
                } else {
                    None
                },
                None => None,
            }
        }
    }

    pub fn new(center: Point, size: u64) -> (r: OctreeNode)
        requires
            in_bounds(center, size),
        ensures
            r.wf(),
            r.center == center,
            r.size == size,
            r.children is None,
            r.points@.len() == 0,
            r.contents() =~= Multiset::<Point>::empty(),
    {
        let r = OctreeNode { center, size, points: Vec::new(), children: None };
        proof {
            assert(r.points@ =~= Seq::<Point>::empty());
            assert(r.points@.to_multiset().len() == 0);
        }
        r
    }

    /// Index of the octant of this cell that holds `point`.
    pub fn get_octant(&self, point: Point) -> (r: usize)
        ensures
            r as int == octant_of(self.center, point),
            r < 8,
    {
        let x: usize = if point.x >= self.center.x { 1 } else { 0 };
        let y: usize = if point.y >= self.center.y { 1 } else { 0 };
        let z: usize = if point.z >= self.center.z { 1 } else { 0 };
        proof {
            assert(x <= 1 && y <= 1 && z <= 1 ==> (x << 2) | (y << 1) | z == x * 4 + y * 2 + z)
                by (bit_vector);
        }
        (x << 2) | (y << 1) | z
    }

    /// Center of this cell's child of index `octant`, for children of size
    /// `half`.
    fn octant_center(&self, half: u64, octant: usize) -> (r: Point)
        requires
            in_bounds(self.center, self.size),
            half == self.size / 2,
            octant < 8,
        ensures
            r == child_center(self.center, half as int, octant as int),
            in_bounds(r, half),
    {
        let h = half as i64;
        let x = if octant / 4 % 2 == 1 { self.center.x + h } else { self.center.x - h };
        let y = if octant / 2 % 2 == 1 { self.center.y + h } else { self.center.y - h };
        let z = if octant % 2 == 1 { self.center.z + h } else { self.center.z - h };
        Point { x, y, z }
    }

    /// Turns this leaf into an internal node: eight children, one per
    /// octant, each of half the size, and this leaf's points handed down to
    /// them.
    pub fn subdivide(&mut self)
        requires
            old(self).children is None,
            old(self).size > MIN_CELL_SIZE,
            in_bounds(old(self).center, old(self).size),
        ensures
            final(self).wf(),
            final(self).children is Some,
            final(self).center == old(self).center,
            final(self).size == old(self).size,
            final(self).contents() =~= old(self).contents(),
        decreases old(self).size, 0nat,
    {
        let half = self.size / 2;
        let mut children: Vec<OctreeNode> = Vec::new();
        let mut i: usize = 0;
        while i < 8
            invariant
                i <= 8,
                children@.len() == i,
                half == self.size / 2,
                in_bounds(self.center, self.size),
                forall|j: int|
                    #![trigger children@[j]]
                    0 <= j < i ==> children@[j].wf() && child_ok(
                        self.center,
                        self.size,
                        children@[j],
                        j,
                    ) && children@[j].contents() =~= Multiset::<Point>::empty(),
            decreases 8 - i,
        {
            let c = OctreeNode::new(self.octant_center(half, i), half);
            children.push(c);
            i += 1;
        }
        let mut k: usize = 0;
        proof {
            assert(children_contents(children@) =~= Multiset::<Point>::empty());
            assert(self.points@.subrange(0, 0) =~= Seq::<Point>::empty());
            assert(self.points@.subrange(0, 0).to_multiset().len() == 0);
        }
        while k < self.points.len()
            invariant
                k <= self.points@.len(),
                self.size > MIN_CELL_SIZE,
                children_ok(self.center, self.size, children@),
                children_contents(children@) =~= self.points@.subrange(0, k as int).to_multiset(),
            decreases self.points@.len() - k,
        {
            let p = self.points[k];
            let o = self.get_octant(p);
            let ghost before = children@;
            children[o].insert(p);
            proof {
                lemma_children_update(before, o as int, children@[o as int], p);
                assert(self.points@.subrange(0, k + 1) =~= self.points@.subrange(
                    0,
                    k as int,
                ).push(p));
            }
            k += 1;
        }
        proof {
            assert(self.points@.subrange(0, self.points@.len() as int) =~= self.points@);
        }
        self.points.clear();
        self.children = Some(children);
    }

    /// Adds `point` to this subtree. A cell at or below `MIN_CELL_SIZE` keeps
    /// it; a larger one subdivides if it has not yet and hands it to the
    /// child of its octant. Nothing is rejected; duplicates are kept.
    pub fn insert(&mut self, point: Point)
        requires
            old(self).wf(),
        ensures
            final(self).wf(),
            final(self).center == old(self).center,
            final(self).size == old(self).size,
            final(self).contents() =~= old(self).contents().insert(point),
        decreases old(self).size, 1nat,
    {
        if self.size <= MIN_CELL_SIZE {
            self.points.push(point);
            return;
        }
        if self.children.is_none() {
            self.subdivide();
        }
        let octant = self.get_octant(point);
        let mut ch = self.children.take().unwrap();
        let ghost before = ch@;
        ch[octant].insert(point);
        proof {
            lemma_children_update(before, octant as int, ch@[octant as int], point);
            assert(children_ok(self.center, self.size, ch@));
        }
        self.children = Some(ch);
    }

    /// Inserts each of `points`, in order.
    pub fn insert_all(&mut self, points: &Vec<Point>)
        requires
            old(self).wf(),
        ensures
            final(self).wf(),
            final(self).center == old(self).center,
            final(self).size == old(self).size,
            final(self).contents() =~= old(self).contents().add(points@.to_multiset()),
    {
        let mut k: usize = 0;
        proof {
            assert(points@.subrange(0, 0) =~= Seq::<Point>::empty());
            assert(points@.subrange(0, 0).to_multiset().len() == 0);
        }
        while k < points.len()
            invariant
                k <= points@.len(),
                self.wf(),
                self.center == old(self).center,
                self.size == old(self).size,
                self.contents() =~= old(self).contents().add(
                    points@.subrange(0, k as int).to_multiset(),
                ),
            decreases points@.len() - k,
        {
            let p = points[k];
            self.insert(p);
            proof {
                assert(points@.subrange(0, k + 1) =~= points@.subrange(0, k as int).push(p));
            }
            k += 1;
        }
        proof {
            assert(points@.subrange(0, points@.len() as int) =~= points@);
        }
    }

    /// The inserted point equal to `point`, if there is one. Only the cell
    /// of `point`'s octant is searched at each level.
    pub fn query_point(&self, point: Point) -> (r: Option<Point>)
        requires
            self.wf(),
        ensures
            r == lookup(self.contents(), point),
        decreases self.size,
    {
        if self.size <= MIN_CELL_SIZE {
            assert(self.children is None);
            let mut i: usize = 0;
            while i < self.points.len()
                invariant
                    i <= self.points@.len(),
                    self.children is None,
                    forall|j: int| 0 <= j < i ==> self.points@[j] != point,
                decreases self.points@.len() - i,
            {
                let p = self.points[i];
                if p.x == point.x && p.y == point.y && p.z == point.z {
                    proof {
                        assert(self.points@[i as int] == point);
                    }
                    return Some(p);
                }
                i += 1;
            }
            proof {
                assert(!self.points@.contains(point));
            }
            None
        } else {
            match &self.children {
                Some(children) => {
                    let octant = self.get_octant(point);
                    proof {
                        lemma_routing(self.center, self.size, children@, point);
                    }
                    children[octant].query_point(point)
                },
                None => None,
            }
        }
    }
}

} // verus!
