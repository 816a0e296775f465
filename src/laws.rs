use vstd::prelude::*;
use vstd::multiset::Multiset;
use vstd::arithmetic::power2::{pow2, lemma_pow2_pos, lemma_pow2_unfold};
use vstd::arithmetic::div_mod::lemma_div_denominator;
use crate::point::{Point, octant_of, child_center, in_bounds};
use crate::node::{OctreeNode, MIN_CELL_SIZE, lookup};

verus! {

broadcast use vstd::seq_lib::group_to_multiset_ensures;

/// Once `p` has been inserted, a lookup of `p` finds a point equal to `p`,
/// and the lookup of every other point answers as it did before.
pub proof fn lemma_query_after_insert(before: OctreeNode, after: OctreeNode, p: Point, q: Point)
    requires
        after.contents() == before.contents().insert(p),
    ensures
        lookup(after.contents(), p) == Some(p),
        q != p ==> lookup(after.contents(), q) == lookup(before.contents(), q),
{
}

/// A point that is not among the inserted ones is not found.
pub proof fn lemma_never_inserted_not_found(inserted: Seq<Point>, q: Point)
    requires
        !inserted.contains(q),
    ensures
        lookup(inserted.to_multiset(), q) is None,
{
}

/// Inserting the same point twice keeps both copies, still finds the point,
/// and leaves every lookup answering as after the first insertion.
pub proof fn lemma_reinsert(before: OctreeNode, once: OctreeNode, twice: OctreeNode, p: Point)
    requires
        once.contents() == before.contents().insert(p),
        twice.contents() == once.contents().insert(p),
    ensures
        twice.contents().count(p) == before.contents().count(p) + 2,
        lookup(twice.contents(), p) == Some(p),
        forall|q: Point| #[trigger] lookup(twice.contents(), q) == lookup(once.contents(), q),
{
}

/// The child of index `octant` of a cell lies in that octant of the cell.
proof fn lemma_child_octant(center: Point, size: u64, octant: int)
    requires
        in_bounds(center, size),
        size > MIN_CELL_SIZE,
        0 <= octant < 8,
    ensures
        octant_of(center, child_center(center, (size / 2) as int, octant)) == octant,
{
}

/// The eight children of an internal node sit each at half the node's size
/// away from its center on every axis, up where the bit of its index for
/// that axis is set and down where it is not; classifying a child's center
/// gives back its index, so the eight centers are pairwise distinct.
pub proof fn lemma_octant_bijection(node: OctreeNode)
    requires
        node.wf(),
        node.children is Some,
    ensures
        ({
            let ch = node.children.unwrap()@;
            let half = node.size / 2;
            &&& ch.len() == 8
            &&& half > 0
            &&& forall|i: int|
                #![trigger ch[i]]
                0 <= i < 8 ==> {
                    &&& ch[i].size == half
                    &&& ch[i].center.x == node.center.x + (if i / 4 % 2 == 1 {
                        half as int
                    } else {
                        -half
                    })
                    &&& ch[i].center.y == node.center.y + (if i / 2 % 2 == 1 {
                        half as int
                    } else {
                        -half
                    })
                    &&& ch[i].center.z == node.center.z + (if i % 2 == 1 {
                        half as int
                    } else {
                        -half
                    })
                    &&& octant_of(node.center, ch[i].center) == i
                }
            &&& forall|i: int, j: int|
                0 <= i < 8 && 0 <= j < 8 && i != j ==> #[trigger] ch[i].center
                    != #[trigger] ch[j].center
        }),
{
    let ch = node.children.unwrap()@;
    assert forall|i: int| 0 <= i < 8 implies octant_of(node.center, #[trigger] ch[i].center)
        == i by {
        lemma_child_octant(node.center, node.size, i);
    }
}

/// Along every path from a well-formed root, the node at depth `d` has the
/// root's size divided by `2^d` (rounded down at each halving), every node
/// above it is larger than `MIN_CELL_SIZE`, and a node at or below that size
/// is a leaf: subdivision stops at the first depth where the size reaches
/// it.
pub proof fn lemma_depth(root: OctreeNode, path: Seq<int>)
    requires
        root.wf(),
        root.node_at(path) is Some,
    ensures
        ({
            let n = root.node_at(path).unwrap();
            &&& n.wf()
            &&& n.size == root.size as int / pow2(path.len()) as int
            &&& n.size <= MIN_CELL_SIZE ==> n.children is None
        }),
        forall|k: int|
            0 <= k < path.len() ==> {
                &&& #[trigger] root.node_at(path.take(k)) is Some
                &&& root.node_at(path.take(k)).unwrap().size > MIN_CELL_SIZE
            },
    decreases path.len(),
{
    if path.len() == 0 {
        assert(pow2(0) == 1) by {
            vstd::arithmetic::power2::lemma2_to64();
        }
    } else {
        let ch = root.children.unwrap()@;
        let c = ch[path[0]];
        let rest = path.drop_first();
        assert(c.wf());
        lemma_depth(c, rest);
        lemma_pow2_unfold(path.len());
        lemma_pow2_pos(rest.len());
        lemma_div_denominator(root.size as int, 2, pow2(rest.len()) as int);
        assert forall|k: int| 0 <= k < path.len() implies {
            &&& #[trigger] root.node_at(path.take(k)) is Some
            &&& root.node_at(path.take(k)).unwrap().size > MIN_CELL_SIZE
        } by {
            if k == 0 {
                assert(path.take(0) =~= Seq::<int>::empty());
            } else {
                assert(path.take(k).drop_first() =~= rest.take(k - 1));
                assert(path.take(k)[0] == path[0]);
                assert(c.node_at(rest.take(k - 1)) is Some);
            }
        }
    }
}

} // verus!
