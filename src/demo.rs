use vstd::prelude::*;
use rand::Rng;
use crate::point::{Point, STEPS_PER_UNIT};
use crate::node::OctreeNode;

verus! {

/// Edge length of the demonstration tree's root, centered at the origin:
/// 10 units.
pub const DEMO_ROOT_SIZE: u64 = 100_000;

/// Relies on rand::thread_rng and rand::Rng::gen_range: a value drawn from
/// the half-open range `0..bound`. gen_range panics on an empty range.
#[verifier::external_body]
fn random_below(bound: u32) -> (r: u32)
    requires
        bound > 0,
    ensures
        r < bound,
{
    rand::thread_rng().gen_range(0..bound)
}

/// The point the demonstration looks for: (0.444 n, 0.666 n, 0.888 n) units.
pub open spec fn probe_spec(n: u32) -> Point {
    Point { x: (4440 * n) as i64, y: (6660 * n) as i64, z: (8880 * n) as i64 }
}

pub fn probe_point(n: u32) -> (r: Point)
    ensures
        r == probe_spec(n),
{
    let n = n as i64;
    Point { x: 4440 * n, y: 6660 * n, z: 8880 * n }
}

/// Inserts `points` and then `probe` into a fresh tree of the demonstration's
/// size, and looks `probe` up, which finds it.
pub fn demo_lookup(points: &Vec<Point>, probe: Point) -> (r: Option<Point>)
    ensures
        r == Some(probe),
{
    let mut root = OctreeNode::new(Point::new(0, 0, 0), DEMO_ROOT_SIZE);
    root.insert_all(points);
    root.insert(probe);
    root.query_point(probe)
}

/// Fills a tree with `n` random points, each coordinate a whole number of
/// units in `0..n`, then inserts the probe point and looks it up.
pub fn run_demo(n: u32) -> (r: Option<Point>)
    ensures
        r == Some(probe_spec(n)),
{
    let mut points: Vec<Point> = Vec::new();
    let mut i: u32 = 0;
    while i < n
        invariant
            i <= n,
        decreases n - i,
    {
        let x = random_below(n) as i64 * STEPS_PER_UNIT;
        let y = random_below(n) as i64 * STEPS_PER_UNIT;
        let z = random_below(n) as i64 * STEPS_PER_UNIT;
        points.push(Point::new(x, y, z));
        i += 1;
    }
    demo_lookup(&points, probe_point(n))
}

} // verus!
