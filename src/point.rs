use vstd::prelude::*;

verus! {

/// Fixed-point steps to one unit of length.
pub const STEPS_PER_UNIT: i64 = 10_000;

/// A point in space, each coordinate in steps of `1 / STEPS_PER_UNIT`.
/// Two points are equal exactly when all three coordinates are.
#[derive(Clone, Copy, Debug, PartialEq, Eq, Structural)]
pub struct Point {
    pub x: i64,
    pub y: i64,
    pub z: i64,
}

impl Point {
    pub fn new(x: i64, y: i64, z: i64) -> (r: Point)
        ensures
            r == (Point { x, y, z }),
    {
        Point { x, y, z }
    }
}

/// Index in `0..8` of the octant around `center` that holds `p`: bit 2 for
/// x, bit 1 for y, bit 0 for z, each set when the coordinate is at or above
/// the center's.
pub open spec fn octant_of(center: Point, p: Point) -> int {
    (if p.x >= center.x { 4int } else { 0int }) + (if p.y >= center.y { 2int } else { 0int }) + (
    if p.z >= center.z {
        1int
    } else {
        0int
    })
}

/// The coordinate `c` moved by `half` up when `up` holds, else down.
pub open spec fn shifted(c: i64, half: int, up: bool) -> i64 {
    if up {
        (c + half) as i64
    } else {
        (c - half) as i64
    }
}

/// Center of the child cell of index `octant` of a cell centered at `center`
/// whose children have size `half`: each axis moves by `half`, upwards where
/// the octant's bit for that axis is set.
pub open spec fn child_center(center: Point, half: int, octant: int) -> Point {
    Point {
        x: shifted(center.x, half, octant / 4 % 2 == 1),
        y: shifted(center.y, half, octant / 2 % 2 == 1),
        z: shifted(center.z, half, octant % 2 == 1),
    }
}

/// A cell of the given center and size whose children's centers, and
/// theirs in turn, all fit in `i64`.
pub open spec fn in_bounds(center: Point, size: u64) -> bool {
    &&& i64::MIN <= center.x - size && center.x + size <= i64::MAX
    &&& i64::MIN <= center.y - size && center.y + size <= i64::MAX
    &&& i64::MIN <= center.z - size && center.z + size <= i64::MAX
}

} // verus!
