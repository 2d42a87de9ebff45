use vstd::prelude::*;

verus! {

/// The axis (0 for x, 1 for y, 2 for z) that a box counts as its longest, from
/// the keys by which its three side lengths are ordered: among the axes of
/// greatest length, the one with the highest number.
pub open spec fn spec_longest_axis(size_x: i64, size_y: i64, size_z: i64) -> i32 {
    let m = vstd::math::max3(size_x as int, size_y as int, size_z as int);
    if size_z == m {
        2
    } else if size_y == m {
        1
    } else {
        0
    }
}

/// The side length along axis `axis` (0 for x, 1 for y, 2 for z).
pub open spec fn side(size_x: i64, size_y: i64, size_z: i64, axis: i32) -> i64 {
    if axis == 0 {
        size_x
    } else if axis == 1 {
        size_y
    } else {
        size_z
    }
}

/// The axis that a box counts as its longest, from the keys by which its side
/// lengths along x, y and z are ordered. No side is longer than the chosen one.
pub fn longest_axis(size_x: i64, size_y: i64, size_z: i64) -> (r: i32)
    ensures
        r == spec_longest_axis(size_x, size_y, size_z),
        0 <= r < 3,
        side(size_x, size_y, size_z, r) >= size_x,
        side(size_x, size_y, size_z, r) >= size_y,
        side(size_x, size_y, size_z, r) >= size_z,
{
    if size_x > size_y {
        if size_x > size_z {
            0
        } else {
            2
        }
    } else {
        if size_y > size_z {
            1
        } else {
            2
        }
    }
}

} // verus!
