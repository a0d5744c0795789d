//! The bounds pass: a single linear scan over the vertex positions that
//! yields the per-axis minimum and maximum.
//!
//! Components are IEEE 754 single-precision bit patterns, and the ordering
//! used here is the IEEE `<` predicate itself, written out over the bit
//! patterns (sign, then magnitude; NaN compares under nothing, and the two
//! zeros are equal). A NaN component loses against any other value, so a
//! NaN never survives into the result unless every component of its axis
//! is NaN. Deriving the center, the extents and the scale factor from
//! these bounds is floating-point arithmetic, which this core does not
//! hold; it stays with the consumer that builds the transform.

use vstd::prelude::*;

use crate::mesh::Vec3Bits;

verus! {

/// The bit pattern of the largest finite single-precision value; the scan
/// starts its minima here.
pub const F32_MAX_BITS: u32 = 0x7F7F_FFFF;

/// The bit pattern of the smallest finite single-precision value (the
/// negative of the largest); the scan starts its maxima here.
pub const F32_MIN_BITS: u32 = 0xFF7F_FFFF;

/// A bit pattern whose magnitude exceeds the infinity pattern encodes NaN.
pub open spec fn f32b_is_nan(a: u32) -> bool {
    (a & 0x7FFF_FFFF) > 0x7F80_0000
}

/// The IEEE 754 `<` predicate on single-precision bit patterns: false
/// whenever either side is NaN; otherwise a negative number is below any
/// positive one (except that the two zeros are equal), and same-signed
/// values order by magnitude — which for these encodings is plain integer
/// order, reversed on the negative side.
pub open spec fn f32b_lt(a: u32, b: u32) -> bool {
    if f32b_is_nan(a) || f32b_is_nan(b) {
        false
    } else {
        let ma = a & 0x7FFF_FFFF;
        let mb = b & 0x7FFF_FFFF;
        if (a >> 31) != (b >> 31) {
            (a >> 31) == 1 && !(ma == 0 && mb == 0)
        } else if (a >> 31) == 0 {
            ma < mb
        } else {
            mb < ma
        }
    }
}

/// The smaller of two components: a NaN loses to the other side, and on a
/// tie (notably the two zeros) the accumulator side `b` is kept.
pub open spec fn f32b_min(a: u32, b: u32) -> u32 {
    if f32b_is_nan(a) {
        b
    } else if f32b_is_nan(b) {
        a
    } else if f32b_lt(a, b) {
        a
    } else {
        b
    }
}

/// The larger of two components, with the same NaN and tie policy.
pub open spec fn f32b_max(a: u32, b: u32) -> u32 {
    if f32b_is_nan(a) {
        b
    } else if f32b_is_nan(b) {
        a
    } else if f32b_lt(b, a) {
        a
    } else {
        b
    }
}

/// One axis of a position: 0 is x, 1 is y, anything else z.
pub open spec fn axis_of(v: Vec3Bits, a: int) -> u32 {
    if a == 0 {
        v.x
    } else if a == 1 {
        v.y
    } else {
        v.z
    }
}

/// The minimum of axis `a` over the first `n` positions, folded from the
/// largest finite value.
pub open spec fn fold_min(vs: Seq<Vec3Bits>, n: int, a: int) -> u32
    decreases n,
{
    if n <= 0 {
        F32_MAX_BITS
    } else {
        f32b_min(axis_of(vs[n - 1], a), fold_min(vs, n - 1, a))
    }
}

/// The maximum of axis `a` over the first `n` positions, folded from the
/// smallest finite value.
pub open spec fn fold_max(vs: Seq<Vec3Bits>, n: int, a: int) -> u32
    decreases n,
{
    if n <= 0 {
        F32_MIN_BITS
    } else {
        f32b_max(axis_of(vs[n - 1], a), fold_max(vs, n - 1, a))
    }
}

/// The axis-aligned bounding box of a vertex list. With no vertices it
/// degenerates to the fold bases (minima above maxima) — callers guard
/// against empty meshes, as the scan itself cannot name a box for them.
#[derive(Clone, Copy, Debug, PartialEq, Eq, Structural)]
pub struct Bounds {
    pub min: Vec3Bits,
    pub max: Vec3Bits,
}

fn is_nan_bits(a: u32) -> (r: bool)
    ensures
        r == f32b_is_nan(a),
{
    (a & 0x7FFF_FFFF) > 0x7F80_0000
}

/// Compares two components under the IEEE `<` predicate.
pub fn f32_lt(a: u32, b: u32) -> (r: bool)
    ensures
        r == f32b_lt(a, b),
{
    if is_nan_bits(a) || is_nan_bits(b) {
        false
    } else {
        let ma = a & 0x7FFF_FFFF;
        let mb = b & 0x7FFF_FFFF;
        if (a >> 31) != (b >> 31) {
            (a >> 31) == 1 && !(ma == 0 && mb == 0)
        } else if (a >> 31) == 0 {
            ma < mb
        } else {
            mb < ma
        }
    }
}

fn min2(a: u32, b: u32) -> (r: u32)
    ensures
        r == f32b_min(a, b),
{
    if is_nan_bits(a) {
        b
    } else if is_nan_bits(b) {
        a
    } else if f32_lt(a, b) {
        a
    } else {
        b
    }
}

fn max2(a: u32, b: u32) -> (r: u32)
    ensures
        r == f32b_max(a, b),
{
    if is_nan_bits(a) {
        b
    } else if is_nan_bits(b) {
        a
    } else if f32_lt(b, a) {
        a
    } else {
        b
    }
}

/// Scans the vertex list once and returns the per-axis minima and maxima,
/// exactly the folds `fold_min` and `fold_max` over the whole list.
#[verifier::loop_isolation(false)]
pub fn calculate_model_bounds(vertices: &Vec<Vec3Bits>) -> (r: Bounds)
    ensures
        r.min.x == fold_min(vertices@, vertices@.len() as int, 0),
        r.min.y == fold_min(vertices@, vertices@.len() as int, 1),
        r.min.z == fold_min(vertices@, vertices@.len() as int, 2),
        r.max.x == fold_max(vertices@, vertices@.len() as int, 0),
        r.max.y == fold_max(vertices@, vertices@.len() as int, 1),
        r.max.z == fold_max(vertices@, vertices@.len() as int, 2),
{
    let mut min_x: u32 = F32_MAX_BITS;
    let mut min_y: u32 = F32_MAX_BITS;
    let mut min_z: u32 = F32_MAX_BITS;
    let mut max_x: u32 = F32_MIN_BITS;
    let mut max_y: u32 = F32_MIN_BITS;
    let mut max_z: u32 = F32_MIN_BITS;
    let n: usize = vertices.len();
    let mut i: usize = 0;
    while i < n
        invariant
            i <= n,
            min_x == fold_min(vertices@, i as int, 0),
            min_y == fold_min(vertices@, i as int, 1),
            min_z == fold_min(vertices@, i as int, 2),
            max_x == fold_max(vertices@, i as int, 0),
            max_y == fold_max(vertices@, i as int, 1),
            max_z == fold_max(vertices@, i as int, 2),
        decreases n - i,
    {
        let v = vertices[i];
        min_x = min2(v.x, min_x);
        min_y = min2(v.y, min_y);
        min_z = min2(v.z, min_z);
        max_x = max2(v.x, max_x);
        max_y = max2(v.y, max_y);
        max_z = max2(v.z, max_z);
        i += 1;
    }
    Bounds {
        min: Vec3Bits { x: min_x, y: min_y, z: min_z },
        max: Vec3Bits { x: max_x, y: max_y, z: max_z },
    }
}

} // verus!
