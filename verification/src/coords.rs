//! World-to-region coordinate partitioning and the Chebyshev metric.

use vstd::arithmetic::div_mod::{
    lemma_div_nonincreasing, lemma_fundamental_div_mod, lemma_fundamental_div_mod_converse,
    lemma_mod_division_less_than_divisor,
};
use vstd::prelude::*;

verus! {

/// A region (chunk) coordinate in the horizontal plane. The world is
/// partitioned into square columns of `region_size` x `region_size` blocks;
/// the region holding world column `(wx, wz)` has coordinate
/// `(floor(wx / region_size), floor(wz / region_size))`.
#[derive(Clone, Copy, PartialEq, Eq, Hash, Debug, Structural)]
pub struct RegionCoord {
    pub x: i64,
    pub z: i64,
}

/// Region index of a world coordinate: floor division by the region size.
/// For a positive divisor, mathematical integer division rounds toward
/// negative infinity, so this is total over the whole signed domain and
/// needs no special case for negative coordinates.
pub open spec fn spec_region_index(w: int, size: int) -> int {
    w / size
}

/// Local offset of a world coordinate within its region, in `[0, size)`.
pub open spec fn spec_local_index(w: int, size: int) -> int {
    w % size
}

/// Floor division of a world coordinate by the region size, computed over
/// unsigned magnitudes so that every `i64` input is accepted.
pub fn region_index(w: i64, size: u16) -> (r: i64)
    requires
        1 <= size,
    ensures
        r == spec_region_index(w as int, size as int),
{
    let s = size as u64;
    if w >= 0 {
        let wu = w as u64;
        let q = wu / s;
        proof {
            lemma_fundamental_div_mod(wu as int, s as int);
            lemma_div_nonincreasing(wu as int, s as int);
            lemma_fundamental_div_mod_converse(
                w as int,
                s as int,
                q as int,
                (wu % s) as int,
            );
        }
        q as i64
    } else {
        let n = (-(w + 1)) as u64;
        let qn = n / s;
        let rem = n % s;
        proof {
            lemma_fundamental_div_mod(n as int, s as int);
            lemma_mod_division_less_than_divisor(n as int, s as int);
            lemma_div_nonincreasing(n as int, s as int);
            assert(w as int == (-(qn as int) - 1) * (s as int) + (s as int - 1 - rem as int))
                by (nonlinear_arith)
                requires
                    n as int == s as int * (qn as int) + rem as int,
                    w as int == -(n as int) - 1,
            ;
            lemma_fundamental_div_mod_converse(
                w as int,
                s as int,
                -(qn as int) - 1,
                s as int - 1 - rem as int,
            );
        }
        -(qn as i64) - 1
    }
}

/// Local offset of a world coordinate within its region.
pub fn local_index(w: i64, size: u16) -> (r: u16)
    requires
        1 <= size,
    ensures
        r == spec_local_index(w as int, size as int),
        r < size,
{
    let s = size as u64;
    if w >= 0 {
        let wu = w as u64;
        proof {
            lemma_fundamental_div_mod(wu as int, s as int);
            lemma_fundamental_div_mod_converse(
                w as int,
                s as int,
                (wu / s) as int,
                (wu % s) as int,
            );
        }
        (wu % s) as u16
    } else {
        let n = (-(w + 1)) as u64;
        let qn = n / s;
        let rem = n % s;
        proof {
            lemma_fundamental_div_mod(n as int, s as int);
            lemma_mod_division_less_than_divisor(n as int, s as int);
            lemma_div_nonincreasing(n as int, s as int);
            assert(w as int == (-(qn as int) - 1) * (s as int) + (s as int - 1 - rem as int))
                by (nonlinear_arith)
                requires
                    n as int == s as int * (qn as int) + rem as int,
                    w as int == -(n as int) - 1,
            ;
            lemma_fundamental_div_mod_converse(
                w as int,
                s as int,
                -(qn as int) - 1,
                s as int - 1 - rem as int,
            );
        }
        (s - 1 - rem) as u16
    }
}

/// The region coordinate of a world block column.
pub fn region_of(wx: i64, wz: i64, size: u16) -> (c: RegionCoord)
    requires
        1 <= size,
    ensures
        c.x == spec_region_index(wx as int, size as int),
        c.z == spec_region_index(wz as int, size as int),
{
    RegionCoord { x: region_index(wx, size), z: region_index(wz, size) }
}

/// Partition totality: for every world coordinate `w` (negative components
/// included) and positive region size, `w` decomposes as
/// `region * size + local` with `local` in `[0, size)`, and that
/// decomposition is the only one — `w` falls within the local bounds of
/// exactly one region.
pub proof fn lemma_partition_totality(w: int, size: int)
    requires
        1 <= size,
    ensures
        w == size * spec_region_index(w, size) + spec_local_index(w, size),
        0 <= spec_local_index(w, size) < size,
        forall|r: int|
            0 <= w - #[trigger] (r * size) < size ==> r == spec_region_index(w, size)
                && w - r * size == spec_local_index(w, size),
{
    lemma_fundamental_div_mod(w, size);
    assert forall|r: int|
        0 <= w - #[trigger] (r * size) < size implies r == spec_region_index(w, size)
        && w - r * size == spec_local_index(w, size) by {
        lemma_fundamental_div_mod_converse(w, size, r, w - r * size);
    }
}

/// Absolute difference of two integers.
pub open spec fn spec_abs_diff(a: int, b: int) -> int {
    if a >= b {
        a - b
    } else {
        b - a
    }
}

/// Chebyshev distance between two region coordinates: the canonical
/// "within N regions in each direction" metric.
pub open spec fn spec_chebyshev(a: RegionCoord, b: RegionCoord) -> int {
    let dx = spec_abs_diff(a.x as int, b.x as int);
    let dz = spec_abs_diff(a.z as int, b.z as int);
    if dx >= dz {
        dx
    } else {
        dz
    }
}

fn abs_diff_i64(a: i64, b: i64) -> (d: u64)
    ensures
        d == spec_abs_diff(a as int, b as int),
{
    if a >= b {
        (a as i128 - b as i128) as u64
    } else {
        (b as i128 - a as i128) as u64
    }
}

/// Chebyshev distance, exact for every pair of coordinates.
pub fn chebyshev(a: RegionCoord, b: RegionCoord) -> (d: u64)
    ensures
        d == spec_chebyshev(a, b),
{
    let dx = abs_diff_i64(a.x, b.x);
    let dz = abs_diff_i64(a.z, b.z);
    if dx >= dz {
        dx
    } else {
        dz
    }
}

/// Whether `c` lies within Chebyshev distance `radius` of `o`.
pub open spec fn spec_within(c: RegionCoord, o: RegionCoord, radius: int) -> bool {
    spec_chebyshev(c, o) <= radius
}

/// Radius test used by the streaming decisions.
pub fn within(c: RegionCoord, o: RegionCoord, radius: u32) -> (r: bool)
    ensures
        r == spec_within(c, o, radius as int),
{
    chebyshev(c, o) <= radius as u64
}

} // verus!
