//! The integer side of the CPU renderer that checks the GPU path: 3D LUT table indexing and
//! tracing statistics.
use vstd::prelude::*;

verus! {

/// Where the RGB triple of LUT grid point `(r, g, b)` starts in a table of side `size`
/// (red varies fastest, then green, then blue).
pub open spec fn lut_index(size: int, r: int, g: int, b: int) -> int {
    ((b * size + g) * size + r) * 3
}

/// The table position of grid point `(r, g, b)` in a LUT of side `size`.
pub fn index(size: usize, r: usize, g: usize, b: usize) -> (i: usize)
    requires
        lut_index(size as int, r as int, g as int, b as int) <= usize::MAX,
    ensures
        i == lut_index(size as int, r as int, g as int, b as int),
{
    assert(b * size <= b * size + g <= (b * size + g) * size + r || size == 0) by (nonlinear_arith)
        requires
            lut_index(size as int, r as int, g as int, b as int) <= usize::MAX,
    ;
    assert(b * size + g <= ((b * size + g) * size + r) * 3 || size == 0) by (nonlinear_arith);
    assert((b * size + g) * size <= ((b * size + g) * size + r) * 3) by (nonlinear_arith);
    assert(b * size <= ((b * size + g) * size + r) * 3) by (nonlinear_arith);
    ((b * size + g) * size + r) * 3
}

/// Every grid point of a LUT of side `size` has its own triple, inside the table of
/// `size³` triples.
pub proof fn lemma_lut_index_in_table(size: int, r: int, g: int, b: int)
    requires
        0 <= r < size,
        0 <= g < size,
        0 <= b < size,
    ensures
        0 <= lut_index(size, r, g, b),
        lut_index(size, r, g, b) + 3 <= size * size * size * 3,
        lut_index(size, r, g, b) % 3 == 0,
{
    assert(0 <= (b * size + g) * size + r) by (nonlinear_arith)
        requires
            0 <= r < size,
            0 <= g < size,
            0 <= b < size,
    ;
    assert((b * size + g) * size + r + 1 <= size * size * size) by (nonlinear_arith)
        requires
            0 <= r < size,
            0 <= g < size,
            0 <= b < size,
    ;
}

/// Distinct grid points of a LUT have distinct table positions.
pub proof fn lemma_lut_index_distinct(size: int, r1: int, g1: int, b1: int, r2: int, g2: int, b2: int)
    requires
        0 <= r1 < size,
        0 <= g1 < size,
        0 <= b1 < size,
        0 <= r2 < size,
        0 <= g2 < size,
        0 <= b2 < size,
        lut_index(size, r1, g1, b1) == lut_index(size, r2, g2, b2),
    ensures
        r1 == r2 && g1 == g2 && b1 == b2,
{
    let c1 = b1 * size + g1;
    let c2 = b2 * size + g2;
    assert(c1 * size + r1 == c2 * size + r2);
    assert(c1 == c2 && r1 == r2) by (nonlinear_arith)
        requires
            c1 * size + r1 == c2 * size + r2,
            0 <= r1 < size,
            0 <= r2 < size,
            c1 >= 0,
            c2 >= 0,
    ;
    assert(b1 == b2 && g1 == g2) by (nonlinear_arith)
        requires
            b1 * size + g1 == b2 * size + g2,
            0 <= g1 < size,
            0 <= g2 < size,
            b1 >= 0,
            b2 >= 0,
    ;
}

/// Counts kept while tracing a frame.
#[derive(Default, Clone, Copy, Debug)]
pub struct Stats {
    pub rays: u64,
    pub steps: u64,
    pub sphere_steps: u64,
    pub group_checks: u64,
    pub triangle_measures: u64,
}

impl Stats {
    /// Adds another tracer's counts to these, field by field.
    pub fn add(&mut self, o: &Stats)
        requires
            old(self).rays + o.rays <= u64::MAX,
            old(self).steps + o.steps <= u64::MAX,
            old(self).sphere_steps + o.sphere_steps <= u64::MAX,
            old(self).group_checks + o.group_checks <= u64::MAX,
            old(self).triangle_measures + o.triangle_measures <= u64::MAX,
        ensures
            final(self).rays == old(self).rays + o.rays,
            final(self).steps == old(self).steps + o.steps,
            final(self).sphere_steps == old(self).sphere_steps + o.sphere_steps,
            final(self).group_checks == old(self).group_checks + o.group_checks,
            final(self).triangle_measures == old(self).triangle_measures + o.triangle_measures,
    {
        self.rays += o.rays;
        self.steps += o.steps;
        self.sphere_steps += o.sphere_steps;
        self.group_checks += o.group_checks;
        self.triangle_measures += o.triangle_measures;
    }
}

} // verus!
