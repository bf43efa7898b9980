//! Positions in the raster and the random stream that each pixel draws from.
//!
//! Pixels are numbered in row-major order from the top-left corner, which is
//! also the order in which the image is written. Each pixel seeds its own
//! random generator from the render's seed and its number, so that pixels
//! can be computed in parallel, in any order, and the image still depends on
//! nothing but the scene, the camera and the render's seed.
use vstd::prelude::*;

verus! {

/// Number of `u64` values.
pub open spec fn u64_count() -> int {
    0x1_0000_0000_0000_0000
}

/// Row-major number of the pixel in column `i` of row `j`.
pub open spec fn pixel_number(i: nat, j: nat, width: nat) -> nat {
    j * width + i
}

/// Seed of the random stream of the pixel numbered `n` in a render seeded with `base`.
pub open spec fn stream_seed(base: u64, n: nat) -> u64 {
    ((base as int + n) % u64_count()) as u64
}

/// Seed of the random stream of the pixel in column `i` of row `j` of an
/// image `width` pixels wide, in a render seeded with `base`.
pub fn pixel_seed(base: u64, i: usize, j: usize, width: usize) -> (r: u64)
    requires
        i < width,
        pixel_number(i as nat, j as nat, width as nat) < u64_count(),
    ensures
        r == stream_seed(base, pixel_number(i as nat, j as nat, width as nat)),
{
    proof {
        assert(j as int * width as int <= pixel_number(i as nat, j as nat, width as nat))
            by (nonlinear_arith)
            requires
                i >= 0,
        ;
    }
    let n: u64 = (j as u64) * (width as u64) + (i as u64);
    base.wrapping_add(n)
}

/// Distinct pixels of an image of at most `2^64` pixels draw from distinct
/// random streams.
pub proof fn lemma_pixel_seeds_distinct(
    base: u64,
    width: nat,
    height: nat,
    i1: nat,
    j1: nat,
    i2: nat,
    j2: nat,
)
    requires
        width * height <= u64_count(),
        i1 < width,
        i2 < width,
        j1 < height,
        j2 < height,
        i1 != i2 || j1 != j2,
    ensures
        stream_seed(base, pixel_number(i1, j1, width)) != stream_seed(
            base,
            pixel_number(i2, j2, width),
        ),
{
    lemma_pixel_number_in_image(i1, j1, width, height);
    lemma_pixel_number_in_image(i2, j2, width, height);
    lemma_pixel_numbers_distinct(i1, j1, i2, j2, width);
    let n1 = pixel_number(i1, j1, width);
    let n2 = pixel_number(i2, j2, width);
    let m = u64_count();
    let b = base as int;
    if b + n1 < m && b + n2 < m {
    } else if b + n1 >= m && b + n2 >= m {
    } else {
        assert((b + n1) % m != (b + n2) % m);
    }
}

proof fn lemma_pixel_number_in_image(i: nat, j: nat, width: nat, height: nat)
    requires
        i < width,
        j < height,
    ensures
        pixel_number(i, j, width) < width * height,
{
    assert(j * width + i < width * height) by (nonlinear_arith)
        requires
            i < width,
            j < height,
    ;
}

proof fn lemma_pixel_numbers_distinct(i1: nat, j1: nat, i2: nat, j2: nat, width: nat)
    requires
        i1 < width,
        i2 < width,
        i1 != i2 || j1 != j2,
    ensures
        pixel_number(i1, j1, width) != pixel_number(i2, j2, width),
{
    if j1 < j2 {
        assert(j1 * width + i1 < j2 * width + i2) by (nonlinear_arith)
            requires
                i1 < width,
                j1 < j2,
        ;
    } else if j2 < j1 {
        assert(j2 * width + i2 < j1 * width + i1) by (nonlinear_arith)
            requires
                i2 < width,
                j2 < j1,
        ;
    }
}

} // verus!
