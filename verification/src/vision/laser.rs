//! Finding the spot of a red laser on a raster.

use vstd::arithmetic::div_mod::lemma_fundamental_div_mod_converse;
use vstd::prelude::*;

use crate::vision::raster::{Raster, RasterView};

verus! {

/// A pixel counts as lit by the laser when its red channel is above this.
pub const LASER_RED_THRESHOLD: u8 = 245;

/// Fewer lit pixels than this are taken for noise.
pub const LASER_MIN_PIXELS: u64 = 10;

/// The centre of a set of pixels, kept exactly: the sums of their columns and
/// of their rows, and how many they are. The centre lies at
/// `(sum_x / count, sum_y / count)`.
#[derive(Clone, Copy, Debug, PartialEq, Eq, Structural)]
pub struct Centroid {
    pub sum_x: u128,
    pub sum_y: u128,
    pub count: u64,
}

impl Centroid {
    /// A centroid is taken over at least one pixel.
    pub open spec fn wf(self) -> bool {
        self.count > 0
    }

    /// Column of the centre, rounded down to a whole pixel.
    pub fn pixel_x(&self) -> (x: u128)
        requires
            self.wf(),
        ensures
            x == self.sum_x / (self.count as u128),
    {
        self.sum_x / (self.count as u128)
    }

    /// Row of the centre, rounded down to a whole pixel.
    pub fn pixel_y(&self) -> (y: u128)
        requires
            self.wf(),
        ensures
            y == self.sum_y / (self.count as u128),
    {
        self.sum_y / (self.count as u128)
    }
}

/// The `k`-th pixel in row-major order is lit.
pub open spec fn is_lit(img: RasterView, k: int) -> bool {
    img.red_at(k) > LASER_RED_THRESHOLD
}

/// How many of the first `n` pixels are lit.
pub open spec fn lit_count(img: RasterView, n: nat) -> nat
    decreases n,
{
    if n == 0 {
        0
    } else {
        lit_count(img, (n - 1) as nat) + if is_lit(img, n - 1) {
            1nat
        } else {
            0nat
        }
    }
}

/// Sum of the columns of the lit pixels among the first `n`.
pub open spec fn lit_sum_x(img: RasterView, n: nat) -> nat
    decreases n,
{
    if n == 0 {
        0
    } else {
        lit_sum_x(img, (n - 1) as nat) + if is_lit(img, n - 1) {
            ((n - 1) % (img.width as int)) as nat
        } else {
            0nat
        }
    }
}

/// Sum of the rows of the lit pixels among the first `n`.
pub open spec fn lit_sum_y(img: RasterView, n: nat) -> nat
    decreases n,
{
    if n == 0 {
        0
    } else {
        lit_sum_y(img, (n - 1) as nat) + if is_lit(img, n - 1) {
            ((n - 1) / (img.width as int)) as nat
        } else {
            0nat
        }
    }
}

/// Where the laser is on `img`: the centroid of the lit pixels when there are
/// enough of them, nothing otherwise.
pub open spec fn laser_centroid(img: RasterView) -> Option<Centroid> {
    let n = img.pixels();
    if lit_count(img, n) >= LASER_MIN_PIXELS {
        Some(
            Centroid {
                sum_x: lit_sum_x(img, n) as u128,
                sum_y: lit_sum_y(img, n) as u128,
                count: lit_count(img, n) as u64,
            },
        )
    } else {
        None
    }
}

/// Looks for the laser spot on `img`.
pub fn find_red_laser(img: &Raster) -> (found: Option<Centroid>)
    ensures
        found == laser_centroid(img@),
        found matches Some(c) ==> c.wf(),
{
    let (w, h) = img.dimensions();
    let data = img.as_raw();
    let n: usize = data.len() / 3;
    let ghost v = img@;
    let mut count: u64 = 0;
    let mut sum_x: u128 = 0;
    let mut sum_y: u128 = 0;
    let mut k: usize = 0;
    let mut x: u32 = 0;
    let mut y: u32 = 0;
    assert(0 * (w as int) == 0) by (nonlinear_arith);
    while k < n
        invariant
            v == img@,
            v.wf(),
            data@ == v.data,
            w == v.width,
            h == v.height,
            n == v.width * v.height,
            3 * n == data@.len() <= usize::MAX,
            k <= n,
            k == y * w + x,
            w > 0 ==> x < w,
            count == lit_count(v, k as nat),
            sum_x == lit_sum_x(v, k as nat),
            sum_y == lit_sum_y(v, k as nat),
            count <= k,
            sum_x <= k * 0x1_0000_0000,
            sum_y <= k * 0x1_0000_0000,
        decreases n - k,
    {
        proof {
            assert(w > 0) by (nonlinear_arith)
                requires
                    k < w * h,
                    k >= 0,
                    w >= 0,
                    h >= 0,
            ;
            lemma_fundamental_div_mod_converse(k as int, w as int, y as int, x as int);
            assert(y < h) by (nonlinear_arith)
                requires
                    y * w + x < w * h,
                    x >= 0,
                    w > 0,
            ;
        }
        let red = data[3 * k];
        if red > LASER_RED_THRESHOLD {
            count = count + 1;
            sum_x = sum_x + (x as u128);
            sum_y = sum_y + (y as u128);
        }
        k = k + 1;
        x = x + 1;
        if x == w {
            x = 0;
            y = y + 1;
        }
        assert(k == y * w + x) by (nonlinear_arith)
            requires
                x == 0 ==> k == (y - 1) * w + w,
                x != 0 ==> k == y * w + x,
        ;
    }
    if count >= LASER_MIN_PIXELS {
        Some(Centroid { sum_x, sum_y, count })
    } else {
        None
    }
}

} // verus!
