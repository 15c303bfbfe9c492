//! Cutting a region out of a raster.

use vstd::prelude::*;
use vstd::slice::slice_subrange;

use crate::bus::Stencil;
use crate::vision::raster::{lemma_index_in_grid, Raster, RasterView};

verus! {

/// What a stencil counts its fractions in: ten-thousandths.
pub const STENCIL_UNIT: u32 = 10_000;

/// A stencil is usable when its left edge is not right of its right edge,
/// its top not below its bottom, and none of them outside the image.
pub open spec fn stencil_ok(stencil: Stencil) -> bool {
    stencil.0 <= stencil.2 <= STENCIL_UNIT && stencil.1 <= stencil.3 <= STENCIL_UNIT
}

/// The fraction `part` of `length`, rounded down to whole pixels.
pub open spec fn scaled(part: u32, length: nat) -> nat {
    (part * length / (STENCIL_UNIT as int)) as nat
}

/// The rows `y .. y + n` of `img`, each cut to the columns `x .. x + width`,
/// from top to bottom.
pub open spec fn region_rows(img: RasterView, x: nat, y: nat, width: nat, n: nat) -> Seq<u8>
    decreases n,
{
    if n == 0 {
        Seq::empty()
    } else {
        let row = y + n - 1;
        region_rows(img, x, y, width, (n - 1) as nat) + img.data.subrange(
            3 * (row * img.width + x),
            3 * (row * img.width + x + width),
        )
    }
}

/// The region of `img` that is `width` by `height` and has its top-left
/// corner in column `x`, row `y`.
pub open spec fn region(img: RasterView, x: nat, y: nat, width: nat, height: nat) -> RasterView {
    RasterView { width, height, data: region_rows(img, x, y, width, height) }
}

/// The region of `img` that `stencil` marks.
pub open spec fn cropped(img: RasterView, stencil: Stencil) -> RasterView {
    region(
        img,
        scaled(stencil.0, img.width),
        scaled(stencil.1, img.height),
        scaled((stencil.2 - stencil.0) as u32, img.width),
        scaled((stencil.3 - stencil.1) as u32, img.height),
    )
}

/// Rows of a region hold three bytes for each of their pixels.
pub proof fn lemma_region_rows_len(img: RasterView, x: nat, y: nat, width: nat, n: nat)
    requires
        img.wf(),
        x + width <= img.width,
        y + n <= img.height,
    ensures
        region_rows(img, x, y, width, n).len() == 3 * (width * n),
    decreases n,
{
    if n > 0 {
        lemma_region_rows_len(img, x, y, width, (n - 1) as nat);
        let row = (y + n - 1) as int;
        lemma_row_in_image(img, x, width, row);
        assert(width * n == width * (n - 1) + width) by (nonlinear_arith);
    } else {
        assert(width * 0 == 0) by (nonlinear_arith);
    }
}

/// The columns `x .. x + width` of a row lie inside the bytes of the image.
proof fn lemma_row_in_image(img: RasterView, x: nat, width: nat, row: int)
    requires
        img.wf(),
        x + width <= img.width,
        0 <= row < img.height,
    ensures
        0 <= 3 * (row * img.width + x) <= 3 * (row * img.width + x + width) <= img.data.len(),
{
    let w = img.width as int;
    let h = img.height as int;
    assert(row * w >= 0 && row * w + w <= h * w && h * w == w * h) by (nonlinear_arith)
        requires
            0 <= row < h,
            w >= 0,
    ;
}

/// A pixel of a region is the pixel of the image that lies as far right of
/// and below the corner of the region.
pub proof fn lemma_region_pixel(
    img: RasterView,
    x: nat,
    y: nat,
    width: nat,
    height: nat,
    i: int,
    j: int,
)
    requires
        img.wf(),
        x + width <= img.width,
        y + height <= img.height,
        0 <= i < width,
        0 <= j < height,
    ensures
        region(img, x, y, width, height).pixel(i, j) == img.pixel(x + i, y + j),
    decreases height,
{
    let here = region_rows(img, x, y, width, height);
    let above = region_rows(img, x, y, width, (height - 1) as nat);
    let row = (y + height - 1) as int;
    lemma_region_rows_len(img, x, y, width, (height - 1) as nat);
    lemma_region_rows_len(img, x, y, width, height);
    lemma_row_in_image(img, x, width, row);
    lemma_index_in_grid(i, j, width as int, height as int);
    let k = j * width + i;
    assert(j * width >= 0 && (height - 1) * width == width * (height - 1)) by (nonlinear_arith)
        requires
            j >= 0,
            width >= 0,
    ;
    if j < height - 1 {
        lemma_region_pixel(img, x, y, width, (height - 1) as nat, i, j);
        lemma_index_in_grid(i, j, width as int, height - 1);
        assert(here[3 * k] == above[3 * k] && here[3 * k + 1] == above[3 * k + 1] && here[3 * k
            + 2] == above[3 * k + 2]);
    } else {
        let base = 3 * (row * img.width + x);
        assert(k == (height - 1) * width + i);
        assert(3 * k - above.len() == 3 * i);
        assert(here[3 * k] == img.data[base + 3 * i]);
        assert(here[3 * k + 1] == img.data[base + 3 * i + 1]);
        assert(here[3 * k + 2] == img.data[base + 3 * i + 2]);
        assert((y + j) * img.width + (x + i) == row * img.width + x + i);
    }
}

/// The fraction `part` of `length`, rounded down to whole pixels.
fn scale(part: u32, length: u32) -> (pixels: u32)
    requires
        part <= STENCIL_UNIT,
    ensures
        pixels == scaled(part, length as nat),
        pixels <= length,
{
    assert(part * length <= 10_000 * 0xffff_ffff && part * length <= 10_000 * length && part
        * length >= 0) by (nonlinear_arith)
        requires
            0 <= part <= 10_000,
            0 <= length <= 0xffff_ffff,
    ;
    let product: u64 = (part as u64) * (length as u64);
    assert(product / 10_000 <= length) by (nonlinear_arith)
        requires
            0 <= product <= 10_000 * length,
    ;
    (product / (STENCIL_UNIT as u64)) as u32
}

/// Cuts the region that `stencil` marks out of `img`. The stencil gives the
/// left, top, right and bottom edge of the region as fractions of the width
/// and height of the image; the corner and the size of the region are
/// rounded down to whole pixels. There is no region for a stencil whose edges
/// are in the wrong order or outside the image.
pub fn crop_image(img: &Raster, stencil: &Stencil) -> (out: Option<Raster>)
    ensures
        stencil_ok(*stencil) ==> out is Some && out->Some_0@ == cropped(img@, *stencil),
        !stencil_ok(*stencil) ==> out is None,
{
    if !(stencil.0 <= stencil.2 && stencil.2 <= STENCIL_UNIT && stencil.1 <= stencil.3 && stencil.3
        <= STENCIL_UNIT) {
        return None;
    }
    let (w, h) = img.dimensions();
    let raw = img.as_raw();
    let x = scale(stencil.0, w);
    let y = scale(stencil.1, h);
    let width = scale(stencil.2 - stencil.0, w);
    let height = scale(stencil.3 - stencil.1, h);
    proof {
        lemma_scaled_parts_fit(stencil.0, stencil.2, w as nat);
        lemma_scaled_parts_fit(stencil.1, stencil.3, h as nat);
    }
    let ghost v = img@;
    let mut data: Vec<u8> = Vec::new();
    let mut r: u32 = 0;
    while r < height
        invariant
            v == img@,
            v.wf(),
            raw@ == v.data,
            w == v.width,
            h == v.height,
            x + width <= w,
            y + height <= h,
            0 <= r <= height,
            data@ == region_rows(v, x as nat, y as nat, width as nat, r as nat),
        decreases height - r,
    {
        proof {
            lemma_row_in_image(v, x as nat, width as nat, (y + r) as int);
            assert(raw@.len() == raw.len());
            assert((y + r) * w >= 0) by (nonlinear_arith)
                requires
                    y + r >= 0,
                    w >= 0,
            ;
        }
        let first: usize = 3 * ((y as usize + r as usize) * (w as usize) + (x as usize));
        let ghost before = data@;
        let row = slice_subrange(raw.as_slice(), first, first + 3 * (width as usize));
        data.extend_from_slice(row);
        assert(data@ =~= before + row@);
        r = r + 1;
    }
    proof {
        lemma_region_rows_len(v, x as nat, y as nat, width as nat, height as nat);
    }
    Raster::from_raw(width, height, data)
}

/// The part of a length up to the left edge and the part between the edges
/// together do not reach beyond the part up to the right edge, let alone
/// beyond the length.
proof fn lemma_scaled_parts_fit(from: u32, to: u32, length: nat)
    requires
        from <= to <= STENCIL_UNIT,
    ensures
        scaled(from, length) + scaled((to - from) as u32, length) <= length,
{
    let unit = STENCIL_UNIT as int;
    let a = from * length;
    let b = (to - from) * length;
    assert(a + b == to * length && to * length <= unit * length && a >= 0 && b >= 0)
        by (nonlinear_arith)
        requires
            a == from * length,
            b == (to - from) * length,
            0 <= from <= to <= unit,
            length >= 0,
    ;
    assert(a / unit + b / unit <= length) by (nonlinear_arith)
        requires
            a >= 0,
            b >= 0,
            a + b <= unit * length,
            unit == 10_000,
    ;
}

} // verus!
