//! Marks drawn onto a raster for the operator to see.

use vstd::prelude::*;

use crate::vision::laser::Centroid;
use crate::vision::raster::{Raster, RasterView};

verus! {

/// Colour of the laser mark: pure red.
pub const MARK_COLOR: (u8, u8, u8) = (255, 0, 0);

/// The frame around the laser spot reaches this many pixels to the left of
/// and above the spot.
pub const MARK_REACH: i32 = 10;

/// Width and height of the frame around the laser spot.
pub const MARK_SIZE: u32 = 20;

/// Largest coordinate that a mark is drawn at. Spots beyond it are marked at
/// this column or row. The frame around a spot at this place still lies
/// where 32-bit floating point tells whole numbers apart.
pub const MARK_LIMIT: i32 = 0xff_fff0;

/// Largest coordinate of a frame that is drawn true to the pixel.
pub const EXACT_LIMIT: i32 = 0x100_0000;

/// A raster of this size can be drawn on. The drawing routines count columns
/// and rows as 32-bit signed numbers and draw nothing on a raster that has
/// more.
pub open spec fn drawable(width: nat, height: nat) -> bool {
    width <= i32::MAX && height <= i32::MAX
}

/// The pixel in column `px`, row `py` belongs to the small cross centred on
/// column `x`, row `y`: the centre and its four neighbours.
pub open spec fn on_cross(px: int, py: int, x: int, y: int) -> bool {
    ||| px == x && y - 1 <= py <= y + 1
    ||| py == y && x - 1 <= px <= x + 1
}

/// The pixel in column `px`, row `py` lies on the outline of the rectangle
/// whose corners are `(left, top)` and `(right, bottom)`.
pub open spec fn on_outline(px: int, py: int, left: int, top: int, right: int, bottom: int) -> bool {
    ||| (py == top || py == bottom) && left <= px <= right
    ||| (px == left || px == right) && top <= py <= bottom
}

/// The channel of `color` that the byte at place `i` of a raster holds.
pub open spec fn channel(color: (u8, u8, u8), i: int) -> u8 {
    if i % 3 == 0 {
        color.0
    } else if i % 3 == 1 {
        color.1
    } else {
        color.2
    }
}

/// The bytes of a `width` pixels wide raster after the cross at `(x, y)` has
/// been drawn on it in `color`: the pixels of the cross that lie inside the
/// raster have the colour, all others are as they were.
pub open spec fn cross_bytes(
    data: Seq<u8>,
    width: nat,
    height: nat,
    color: (u8, u8, u8),
    x: int,
    y: int,
) -> Seq<u8> {
    Seq::new(
        data.len(),
        |i: int|
            if drawable(width, height) && on_cross(
                (i / 3) % (width as int),
                (i / 3) / (width as int),
                x,
                y,
            ) {
                channel(color, i)
            } else {
                data[i]
            },
    )
}

/// The bytes of a `width` pixels wide raster after the outline of a
/// rectangle has been drawn on it in `color`: the pixels of the outline that
/// lie inside the raster have the colour, all others are as they were. The
/// rectangle has its top-left corner at `(left, top)` and is `across` wide
/// and `down` high.
pub open spec fn outline_bytes(
    data: Seq<u8>,
    width: nat,
    height: nat,
    color: (u8, u8, u8),
    left: int,
    top: int,
    across: nat,
    down: nat,
) -> Seq<u8> {
    Seq::new(
        data.len(),
        |i: int|
            if drawable(width, height) && on_outline(
                (i / 3) % (width as int),
                (i / 3) / (width as int),
                left,
                top,
                left + across - 1,
                top + down - 1,
            ) {
                channel(color, i)
            } else {
                data[i]
            },
    )
}

/// `image` with a small cross of the given colour centred on column `x`, row
/// `y`.
pub open spec fn cross_drawn(image: RasterView, color: (u8, u8, u8), x: int, y: int) -> RasterView {
    RasterView {
        width: image.width,
        height: image.height,
        data: cross_bytes(image.data, image.width, image.height, color, x, y),
    }
}

/// `image` with the outline of a rectangle of the given colour. The
/// rectangle has its top-left corner in column `left`, row `top`.
pub open spec fn hollow_rect_drawn(
    image: RasterView,
    color: (u8, u8, u8),
    left: int,
    top: int,
    width: nat,
    height: nat,
) -> RasterView {
    RasterView {
        width: image.width,
        height: image.height,
        data: outline_bytes(image.data, image.width, image.height, color, left, top, width, height),
    }
}

/// Draws a cross on the raster of the given size that `data` holds.
///
/// Calls `imageproc::drawing::draw_cross_mut`, which goes through the three
/// by three pixels around `(x, y)`, passes over those outside the raster and
/// those in the corners, and sets the others to the colour. It adds and
/// subtracts one from `x` and `y`, hence the bounds, and it compares with the
/// size of the raster as 32-bit signed numbers. Not verified: that the bytes
/// that come back are those of `cross_bytes`.
#[verifier::external_body]
fn draw_cross(width: u32, height: u32, data: Vec<u8>, color: (u8, u8, u8), x: i32, y: i32) -> (out:
    Vec<u8>)
    requires
        data@.len() == 3 * (width as nat * height as nat),
        -EXACT_LIMIT <= x <= EXACT_LIMIT,
        -EXACT_LIMIT <= y <= EXACT_LIMIT,
    ensures
        out@ == cross_bytes(data@, width as nat, height as nat, color, x as int, y as int),
{
    let mut canvas = image::RgbImage::from_raw(width, height, data).unwrap();
    imageproc::drawing::draw_cross_mut(&mut canvas, image::Rgb([color.0, color.1, color.2]), x, y);
    canvas.into_raw()
}

/// Draws the outline of a rectangle on the raster of the given size that
/// `data` holds.
///
/// Calls `imageproc::drawing::draw_hollow_rect_mut` with the rectangle
/// `Rect::at(left, top).of_size(across, down)`, which draws the four sides
/// as line segments from corner to corner and sets every pixel of a segment
/// that lies inside the raster to the colour. `of_size` refuses an empty
/// rectangle. The segments are walked in steps of one pixel from corners
/// held as 32-bit floating point; within the bounds these are the corners
/// themselves, and a segment along a row or a column is walked pixel by
/// pixel along it. Not verified: that the bytes that come back are those of
/// `outline_bytes`.
#[verifier::external_body]
fn draw_hollow_rect(
    width: u32,
    height: u32,
    data: Vec<u8>,
    color: (u8, u8, u8),
    left: i32,
    top: i32,
    across: u32,
    down: u32,
) -> (out: Vec<u8>)
    requires
        data@.len() == 3 * (width as nat * height as nat),
        across > 0,
        down > 0,
        -EXACT_LIMIT <= left,
        -EXACT_LIMIT <= top,
        left + across - 1 <= EXACT_LIMIT,
        top + down - 1 <= EXACT_LIMIT,
    ensures
        out@ == outline_bytes(
            data@,
            width as nat,
            height as nat,
            color,
            left as int,
            top as int,
            across as nat,
            down as nat,
        ),
{
    let mut canvas = image::RgbImage::from_raw(width, height, data).unwrap();
    let rect = imageproc::rect::Rect::at(left, top).of_size(across, down);
    let paint = image::Rgb([color.0, color.1, color.2]);
    imageproc::drawing::draw_hollow_rect_mut(&mut canvas, rect, paint);
    canvas.into_raw()
}

/// The column or row that a laser spot at `at` is marked at: `at` itself,
/// held back at `MARK_LIMIT`.
pub open spec fn mark_coordinate(at: int) -> int {
    if at > MARK_LIMIT {
        MARK_LIMIT as int
    } else {
        at
    }
}

/// `image` with the mark of a laser spot at `pos`: a cross on the spot and a
/// frame around it.
pub open spec fn laser_marked(image: RasterView, pos: Centroid) -> RasterView {
    let x = mark_coordinate(pos.sum_x as int / pos.count as int);
    let y = mark_coordinate(pos.sum_y as int / pos.count as int);
    hollow_rect_drawn(
        cross_drawn(image, MARK_COLOR, x, y),
        MARK_COLOR,
        x - MARK_REACH,
        y - MARK_REACH,
        MARK_SIZE as nat,
        MARK_SIZE as nat,
    )
}

/// The coordinate that a spot at `at` is marked at.
fn mark_at(at: u128) -> (c: i32)
    ensures
        c == mark_coordinate(at as int),
        0 <= c <= MARK_LIMIT,
{
    if at > MARK_LIMIT as u128 {
        MARK_LIMIT
    } else {
        at as i32
    }
}

/// Marks the laser spot `pos` on `image`: a cross on the spot, rounded down
/// to a whole pixel, and a frame around it.
pub fn mark_laser(image: Raster, pos: &Centroid) -> (out: Raster)
    requires
        pos.wf(),
    ensures
        out@ == laser_marked(image@, *pos),
        out@.width == image@.width,
        out@.height == image@.height,
{
    let x = mark_at(pos.pixel_x());
    let y = mark_at(pos.pixel_y());
    let (width, height) = image.dimensions();
    let data = image.into_raw();
    let crossed = draw_cross(width, height, data, MARK_COLOR, x, y);
    let framed = draw_hollow_rect(
        width,
        height,
        crossed,
        MARK_COLOR,
        x - MARK_REACH,
        y - MARK_REACH,
        MARK_SIZE,
        MARK_SIZE,
    );
    Raster::from_raw(width, height, framed).unwrap()
}

} // verus!
