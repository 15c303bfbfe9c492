//! The target as the camera sees it.

use vstd::prelude::*;

use crate::util::point::MyPoint;

pub mod recognizer;

verus! {

/// Where the target rectangle lies in the camera image: its corners in pixels,
/// top-left, top-right, bottom-right, bottom-left.
#[derive(Clone, Copy, Debug, PartialEq, Eq)]
pub struct TargetInfo {
    pub rect: [MyPoint<u32>; 4],
}

/// Twice the signed area of the triangle `a`, `b`, `c`: positive when `c`
/// lies on one side of the line from `a` to `b`, negative on the other, zero
/// on the line.
pub open spec fn cross(a: MyPoint<u32>, b: MyPoint<u32>, c: MyPoint<u32>) -> int {
    (b.x - a.x) * (c.y - a.y) - (b.y - a.y) * (c.x - a.x)
}

/// `p` lies on the segment from `a` to `b`, ends included.
pub open spec fn touches(a: MyPoint<u32>, b: MyPoint<u32>, p: MyPoint<u32>) -> bool {
    &&& cross(a, b, p) == 0
    &&& (a.x <= p.x <= b.x || b.x <= p.x <= a.x)
    &&& (a.y <= p.y <= b.y || b.y <= p.y <= a.y)
}

/// `c` and `d` lie strictly on different sides of the line from `a` to `b`.
pub open spec fn parted(a: MyPoint<u32>, b: MyPoint<u32>, c: MyPoint<u32>, d: MyPoint<u32>) -> bool {
    (cross(a, b, c) > 0 && cross(a, b, d) < 0) || (cross(a, b, c) < 0 && cross(a, b, d) > 0)
}

/// The segment from `a` to `b` and the segment from `c` to `d` have a point
/// in common: they cross, or an end of one lies on the other.
pub open spec fn segments_meet(
    a: MyPoint<u32>,
    b: MyPoint<u32>,
    c: MyPoint<u32>,
    d: MyPoint<u32>,
) -> bool {
    ||| parted(a, b, c, d) && parted(c, d, a, b)
    ||| touches(a, b, c)
    ||| touches(a, b, d)
    ||| touches(c, d, a)
    ||| touches(c, d, b)
}

/// The sides from `a` to `b` and from `b` to `c` are true sides and have
/// nothing but the corner `b` in common.
pub open spec fn corner_ok(a: MyPoint<u32>, b: MyPoint<u32>, c: MyPoint<u32>) -> bool {
    a != b && b != c && !touches(a, b, c) && !touches(b, c, a)
}

/// The four corners, in their order, are the corners of a simple
/// quadrilateral: no two sides have a point in common but neighbours their
/// corner.
pub open spec fn simple(rect: [MyPoint<u32>; 4]) -> bool {
    &&& corner_ok(rect[0], rect[1], rect[2])
    &&& corner_ok(rect[1], rect[2], rect[3])
    &&& corner_ok(rect[2], rect[3], rect[0])
    &&& corner_ok(rect[3], rect[0], rect[1])
    &&& !segments_meet(rect[0], rect[1], rect[2], rect[3])
    &&& !segments_meet(rect[1], rect[2], rect[3], rect[0])
}

/// Twice the signed area of the triangle `a`, `b`, `c`.
fn cross_of(a: &MyPoint<u32>, b: &MyPoint<u32>, c: &MyPoint<u32>) -> (k: i128)
    ensures
        k == cross(*a, *b, *c),
{
    let abx: i128 = b.x as i128 - a.x as i128;
    let aby: i128 = b.y as i128 - a.y as i128;
    let acx: i128 = c.x as i128 - a.x as i128;
    let acy: i128 = c.y as i128 - a.y as i128;
    assert(-0x1_0000_0000_0000_0000 <= abx * acy <= 0x1_0000_0000_0000_0000
        && -0x1_0000_0000_0000_0000 <= aby * acx <= 0x1_0000_0000_0000_0000) by (nonlinear_arith)
        requires
            -0x1_0000_0000 <= abx <= 0x1_0000_0000,
            -0x1_0000_0000 <= aby <= 0x1_0000_0000,
            -0x1_0000_0000 <= acx <= 0x1_0000_0000,
            -0x1_0000_0000 <= acy <= 0x1_0000_0000,
    ;
    abx * acy - aby * acx
}

/// Whether `p` lies on the segment from `a` to `b`.
fn on_segment(a: &MyPoint<u32>, b: &MyPoint<u32>, p: &MyPoint<u32>) -> (yes: bool)
    ensures
        yes == touches(*a, *b, *p),
{
    cross_of(a, b, p) == 0 && ((a.x <= p.x && p.x <= b.x) || (b.x <= p.x && p.x <= a.x)) && ((a.y
        <= p.y && p.y <= b.y) || (b.y <= p.y && p.y <= a.y))
}

/// Whether `c` and `d` lie strictly on different sides of the line from `a`
/// to `b`.
fn on_both_sides(a: &MyPoint<u32>, b: &MyPoint<u32>, c: &MyPoint<u32>, d: &MyPoint<u32>) -> (yes:
    bool)
    ensures
        yes == parted(*a, *b, *c, *d),
{
    let to_c = cross_of(a, b, c);
    let to_d = cross_of(a, b, d);
    (to_c > 0 && to_d < 0) || (to_c < 0 && to_d > 0)
}

/// Whether two segments have a point in common.
fn meet(a: &MyPoint<u32>, b: &MyPoint<u32>, c: &MyPoint<u32>, d: &MyPoint<u32>) -> (yes: bool)
    ensures
        yes == segments_meet(*a, *b, *c, *d),
{
    (on_both_sides(a, b, c, d) && on_both_sides(c, d, a, b)) || on_segment(a, b, c) || on_segment(
        a,
        b,
        d,
    ) || on_segment(c, d, a) || on_segment(c, d, b)
}

/// Whether two points are the same.
fn same(a: &MyPoint<u32>, b: &MyPoint<u32>) -> (yes: bool)
    ensures
        yes == (*a == *b),
{
    a.x == b.x && a.y == b.y
}

/// Whether two neighbouring sides have only their corner in common.
fn corner(a: &MyPoint<u32>, b: &MyPoint<u32>, c: &MyPoint<u32>) -> (yes: bool)
    ensures
        yes == corner_ok(*a, *b, *c),
{
    !same(a, b) && !same(b, c) && !on_segment(a, b, c) && !on_segment(b, c, a)
}

impl TargetInfo {
    /// The corners describe a simple quadrilateral.
    pub open spec fn wf(self) -> bool {
        simple(self.rect)
    }

    /// The target with the given corners, if they are the corners of a
    /// simple quadrilateral.
    pub fn new(rect: [MyPoint<u32>; 4]) -> (target: Option<TargetInfo>)
        ensures
            simple(rect) ==> target == Some(TargetInfo { rect }),
            !simple(rect) ==> target is None,
    {
        let target = TargetInfo { rect };
        if target.is_simple() {
            Some(target)
        } else {
            None
        }
    }

    /// Whether the corners describe a simple quadrilateral.
    pub fn is_simple(&self) -> (yes: bool)
        ensures
            yes == self.wf(),
    {
        let a = &self.rect[0];
        let b = &self.rect[1];
        let c = &self.rect[2];
        let d = &self.rect[3];
        corner(a, b, c) && corner(b, c, d) && corner(c, d, a) && corner(d, a, b) && !meet(
            a,
            b,
            c,
            d,
        ) && !meet(b, c, d, a)
    }
}

} // verus!
