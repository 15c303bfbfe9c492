//! Finding the corners of the target among the contours of an image.

use vstd::prelude::*;

use crate::util::point::MyPoint;

verus! {

/// Column plus row: smallest towards the top-left, largest towards the
/// bottom-right.
pub open spec fn sum_key(p: MyPoint<u32>) -> int {
    p.x + p.y
}

/// Column minus row: largest towards the top-right, smallest towards the
/// bottom-left.
pub open spec fn diff_key(p: MyPoint<u32>) -> int {
    p.x - p.y
}

/// The key of a point along one of the two diagonals: its sum key if
/// `falling`, its difference key otherwise.
pub open spec fn key(p: MyPoint<u32>, falling: bool) -> int {
    if falling {
        sum_key(p)
    } else {
        diff_key(p)
    }
}

/// `points[i]` is the first point with the smallest key.
pub open spec fn first_min(points: Seq<MyPoint<u32>>, falling: bool, i: int) -> bool {
    &&& 0 <= i < points.len()
    &&& forall|j: int|
        0 <= j < points.len() ==> key(points[i], falling) <= key(#[trigger] points[j], falling)
    &&& forall|j: int| 0 <= j < i ==> key(points[i], falling) < key(#[trigger] points[j], falling)
}

/// `points[i]` is the last point with the largest key.
pub open spec fn last_max(points: Seq<MyPoint<u32>>, falling: bool, i: int) -> bool {
    &&& 0 <= i < points.len()
    &&& forall|j: int|
        0 <= j < points.len() ==> key(#[trigger] points[j], falling) <= key(points[i], falling)
    &&& forall|j: int|
        i < j < points.len() ==> key(#[trigger] points[j], falling) < key(points[i], falling)
}

/// The point lists of `contours` as values.
pub open spec fn point_lists(contours: Seq<Vec<MyPoint<u32>>>) -> Seq<Seq<MyPoint<u32>>> {
    Seq::new(contours.len(), |i: int| contours[i]@)
}

/// `contours[i]` is the last of the longest contours.
pub open spec fn last_longest(contours: Seq<Seq<MyPoint<u32>>>, i: int) -> bool {
    &&& 0 <= i < contours.len()
    &&& forall|j: int| 0 <= j < contours.len() ==> (#[trigger] contours[j]).len() <= contours[i].len()
    &&& forall|j: int| i < j < contours.len() ==> (#[trigger] contours[j]).len() < contours[i].len()
}

/// `rect` holds the corners of `points`: the first point nearest the
/// top-left, the last point nearest the top-right, the last point nearest
/// the bottom-right and the first point nearest the bottom-left, in this
/// order.
pub open spec fn corners_of(points: Seq<MyPoint<u32>>, rect: [MyPoint<u32>; 4]) -> bool {
    exists|tl: int, tr: int, br: int, bl: int|
        {
            &&& #[trigger] first_min(points, true, tl)
            &&& #[trigger] last_max(points, false, tr)
            &&& #[trigger] last_max(points, true, br)
            &&& #[trigger] first_min(points, false, bl)
            &&& rect[0] == points[tl]
            &&& rect[1] == points[tr]
            &&& rect[2] == points[br]
            &&& rect[3] == points[bl]
        }
}

/// The rectangle that `contours` show: the corners of the longest contour,
/// the last one if several are longest. There is none where there is no
/// contour, or where the longest has fewer than four points.
pub open spec fn shows_rectangle(
    contours: Seq<Seq<MyPoint<u32>>>,
    rect: Option<[MyPoint<u32>; 4]>,
) -> bool {
    match rect {
        Some(r) => exists|i: int| #[trigger]
            last_longest(contours, i) && contours[i].len() >= 4 && corners_of(contours[i], r),
        None => contours.len() == 0 || exists|i: int| #[trigger]
            last_longest(contours, i) && contours[i].len() < 4,
    }
}

/// The key `x + y` of a point.
fn sum_of(p: &MyPoint<u32>) -> (k: i64)
    ensures
        k == sum_key(*p),
{
    (p.x as i64) + (p.y as i64)
}

/// The key `x - y` of a point.
fn diff_of(p: &MyPoint<u32>) -> (k: i64)
    ensures
        k == diff_key(*p),
{
    (p.x as i64) - (p.y as i64)
}

/// Looks for the target rectangle among the contours of an image.
pub fn find_rectangle_vertices(contours: &Vec<Vec<MyPoint<u32>>>) -> (rect: Option<
    [MyPoint<u32>; 4],
>)
    ensures
        shows_rectangle(point_lists(contours@), rect),
{
    let ghost lists = point_lists(contours@);
    let n = contours.len();
    if n == 0 {
        return None;
    }
    let mut longest: usize = 0;
    let mut c: usize = 1;
    while c < n
        invariant
            n == contours@.len(),
            1 <= c <= n,
            0 <= longest < c,
            forall|j: int| 0 <= j < c ==> (#[trigger] contours@[j])@.len() <= contours@[longest as int]@.len(),
            forall|j: int| longest < j < c ==> (#[trigger] contours@[j])@.len() < contours@[longest as int]@.len(),
        decreases n - c,
    {
        if contours[c].len() >= contours[longest].len() {
            longest = c;
        }
        c = c + 1;
    }
    assert(last_longest(lists, longest as int));
    let points = &contours[longest];
    let m = points.len();
    if m < 4 {
        return None;
    }
    let mut tl: usize = 0;
    let mut tr: usize = 0;
    let mut br: usize = 0;
    let mut bl: usize = 0;
    let mut i: usize = 1;
    while i < m
        invariant
            m == points@.len(),
            1 <= i <= m,
            first_min(points@.take(i as int), true, tl as int),
            last_max(points@.take(i as int), false, tr as int),
            last_max(points@.take(i as int), true, br as int),
            first_min(points@.take(i as int), false, bl as int),
        decreases m - i,
    {
        let p = &points[i];
        let ghost seen = points@.take(i as int);
        let ghost more = points@.take(i as int + 1);
        proof {
            assert(seen[tl as int] == points@[tl as int] && seen[tr as int] == points@[tr as int]
                && seen[br as int] == points@[br as int] && seen[bl as int] == points@[bl as int]);
            assert forall|j: int| 0 <= j < i implies #[trigger] more[j] == seen[j] by {}
            assert(more[i as int] == points@[i as int]);
        }
        if sum_of(p) < sum_of(&points[tl]) {
            tl = i;
        }
        if diff_of(p) >= diff_of(&points[tr]) {
            tr = i;
        }
        if sum_of(p) >= sum_of(&points[br]) {
            br = i;
        }
        if diff_of(p) < diff_of(&points[bl]) {
            bl = i;
        }
        proof {
            assert(more[tl as int] == points@[tl as int] && more[tr as int] == points@[tr as int]
                && more[br as int] == points@[br as int] && more[bl as int] == points@[bl as int]);
            assert forall|j: int| 0 <= j < more.len() implies key(more[tl as int], true) <= key(#[trigger] more[j], true) by {
                if j < i {
                    assert(more[j] == seen[j]);
                }
            }
            assert forall|j: int| 0 <= j < tl implies key(more[tl as int], true) < key(#[trigger] more[j], true) by {
                assert(more[j] == seen[j]);
            }
            assert forall|j: int| 0 <= j < more.len() implies key(more[bl as int], false) <= key(#[trigger] more[j], false) by {
                if j < i {
                    assert(more[j] == seen[j]);
                }
            }
            assert forall|j: int| 0 <= j < bl implies key(more[bl as int], false) < key(#[trigger] more[j], false) by {
                assert(more[j] == seen[j]);
            }
            assert forall|j: int| 0 <= j < more.len() implies key(#[trigger] more[j], false)
                <= key(more[tr as int], false) by {
                if j < i {
                    assert(more[j] == seen[j]);
                }
            }
            assert forall|j: int| tr < j < more.len() implies key(#[trigger] more[j], false)
                < key(more[tr as int], false) by {
                if j < i {
                    assert(more[j] == seen[j]);
                }
            }
            assert forall|j: int| 0 <= j < more.len() implies key(#[trigger] more[j], true) <= key(more[br as int], true) by {
                if j < i {
                    assert(more[j] == seen[j]);
                }
            }
            assert forall|j: int| br < j < more.len() implies key(#[trigger] more[j], true) < key(more[br as int], true) by {
                if j < i {
                    assert(more[j] == seen[j]);
                }
            }
        }
        i = i + 1;
    }
    assert(points@.take(m as int) =~= points@);
    let rect = [points[tl], points[tr], points[br], points[bl]];
    proof {
        assert(first_min(points@, true, tl as int));
        assert(last_max(points@, false, tr as int));
        assert(last_max(points@, true, br as int));
        assert(first_min(points@, false, bl as int));
        assert(corners_of(points@, rect));
    }
    Some(rect)
}

} // verus!
