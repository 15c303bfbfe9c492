use std::sync::Arc;

use laser_trainer::capturer::CapturedFrame;
use laser_trainer::targets::recognizer::{
    find_target, RecognizerStep, TargetRecognizer, CONTOUR_LIMIT, RECOGNITION_INTERVAL,
};
use laser_trainer::targets::TargetInfo;
use laser_trainer::util::point::MyPoint;
use laser_trainer::vision::frame::find_rectangle_vertices;
use laser_trainer::vision::raster::Raster;

fn frame(id: u64) -> Arc<CapturedFrame> {
    Arc::new(CapturedFrame { id, timestamp: 0, image: Raster::from_raw(0, 0, vec![]).unwrap() })
}

fn p(x: u32, y: u32) -> MyPoint<u32> {
    MyPoint::new(x, y)
}

#[test]
fn no_contours_no_rectangle() {
    assert_eq!(find_rectangle_vertices(&vec![]), None);
    assert_eq!(find_rectangle_vertices(&vec![vec![], vec![]]), None);
}

#[test]
fn three_points_are_no_rectangle() {
    assert_eq!(find_rectangle_vertices(&vec![vec![p(0, 0), p(4, 0), p(4, 4)]]), None);
}

#[test]
fn corners_of_a_square() {
    let contour = vec![p(5, 5), p(9, 5), p(7, 7), p(9, 9), p(5, 9), p(6, 6)];
    assert_eq!(
        find_rectangle_vertices(&vec![contour]),
        Some([p(5, 5), p(9, 5), p(9, 9), p(5, 9)])
    );
}

#[test]
fn longest_contour_is_taken_and_the_last_of_equals() {
    let small = vec![p(0, 0), p(1, 0), p(1, 1), p(0, 1)];
    let big = vec![p(10, 10), p(20, 10), p(20, 30), p(10, 30), p(15, 20)];
    let other = vec![p(40, 40), p(50, 40), p(50, 60), p(40, 60), p(45, 50)];
    assert_eq!(
        find_rectangle_vertices(&vec![small.clone(), big.clone()]),
        Some([p(10, 10), p(20, 10), p(20, 30), p(10, 30)])
    );
    assert_eq!(
        find_rectangle_vertices(&vec![big.clone(), small.clone(), other.clone()]),
        Some([p(40, 40), p(50, 40), p(50, 60), p(40, 60)])
    );
    // the longest has too few points, whatever the others have
    assert_eq!(find_rectangle_vertices(&vec![vec![p(0, 0); 3], vec![p(1, 1); 3]]), None);
}

#[test]
fn ties_go_to_the_first_smallest_and_the_last_largest() {
    // (1, 2) and (2, 1) have the same sum, (3, 4) and (4, 3) too;
    // (2, 1) and (4, 3) have the same difference, (1, 2) and (3, 4) too
    let contour = vec![p(1, 2), p(2, 1), p(3, 4), p(4, 3)];
    assert_eq!(
        find_rectangle_vertices(&vec![contour]),
        Some([p(1, 2), p(4, 3), p(4, 3), p(1, 2)])
    );
    let contour = vec![p(2, 1), p(1, 2), p(4, 3), p(3, 4)];
    assert_eq!(
        find_rectangle_vertices(&vec![contour]),
        Some([p(2, 1), p(4, 3), p(3, 4), p(1, 2)])
    );
}

#[test]
fn large_coordinates_do_not_overflow() {
    let m = u32::MAX;
    let contour = vec![p(0, 0), p(m, 0), p(m, m), p(0, m)];
    assert_eq!(find_rectangle_vertices(&vec![contour]), Some([p(0, 0), p(m, 0), p(m, m), p(0, m)]));
}

fn outline(width: u32, height: u32, left: u32, top: u32, right: u32, bottom: u32) -> Vec<u8> {
    let mut luma = vec![0u8; (width * height) as usize];
    for x in left..=right {
        luma[(top * width + x) as usize] = 255;
        luma[(bottom * width + x) as usize] = 255;
    }
    for y in top..=bottom {
        luma[(y * width + left) as usize] = 255;
        luma[(y * width + right) as usize] = 255;
    }
    luma
}

#[test]
fn target_is_found_on_an_edge_image() {
    let luma = outline(40, 30, 5, 4, 30, 20);
    assert_eq!(
        find_target(40, 30, &luma),
        Some(TargetInfo { rect: [p(5, 4), p(30, 4), p(30, 20), p(5, 20)] })
    );
}

#[test]
fn larger_outline_wins() {
    let mut luma = outline(64, 48, 2, 2, 8, 8);
    for (i, v) in outline(64, 48, 20, 10, 60, 40).into_iter().enumerate() {
        if v != 0 {
            luma[i] = v;
        }
    }
    assert_eq!(
        find_target(64, 48, &luma),
        Some(TargetInfo { rect: [p(20, 10), p(60, 10), p(60, 40), p(20, 40)] })
    );
}

#[test]
fn nothing_is_found_on_a_blank_image() {
    assert_eq!(find_target(16, 16, &vec![0u8; 256]), None);
    assert_eq!(find_target(0, 0, &vec![]), None);
}

#[test]
fn a_speck_is_no_target() {
    let mut luma = vec![0u8; 100];
    luma[55] = 1;
    assert_eq!(find_target(10, 10, &luma), None);
}

#[test]
fn images_of_the_wrong_size_are_not_searched() {
    assert_eq!(CONTOUR_LIMIT, 32_767);
    let luma = outline(40, 30, 5, 4, 30, 20);
    assert_eq!(find_target(30, 40, &luma[..1199].to_vec()), None);
    assert_eq!(find_target(41, 30, &luma), None);
    assert_eq!(find_target(CONTOUR_LIMIT + 1, 0, &vec![]), None);
    assert_eq!(find_target(0, CONTOUR_LIMIT + 1, &vec![]), None);
}

#[test]
fn recognizer_waits_out_the_interval() {
    assert_eq!(RECOGNITION_INTERVAL, 1_000);
    let mut r = TargetRecognizer::new(5_000);
    let f = frame(1);
    assert_eq!(r.poll(5_000, Some(&f)), RecognizerStep::Wait(1_000));
    assert_eq!(r.poll(5_300, Some(&f)), RecognizerStep::Wait(700));
    assert_eq!(r.poll(5_999, Some(&f)), RecognizerStep::Wait(1));
    assert_eq!(r.poll(6_000, Some(&f)), RecognizerStep::Recognize);
}

#[test]
fn recognizer_waits_a_whole_interval_when_the_clock_goes_back() {
    let mut r = TargetRecognizer::new(5_000);
    assert_eq!(r.poll(4_000, None), RecognizerStep::Wait(1_000));
    assert_eq!(r.poll(i64::MIN, None), RecognizerStep::Wait(1_000));
    let mut r = TargetRecognizer::new(i64::MIN);
    assert_eq!(r.poll(i64::MAX, None), RecognizerStep::Skip);
}

#[test]
fn recognizer_skips_a_cycle_without_a_new_frame() {
    let mut r = TargetRecognizer::new(0);
    assert_eq!(r.poll(1_000, None), RecognizerStep::Skip);
    // the skipped cycle counts: the next one is due an interval later
    assert_eq!(r.poll(1_500, None), RecognizerStep::Wait(500));
    let f = frame(8);
    assert_eq!(r.poll(2_000, Some(&f)), RecognizerStep::Recognize);
    r.finished(2_200);
    assert_eq!(r.poll(3_000, Some(&f)), RecognizerStep::Wait(200));
    // the same frame again, by its number
    assert_eq!(r.poll(3_200, Some(&frame(8))), RecognizerStep::Skip);
    assert_eq!(r.poll(4_200, Some(&frame(9))), RecognizerStep::Recognize);
}

#[test]
fn recognition_counts_from_its_end() {
    let mut r = TargetRecognizer::new(0);
    assert_eq!(r.poll(1_000, Some(&frame(1))), RecognizerStep::Recognize);
    r.finished(1_800);
    assert_eq!(r.poll(2_000, Some(&frame(2))), RecognizerStep::Wait(800));
    assert_eq!(r.poll(2_800, Some(&frame(2))), RecognizerStep::Recognize);
}

fn quad(c: [(u32, u32); 4]) -> [MyPoint<u32>; 4] {
    [p(c[0].0, c[0].1), p(c[1].0, c[1].1), p(c[2].0, c[2].1), p(c[3].0, c[3].1)]
}

#[test]
fn rectangles_and_kites_are_simple() {
    for corners in [
        [(0, 0), (10, 0), (10, 10), (0, 10)],
        [(0, 10), (10, 10), (10, 0), (0, 0)],
        [(3, 1), (40, 5), (37, 60), (0, 50)],
        // a dart: one corner points inwards
        [(0, 0), (10, 10), (20, 0), (10, 30)],
        // a straight angle at the second corner
        [(0, 0), (5, 0), (10, 0), (5, 10)],
        [(0, 0), (u32::MAX, 0), (u32::MAX, u32::MAX), (0, u32::MAX)],
    ] {
        let rect = quad(corners);
        assert_eq!(TargetInfo::new(rect), Some(TargetInfo { rect }), "{corners:?}");
        assert!(TargetInfo { rect }.is_simple());
    }
}

#[test]
fn crossed_and_collapsed_corners_are_no_target() {
    for corners in [
        // a bow tie: the first side crosses the third
        [(0, 0), (10, 10), (10, 0), (0, 10)],
        // the second side crosses the fourth
        [(0, 0), (10, 0), (0, 10), (10, 10)],
        // a corner on the opposite side
        [(0, 0), (10, 0), (5, 0), (5, 10)],
        // two corners in one place
        [(0, 0), (0, 0), (10, 10), (0, 10)],
        [(0, 0), (10, 0), (10, 10), (0, 0)],
        [(0, 0), (10, 0), (0, 0), (0, 10)],
        // all on one line
        [(0, 0), (10, 0), (20, 0), (30, 0)],
        [(0, 0), (30, 0), (30, 0), (0, 0)],
        [(4, 4), (4, 4), (4, 4), (4, 4)],
        // a side that doubles back over its neighbour
        [(0, 0), (10, 0), (5, 0), (5, 5)],
    ] {
        let rect = quad(corners);
        assert_eq!(TargetInfo::new(rect), None, "{corners:?}");
        assert!(!TargetInfo { rect }.is_simple());
    }
}

#[test]
fn a_line_is_no_target() {
    let mut luma = vec![0u8; 20 * 10];
    for x in 3..15 {
        luma[5 * 20 + x] = 255;
    }
    assert_eq!(find_target(20, 10, &luma), None);
}

#[test]
fn any_edge_image_can_be_searched() {
    // images of many sizes with scattered bright pixels
    let mut state: u64 = 0x2545_f491_4f6c_dd1d;
    let mut next = || {
        state ^= state << 13;
        state ^= state >> 7;
        state ^= state << 17;
        state
    };
    for round in 0..300u32 {
        let width = (next() % 24) as u32;
        let height = (next() % 24) as u32;
        let density = 1 + round % 7;
        let luma: Vec<u8> = (0..width * height)
            .map(|_| if next() % 8 < density as u64 { 255 } else { 0 })
            .collect();
        if let Some(target) = find_target(width, height, &luma) {
            assert!(target.is_simple());
            assert!(target.rect.iter().all(|p| p.x < width && p.y < height));
        }
    }
    // a bright region that fills the image has no border inside it
    assert_eq!(find_target(9, 7, &vec![255u8; 63]), None);
}
