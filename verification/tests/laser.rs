use laser_trainer::vision::laser::{find_red_laser, Centroid, LASER_MIN_PIXELS, LASER_RED_THRESHOLD};
use laser_trainer::vision::raster::Raster;

fn raster_with_red(width: u32, height: u32, red: u8, lit: &[(u32, u32)]) -> Raster {
    let mut data = vec![0u8; (width * height * 3) as usize];
    for &(x, y) in lit {
        data[((y * width + x) * 3) as usize] = red;
    }
    Raster::from_raw(width, height, data).unwrap()
}

#[test]
fn thresholds_are_as_documented() {
    assert_eq!(LASER_RED_THRESHOLD, 245);
    assert_eq!(LASER_MIN_PIXELS, 10);
}

#[test]
fn dark_image_has_no_laser() {
    assert_eq!(find_red_laser(&raster_with_red(8, 8, 0, &[])), None);
    assert_eq!(find_red_laser(&Raster::from_raw(0, 0, vec![]).unwrap()), None);
}

#[test]
fn nine_lit_pixels_are_noise() {
    let lit: Vec<(u32, u32)> = (0..9).map(|i| (i, 0)).collect();
    assert_eq!(find_red_laser(&raster_with_red(16, 4, 255, &lit)), None);
}

#[test]
fn ten_lit_pixels_are_a_laser() {
    let lit: Vec<(u32, u32)> = (0..10).map(|i| (i, 2)).collect();
    let found = find_red_laser(&raster_with_red(16, 4, 255, &lit));
    assert_eq!(found, Some(Centroid { sum_x: 45, sum_y: 20, count: 10 }));
}

#[test]
fn red_at_the_threshold_does_not_count() {
    let lit: Vec<(u32, u32)> = (0..12).map(|i| (i, 1)).collect();
    assert_eq!(find_red_laser(&raster_with_red(16, 4, 245, &lit)), None);
    assert!(find_red_laser(&raster_with_red(16, 4, 246, &lit)).is_some());
}

#[test]
fn green_and_blue_do_not_count() {
    let mut data = vec![0u8; 16 * 4 * 3];
    for i in 0..64 {
        data[i * 3 + 1] = 255;
        data[i * 3 + 2] = 255;
    }
    assert_eq!(find_red_laser(&Raster::from_raw(16, 4, data).unwrap()), None);
}

#[test]
fn centroid_of_a_block() {
    // a 4 x 3 block with its top-left corner at (5, 2)
    let mut lit = Vec::new();
    for y in 2..5 {
        for x in 5..9 {
            lit.push((x, y));
        }
    }
    let c = find_red_laser(&raster_with_red(20, 10, 250, &lit)).unwrap();
    assert_eq!(c, Centroid { sum_x: 3 * (5 + 6 + 7 + 8), sum_y: 4 * (2 + 3 + 4), count: 12 });
    assert_eq!(c.pixel_x(), 6);
    assert_eq!(c.pixel_y(), 3);
}
