use std::sync::Arc;

use laser_trainer::bus::Event;
use laser_trainer::capturer::CapturedFrame;
use laser_trainer::hits::detector::{HitDetector, HitDetectorCommand, CLIP_FPS};
use laser_trainer::recorder::Recorder;
use laser_trainer::targets::TargetInfo;
use laser_trainer::util::point::MyPoint;
use laser_trainer::vision::laser::Centroid;
use laser_trainer::vision::raster::Raster;

fn image(lit: bool, tag: u8) -> Raster {
    // 4 x 4; the green channel of the first pixel tells the frames apart
    let mut data = vec![0u8; 4 * 4 * 3];
    if lit {
        for i in 0..12 {
            data[i * 3] = 255;
        }
    }
    data[1] = tag;
    Raster::from_raw(4, 4, data).unwrap()
}

fn frame(id: u64, timestamp: i64, lit: bool) -> Arc<CapturedFrame> {
    Arc::new(CapturedFrame { id, timestamp, image: image(lit, id as u8) })
}

fn target(seed: u32) -> TargetInfo {
    TargetInfo {
        rect: [
            MyPoint::new(seed, seed),
            MyPoint::new(seed + 10, seed),
            MyPoint::new(seed + 10, seed + 20),
            MyPoint::new(seed, seed + 20),
        ],
    }
}

fn tags(clip: &[Raster]) -> Vec<u8> {
    clip.iter().map(|r| r.get_pixel(0, 0).1).collect()
}

fn feed(
    detector: &mut HitDetector,
    recorder: &mut Recorder,
    f: Arc<CapturedFrame>,
    t: &TargetInfo,
) -> laser_trainer::hits::detector::Detection {
    recorder.push_frame(f.clone());
    detector.on_frame(f, recorder, t)
}

#[test]
fn idle_without_laser_does_nothing() {
    let mut d = HitDetector::new(0);
    let mut r = Recorder::new();
    for i in 1..5 {
        let out = feed(&mut d, &mut r, frame(i, i as i64 * 100, false), &target(1));
        assert!(out.laser.is_none());
        assert!(out.hit.is_none());
        assert!(!d.is_recording());
    }
}

#[test]
fn five_frame_run_gives_one_hit_with_five_frames() {
    let mut d = HitDetector::new(0);
    let mut r = Recorder::new();
    let t = target(3);
    let mut hits = 0;
    for i in 1..=5u64 {
        let out = feed(&mut d, &mut r, frame(i, i as i64 * 50, true), &t);
        assert!(out.hit.is_none());
        assert!(d.is_recording());
        assert_eq!(out.laser.is_some(), i == 1);
    }
    let out = feed(&mut d, &mut r, frame(6, 300, false), &t);
    assert!(out.laser.is_none());
    match out.hit {
        Some(Event::NewHit { timestamp, clip, target_info }) => {
            hits += 1;
            assert_eq!(timestamp, 300);
            assert_eq!(clip.1, CLIP_FPS);
            assert_eq!(clip.1, 20);
            assert_eq!(clip.0.len(), 5);
            assert_eq!(tags(&clip.0), vec![1, 2, 3, 4, 5]);
            assert_eq!(target_info, t);
        }
        _ => panic!("no hit reported"),
    }
    assert!(!d.is_recording());
    let out = feed(&mut d, &mut r, frame(7, 350, false), &t);
    assert!(out.hit.is_none());
    assert_eq!(hits, 1);
}

#[test]
fn laser_position_is_published_when_a_hit_begins() {
    let mut d = HitDetector::new(0);
    let mut r = Recorder::new();
    let out = feed(&mut d, &mut r, frame(1, 10, true), &target(0));
    // the first twelve pixels in row-major order of a 4 x 4 image are lit
    let pos = out.laser.unwrap().pos;
    assert_eq!(pos, Centroid { sum_x: 3 * (0 + 1 + 2 + 3), sum_y: 4 * (0 + 1 + 2), count: 12 });
}

#[test]
fn clip_begins_with_what_the_recorder_still_holds() {
    let mut d = HitDetector::new(0);
    let mut r = Recorder::new();
    let t = target(0);
    feed(&mut d, &mut r, frame(1, 100, false), &t);
    feed(&mut d, &mut r, frame(2, 200, false), &t);
    feed(&mut d, &mut r, frame(3, 300, true), &t);
    feed(&mut d, &mut r, frame(4, 400, true), &t);
    let out = feed(&mut d, &mut r, frame(5, 500, false), &t);
    match out.hit {
        Some(Event::NewHit { clip, .. }) => assert_eq!(tags(&clip.0), vec![1, 2, 3, 4]),
        _ => panic!("no hit reported"),
    }
}

#[test]
fn a_hit_of_one_frame_still_has_a_clip() {
    let mut d = HitDetector::new(0);
    let mut r = Recorder::new();
    let t = target(0);
    feed(&mut d, &mut r, frame(1, 100, true), &t);
    let out = feed(&mut d, &mut r, frame(2, 200, false), &t);
    match out.hit {
        Some(Event::NewHit { timestamp, clip, .. }) => {
            assert_eq!(timestamp, 200);
            assert_eq!(tags(&clip.0), vec![1]);
        }
        _ => panic!("no hit reported"),
    }
}

#[test]
fn second_clip_leaves_out_frames_of_the_first_hit() {
    let mut d = HitDetector::new(0);
    let mut r = Recorder::new();
    let t = target(0);
    feed(&mut d, &mut r, frame(1, 100, true), &t);
    feed(&mut d, &mut r, frame(2, 200, true), &t);
    assert!(feed(&mut d, &mut r, frame(3, 300, false), &t).hit.is_some());
    feed(&mut d, &mut r, frame(4, 400, false), &t);
    feed(&mut d, &mut r, frame(5, 500, true), &t);
    let out = feed(&mut d, &mut r, frame(6, 600, false), &t);
    match out.hit {
        // frames 1 to 3 are not newer than the end of the first hit
        Some(Event::NewHit { timestamp, clip, .. }) => {
            assert_eq!(timestamp, 600);
            assert_eq!(tags(&clip.0), vec![4, 5]);
        }
        _ => panic!("no hit reported"),
    }
}

#[test]
fn frames_before_the_start_are_left_out() {
    let mut d = HitDetector::new(150);
    let mut r = Recorder::new();
    let t = target(0);
    feed(&mut d, &mut r, frame(1, 100, false), &t);
    feed(&mut d, &mut r, frame(2, 150, false), &t);
    feed(&mut d, &mut r, frame(3, 200, true), &t);
    let out = feed(&mut d, &mut r, frame(4, 250, false), &t);
    match out.hit {
        Some(Event::NewHit { clip, .. }) => assert_eq!(tags(&clip.0), vec![3]),
        _ => panic!("no hit reported"),
    }
}

#[test]
fn hit_keeps_the_target_of_its_first_frame() {
    let mut d = HitDetector::new(0);
    let mut r = Recorder::new();
    feed(&mut d, &mut r, frame(1, 100, true), &target(1));
    feed(&mut d, &mut r, frame(2, 200, true), &target(2));
    let out = feed(&mut d, &mut r, frame(3, 300, false), &target(3));
    match out.hit {
        Some(Event::NewHit { target_info, .. }) => assert_eq!(target_info, target(1)),
        _ => panic!("no hit reported"),
    }
}

#[test]
fn one_hit_for_each_laser_interval() {
    let pattern = [
        false, true, true, false, false, true, false, true, true, true, false, true,
    ];
    let mut d = HitDetector::new(0);
    let mut r = Recorder::new();
    let t = target(0);
    let mut reported = Vec::new();
    for (i, &lit) in pattern.iter().enumerate() {
        let out = feed(&mut d, &mut r, frame(i as u64, (i as i64 + 1) * 10, lit), &t);
        if out.hit.is_some() {
            reported.push(i);
        }
        assert_eq!(d.is_recording(), lit);
    }
    // at each step where the laser has just gone
    assert_eq!(reported, vec![3, 6, 10]);
}

#[test]
fn command_is_the_same_as_the_call() {
    let mut d = HitDetector::new(0);
    let mut r = Recorder::new();
    let f = frame(1, 100, true);
    r.push_frame(f.clone());
    let out = d.handle(HitDetectorCommand::NewFrame(f), &r, &target(0));
    assert!(out.laser.is_some());
    assert!(d.is_recording());
}
