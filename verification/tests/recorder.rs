use std::sync::Arc;

use laser_trainer::capturer::CapturedFrame;
use laser_trainer::recorder::{fresh, Recorder, FRAME_EXPIRE};
use laser_trainer::vision::raster::Raster;

fn frame_at(id: u64, timestamp: i64) -> Arc<CapturedFrame> {
    Arc::new(CapturedFrame { id, timestamp, image: Raster::from_raw(1, 1, vec![0, 0, 0]).unwrap() })
}

fn stamps(frames: &[Arc<CapturedFrame>]) -> Vec<i64> {
    frames.iter().map(|f| f.timestamp).collect()
}

#[test]
fn empty_recorder_is_not_a_fault() {
    let r = Recorder::new();
    assert!(r.last_frame().is_none());
    assert!(r.frames().is_empty());
}

#[test]
fn three_frames_within_the_window_are_all_kept_in_order() {
    let mut r = Recorder::new();
    r.push_frame(frame_at(1, 1_000));
    r.push_frame(frame_at(2, 1_100));
    r.push_frame(frame_at(3, 1_200));
    let snapshot = r.frames();
    assert_eq!(stamps(&snapshot), vec![1_000, 1_100, 1_200]);
    assert_eq!(snapshot.iter().map(|f| f.id).collect::<Vec<_>>(), vec![1, 2, 3]);
    assert_eq!(r.last_frame().unwrap().id, 3);
}

#[test]
fn frames_older_than_the_window_are_evicted_on_push() {
    assert_eq!(FRAME_EXPIRE, 3_000);
    let mut r = Recorder::new();
    r.push_frame(frame_at(1, 0));
    r.push_frame(frame_at(2, 1_000));
    r.push_frame(frame_at(3, 3_000));
    assert_eq!(stamps(&r.frames()), vec![0, 1_000, 3_000]);
    r.push_frame(frame_at(4, 3_001));
    assert_eq!(stamps(&r.frames()), vec![1_000, 3_000, 3_001]);
    r.push_frame(frame_at(5, 10_000));
    assert_eq!(stamps(&r.frames()), vec![10_000]);
}

#[test]
fn snapshot_is_not_a_live_view() {
    let mut r = Recorder::new();
    r.push_frame(frame_at(1, 10));
    let snapshot = r.frames();
    r.push_frame(frame_at(2, 20));
    assert_eq!(snapshot.len(), 1);
    assert_eq!(r.frames().len(), 2);
}

#[test]
fn snapshot_shares_the_frames() {
    let mut r = Recorder::new();
    let f = frame_at(7, 10);
    r.push_frame(f.clone());
    let snapshot = r.frames();
    assert!(Arc::ptr_eq(&snapshot[0], &f));
    assert!(Arc::ptr_eq(&r.last_frame().unwrap(), &f));
}

#[test]
fn never_two_frames_in_decreasing_order_when_pushed_in_order() {
    let mut r = Recorder::new();
    let mut t = 0i64;
    for id in 0..200u64 {
        t += (id as i64 * 37) % 700;
        r.push_frame(frame_at(id, t));
        let s = stamps(&r.frames());
        assert!(s.windows(2).all(|w| w[0] <= w[1]));
        assert!(s.iter().all(|&x| t - x <= FRAME_EXPIRE));
        assert_eq!(*s.last().unwrap(), t);
    }
}

#[test]
fn a_late_frame_is_appended_all_the_same() {
    let mut r = Recorder::new();
    r.push_frame(frame_at(1, 200));
    r.push_frame(frame_at(2, 100));
    assert_eq!(stamps(&r.frames()), vec![200, 100]);
    assert_eq!(r.last_frame().unwrap().id, 2);
}

#[test]
fn freshness_at_the_edges() {
    assert!(fresh(0, 3_000));
    assert!(!fresh(0, 3_001));
    assert!(fresh(5, 0));
    assert!(!fresh(i64::MIN, i64::MAX));
    assert!(fresh(i64::MAX, i64::MIN));
}
