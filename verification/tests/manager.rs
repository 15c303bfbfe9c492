use std::collections::HashMap;
use std::collections::VecDeque;

use laser_trainer::bus::Event;
use laser_trainer::hits::manager::{attach_result, unprocessed_queue, HitManager};
use laser_trainer::hits::processor::HitProcessResult;
use laser_trainer::hits::storage::{HitData, HitStorage, StorageError};
use laser_trainer::targets::TargetInfo;
use laser_trainer::util::point::MyPoint;
use laser_trainer::vision::laser::Centroid;
use laser_trainer::vision::raster::Raster;

/// A store in memory that can be told to fail.
#[derive(Default)]
struct MemStorage {
    clips: HashMap<i64, (Vec<Raster>, u32)>,
    data: HashMap<i64, HitData>,
    fail_new_hit: bool,
    fail_listing: bool,
    fail_save_data: bool,
    unreadable_clips: Vec<i64>,
    loads: Vec<i64>,
}

impl HitStorage for MemStorage {
    fn save_clip(&mut self, timestamp: i64, clip: (&[Raster], u32)) -> Result<(), StorageError> {
        self.clips.insert(timestamp, (clip.0.to_vec(), clip.1));
        Ok(())
    }

    fn load_clip(&mut self, timestamp: i64) -> Result<(Vec<Raster>, u32), StorageError> {
        self.loads.push(timestamp);
        if self.unreadable_clips.contains(&timestamp) {
            return Err(StorageError::Codec(format!("clip {timestamp}")));
        }
        match self.clips.get(&timestamp) {
            Some(c) => Ok((c.0.clone(), c.1)),
            None => Err(StorageError::Io(format!("no clip {timestamp}"))),
        }
    }

    fn save_data(&mut self, timestamp: i64, data: HitData) -> Result<(), StorageError> {
        if self.fail_save_data {
            return Err(StorageError::Io("read-only".to_string()));
        }
        self.data.insert(timestamp, data);
        Ok(())
    }

    fn load_data(&mut self, timestamp: i64) -> Result<HitData, StorageError> {
        self.data.get(&timestamp).copied().ok_or(StorageError::Malformed(format!("{timestamp}")))
    }

    fn new_hit(
        &mut self,
        timestamp: i64,
        clip: (&[Raster], u32),
        data: HitData,
    ) -> Result<(), StorageError> {
        if self.fail_new_hit {
            return Err(StorageError::Io("disk full".to_string()));
        }
        self.save_clip(timestamp, clip)?;
        self.save_data(timestamp, data)
    }

    fn get_unprocessed_hits_old_sorted(&mut self) -> Result<Vec<i64>, StorageError> {
        let mut out: Vec<i64> =
            self.data.iter().filter(|(_, d)| d.processed.is_none()).map(|(t, _)| *t).collect();
        out.sort();
        Ok(out)
    }

    fn get_all_hits(&mut self) -> Result<HashMap<i64, HitData>, StorageError> {
        if self.fail_listing {
            return Err(StorageError::Io("no such directory".to_string()));
        }
        Ok(self.data.clone())
    }
}

fn target(seed: u32) -> TargetInfo {
    TargetInfo {
        rect: [
            MyPoint::new(seed, 0),
            MyPoint::new(seed + 1, 0),
            MyPoint::new(seed + 1, 1),
            MyPoint::new(seed, 1),
        ],
    }
}

fn clip(tag: u8) -> (Vec<Raster>, u32) {
    (vec![Raster::from_raw(1, 1, vec![tag, 0, 0]).unwrap()], 20)
}

fn result(score: u32) -> HitProcessResult {
    HitProcessResult { score, hit_pos: Some(Centroid { sum_x: 10, sum_y: 20, count: 10 }) }
}

fn unscored(seed: u32) -> HitData {
    HitData { target_info: target(seed), processed: None }
}

fn scored(seed: u32) -> HitData {
    HitData { target_info: target(seed), processed: Some(result(seed)) }
}

fn stored(hits: &[(i64, HitData)]) -> MemStorage {
    let mut s = MemStorage::default();
    for (t, d) in hits {
        s.data.insert(*t, *d);
        s.clips.insert(*t, clip(*t as u8));
    }
    s
}

fn started(hits: &[(i64, HitData)]) -> HitManager<MemStorage> {
    HitManager::start(stored(hits)).0
}

fn request_of(event: &Option<Event>) -> Option<i64> {
    match event {
        Some(Event::ProcessHit { timestamp, .. }) => Some(*timestamp),
        Some(_) => panic!("only scoring requests are sent"),
        None => None,
    }
}

#[test]
fn startup_queues_only_the_unscored_hit() {
    let (m, event) = HitManager::start(stored(&[(200, scored(1)), (100, unscored(2))]));
    assert_eq!(m.pending(), vec![100]);
    assert!(!m.is_ready());
    match event {
        Ok(Event::LoadedHits { hits }) => {
            assert_eq!(hits.len(), 2);
            assert_eq!(hits[&200], scored(1));
            assert_eq!(hits[&100], unscored(2));
        }
        _ => panic!("startup publishes all hits"),
    }
}

#[test]
fn startup_queue_is_oldest_first() {
    let hits: Vec<(i64, HitData)> = [50i64, -3, 900, 7, 12, 400, 8]
        .iter()
        .map(|&t| (t, if t == 12 { scored(0) } else { unscored(t as u32 & 0xff) }))
        .collect();
    let m = started(&hits);
    assert_eq!(m.pending(), vec![-3, 7, 8, 50, 400, 900]);
}

#[test]
fn startup_survives_a_store_that_cannot_be_listed() {
    let mut s = stored(&[(100, unscored(2))]);
    s.fail_listing = true;
    let (mut m, event) = HitManager::start(s);
    assert!(matches!(event, Err(StorageError::Io(_))));
    // nothing is queued, and the manager works on
    assert!(m.pending().is_empty());
    assert!(!m.is_ready());
    assert!(m.hit_processor_ready().request.is_none());
    assert_eq!(request_of(&m.new_hit(7, clip(7), target(7)).unwrap()), Some(7));
}

#[test]
fn unprocessed_queue_keeps_records() {
    let mut hits = HashMap::new();
    hits.insert(5i64, unscored(5));
    hits.insert(3i64, unscored(3));
    hits.insert(4i64, scored(4));
    let queue: VecDeque<(i64, HitData)> = unprocessed_queue(&hits);
    assert_eq!(queue, VecDeque::from(vec![(3, unscored(3)), (5, unscored(5))]));
    assert!(unprocessed_queue(&HashMap::new()).is_empty());
}

#[test]
fn ready_with_nothing_queued_changes_nothing() {
    let mut m = started(&[]);
    let first = m.hit_processor_ready();
    assert!(first.request.is_none());
    assert!(first.skipped.is_empty());
    assert!(m.is_ready());
    assert!(m.pending().is_empty());
    let second = m.hit_processor_ready();
    assert!(second.request.is_none());
    assert!(second.skipped.is_empty());
    assert!(m.is_ready());
    assert!(m.pending().is_empty());
    assert!(m.storage().loads.is_empty());
}

#[test]
fn new_hit_goes_straight_to_a_free_processor() {
    let mut m = started(&[]);
    m.hit_processor_ready();
    let out = m.new_hit(10, clip(1), target(1)).unwrap();
    match out {
        Some(Event::ProcessHit { timestamp, clip, target_info }) => {
            assert_eq!(timestamp, 10);
            assert_eq!(clip.1, 20);
            assert_eq!(clip.0[0].get_pixel(0, 0), (1, 0, 0));
            assert_eq!(target_info, target(1));
        }
        _ => panic!("the hit is sent on"),
    }
    assert!(!m.is_ready());
    assert!(m.pending().is_empty());
    assert_eq!(m.storage().data[&10], unscored(1));
    assert!(m.storage().clips.contains_key(&10));
}

#[test]
fn new_hit_waits_before_the_first_ready_signal() {
    let mut m = started(&[]);
    assert!(m.new_hit(10, clip(1), target(1)).unwrap().is_none());
    assert_eq!(m.pending(), vec![10]);
    assert!(!m.is_ready());
}

#[test]
fn second_hit_is_requested_after_the_first_is_done() {
    let mut m = started(&[]);
    m.hit_processor_ready();
    // the processor takes the first hit and is busy
    assert_eq!(request_of(&m.new_hit(10, clip(1), target(1)).unwrap()), Some(10));
    // two hits are recorded meanwhile
    assert_eq!(request_of(&m.new_hit(20, clip(2), target(2)).unwrap()), None);
    assert_eq!(request_of(&m.new_hit(30, clip(3), target(3)).unwrap()), None);
    assert_eq!(m.pending(), vec![20, 30]);
    // the first result comes back, and the processor says it is free
    assert_eq!(m.processed_hit(10, result(9)).unwrap(), HitData {
        target_info: target(1),
        processed: Some(result(9)),
    });
    let out = m.hit_processor_ready();
    match out.request {
        Some(Event::ProcessHit { timestamp, clip, target_info }) => {
            assert_eq!(timestamp, 20);
            assert_eq!(clip.0[0].get_pixel(0, 0), (2, 0, 0));
            assert_eq!(target_info, target(2));
        }
        _ => panic!("the next hit is requested"),
    }
    assert!(out.skipped.is_empty());
    assert!(!m.is_ready());
    assert_eq!(m.pending(), vec![30]);
    assert_eq!(request_of(&m.hit_processor_ready().request), Some(30));
    assert!(m.pending().is_empty());
    assert!(!m.is_ready());
    assert_eq!(request_of(&m.hit_processor_ready().request), None);
    assert!(m.is_ready());
}

#[test]
fn failed_store_drops_the_hit() {
    let mut s = MemStorage::default();
    s.fail_new_hit = true;
    let mut m = HitManager::start(s).0;
    assert!(matches!(m.new_hit(10, clip(1), target(1)), Err(StorageError::Io(_))));
    assert!(m.pending().is_empty());
    assert!(!m.is_ready());
    m.hit_processor_ready();
    assert!(matches!(m.new_hit(11, clip(1), target(1)), Err(StorageError::Io(_))));
    assert!(m.is_ready());
    assert!(m.pending().is_empty());
}

#[test]
fn unreadable_clips_are_skipped_for_good() {
    let mut s = stored(&[(1, unscored(1)), (2, unscored(2)), (3, unscored(3)), (4, unscored(4))]);
    s.unreadable_clips = vec![1, 2];
    let mut m = HitManager::start(s).0;
    let out = m.hit_processor_ready();
    assert_eq!(request_of(&out.request), Some(3));
    assert_eq!(out.skipped.iter().map(|(t, _)| *t).collect::<Vec<_>>(), vec![1, 2]);
    assert!(matches!(out.skipped[0].1, StorageError::Codec(_)));
    assert_eq!(m.pending(), vec![4]);
    assert!(!m.is_ready());
    assert_eq!(m.storage().loads, vec![1, 2, 3]);
}

#[test]
fn processor_stays_free_when_no_clip_can_be_read() {
    let mut s = stored(&[(1, unscored(1)), (2, unscored(2))]);
    s.unreadable_clips = vec![1, 2];
    let mut m = HitManager::start(s).0;
    let out = m.hit_processor_ready();
    assert!(out.request.is_none());
    assert_eq!(out.skipped.len(), 2);
    assert!(m.is_ready());
    assert!(m.pending().is_empty());
}

#[test]
fn same_timestamp_is_queued_once() {
    let mut m = started(&[]);
    m.new_hit(10, clip(1), target(1)).unwrap();
    m.new_hit(20, clip(2), target(2)).unwrap();
    m.new_hit(10, clip(3), target(3)).unwrap();
    assert_eq!(m.pending(), vec![10, 20]);
    match m.hit_processor_ready().request {
        Some(Event::ProcessHit { timestamp, target_info, .. }) => {
            assert_eq!(timestamp, 10);
            assert_eq!(target_info, target(3));
        }
        _ => panic!("the oldest hit is requested"),
    }
}

#[test]
fn score_is_attached_and_written_back() {
    let mut m = started(&[(5, unscored(7))]);
    let written = m.processed_hit(5, result(3)).unwrap();
    assert_eq!(written, HitData { target_info: target(7), processed: Some(result(3)) });
    assert_eq!(m.storage().data[&5], written);
    assert_eq!(m.pending(), vec![5]);
    assert!(!m.is_ready());
}

#[test]
fn score_for_an_unknown_hit_is_reported() {
    let mut m = started(&[]);
    assert!(matches!(m.processed_hit(5, result(3)), Err(StorageError::Malformed(_))));
}

#[test]
fn score_that_cannot_be_written_is_reported() {
    let mut s = stored(&[(5, unscored(7))]);
    s.fail_save_data = true;
    let mut m = HitManager::start(s).0;
    assert!(matches!(m.processed_hit(5, result(3)), Err(StorageError::Io(_))));
    assert_eq!(m.storage().data[&5], unscored(7));
}

#[test]
fn attach_result_sets_the_score_and_keeps_the_target() {
    assert_eq!(attach_result(unscored(4), result(1)), HitData {
        target_info: target(4),
        processed: Some(result(1)),
    });
    assert_eq!(attach_result(scored(4), result(8)).processed, Some(result(8)));
}

#[test]
fn clip_request_does_not_touch_the_queue() {
    let mut m = started(&[(5, unscored(7)), (6, scored(1))]);
    m.hit_processor_ready();
    let before = (m.is_ready(), m.pending());
    match m.request_hit_clip(6) {
        Ok(Event::LoadedHitClip { timestamp, clip }) => {
            assert_eq!(timestamp, 6);
            assert_eq!(clip.0[0].get_pixel(0, 0), (6, 0, 0));
        }
        _ => panic!("the clip is there"),
    }
    assert!(matches!(m.request_hit_clip(99), Err(StorageError::Io(_))));
    assert_eq!((m.is_ready(), m.pending()), before);
}

#[test]
fn never_more_requests_than_ready_signals() {
    let mut m = started(&[(1, unscored(1)), (2, unscored(2))]);
    let mut requests = 0u32;
    let mut readies = 0u32;
    let mut t = 100i64;
    // a fixed mix of commands; 0: new hit, 1: ready, 2: score, 3: clip request
    let script = [0, 0, 1, 0, 2, 1, 1, 0, 3, 1, 1, 1, 0, 0, 1, 2, 1, 1, 1, 1, 0];
    for &step in script.iter() {
        match step {
            0 => {
                t += 1;
                if request_of(&m.new_hit(t, clip(0), target(0)).unwrap()).is_some() {
                    requests += 1;
                }
            }
            1 => {
                readies += 1;
                if m.hit_processor_ready().request.is_some() {
                    requests += 1;
                }
            }
            2 => {
                let _ = m.processed_hit(1, result(0));
            }
            _ => {
                let _ = m.request_hit_clip(1);
            }
        }
        assert!(requests + if m.is_ready() { 1 } else { 0 } <= readies);
    }
    assert_eq!(requests, 9);
}

/// A store that has no name for any hit.
struct NamelessStorage;

impl HitStorage for NamelessStorage {
    fn save_clip(&mut self, _: i64, _: (&[Raster], u32)) -> Result<(), StorageError> {
        Err(StorageError::Unnameable)
    }

    fn load_clip(&mut self, _: i64) -> Result<(Vec<Raster>, u32), StorageError> {
        Err(StorageError::Unnameable)
    }

    fn save_data(&mut self, _: i64, _: HitData) -> Result<(), StorageError> {
        Err(StorageError::Unnameable)
    }

    fn load_data(&mut self, _: i64) -> Result<HitData, StorageError> {
        Err(StorageError::Unnameable)
    }

    fn new_hit(&mut self, _: i64, _: (&[Raster], u32), _: HitData) -> Result<(), StorageError> {
        Err(StorageError::Unnameable)
    }

    fn get_unprocessed_hits_old_sorted(&mut self) -> Result<Vec<i64>, StorageError> {
        Ok(Vec::new())
    }

    fn get_all_hits(&mut self) -> Result<HashMap<i64, HitData>, StorageError> {
        Ok(HashMap::new())
    }
}

#[test]
fn failures_of_the_store_are_handed_on_as_they_are() {
    let mut m = HitManager::start(NamelessStorage).0;
    m.hit_processor_ready();
    assert!(matches!(m.new_hit(i64::MAX, clip(1), target(1)), Err(StorageError::Unnameable)));
    assert!(matches!(m.processed_hit(1, result(1)), Err(StorageError::Unnameable)));
    assert!(matches!(m.request_hit_clip(1), Err(StorageError::Unnameable)));
    assert!(m.is_ready());
    assert!(m.pending().is_empty());
}

#[test]
fn a_hit_is_offered_only_to_a_free_processor() {
    let mut m = started(&[(1, unscored(1))]);
    // busy until the first ready signal
    assert!(m.offer(5, clip(5), target(5)).is_none());
    assert_eq!(m.pending(), vec![1]);
    assert!(!m.is_ready());
    let mut m = started(&[]);
    m.hit_processor_ready();
    match m.offer(5, clip(5), target(5)) {
        Some(Event::ProcessHit { timestamp, clip, target_info }) => {
            assert_eq!(timestamp, 5);
            assert_eq!(clip.0[0].get_pixel(0, 0), (5, 0, 0));
            assert_eq!(target_info, target(5));
        }
        _ => panic!("the hit is sent on"),
    }
    assert!(!m.is_ready());
    assert!(m.offer(6, clip(6), target(6)).is_none());
    // nothing was handed to the store
    assert!(m.storage().data.is_empty());
}
