//! What the pipeline asks of a hit store.

use std::collections::HashMap;
use vstd::prelude::*;

use crate::capturer::Timestamp;
use crate::hits::processor::HitProcessResult;
use crate::targets::TargetInfo;
use crate::vision::raster::Raster;

pub mod file;

verus! {

/// The durable record of one hit.
#[derive(Clone, Copy, Debug, PartialEq, Eq)]
pub struct HitData {
    /// The target as it was recognised when the hit began.
    pub target_info: TargetInfo,
    /// The scoring result; absent until the hit has been scored.
    pub processed: Option<HitProcessResult>,
}

/// Why a store could not do what it was asked.
#[derive(Debug)]
pub enum StorageError {
    /// A container could not be created, read or written.
    Io(String),
    /// The clip could not be encoded or decoded.
    Codec(String),
    /// A metadata record could not be understood.
    Malformed(String),
    /// The timestamp has no container name.
    Unnameable,
}

/// The failure that an answer without a value tells of, if it tells of one.
pub open spec fn failure_of(answer: Result<(), StorageError>) -> Option<StorageError> {
    match answer {
        Ok(_) => None,
        Err(e) => Some(e),
    }
}

/// A durable store of hit clips and hit records, keyed by timestamp.
///
/// Nothing is assumed about what a store answers: everything that calls one
/// is verified for every answer. So that callers can say what they asked and
/// what they did with the answer, each store has a relation for each of its
/// calls that the pipeline makes: the relation holds of the store before the
/// call, what was handed to the call, the store after it and the answer. What
/// the relation is, is up to the store; of a store that does not say, every
/// answer counts as possible.
pub trait HitStorage {
    /// `load_clip`, called on this store for the hit at `timestamp`, may
    /// leave the store `after` and give `answer`.
    open spec fn load_clip_answer(
        &self,
        timestamp: Timestamp,
        after: &Self,
        answer: Result<(Vec<Raster>, u32), StorageError>,
    ) -> bool {
        true
    }

    /// `save_data`, called on this store with `data` for the hit at
    /// `timestamp`, may leave the store `after`, and may fail with `failure`
    /// if that is one, or succeed if it is none.
    open spec fn save_data_answer(
        &self,
        timestamp: Timestamp,
        data: HitData,
        after: &Self,
        failure: Option<StorageError>,
    ) -> bool {
        true
    }

    /// `load_data`, called on this store for the hit at `timestamp`, may
    /// leave the store `after` and give `answer`.
    open spec fn load_data_answer(
        &self,
        timestamp: Timestamp,
        after: &Self,
        answer: Result<HitData, StorageError>,
    ) -> bool {
        true
    }

    /// `new_hit`, called on this store with the clip of `frames` at `fps`
    /// and with `data` for the hit at `timestamp`, may leave the store
    /// `after`, and may fail with `failure` if that is one, or succeed if it
    /// is none.
    open spec fn new_hit_answer(
        &self,
        timestamp: Timestamp,
        frames: Seq<Raster>,
        fps: u32,
        data: HitData,
        after: &Self,
        failure: Option<StorageError>,
    ) -> bool {
        true
    }

    /// `get_all_hits`, called on this store, may leave the store `after` and
    /// give `answer`.
    open spec fn get_all_hits_answer(
        &self,
        after: &Self,
        answer: Result<HashMap<Timestamp, HitData>, StorageError>,
    ) -> bool {
        true
    }

    fn save_clip(&mut self, timestamp: Timestamp, clip: (&[Raster], u32)) -> Result<
        (),
        StorageError,
    >;

    fn load_clip(&mut self, timestamp: Timestamp) -> (answer: Result<
        (Vec<Raster>, u32),
        StorageError,
    >)
        ensures
            old(self).load_clip_answer(timestamp, final(self), answer),
    ;

    fn save_data(&mut self, timestamp: Timestamp, data: HitData) -> (answer: Result<
        (),
        StorageError,
    >)
        ensures
            old(self).save_data_answer(timestamp, data, final(self), failure_of(answer)),
    ;

    fn load_data(&mut self, timestamp: Timestamp) -> (answer: Result<HitData, StorageError>)
        ensures
            old(self).load_data_answer(timestamp, final(self), answer),
    ;

    /// Persists clip and record of a new hit as one step.
    fn new_hit(&mut self, timestamp: Timestamp, clip: (&[Raster], u32), data: HitData) -> (answer:
        Result<(), StorageError>)
        ensures
            old(self).new_hit_answer(
                timestamp,
                clip.0@,
                clip.1,
                data,
                final(self),
                failure_of(answer),
            ),
    ;

    /// Timestamps of the hits that have not been scored, oldest first.
    fn get_unprocessed_hits_old_sorted(&mut self) -> Result<Vec<Timestamp>, StorageError>;

    fn get_all_hits(&mut self) -> (answer: Result<HashMap<Timestamp, HitData>, StorageError>)
        ensures
            old(self).get_all_hits_answer(final(self), answer),
    ;
}

} // verus!
