//! Scoring of a hit clip.

use vstd::prelude::*;

use crate::bus::Event;
use crate::capturer::Timestamp;
use crate::targets::TargetInfo;
use crate::vision::laser::{find_red_laser, laser_centroid, Centroid};
use crate::vision::raster::{Raster, RasterView};

verus! {

/// The score every hit gets until hits are rated by where they land.
pub const PLACEHOLDER_SCORE: u32 = 0;

/// What scoring found out about a hit.
#[derive(Clone, Copy, Debug, PartialEq, Eq)]
pub struct HitProcessResult {
    pub score: u32,
    /// The laser spot in the first frame that shows one.
    pub hit_pos: Option<Centroid>,
}

/// Requests to the hit processor.
pub enum HitProcessorCommand {
    ProcessHit { timestamp: Timestamp, clip: (Vec<Raster>, u32), target_info: TargetInfo },
}

/// The rasters of `frames` as values.
pub open spec fn raster_views(frames: Seq<Raster>) -> Seq<RasterView> {
    Seq::new(frames.len(), |i: int| frames[i]@)
}

/// The laser spot of the first frame, from index `from` on, that shows one.
pub open spec fn first_spot(frames: Seq<RasterView>, from: int) -> Option<Centroid>
    decreases frames.len() - from,
{
    if from < 0 || from >= frames.len() {
        None
    } else if laser_centroid(frames[from]) is Some {
        laser_centroid(frames[from])
    } else {
        first_spot(frames, from + 1)
    }
}

/// The result of scoring a clip with these frames.
pub open spec fn scored(frames: Seq<RasterView>) -> HitProcessResult {
    HitProcessResult { score: PLACEHOLDER_SCORE, hit_pos: first_spot(frames, 0) }
}

/// Scores a clip: goes through its frames in order and reports the laser spot
/// of the first frame that shows one.
pub fn process_clip(frames: &Vec<Raster>) -> (result: HitProcessResult)
    ensures
        result == scored(raster_views(frames@)),
{
    let ghost views = raster_views(frames@);
    let n = frames.len();
    let mut i: usize = 0;
    while i < n
        invariant
            n == frames@.len(),
            views == raster_views(frames@),
            0 <= i <= n,
            first_spot(views, 0) == first_spot(views, i as int),
        decreases n - i,
    {
        let found = find_red_laser(&frames[i]);
        assert(views[i as int] == frames@[i as int]@);
        if found.is_some() {
            return HitProcessResult { score: PLACEHOLDER_SCORE, hit_pos: found };
        }
        i = i + 1;
    }
    HitProcessResult { score: PLACEHOLDER_SCORE, hit_pos: None }
}

/// What the processor says when it starts: that it can take a request.
pub fn startup() -> (event: Event)
    ensures
        event == Event::HitProcessorReady,
{
    Event::HitProcessorReady
}

/// Carries out a request: scores the clip and reports the result under the
/// timestamp of the hit, then says that the processor is free again. The two
/// events are to be sent in this order.
pub fn handle(command: HitProcessorCommand) -> (out: (Event, Event))
    ensures
        command matches HitProcessorCommand::ProcessHit { timestamp, clip, target_info } && out.0
            == (Event::ProcessedHit { timestamp, processed: scored(raster_views(clip.0@)) }),
        out.1 == Event::HitProcessorReady,
{
    match command {
        HitProcessorCommand::ProcessHit { timestamp, clip, target_info } => {
            let processed = process_clip(&clip.0);
            (Event::ProcessedHit { timestamp, processed }, Event::HitProcessorReady)
        },
    }
}

} // verus!
