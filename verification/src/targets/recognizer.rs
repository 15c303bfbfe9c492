//! The target recognizer: when to look for the target, and how.
//!
//! Recognition is too costly to run on every frame. The recognizer looks at
//! the most recent camera frame once per interval, and not at all if that
//! frame is the one it looked at last.

use std::convert::Infallible;
use std::sync::Arc;
use vstd::prelude::*;

use crate::capturer::{CapturedFrame, Timestamp};
use crate::targets::{simple, TargetInfo};
use crate::util::point::MyPoint;
use crate::vision::frame::{find_rectangle_vertices, point_lists, shows_rectangle};

verus! {

/// Time from one recognition cycle to the next, in milliseconds.
pub const RECOGNITION_INTERVAL: i64 = 1000;

/// Images wider or taller than this are not searched for contours.
pub const CONTOUR_LIMIT: u32 = 0x7fff;

/// Commands understood by the target recognizer. There are none yet: no
/// value of this type can be made. A worker that waits for one wakes up when
/// the channel closes.
pub enum TargetRecognizerCommand {
    /// Holds the place of commands to come.
    Never(Infallible),
}

/// What the recognizer is to do next.
#[derive(Clone, Copy, Debug, PartialEq, Eq, Structural)]
pub enum RecognizerStep {
    /// Wait this many milliseconds, or until a command comes, and ask again.
    Wait(u64),
    /// There is no new frame: this cycle is skipped.
    Skip,
    /// Look for the target on the most recent frame, then call `finished`.
    Recognize,
}

/// The state of the recognizer as a value.
pub struct RecognizerView {
    /// When the last cycle ended.
    pub last_cycle_at: Timestamp,
    /// Number of the frame that was looked at last.
    pub processed: Option<u64>,
}

/// How long to wait at `now` for the next cycle, when the last one ended at
/// `last`: what is left of the interval, and a whole interval if the clock
/// has gone back.
pub open spec fn time_to_wait(last: Timestamp, now: Timestamp) -> int {
    let elapsed = now - last;
    if elapsed >= RECOGNITION_INTERVAL {
        0
    } else if elapsed < 0 {
        RECOGNITION_INTERVAL as int
    } else {
        RECOGNITION_INTERVAL - elapsed
    }
}

impl RecognizerView {
    /// What the recognizer does at `now`, when the most recent frame has the
    /// number `latest`.
    pub open spec fn step(self, now: Timestamp, latest: Option<u64>) -> (RecognizerView, RecognizerStep) {
        if time_to_wait(self.last_cycle_at, now) > 0 {
            (self, RecognizerStep::Wait(time_to_wait(self.last_cycle_at, now) as u64))
        } else if latest is None || latest == self.processed {
            (RecognizerView { last_cycle_at: now, ..self }, RecognizerStep::Skip)
        } else {
            (RecognizerView { processed: latest, ..self }, RecognizerStep::Recognize)
        }
    }
}

/// The target recognizer.
pub struct TargetRecognizer {
    last_cycle_at: Timestamp,
    processed: Option<u64>,
}

impl View for TargetRecognizer {
    type V = RecognizerView;

    closed spec fn view(&self) -> RecognizerView {
        RecognizerView { last_cycle_at: self.last_cycle_at, processed: self.processed }
    }
}

impl TargetRecognizer {
    /// A recognizer started at `now`. Its first cycle is due one interval
    /// later.
    pub fn new(now: Timestamp) -> (r: Self)
        ensures
            r@ == (RecognizerView { last_cycle_at: now, processed: None }),
    {
        TargetRecognizer { last_cycle_at: now, processed: None }
    }

    /// Decides what to do at `now`. `latest` is the most recent camera frame,
    /// if there is one yet.
    pub fn poll(&mut self, now: Timestamp, latest: Option<&Arc<CapturedFrame>>) -> (step:
        RecognizerStep)
        ensures
            (final(self)@, step) == old(self)@.step(
                now,
                match latest {
                    Some(frame) => Some(frame.id),
                    None => None,
                },
            ),
    {
        let elapsed: i128 = (now as i128) - (self.last_cycle_at as i128);
        if elapsed < 0 {
            return RecognizerStep::Wait(RECOGNITION_INTERVAL as u64);
        }
        if elapsed < RECOGNITION_INTERVAL as i128 {
            return RecognizerStep::Wait((RECOGNITION_INTERVAL as i128 - elapsed) as u64);
        }
        match latest {
            None => {
                self.last_cycle_at = now;
                RecognizerStep::Skip
            },
            Some(frame) => {
                let seen = match self.processed {
                    Some(id) => id == frame.id,
                    None => false,
                };
                if seen {
                    self.last_cycle_at = now;
                    RecognizerStep::Skip
                } else {
                    self.processed = Some(frame.id);
                    RecognizerStep::Recognize
                }
            },
        }
    }

    /// Ends a cycle in which the target was looked for. The next cycle is due
    /// one interval after `now`.
    pub fn finished(&mut self, now: Timestamp)
        ensures
            final(self)@ == (RecognizerView { last_cycle_at: now, ..old(self)@ }),
    {
        self.last_cycle_at = now;
    }
}

/// The borders of the bright regions of a grey image, as `imageproc` finds
/// them: for each border its points, in the order in which `imageproc` lists
/// borders and points. The image is `width` by `height` and has one byte per
/// pixel; every pixel that is not zero counts as bright.
pub uninterp spec fn contours_found(width: nat, height: nat, luma: Seq<u8>) -> Seq<
    Seq<MyPoint<u32>>,
>;

/// Finds the borders of the bright regions of a grey image.
///
/// Calls `imageproc::contours::find_contours` on the image made of `luma`
/// and keeps the points of each border. The image must hold one byte per
/// pixel; the bounds on its size keep the 32-bit signed arithmetic of the
/// search from overflowing. Not verified: that the result is the value
/// `contours_found` stands for is the meaning of that name.
#[verifier::external_body]
fn trace_contours(width: u32, height: u32, luma: &Vec<u8>) -> (contours: Vec<Vec<MyPoint<u32>>>)
    requires
        luma@.len() == width * height,
        width <= CONTOUR_LIMIT,
        height <= CONTOUR_LIMIT,
    ensures
        point_lists(contours@) == contours_found(width as nat, height as nat, luma@),
{
    let image = image::GrayImage::from_raw(width, height, luma.clone()).unwrap();
    imageproc::contours::find_contours::<u32>(&image)
        .into_iter()
        .map(|c| c.points.into_iter().map(|p| MyPoint { x: p.x, y: p.y }).collect())
        .collect()
}

/// The target that the edge image `edges` shows, if it shows one. `edges` is
/// `width` by `height` with one byte per pixel, not zero where an edge was
/// found. The corners that are found count as a target only if they are the
/// corners of a simple quadrilateral. Nothing is looked for in an image that
/// does not hold one byte per pixel or is wider or taller than
/// `CONTOUR_LIMIT`.
pub fn find_target(width: u32, height: u32, edges: &Vec<u8>) -> (target: Option<TargetInfo>)
    ensures
        target matches Some(t) ==> t.wf(),
        searched(width, height, edges@) ==> match target {
            Some(t) => shows_rectangle(
                contours_found(width as nat, height as nat, edges@),
                Some(t.rect),
            ),
            None => shows_rectangle(contours_found(width as nat, height as nat, edges@), None)
                || exists|rect: [MyPoint<u32>; 4]|
                #[trigger] shows_rectangle(
                    contours_found(width as nat, height as nat, edges@),
                    Some(rect),
                ) && !simple(rect),
        },
        !searched(width, height, edges@) ==> target is None,
{
    if width > CONTOUR_LIMIT || height > CONTOUR_LIMIT {
        return None;
    }
    assert(width * height <= 0x7fff * 0x7fff) by (nonlinear_arith)
        requires
            0 <= width <= 0x7fff,
            0 <= height <= 0x7fff,
    ;
    if edges.len() as u64 != (width as u64) * (height as u64) {
        return None;
    }
    let contours = trace_contours(width, height, edges);
    match find_rectangle_vertices(&contours) {
        Some(rect) => TargetInfo::new(rect),
        None => None,
    }
}

/// An image of this size with these bytes is searched for a target.
pub open spec fn searched(width: u32, height: u32, edges: Seq<u8>) -> bool {
    edges.len() == width * height && width <= CONTOUR_LIMIT && height <= CONTOUR_LIMIT
}

} // verus!
