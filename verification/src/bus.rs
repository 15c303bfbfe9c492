//! The event bus: what travels over it and where each event goes.

use std::collections::HashMap;
use std::sync::Arc;
use vstd::prelude::*;

use crate::capturer::{share_frame, CapturedFrame, Timestamp};
use crate::hits::detector::HitDetectorCommand;
use crate::hits::manager::HitManagerCommand;
use crate::hits::processor::{HitProcessResult, HitProcessorCommand};
use crate::hits::storage::HitData;
use crate::hits::LaserInfo;
use crate::recorder::{pushed, Recorder};
use crate::targets::TargetInfo;
use crate::vision::draw::{laser_marked, mark_laser};
use crate::vision::raster::Raster;

verus! {

/// The part of the camera image to look at, as fractions of its width and
/// height in ten-thousandths: left, top, right, bottom.
pub type Stencil = (u32, u32, u32, u32);

/// Everything the workers and the presentation layer tell the bus.
pub enum Event {
    /// The capture source has a new frame.
    NewFrame(Arc<CapturedFrame>),
    /// The operator chose another stencil.
    NewStencil(Stencil),
    /// The hit detector saw a hit end.
    NewHit { timestamp: Timestamp, clip: (Vec<Raster>, u32), target_info: TargetInfo },
    /// The hit processor can take a request.
    HitProcessorReady,
    /// The hit manager wants a hit scored.
    ProcessHit { timestamp: Timestamp, clip: (Vec<Raster>, u32), target_info: TargetInfo },
    /// The hit processor has scored a hit.
    ProcessedHit { timestamp: Timestamp, processed: HitProcessResult },
    /// The operator wants to see the clip of a hit.
    RequestHitClip { timestamp: Timestamp },
    /// The hit manager has read all stored hits.
    LoadedHits { hits: HashMap<Timestamp, HitData> },
    /// The hit manager has read the clip of a hit.
    LoadedHitClip { timestamp: Timestamp, clip: (Vec<Raster>, u32) },
}

/// What the presentation layer tells the bus.
pub enum AppCommand {
    NewFrame(Arc<CapturedFrame>),
    NewStencil(Stencil),
    RequestHitClip { timestamp: Timestamp },
}

/// What the bus tells the presentation layer.
pub enum AppMessage {
    /// A camera frame to show, with the unwarped target where there is one.
    FrameReady { camera_frame: Arc<Raster>, target_frame: Option<Arc<Raster>> },
    /// All stored hits.
    LoadedHits { hits: HashMap<Timestamp, HitData> },
    /// The clip of one hit.
    LoadedHitClip { timestamp: Timestamp, clip: (Vec<Raster>, u32) },
    /// A hit that has just been recorded.
    NewHit { timestamp: Timestamp, hit: HitData },
}

/// Width of the unwarped target frame, in pixels.
pub const TARGET_WIDTH: u32 = 600;

/// Height of the unwarped target frame, in pixels.
pub const TARGET_HEIGHT: u32 = 800;

/// A message on its way to one of the workers or to the presentation layer.
pub enum Dispatch {
    Detector(HitDetectorCommand),
    Manager(HitManagerCommand),
    Processor(HitProcessorCommand),
    App(AppMessage),
}

/// Where an event goes. A new hit goes to the hit manager and is shown to the
/// operator; ready signals, scores and clip requests go to the hit manager;
/// scoring requests go to the hit processor; what the hit manager has read
/// goes to the presentation layer. Frames take the way of `on_new_frame`, and
/// a stencil goes nowhere.
pub open spec fn routed(event: Event) -> Seq<Dispatch> {
    match event {
        Event::NewFrame(_) => Seq::empty(),
        Event::NewStencil(_) => Seq::empty(),
        Event::NewHit { timestamp, clip, target_info } => seq![
            Dispatch::Manager(HitManagerCommand::NewHit { timestamp, clip, target_info }),
            Dispatch::App(
                AppMessage::NewHit { timestamp, hit: HitData { target_info, processed: None } },
            ),
        ],
        Event::HitProcessorReady => seq![Dispatch::Manager(HitManagerCommand::HitProcessorReady)],
        Event::ProcessHit { timestamp, clip, target_info } => seq![
            Dispatch::Processor(HitProcessorCommand::ProcessHit { timestamp, clip, target_info }),
        ],
        Event::ProcessedHit { timestamp, processed } => seq![
            Dispatch::Manager(HitManagerCommand::ProcessedHit { timestamp, processed }),
        ],
        Event::RequestHitClip { timestamp } => seq![
            Dispatch::Manager(HitManagerCommand::RequestHitClip { timestamp }),
        ],
        Event::LoadedHits { hits } => seq![Dispatch::App(AppMessage::LoadedHits { hits })],
        Event::LoadedHitClip { timestamp, clip } => seq![
            Dispatch::App(AppMessage::LoadedHitClip { timestamp, clip }),
        ],
    }
}

/// Routes an event: the messages to send for it, in the order to send them.
pub fn route(event: Event) -> (out: Vec<Dispatch>)
    ensures
        out@ == routed(event),
{
    let mut out: Vec<Dispatch> = Vec::new();
    match event {
        Event::NewFrame(_) => {},
        Event::NewStencil(_) => {},
        Event::NewHit { timestamp, clip, target_info } => {
            out.push(Dispatch::Manager(HitManagerCommand::NewHit { timestamp, clip, target_info }));
            out.push(
                Dispatch::App(
                    AppMessage::NewHit { timestamp, hit: HitData { target_info, processed: None } },
                ),
            );
        },
        Event::HitProcessorReady => {
            out.push(Dispatch::Manager(HitManagerCommand::HitProcessorReady));
        },
        Event::ProcessHit { timestamp, clip, target_info } => {
            out.push(
                Dispatch::Processor(HitProcessorCommand::ProcessHit { timestamp, clip, target_info }),
            );
        },
        Event::ProcessedHit { timestamp, processed } => {
            out.push(Dispatch::Manager(HitManagerCommand::ProcessedHit { timestamp, processed }));
        },
        Event::RequestHitClip { timestamp } => {
            out.push(Dispatch::Manager(HitManagerCommand::RequestHitClip { timestamp }));
        },
        Event::LoadedHits { hits } => {
            out.push(Dispatch::App(AppMessage::LoadedHits { hits }));
        },
        Event::LoadedHitClip { timestamp, clip } => {
            out.push(Dispatch::App(AppMessage::LoadedHitClip { timestamp, clip }));
        },
    }
    assert(out@ =~= routed(event));
    out
}

/// The event that a command of the presentation layer stands for.
pub open spec fn accepted(command: AppCommand) -> Event {
    match command {
        AppCommand::NewFrame(frame) => Event::NewFrame(frame),
        AppCommand::NewStencil(stencil) => Event::NewStencil(stencil),
        AppCommand::RequestHitClip { timestamp } => Event::RequestHitClip { timestamp },
    }
}

/// Takes a command of the presentation layer onto the bus.
pub fn accept(command: AppCommand) -> (event: Event)
    ensures
        event == accepted(command),
{
    match command {
        AppCommand::NewFrame(frame) => Event::NewFrame(frame),
        AppCommand::NewStencil(stencil) => Event::NewStencil(stencil),
        AppCommand::RequestHitClip { timestamp } => Event::RequestHitClip { timestamp },
    }
}

/// What the bus does with the unwarped target of a camera frame.
pub struct TargetFrame {
    /// The command that hands the target frame to the hit detector.
    pub detector: HitDetectorCommand,
    /// The target frame to show, with the laser marked on it where one is
    /// known.
    pub shown: Arc<Raster>,
}

/// The unwarped target of the camera frame `camera` goes three ways: into the
/// recorder, to the hit detector, and to the operator. Recorder and detector
/// get it as a frame with the number and the time of the camera frame; the
/// operator gets it with the laser marked at `laser`, if a position is known.
/// The mark is never part of what is recorded.
pub fn on_target_frame(
    camera: &Arc<CapturedFrame>,
    unwarped: Raster,
    laser: Option<LaserInfo>,
    recorder: &mut Recorder,
) -> (out: TargetFrame)
    requires
        laser matches Some(info) ==> info.pos.wf(),
    ensures
        out.detector matches HitDetectorCommand::NewFrame(frame) && {
            &&& frame.id == camera.id
            &&& frame.timestamp == camera.timestamp
            &&& frame.image@ == unwarped@
            &&& final(recorder)@ == pushed(old(recorder)@, frame)
        },
        out.shown@ == match laser {
            Some(info) => laser_marked(unwarped@, info.pos),
            None => unwarped@,
        },
{
    let frame = Arc::new(
        CapturedFrame { id: camera.id, timestamp: camera.timestamp, image: unwarped.clone() },
    );
    recorder.push_frame(share_frame(&frame));
    let shown = match laser {
        Some(info) => mark_laser(unwarped, &info.pos),
        None => unwarped,
    };
    TargetFrame { detector: HitDetectorCommand::NewFrame(frame), shown: Arc::new(shown) }
}

} // verus!
