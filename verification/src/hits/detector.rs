//! The hit detector: a two-state machine driven by one target frame at a time.
//!
//! While no laser is seen the detector is idle. The first frame that shows the
//! laser starts a recording, which begins with the recent frames the recorder
//! still holds; every further frame that shows the laser is added to it. The
//! first frame that shows no laser ends the recording and gives the hit. That
//! last frame is not part of the clip.

use std::sync::Arc;
use vstd::prelude::*;

use crate::bus::Event;
use crate::capturer::{share_frame, CapturedFrame, Timestamp};
use crate::hits::processor::raster_views;
use crate::hits::LaserInfo;
use crate::recorder::{pushed, retained, Recorder};
use crate::targets::TargetInfo;
use crate::vision::laser::{find_red_laser, laser_centroid};
use crate::vision::raster::{Raster, RasterView};

verus! {

/// Frame rate that every clip is encoded at.
pub const CLIP_FPS: u32 = 20;

/// What the hit detector is asked to do.
pub enum HitDetectorCommand {
    /// Look at this unwarped target frame.
    NewFrame(Arc<CapturedFrame>),
}

/// The detector's state as a value.
pub struct DetectorView {
    /// A laser was seen in the last frame.
    pub recording: bool,
    /// The frames gathered for the hit under way.
    pub clip: Seq<Arc<CapturedFrame>>,
    /// The target the hit under way is attributed to.
    pub target: Option<TargetInfo>,
    /// When the last hit ended.
    pub last_hit_end: Timestamp,
}

/// A hit as the detector reports it.
pub struct HitView {
    pub timestamp: Timestamp,
    pub frames: Seq<RasterView>,
    pub fps: u32,
    pub target_info: TargetInfo,
}

/// One step of the detector as a value: the state it leaves and what it
/// publishes.
pub struct StepView {
    pub state: DetectorView,
    pub laser: Option<LaserInfo>,
    pub hit: Option<HitView>,
}

/// What the detector is given for one step.
pub struct Tick {
    /// The unwarped target frame to look at.
    pub frame: Arc<CapturedFrame>,
    /// What the recorder holds at that moment.
    pub recorded: Seq<Arc<CapturedFrame>>,
    /// The target as it is recognised at that moment.
    pub target: TargetInfo,
}

impl Tick {
    /// The frame of this step shows the laser.
    pub open spec fn lit(self) -> bool {
        laser_centroid(self.frame.image@) is Some
    }
}

/// The frames of `frames` taken after `t`, in their old order.
pub open spec fn taken_after(frames: Seq<Arc<CapturedFrame>>, t: Timestamp) -> Seq<
    Arc<CapturedFrame>,
> {
    frames.filter(|f: Arc<CapturedFrame>| f.timestamp > t)
}

/// The images of `frames`.
pub open spec fn images(frames: Seq<Arc<CapturedFrame>>) -> Seq<RasterView> {
    Seq::new(frames.len(), |i: int| frames[i].image@)
}

impl DetectorView {
    /// The state of a detector started at `start`.
    pub open spec fn idle(start: Timestamp) -> DetectorView {
        DetectorView { recording: false, clip: Seq::empty(), target: None, last_hit_end: start }
    }

    /// A recording has a target, and nothing is gathered outside one.
    pub open spec fn wf(self) -> bool {
        if self.recording {
            self.target is Some
        } else {
            self.clip.len() == 0 && self.target is None
        }
    }

    /// The transition function of the detector.
    pub open spec fn step(self, tick: Tick) -> StepView {
        match laser_centroid(tick.frame.image@) {
            Some(pos) => {
                if self.recording {
                    StepView {
                        state: DetectorView { clip: self.clip.push(tick.frame), ..self },
                        laser: None,
                        hit: None,
                    }
                } else {
                    StepView {
                        state: DetectorView {
                            recording: true,
                            clip: taken_after(tick.recorded, self.last_hit_end),
                            target: Some(tick.target),
                            last_hit_end: self.last_hit_end,
                        },
                        laser: Some(LaserInfo { pos }),
                        hit: None,
                    }
                }
            },
            None => {
                if self.recording {
                    StepView {
                        state: DetectorView::idle(tick.frame.timestamp),
                        laser: None,
                        hit: Some(
                            HitView {
                                timestamp: tick.frame.timestamp,
                                frames: images(self.clip),
                                fps: CLIP_FPS,
                                target_info: self.target->Some_0,
                            },
                        ),
                    }
                } else {
                    StepView { state: self, laser: None, hit: None }
                }
            },
        }
    }

    /// The state after all of `ticks`, first to last.
    pub open spec fn run(self, ticks: Seq<Tick>) -> DetectorView
        decreases ticks.len(),
    {
        if ticks.len() == 0 {
            self
        } else {
            self.run(ticks.drop_last()).step(ticks.last()).state
        }
    }

    /// The hit reported at step `i` of `ticks`, if one is.
    pub open spec fn hit_at(self, ticks: Seq<Tick>, i: int) -> Option<HitView> {
        self.run(ticks.take(i)).step(ticks[i]).hit
    }
}

/// The frames of the steps `from .. to` of `ticks`.
pub open spec fn frames_of(ticks: Seq<Tick>, from: int, to: int) -> Seq<Arc<CapturedFrame>> {
    Seq::new((to - from) as nat, |k: int| ticks[from + k].frame)
}

/// Running one step more is a step from where the run so far has led.
pub proof fn lemma_run_unfold(start: DetectorView, ticks: Seq<Tick>, n: int)
    requires
        0 <= n < ticks.len(),
    ensures
        start.run(ticks.take(n + 1)) == start.run(ticks.take(n)).step(ticks[n]).state,
{
    let longer = ticks.take(n + 1);
    assert(longer.drop_last() =~= ticks.take(n));
    assert(longer.last() == ticks[n]);
}

/// A detector that starts idle is recording exactly when the last frame it
/// looked at showed the laser.
pub proof fn lemma_recording_follows_laser(start: DetectorView, ticks: Seq<Tick>)
    requires
        start.wf(),
        !start.recording,
    ensures
        start.run(ticks).wf(),
        start.run(ticks).recording <==> ticks.len() > 0 && ticks.last().lit(),
    decreases ticks.len(),
{
    if ticks.len() > 0 {
        lemma_recording_follows_laser(start, ticks.drop_last());
    }
}

/// One hit for each stretch of frames that show the laser: a detector that
/// starts idle reports a hit at a step exactly when the frame of that step
/// shows no laser and the frame before it showed one.
pub proof fn lemma_one_hit_per_interval(start: DetectorView, ticks: Seq<Tick>, i: int)
    requires
        start.wf(),
        !start.recording,
        0 <= i < ticks.len(),
    ensures
        start.hit_at(ticks, i) is Some <==> i > 0 && ticks[i - 1].lit() && !ticks[i].lit(),
{
    let before = ticks.take(i);
    lemma_recording_follows_laser(start, before);
    if i > 0 {
        assert(before.last() == ticks[i - 1]);
    }
}

/// While the laser stays on, the detector keeps the target of the frame that
/// started the stretch and gathers the recorder's recent frames followed by
/// every later frame of the stretch.
pub proof fn lemma_during_interval(start: DetectorView, ticks: Seq<Tick>, a: int, n: int)
    requires
        start.wf(),
        !start.recording,
        0 <= a < n <= ticks.len(),
        a == 0 || !ticks[a - 1].lit(),
        forall|j: int| a <= j < n ==> ticks[j].lit(),
    ensures
        start.run(ticks.take(n)).recording,
        start.run(ticks.take(n)).target == Some(ticks[a].target),
        start.run(ticks.take(n)).last_hit_end == start.run(ticks.take(a)).last_hit_end,
        start.run(ticks.take(n)).clip == taken_after(
            ticks[a].recorded,
            start.run(ticks.take(a)).last_hit_end,
        ) + frames_of(ticks, a + 1, n),
    decreases n - a,
{
    let at_a = start.run(ticks.take(a));
    let lead_in = taken_after(ticks[a].recorded, at_a.last_hit_end);
    lemma_run_unfold(start, ticks, n - 1);
    if n == a + 1 {
        lemma_recording_follows_laser(start, ticks.take(a));
        if a > 0 {
            assert(ticks.take(a).last() == ticks[a - 1]);
        }
        assert(frames_of(ticks, a + 1, n) =~= Seq::empty());
        assert(lead_in + frames_of(ticks, a + 1, n) =~= lead_in);
    } else {
        lemma_during_interval(start, ticks, a, n - 1);
        assert((lead_in + frames_of(ticks, a + 1, n - 1)).push(ticks[n - 1].frame) =~= lead_in
            + frames_of(ticks, a + 1, n));
    }
}

/// The clip of a hit holds the recent frames that the recorder held when the
/// laser came on, followed by every later frame that showed the laser; the
/// frame on which the laser was gone is left out. The hit carries the time of
/// that last frame and the target of the first.
pub proof fn lemma_clip_of_interval(start: DetectorView, ticks: Seq<Tick>, a: int, b: int)
    requires
        start.wf(),
        !start.recording,
        0 <= a < b < ticks.len(),
        a == 0 || !ticks[a - 1].lit(),
        forall|j: int| a <= j < b ==> ticks[j].lit(),
        !ticks[b].lit(),
    ensures
        start.hit_at(ticks, b) == Some(
            HitView {
                timestamp: ticks[b].frame.timestamp,
                frames: images(
                    taken_after(ticks[a].recorded, start.run(ticks.take(a)).last_hit_end)
                        + frames_of(ticks, a + 1, b),
                ),
                fps: CLIP_FPS,
                target_info: ticks[a].target,
            },
        ),
        start.hit_at(ticks, b)->Some_0.frames.len() == taken_after(
            ticks[a].recorded,
            start.run(ticks.take(a)).last_hit_end,
        ).len() + (b - a - 1),
{
    lemma_during_interval(start, ticks, a, b);
}

/// A clip is never empty when frames reach the recorder before they reach
/// the detector: if the frame on which the laser came on had just been pushed
/// to the recorder and was taken after the last hit ended, it is the last of
/// the recorder's frames in the clip, and the clip holds at least one frame
/// for each frame that showed the laser.
pub proof fn lemma_clip_holds_first_frame(
    start: DetectorView,
    ticks: Seq<Tick>,
    a: int,
    b: int,
    earlier: Seq<Arc<CapturedFrame>>,
)
    requires
        start.wf(),
        !start.recording,
        0 <= a < b < ticks.len(),
        a == 0 || !ticks[a - 1].lit(),
        forall|j: int| a <= j < b ==> ticks[j].lit(),
        !ticks[b].lit(),
        ticks[a].recorded == pushed(earlier, ticks[a].frame),
        ticks[a].frame.timestamp > start.run(ticks.take(a)).last_hit_end,
    ensures
        start.hit_at(ticks, b) is Some,
        start.hit_at(ticks, b)->Some_0.frames.len() >= b - a,
        taken_after(ticks[a].recorded, start.run(ticks.take(a)).last_hit_end).last()
            == ticks[a].frame,
{
    lemma_clip_of_interval(start, ticks, a, b);
    let end = start.run(ticks.take(a)).last_hit_end;
    let kept = retained(earlier, ticks[a].frame.timestamp);
    assert(kept.push(ticks[a].frame).drop_last() =~= kept);
    reveal(Seq::filter);
    assert(taken_after(ticks[a].recorded, end) == taken_after(kept, end).push(ticks[a].frame));
}

/// The hit that `event` announces, if it announces one.
pub open spec fn announced(event: Option<Event>) -> Option<HitView> {
    match event {
        Some(Event::NewHit { timestamp, clip, target_info }) => Some(
            HitView { timestamp, frames: raster_views(clip.0@), fps: clip.1, target_info },
        ),
        _ => None,
    }
}

/// What one step of the detector publishes.
pub struct Detection {
    /// The laser position to publish, when a hit has just begun.
    pub laser: Option<LaserInfo>,
    /// `Event::NewHit`, when a hit has just ended.
    pub hit: Option<Event>,
}

/// The hit detector.
pub struct HitDetector {
    recording: bool,
    clip: Vec<Arc<CapturedFrame>>,
    target: Option<TargetInfo>,
    last_hit_end: Timestamp,
}

impl View for HitDetector {
    type V = DetectorView;

    closed spec fn view(&self) -> DetectorView {
        DetectorView {
            recording: self.recording,
            clip: self.clip@,
            target: self.target,
            last_hit_end: self.last_hit_end,
        }
    }
}

/// The frames of `frames` taken after `t`.
fn frames_after(frames: &Vec<Arc<CapturedFrame>>, t: Timestamp) -> (kept: Vec<Arc<CapturedFrame>>)
    ensures
        kept@ == taken_after(frames@, t),
{
    let mut kept: Vec<Arc<CapturedFrame>> = Vec::new();
    let ghost pred = |f: Arc<CapturedFrame>| f.timestamp > t;
    let n = frames.len();
    let mut i: usize = 0;
    assert(frames@.take(0) =~= Seq::empty());
    while i < n
        invariant
            n == frames@.len(),
            0 <= i <= n,
            pred == (|f: Arc<CapturedFrame>| f.timestamp > t),
            kept@ == frames@.take(i as int).filter(pred),
        decreases n - i,
    {
        proof {
            let prefix = frames@.take(i as int + 1);
            assert(prefix.drop_last() =~= frames@.take(i as int));
            assert(prefix.last() == frames@[i as int]);
            reveal(Seq::filter);
        }
        if frames[i].timestamp > t {
            kept.push(share_frame(&frames[i]));
        }
        i = i + 1;
    }
    assert(frames@.take(n as int) =~= frames@);
    kept
}

/// Copies of the images of `frames`.
fn copy_images(frames: &Vec<Arc<CapturedFrame>>) -> (copies: Vec<Raster>)
    ensures
        raster_views(copies@) == images(frames@),
{
    let mut copies: Vec<Raster> = Vec::new();
    let n = frames.len();
    let mut i: usize = 0;
    while i < n
        invariant
            n == frames@.len(),
            0 <= i <= n,
            copies@.len() == i,
            forall|j: int| 0 <= j < i ==> copies@[j]@ == frames@[j].image@,
        decreases n - i,
    {
        copies.push(frames[i].image.clone());
        i = i + 1;
    }
    assert(raster_views(copies@) =~= images(frames@));
    copies
}

impl HitDetector {
    /// A detector that has seen no hit yet. Frames taken at `start` or before
    /// will not be part of its first clip.
    pub fn new(start: Timestamp) -> (d: Self)
        ensures
            d@ == DetectorView::idle(start),
            d@.wf(),
    {
        HitDetector { recording: false, clip: Vec::new(), target: None, last_hit_end: start }
    }

    /// Whether a hit is under way.
    pub fn is_recording(&self) -> (b: bool)
        ensures
            b == self@.recording,
    {
        self.recording
    }

    /// Looks at one unwarped target frame. `recorder` is the recorder the
    /// frame has just been pushed to, `target` the target as it is recognised
    /// now.
    pub fn on_frame(
        &mut self,
        frame: Arc<CapturedFrame>,
        recorder: &Recorder,
        target: &TargetInfo,
    ) -> (out: Detection)
        requires
            old(self)@.wf(),
        ensures
            final(self)@.wf(),
            final(self)@ == old(self)@.step(
                Tick { frame, recorded: recorder@, target: *target },
            ).state,
            out.laser == old(self)@.step(
                Tick { frame, recorded: recorder@, target: *target },
            ).laser,
            announced(out.hit) == old(self)@.step(
                Tick { frame, recorded: recorder@, target: *target },
            ).hit,
            out.hit is Some <==> old(self)@.recording && laser_centroid(frame.image@) is None,
    {
        match find_red_laser(&frame.image) {
            Some(pos) => {
                if self.recording {
                    self.clip.push(frame);
                    Detection { laser: None, hit: None }
                } else {
                    let recorded = recorder.frames();
                    self.clip = frames_after(&recorded, self.last_hit_end);
                    self.recording = true;
                    self.target = Some(*target);
                    Detection { laser: Some(LaserInfo { pos }), hit: None }
                }
            },
            None => {
                if self.recording {
                    let frames = copy_images(&self.clip);
                    let target_info = self.target.unwrap();
                    let timestamp = frame.timestamp;
                    self.clip = Vec::new();
                    self.recording = false;
                    self.target = None;
                    self.last_hit_end = timestamp;
                    Detection {
                        laser: None,
                        hit: Some(Event::NewHit { timestamp, clip: (frames, CLIP_FPS), target_info }),
                    }
                } else {
                    Detection { laser: None, hit: None }
                }
            },
        }
    }

    /// Carries out a command.
    pub fn handle(
        &mut self,
        command: HitDetectorCommand,
        recorder: &Recorder,
        target: &TargetInfo,
    ) -> (out: Detection)
        requires
            old(self)@.wf(),
        ensures
            final(self)@.wf(),
            command matches HitDetectorCommand::NewFrame(frame) ==> {
                let step = old(self)@.step(Tick { frame, recorded: recorder@, target: *target });
                &&& final(self)@ == step.state
                &&& out.laser == step.laser
                &&& announced(out.hit) == step.hit
                &&& (out.hit is Some <==> step.hit is Some)
            },
    {
        match command {
            HitDetectorCommand::NewFrame(frame) => self.on_frame(frame, recorder, target),
        }
    }
}

} // verus!
