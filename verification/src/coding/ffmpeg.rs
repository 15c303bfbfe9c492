//! What goes to the `ffmpeg` encoder and what comes back from the decoder.
//!
//! A clip is handed to the encoder as raw video: the bytes of its frames one
//! after the other, all frames of one size. The decoder hands raw video back,
//! and `ffprobe` tells the size and the rate of what a file holds. This
//! module builds and takes apart the raw video and reads the answer of
//! `ffprobe`; running the tools is left to the caller.

use vstd::prelude::*;
use vstd::slice::{slice_subrange, slice_to_vec};
use vstd::string::*;

use crate::hits::processor::raster_views;
use crate::util::text::{ascii_bytes, read_u32, u32_at};
use crate::vision::raster::{Raster, RasterView};

verus! {

/// Why a clip could not be encoded or decoded.
#[derive(Clone, Copy, Debug, PartialEq, Eq, Structural)]
pub enum CodecError {
    /// There are no frames to save.
    NoFrames,
    /// Not all frames have the size of the first.
    MixedDimensions,
    /// The answer of `ffprobe` is not `width,height,rate`.
    BadProbeOutput,
}

/// Raw video: frames of one size as one run of bytes.
pub struct RawVideo {
    pub width: u32,
    pub height: u32,
    pub data: Vec<u8>,
}

/// Every frame of `frames` is `width` by `height` and holds the bytes for
/// that.
pub open spec fn uniform(frames: Seq<RasterView>, width: nat, height: nat) -> bool {
    forall|i: int|
        0 <= i < frames.len() ==> (#[trigger] frames[i]).width == width && frames[i].height
            == height && frames[i].wf()
}

/// The bytes of `frames`, one frame after the other.
pub open spec fn stream_of(frames: Seq<RasterView>) -> Seq<u8>
    decreases frames.len(),
{
    if frames.len() == 0 {
        Seq::empty()
    } else {
        stream_of(frames.drop_last()) + frames.last().data
    }
}

/// Number of bytes of one `width` by `height` frame.
pub open spec fn frame_len(width: nat, height: nat) -> nat {
    3 * (width * height)
}

/// The frames that the raw video `bytes` holds: as many whole frames as there
/// are bytes for, none if a frame has no bytes at all. Bytes left over at the
/// end are dropped.
pub open spec fn split_of(bytes: Seq<u8>, width: nat, height: nat) -> Seq<RasterView> {
    let len = frame_len(width, height);
    if len == 0 {
        Seq::empty()
    } else {
        Seq::new(
            bytes.len() / len,
            |i: int| RasterView { width, height, data: bytes.subrange(i * len, (i + 1) * len) },
        )
    }
}

/// The raw video of uniform frames is as long as all of them together.
pub proof fn lemma_stream_len(frames: Seq<RasterView>, width: nat, height: nat)
    requires
        uniform(frames, width, height),
    ensures
        stream_of(frames).len() == frames.len() * frame_len(width, height),
    decreases frames.len(),
{
    if frames.len() > 0 {
        let front = frames.drop_last();
        assert forall|i: int| 0 <= i < front.len() implies (#[trigger] front[i]).width == width
            && front[i].height == height && front[i].wf() by {
            assert(front[i] == frames[i]);
        }
        lemma_stream_len(front, width, height);
        assert(frames.last() == frames[frames.len() - 1]);
        assert(frames.len() * frame_len(width, height) == front.len() * frame_len(width, height)
            + frame_len(width, height)) by (nonlinear_arith)
            requires
                frames.len() == front.len() + 1,
        ;
    } else {
        assert(0 * frame_len(width, height) == 0) by (nonlinear_arith);
    }
}

/// In the raw video of uniform frames, each frame stands at its place.
pub proof fn lemma_stream_chunk(frames: Seq<RasterView>, width: nat, height: nat, i: int)
    requires
        uniform(frames, width, height),
        0 <= i < frames.len(),
    ensures
        (i + 1) * frame_len(width, height) <= stream_of(frames).len(),
        stream_of(frames).subrange(i * frame_len(width, height), (i + 1) * frame_len(width, height))
            == frames[i].data,
    decreases frames.len(),
{
    let len = frame_len(width, height);
    let front = frames.drop_last();
    assert forall|k: int| 0 <= k < front.len() implies (#[trigger] front[k]).width == width
        && front[k].height == height && front[k].wf() by {
        assert(front[k] == frames[k]);
    }
    lemma_stream_len(front, width, height);
    lemma_stream_len(frames, width, height);
    assert(frames.last() == frames[frames.len() - 1]);
    assert(i * len >= 0 && (i + 1) * len == i * len + len) by (nonlinear_arith)
        requires
            i >= 0,
            len >= 0,
    ;
    if i == frames.len() - 1 {
        assert(stream_of(frames).subrange(i * len, (i + 1) * len) =~= frames[i].data);
    } else {
        lemma_stream_chunk(front, width, height, i);
        assert(front[i] == frames[i]);
        assert(stream_of(frames).subrange(i * len, (i + 1) * len) =~= stream_of(front).subrange(
            i * len,
            (i + 1) * len,
        ));
    }
}

/// Taking raw video apart gives back the frames it was made of: the same
/// number of frames, and each frame byte for byte.
pub proof fn lemma_split_inverts_stream(frames: Seq<RasterView>, width: nat, height: nat)
    requires
        uniform(frames, width, height),
        frame_len(width, height) > 0,
    ensures
        split_of(stream_of(frames), width, height) == frames,
{
    let len = frame_len(width, height);
    let bytes = stream_of(frames);
    lemma_stream_len(frames, width, height);
    assert(bytes.len() / len == frames.len()) by (nonlinear_arith)
        requires
            bytes.len() == frames.len() * len,
            len > 0,
    ;
    let back = split_of(bytes, width, height);
    assert forall|i: int| 0 <= i < frames.len() implies back[i] == frames[i] by {
        lemma_stream_chunk(frames, width, height, i);
    }
    assert(back =~= frames);
}

/// The raw video of a clip. Refuses a clip without frames, and one whose
/// frames are not all of the size of the first. Taken apart again, the raw
/// video gives back the frames of the clip, as many and byte for byte.
pub fn raw_video(frames: &[Raster]) -> (out: Result<RawVideo, CodecError>)
    ensures
        match out {
            Ok(video) => {
                &&& frames@.len() > 0
                &&& video.width == frames@[0]@.width
                &&& video.height == frames@[0]@.height
                &&& uniform(raster_views(frames@), video.width as nat, video.height as nat)
                &&& video.data@ == stream_of(raster_views(frames@))
                &&& frame_len(video.width as nat, video.height as nat) > 0 ==> split_of(
                    video.data@,
                    video.width as nat,
                    video.height as nat,
                ) == raster_views(frames@)
            },
            Err(CodecError::NoFrames) => frames@.len() == 0,
            Err(CodecError::MixedDimensions) => frames@.len() > 0 && !uniform(
                raster_views(frames@),
                frames@[0]@.width,
                frames@[0]@.height,
            ),
            Err(_) => false,
        },
{
    let n = frames.len();
    if n == 0 {
        return Err(CodecError::NoFrames);
    }
    let (width, height) = frames[0].dimensions();
    let ghost views = raster_views(frames@);
    let mut data: Vec<u8> = Vec::new();
    let mut i: usize = 0;
    assert(views.take(0) =~= Seq::empty());
    while i < n
        invariant
            n == frames@.len(),
            views == raster_views(frames@),
            0 <= i <= n,
            n > 0,
            width == frames@[0]@.width,
            height == frames@[0]@.height,
            uniform(views.take(i as int), width as nat, height as nat),
            data@ == stream_of(views.take(i as int)),
        decreases n - i,
    {
        let frame = &frames[i];
        let (w, h) = frame.dimensions();
        assert(views[i as int] == frames@[i as int]@);
        if w != width || h != height {
            return Err(CodecError::MixedDimensions);
        }
        let bytes = frame.as_raw();
        let ghost before = data@;
        data.extend_from_slice(bytes.as_slice());
        proof {
            let more = views.take(i as int + 1);
            assert(more.drop_last() =~= views.take(i as int));
            assert(more.last() == views[i as int]);
            assert(data@ =~= before + bytes@);
            assert forall|k: int| 0 <= k < more.len() implies (#[trigger] more[k]).width == width
                && more[k].height == height && more[k].wf() by {
                if k < i {
                    assert(more[k] == views.take(i as int)[k]);
                }
            }
        }
        i = i + 1;
    }
    assert(views.take(n as int) =~= views);
    proof {
        if frame_len(width as nat, height as nat) > 0 {
            lemma_split_inverts_stream(views, width as nat, height as nat);
        }
    }
    Ok(RawVideo { width, height, data })
}

/// Takes raw video apart into `width` by `height` frames: as many whole
/// frames as there are bytes for. Bytes left over at the end are dropped, and
/// there is no frame at all where a frame would have no bytes.
pub fn split_frames(bytes: &[u8], width: u32, height: u32) -> (frames: Vec<Raster>)
    ensures
        raster_views(frames@) == split_of(bytes@, width as nat, height as nat),
{
    let mut frames: Vec<Raster> = Vec::new();
    let total = bytes.len();
    assert(width as nat * height as nat <= 0xffff_ffff * 0xffff_ffff) by (nonlinear_arith)
        requires
            width <= 0xffff_ffff,
            height <= 0xffff_ffff,
    ;
    let wide: u128 = 3 * ((width as u128) * (height as u128));
    let ghost target = split_of(bytes@, width as nat, height as nat);
    if wide == 0 {
        assert(raster_views(frames@) =~= target);
        return frames;
    }
    if wide > total as u128 {
        assert(bytes@.len() / frame_len(width as nat, height as nat) == 0) by (nonlinear_arith)
            requires
                frame_len(width as nat, height as nat) > bytes@.len(),
        ;
        assert(raster_views(frames@) =~= target);
        return frames;
    }
    let len: usize = wide as usize;
    let count: usize = total / len;
    assert(count * len <= total) by (nonlinear_arith)
        requires
            count == total / len,
            len > 0,
    ;
    let mut i: usize = 0;
    while i < count
        invariant
            total == bytes@.len(),
            len == frame_len(width as nat, height as nat),
            len > 0,
            count == total / len,
            count * len <= total,
            0 <= i <= count,
            frames@.len() == i,
            forall|k: int|
                0 <= k < i ==> (#[trigger] frames@[k])@ == (RasterView {
                    width: width as nat,
                    height: height as nat,
                    data: bytes@.subrange(k * len, (k + 1) * len),
                }),
        decreases count - i,
    {
        assert(i * len + len <= count * len && i * len >= 0 && (i + 1) * len == i * len + len)
            by (nonlinear_arith)
            requires
                0 <= i < count,
                len > 0,
        ;
        let from: usize = i * len;
        let chunk = slice_to_vec(slice_subrange(bytes, from, from + len));
        match Raster::from_raw(width, height, chunk) {
            Some(frame) => {
                frames.push(frame);
            },
            None => {
                assert(false);
            },
        }
        i = i + 1;
    }
    assert(raster_views(frames@) =~= target);
    frames
}

/// What `ffprobe` tells about a video file.
#[derive(Clone, Copy, Debug, PartialEq, Eq, Structural)]
pub struct VideoInfo {
    pub width: u32,
    pub height: u32,
    /// Frames per second, rounded to a whole number.
    pub fps: u32,
}

/// `c` is a blank, a tab or a line break.
pub open spec fn is_space(c: char) -> bool {
    c == ' ' || c == '\t' || c == '\n' || c == '\r' || c == '\x0b' || c == '\x0c'
}

/// Where the text of `s` begins, from `from` on: the first place that holds
/// no space.
pub open spec fn text_start(s: Seq<char>, from: int) -> int
    decreases s.len() - from,
{
    if from < 0 || from >= s.len() {
        s.len() as int
    } else if is_space(s[from]) {
        text_start(s, from + 1)
    } else {
        from
    }
}

/// Where the text of `s` ends, looking back from `to`: the place behind the
/// last one, not before `from`, that holds no space.
pub open spec fn text_end(s: Seq<char>, from: int, to: int) -> int
    decreases to - from,
{
    if to <= from || to > s.len() || from < 0 {
        from
    } else if is_space(s[to - 1]) {
        text_end(s, from, to - 1)
    } else {
        to
    }
}

/// `s` without the spaces at its ends.
pub open spec fn trimmed(s: Seq<char>) -> Seq<char> {
    let from = text_start(s, 0);
    s.subrange(from, text_end(s, from, s.len() as int))
}

/// The first place at or behind `from` where `s` holds `c`; the length of `s`
/// if there is none.
pub open spec fn find(s: Seq<char>, c: char, from: int) -> int
    decreases s.len() - from,
{
    if from < 0 || from >= s.len() {
        s.len() as int
    } else if s[from] == c {
        from
    } else {
        find(s, c, from + 1)
    }
}

/// The quotient of `num` by `den`, rounded to the nearest whole number, a
/// half rounded up. Division by zero gives the largest number there is,
/// except that nought by nought is nought.
pub open spec fn rounded_rate(num: u32, den: u32) -> u32 {
    if den == 0 {
        if num == 0 {
            0
        } else {
            u32::MAX
        }
    } else {
        ((2 * num + den) / (2 * den)) as u32
    }
}

/// What the answer `s` of `ffprobe` says. The answer is one line,
/// `width,height,rate`, with spaces or line breaks around it at most. Width
/// and height are whole numbers. The rate is a whole number or a fraction of
/// two, `num/den`; anything behind a second `/` is not looked at.
pub open spec fn parsed_probe(s: Seq<char>) -> Option<VideoInfo> {
    let t = trimmed(s);
    let c1 = find(t, ',', 0);
    let c2 = find(t, ',', c1 + 1);
    let c3 = find(t, ',', c2 + 1);
    let s1 = find(t, '/', c2 + 1);
    let s2 = find(t, '/', s1 + 1);
    let width = u32_at(t, 0, c1);
    let height = u32_at(t, c1 + 1, c2);
    let num = u32_at(t, c2 + 1, s1);
    let den = if s1 == t.len() {
        Some(1u32)
    } else {
        u32_at(t, s1 + 1, s2)
    };
    if vstd::utf8::is_ascii_chars(s) && c1 < t.len() && c2 < t.len() && c3 == t.len()
        && width is Some && height is Some && num is Some && den is Some {
        Some(
            VideoInfo {
                width: width->Some_0,
                height: height->Some_0,
                fps: rounded_rate(num->Some_0, den->Some_0),
            },
        )
    } else {
        None
    }
}

/// A whole rate, written as a fraction over one, is read back as it is.
pub proof fn lemma_whole_rate_is_kept(fps: u32)
    ensures
        rounded_rate(fps, 1) == fps,
{
    assert((2 * fps + 1) / 2 == fps);
    assert(2 * 1 == 2);
}

/// The rate `num/den` rounded to whole frames per second.
pub fn round_rate(num: u32, den: u32) -> (fps: u32)
    ensures
        fps == rounded_rate(num, den),
{
    if den == 0 {
        if num == 0 {
            0
        } else {
            u32::MAX
        }
    } else {
        let twice: u64 = 2 * (num as u64) + (den as u64);
        let by: u64 = 2 * (den as u64);
        let q: u64 = twice / by;
        assert(q <= num) by (nonlinear_arith)
            requires
                q == (2 * num + den) / (2 * den),
                den >= 1,
                num >= 0,
        ;
        q as u32
    }
}

/// The first place at or behind `from` where the text holds the byte `b`.
fn find_byte(bytes: &[u8], b: u8, from: usize, Ghost(chars): Ghost<Seq<char>>) -> (at: usize)
    requires
        ascii_bytes(bytes@, chars),
        b < 128,
    ensures
        at == find(chars, b as char, from as int),
        from <= at || at == chars.len(),
        at <= chars.len(),
{
    let n = bytes.len();
    let mut i: usize = from;
    while i < n && bytes[i] != b
        invariant
            n == bytes@.len(),
            ascii_bytes(bytes@, chars),
            b < 128,
            from <= i,
            find(chars, b as char, from as int) == find(chars, b as char, i as int),
        decreases n - i,
    {
        assert(bytes@[i as int] == chars[i as int] as u8);
        i = i + 1;
    }
    if i < n {
        assert(bytes@[i as int] == chars[i as int] as u8);
        i
    } else {
        n
    }
}

/// Whether the byte `b` is a space.
fn space_byte(b: u8) -> (yes: bool)
    ensures
        b < 128 ==> yes == is_space(b as char),
{
    b == 32 || b == 9 || b == 10 || b == 13 || b == 11 || b == 12
}

/// Reads the answer of `ffprobe`.
pub fn parse_probe_output(text: &str) -> (out: Result<VideoInfo, CodecError>)
    ensures
        match out {
            Ok(info) => parsed_probe(text@) == Some(info),
            Err(e) => e == CodecError::BadProbeOutput && parsed_probe(text@) is None,
        },
{
    if !text.is_ascii() {
        return Err(CodecError::BadProbeOutput);
    }
    let all = text.as_bytes();
    let ghost s = text@;
    proof {
        is_ascii_spec_bytes(text);
        assert(ascii_bytes(all@, s));
    }
    let n = all.len();
    let mut from: usize = 0;
    while from < n && space_byte(all[from])
        invariant
            n == all@.len(),
            ascii_bytes(all@, s),
            0 <= from <= n,
            text_start(s, 0) == text_start(s, from as int),
        decreases n - from,
    {
        assert(all@[from as int] == s[from as int] as u8);
        from = from + 1;
    }
    proof {
        if from < n {
            assert(all@[from as int] == s[from as int] as u8);
        }
        assert(text_start(s, 0) == from);
    }
    let mut to: usize = n;
    while to > from && space_byte(all[to - 1])
        invariant
            n == all@.len(),
            ascii_bytes(all@, s),
            from <= to <= n,
            text_end(s, from as int, n as int) == text_end(s, from as int, to as int),
        decreases to - from,
    {
        assert(all@[to - 1] == s[to - 1] as u8);
        to = to - 1;
    }
    proof {
        if to > from {
            assert(all@[to - 1] == s[to - 1] as u8);
        }
        assert(text_end(s, from as int, n as int) == to);
    }
    let bytes = slice_subrange(all, from, to);
    let ghost t = trimmed(s);
    proof {
        assert(t == s.subrange(from as int, to as int));
        assert forall|i: int| 0 <= i < t.len() implies '\0' <= #[trigger] t[i] <= '\u{7f}' by {
            assert(t[i] == s[from + i]);
        }
        assert forall|i: int| 0 <= i < t.len() implies #[trigger] bytes@[i] == t[i] as u8 by {
            assert(t[i] == s[from + i]);
            assert(bytes@[i] == all@[from + i]);
        }
        assert(ascii_bytes(bytes@, t));
    }
    let len = bytes.len();
    let c1 = find_byte(bytes, 44, 0, Ghost(t));
    if c1 >= len {
        return Err(CodecError::BadProbeOutput);
    }
    let c2 = find_byte(bytes, 44, c1 + 1, Ghost(t));
    if c2 >= len {
        return Err(CodecError::BadProbeOutput);
    }
    let c3 = find_byte(bytes, 44, c2 + 1, Ghost(t));
    if c3 < len {
        return Err(CodecError::BadProbeOutput);
    }
    let s1 = find_byte(bytes, 47, c2 + 1, Ghost(t));
    let width = match read_u32(bytes, 0, c1, Ghost(t)) {
        Some(v) => v,
        None => { return Err(CodecError::BadProbeOutput); },
    };
    let height = match read_u32(bytes, c1 + 1, c2, Ghost(t)) {
        Some(v) => v,
        None => { return Err(CodecError::BadProbeOutput); },
    };
    let num = match read_u32(bytes, c2 + 1, s1, Ghost(t)) {
        Some(v) => v,
        None => { return Err(CodecError::BadProbeOutput); },
    };
    let den = if s1 >= len {
        1
    } else {
        let s2 = find_byte(bytes, 47, s1 + 1, Ghost(t));
        match read_u32(bytes, s1 + 1, s2, Ghost(t)) {
            Some(v) => v,
            None => { return Err(CodecError::BadProbeOutput); },
        }
    };
    Ok(VideoInfo { width, height, fps: round_rate(num, den) })
}

} // verus!
