use laser_trainer::coding::ffmpeg::{
    parse_probe_output, raw_video, round_rate, split_frames, CodecError, VideoInfo,
};
use laser_trainer::vision::raster::Raster;

fn frame(width: u32, height: u32, seed: u8) -> Raster {
    let n = (width * height * 3) as usize;
    Raster::from_raw(width, height, (0..n).map(|i| seed.wrapping_add(i as u8)).collect()).unwrap()
}

#[test]
fn no_frames_cannot_be_saved() {
    assert!(matches!(raw_video(&[]), Err(CodecError::NoFrames)));
}

#[test]
fn frames_must_have_one_size() {
    let frames = vec![frame(2, 2, 0), frame(2, 2, 1), frame(2, 3, 2)];
    assert!(matches!(raw_video(&frames), Err(CodecError::MixedDimensions)));
    let frames = vec![frame(4, 1, 0), frame(1, 4, 1)];
    assert!(matches!(raw_video(&frames), Err(CodecError::MixedDimensions)));
}

#[test]
fn raw_video_is_the_frames_one_after_the_other() {
    let frames = vec![frame(2, 1, 10), frame(2, 1, 100)];
    let video = match raw_video(&frames) {
        Ok(v) => v,
        Err(_) => panic!("the clip is fine"),
    };
    assert_eq!((video.width, video.height), (2, 1));
    assert_eq!(video.data, vec![10, 11, 12, 13, 14, 15, 100, 101, 102, 103, 104, 105]);
}

#[test]
fn splitting_raw_video_gives_the_frames_back() {
    let frames: Vec<Raster> = (0..7).map(|i| frame(5, 3, i * 31)).collect();
    let video = match raw_video(&frames) {
        Ok(v) => v,
        Err(_) => panic!("the clip is fine"),
    };
    assert_eq!(split_frames(&video.data, video.width, video.height), frames);
}

#[test]
fn leftover_bytes_are_dropped() {
    let mut data = vec![0u8; 2 * 2 * 3 * 3 + 5];
    data[12] = 42;
    let frames = split_frames(&data, 2, 2);
    assert_eq!(frames.len(), 3);
    assert_eq!(frames[1].get_pixel(0, 0), (42, 0, 0));
    assert!(split_frames(&data[..11], 2, 2).is_empty());
    assert!(split_frames(&[], 2, 2).is_empty());
}

#[test]
fn frames_without_bytes_are_no_frames() {
    assert!(split_frames(&[1, 2, 3], 0, 7).is_empty());
    assert!(split_frames(&[1, 2, 3], 7, 0).is_empty());
    assert!(split_frames(&[1, 2, 3], u32::MAX, u32::MAX).is_empty());
}

#[test]
fn probe_answer_is_read() {
    assert_eq!(
        parse_probe_output("600,800,20/1\n"),
        Ok(VideoInfo { width: 600, height: 800, fps: 20 })
    );
    assert_eq!(
        parse_probe_output("  1920,1080,30000/1001 \r\n"),
        Ok(VideoInfo { width: 1920, height: 1080, fps: 30 })
    );
    assert_eq!(parse_probe_output("1,2,25"), Ok(VideoInfo { width: 1, height: 2, fps: 25 }));
    assert_eq!(parse_probe_output("+1,+2,+3/+2"), Ok(VideoInfo { width: 1, height: 2, fps: 2 }));
    assert_eq!(parse_probe_output("1,2,24/1/9"), Ok(VideoInfo { width: 1, height: 2, fps: 24 }));
    assert_eq!(
        parse_probe_output("4294967295,0,4294967295/1"),
        Ok(VideoInfo { width: u32::MAX, height: 0, fps: u32::MAX })
    );
}

#[test]
fn bad_probe_answers_are_refused() {
    for text in [
        "",
        "\n",
        "600,800",
        "600,800,20/1,extra",
        "600,,20/1",
        ",800,20/1",
        "600,800,",
        "600,800,/1",
        "600,800,20/",
        "600, 800,20/1",
        "600,800,20 /1",
        "-600,800,20/1",
        "600,800,29.97",
        "4294967296,800,20/1",
        "600,800,2é/1",
        "6oo,800,20/1",
        "+,800,20/1",
    ] {
        assert_eq!(parse_probe_output(text), Err(CodecError::BadProbeOutput), "{text:?}");
    }
}

#[test]
fn rates_are_rounded_to_the_nearest_whole() {
    assert_eq!(round_rate(30000, 1001), 30);
    assert_eq!(round_rate(24000, 1001), 24);
    assert_eq!(round_rate(5, 2), 3);
    assert_eq!(round_rate(7, 2), 4);
    assert_eq!(round_rate(1, 3), 0);
    assert_eq!(round_rate(2, 3), 1);
    assert_eq!(round_rate(0, 5), 0);
    assert_eq!(round_rate(u32::MAX, 1), u32::MAX);
    assert_eq!(round_rate(u32::MAX, u32::MAX), 1);
    assert_eq!(round_rate(0, 0), 0);
    assert_eq!(round_rate(1, 0), u32::MAX);
}
