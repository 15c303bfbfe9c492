//! Getting clips into and out of video files.

pub mod ffmpeg;
