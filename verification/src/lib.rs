//! Core of a camera-based laser target-shooting trainer.
//!
//! The crate holds the decision logic of the pipeline: the frame recorder,
//! the hit detector's state machine, the single-flight hit manager, the hit
//! processor, the routing table of the event bus and the naming scheme of the
//! hit store. Threads, channels, the camera, the screen and the file system
//! are left to the program that embeds it.

pub mod bus;
pub mod capturer;
pub mod coding;
pub mod hits;
pub mod recorder;
pub mod targets;
pub mod util;
pub mod vision;
