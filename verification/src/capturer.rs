//! Frames as the capture source delivers them.

use std::convert::Infallible;
use std::sync::Arc;
use vstd::prelude::*;

use crate::vision::raster::Raster;

verus! {

/// A point in time, in milliseconds since the Unix epoch.
pub type Timestamp = i64;

/// One captured image with the time it was taken at. A frame is never changed
/// once built; it is passed around behind an `Arc`.
pub struct CapturedFrame {
    /// Sequence number given by the capture source. Two handles denote the
    /// same frame exactly when their numbers agree.
    pub id: u64,
    pub timestamp: Timestamp,
    pub image: Raster,
}

/// Commands understood by the capture worker. There are none yet: no value
/// of this type can be made.
#[derive(Debug)]
pub enum CapturerCommand {
    /// Holds the place of commands to come.
    Never(Infallible),
}

/// Another handle to the same frame.
///
/// Calls `Arc::clone`, which bumps the reference count and returns a pointer
/// to the very same allocation, so the frame behind the new handle is the
/// frame behind the old one.
#[verifier::external_body]
pub(crate) fn share_frame(frame: &Arc<CapturedFrame>) -> (shared: Arc<CapturedFrame>)
    ensures
        shared == *frame,
{
    Arc::clone(frame)
}

} // verus!
