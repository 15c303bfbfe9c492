//! Hits: how they are detected, stored, queued and scored.

use vstd::prelude::*;

use crate::vision::laser::Centroid;

pub mod detector;
pub mod manager;
pub mod processor;
pub mod storage;

verus! {

/// Where the laser was seen last, in the coordinates of the unwarped target.
#[derive(Clone, Copy, Debug, PartialEq, Eq)]
pub struct LaserInfo {
    pub pos: Centroid,
}

} // verus!
