//! Streaming photon-to-voxel pipeline for laser-scanning microscopy.
//!
//! Time tags from a time-tagging instrument are classified by input channel,
//! mapped from picosecond arrival times to voxels of the scanned volume, and
//! accumulated into per-channel frame buffers.
use vstd::prelude::*;

pub mod configuration;
pub mod event_stream;
pub mod frame_buffers;
pub mod point_cloud_renderer;
pub mod snakes;

verus! {

/// The number of photomultiplier (spectral) inputs; frame buffers hold one
/// more map, the merge of all of them.
pub const SUPPORTED_SPECTRAL_CHANNELS: usize = 4;

} // verus!
