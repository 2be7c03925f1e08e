//! Host-side core of a differential voxel-carving pipeline.
//!
//! A camera frame is compared with the one before it on the GPU, every changed
//! pixel is ray-marched through an `N`×`N`×`N` voxel grid, and the hits are
//! accumulated into a shared intensity grid.  This crate holds the parts of that
//! pipeline that run on the host and can be stated exactly: the index
//! arithmetic of the grid, the double-buffered frame store, the readiness state
//! machine that gates dispatch, the sizing and decoding of the hit buffer, and
//! the intensity store that consumes the decoded hits.
//!
//! Sample values cross the GPU boundary as IEEE 754 single-precision numbers.
//! The library never computes with floating-point numbers; it carries the
//! 32-bit patterns of the samples, classifies them by integer comparison and
//! converts them exactly into the fixed-point units in which intensities are
//! accumulated.
pub mod frames;
pub mod hit;
pub mod hit_buffer;
pub mod pipeline;
pub mod readback;
pub mod store;
pub mod voxel;
