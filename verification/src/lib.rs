//! Image tensor utilities.
//!
//! Images are held as rank-3 tensors of bytes. The native image codec and
//! the native resizer work on buffers in height-width-channel (HWC) order,
//! while the public interface hands images around in channel-height-width
//! (CHW) order; this crate provides the verified layout conversions and the
//! shape bookkeeping between the two.

pub mod image;
