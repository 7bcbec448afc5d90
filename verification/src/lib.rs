//! The streaming pipeline of a framebuffer capture: a frame source that
//! re-reads one region at a bounded rate, a transcoder to one bit per pixel,
//! and a delta-XOR codec that makes a mostly still picture compress well.
//!
//! Every stage pulls from the stage above it through `stream::Producer`.

pub mod device;
pub mod monow;
pub mod source;
pub mod stream;
pub mod throttle;
pub mod xor;
