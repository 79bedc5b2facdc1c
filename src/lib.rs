//! Hides a compressed text payload in the least significant bits of an
//! RGBA image's alpha channel, and recovers it.

pub mod bitstream;
pub mod error;
pub mod frame;
pub mod grid;
pub mod laws;
pub mod outside;
pub mod watermark;
