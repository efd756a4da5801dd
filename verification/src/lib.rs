//! Driver library for rotating 2D distance-ranging sensors.
//!
//! Raw byte streams from a sensor are framed and checked by a
//! per-protocol decoder, decoded into angle/distance/quality samples,
//! and grouped into full rotations ("turns"). Three wire protocols are
//! supported: the LD06 binary frame (CRC8), the XV11 fixed 22-byte
//! packet (running checksum), and the UST05LN ASCII line protocol.
//!
//! Angles are carried as signed integers in thousandths of a degree so
//! that every decoding step is exact; conversion to floating-point
//! degrees or radians is left to the caller.

pub mod lidar;
pub mod ld06;
pub mod ust05ln;
pub mod xv11;

pub use crate::lidar::{Sample, Turn};
pub use crate::ld06::LD06Transport;
