//! Frame assembly for a Linear Timecode (LTC) bit stream: an 80-bit sliding
//! register, the field layout of an LTC frame, and a tracker that reports a
//! frame only once a correctly aligned sync word has been received.

pub mod diagnostics;
pub mod field_table;
pub mod frame;
pub mod frame_data;

mod bit_ops;
