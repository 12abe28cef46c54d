//! Decoding of AIS (Automatic Identification System) sentence streams: six-bit
//! payload unpacking and field extraction, sentence tagging, and reassembly of
//! two-part messages.

pub mod text;
pub mod bits;
pub mod fragment;
pub mod decode;
pub mod reassembly;
pub mod laws;
pub mod extract;
