//! QOI ("Quite OK Image"): a lossless RGB(A) image codec.
//!
//! A file is a 14-byte header, a section of chunks and an 8-byte end marker.
//! Chunks are read and written against a state that both directions share: the
//! previous pixel, and 64 slots of pixels seen before.
//!
//! * [`parse_qoi`], [`parse_qoi_into`] and [`parse_qoi_header`] decode.
//! * [`encode_qoi`] and its variants encode.
//! * [`iter_ops`] and [`iter_ops_strict`] walk the chunks of a file, and
//!   [`QoiOp::write_to`] writes them.
//! * [`session`] decodes packet by packet and encodes frame by frame.
//! * [`model`] says what a file means, and [`laws`] what holds of the codec as a whole.
use vstd::prelude::*;

pub mod decoder;
pub mod encoder;
pub mod error;
pub mod image;
pub mod laws;
pub mod model;
pub mod ops;
pub mod options;
pub mod registry;
pub mod session;
pub mod text;

pub use crate::decoder::{parse_qoi, parse_qoi_header, parse_qoi_into};
pub use crate::encoder::{encode_qoi, encode_qoi_full, encode_qoi_full_into, encode_qoi_into};
pub use crate::error::{QoiError, Result};
pub use crate::image::{QoiChannels, QoiColorspace, QoiHeader, QoiImage};
pub use crate::ops::{iter_ops, iter_ops_strict, qoi_hash, QoiOp, QoiOpIter};
pub use crate::options::QoiEncoderOptions;
pub use crate::registry::register_containers;

verus! {

/// Codec identifier string.
pub const CODEC_ID_STR: &'static str = "qoi";

/// 4-byte magic at the head of every file: `qoif`.
pub const MAGIC: &'static [u8; 4] = &[0x71, 0x6f, 0x69, 0x66];

/// Size of the header in bytes: magic (4), width (4), height (4), channels (1), colorspace (1).
pub const HEADER_SIZE: usize = 14;

/// 8-byte end marker that closes every file.
pub const END_MARKER: &'static [u8; 8] = &[0, 0, 0, 0, 0, 0, 0, 1];

/// 8-bit tag: 3 raw R/G/B bytes follow, alpha unchanged.
pub const OP_RGB: u8 = 0xFE;

/// 8-bit tag: 4 raw R/G/B/A bytes follow.
pub const OP_RGBA: u8 = 0xFF;

/// 2-bit tag `00`: look up a slot of the running pixel array.
pub const OP_INDEX: u8 = 0x00;

/// 2-bit tag `01`: three 2-bit channel deltas.
pub const OP_DIFF: u8 = 0x40;

/// 2-bit tag `10`: 6-bit green delta, then two 4-bit relative deltas.
pub const OP_LUMA: u8 = 0x80;

/// 2-bit tag `11`: repeat the previous pixel 1 to 62 times.
pub const OP_RUN: u8 = 0xC0;

} // verus!
