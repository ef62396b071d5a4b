//! BLP1 texture container codec: header parsing and serialization, JPEG
//! marker scanning, per-level JPEG assembly, decoding and encoding.
//!
//! A container stores one JPEG marker prefix for all of its mip levels and
//! behind it the scan body of each level. Reading joins the prefix with a
//! scan body, brings the frame header to the dimensions of the level and
//! hands the stream to a JPEG decoder; writing encodes the levels one by
//! one, checks that they share their prefix, and stores it once.
//!
//! `survey` reports how the levels of a file use the shared prefix, and
//! `laws` and `scan_laws` hold what is proved of every file that this crate
//! writes.
//!
//! The modules `text`, `pathfold`, `save`, `lang` and `input` hold the
//! decisions of a front end that are worth stating exactly: file names,
//! folded paths, the language for a locale, and what to do with the answer
//! of a decoding worker.
pub mod assemble;
pub mod codec;
pub mod cursor;
pub mod decoder;
pub mod downsample;
pub mod encoder;
pub mod error;
pub mod header;
pub mod input;
pub mod lang;
pub mod laws;
pub mod mip;
pub mod pathfold;
pub mod rgba;
pub mod save;
pub mod scan;
pub mod scan_laws;
pub mod spans;
pub mod survey;
pub mod text;
pub mod texture;

pub use crate::codec::export_png;
pub use crate::decoder::{decode_all, decode_into, decode_mip, decode_with, export_jpg, parse_header};
pub use crate::encoder::encode;
pub use crate::error::{BlpError, ScanError};
pub use crate::rgba::RgbaImage;
pub use crate::texture::{BlpImage, MipEntry};
