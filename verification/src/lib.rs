//! Size reduction for PDF documents and raster images.
//!
//! The crate decides, for every stream of a parsed document and for a
//! standalone image, which transform to apply, how aggressively, and whether
//! the result is committed. One rule holds throughout: a stream is never
//! given a payload that is not strictly shorter than the one it had.
//!
//! Parsing and serializing documents, pixel codecs, the deflate compressor,
//! the content hash and the thread pool are outside libraries. They are
//! reached through the functions of `container`, `codec`, `hashing`, `text`
//! and one function of `coordinator`, whose contracts are stated and not
//! proved; everything else is verified against those contracts.
//!
//! The two entry points are `compress_pdf_bytes` and `compress_image_bytes`.

pub mod classify;
pub mod codec;
pub mod container;
pub mod coordinator;
pub mod dedup;
pub mod display;
pub mod driver;
pub mod error;
pub mod generic_stream;
pub mod hashing;
pub mod image_pipeline;
pub mod image_stream;
pub mod model;
pub mod naming;
pub mod pixels;
pub mod quality;
pub mod request;
pub mod resample;
pub mod text;

pub use crate::driver::{compress_pdf_bytes, compress_pdf_bytes_with_rounds};
pub use crate::error::CompressionError;
pub use crate::image_pipeline::compress_image_bytes;
pub use crate::model::{CompressionResult, CompressionSettings};
pub use crate::naming::{format_file_size, sanitize_filename};
pub use crate::quality::{level_to_quality, quality_to_max_dimension};
