//! Carries an arbitrary byte stream in the pixels of an RGBA image and
//! recovers it again.
//!
//! Each pixel holds up to three payload bytes in its colour channels; its
//! alpha channel records how many of them are real. The image is sized from
//! the number of pixels and a requested aspect ratio, and padded with
//! transparent pixels to a full rectangle.

pub mod aspect;
pub mod codec;
pub mod container;
pub mod image;
pub mod pixel;
pub mod sizing;

pub use aspect::parse_aspect;
pub use image::{decode, encode, rgba_rectangle, DecodeError, EncodeError};
pub use pixel::Pixel;
