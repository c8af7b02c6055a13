//! SIXEL encoding of indexed-color raster images.
//!
//! A palette of [`Color`]s and an [`Image`] of palette indices are turned
//! into the byte sequence of a SIXEL terminal-graphics escape sequence.
use vstd::prelude::*;

pub mod color;
pub mod decimal;
pub mod encode;
pub mod index;

pub use color::Color;
pub use index::Index;
