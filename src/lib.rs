//! Luminance-driven posterization of 8-bit RGB images.
//!
//! All quantities are exact integers: a channel is a `u8` (value / 255), linear
//! light is measured in millionths, and a luminance in units of
//! `1 / LUMA_MAX`.
pub mod error;
pub mod filter;
pub mod generate;
pub mod luminance;
pub mod quantize;
pub mod raster;
pub mod stretch;

pub use error::FilterError;
pub use filter::{apply_milk_filter, apply_random_filters, fit_dimensions};
pub use generate::{draw_color, generate_palette, palette_from_colors, Draw};
pub use luminance::{LinearTable, LIN_MAX, LUMA_MAX};
pub use quantize::{quantize, Palette, PaletteEntry};
pub use raster::{Image, Pixel};
pub use stretch::stretch_by_luminance;
