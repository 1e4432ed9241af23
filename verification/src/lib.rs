//! A 16-slot terminal color scheme synthesizer.
//!
//! Raw RGB samples (or a single seed color) are turned into a complete
//! 16-slot ANSI palette: the samples are classified as monochrome,
//! low-diversity or chromatic, and a matching generation strategy picks
//! background, foreground and six hue-mapped accents while enforcing
//! minimum contrast and brightness bounds for light and dark modes.
//!
//! All color arithmetic is fixed-point: hue in units of 0.0001 degrees,
//! saturation and lightness in units of 0.0001 (so 10000 is 100%).

pub mod classify;
pub mod color;
pub mod palette;
pub mod seed;
pub mod select;
pub mod synth;
pub mod text;

pub use color::Rgb;
