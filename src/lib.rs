//! Boot-time greyscale rendering: a bitmap font atlas, a framebuffer surface,
//! a run-length encoded logo decoder with a fade-in compositor, and a text
//! console that draws incoming debug bytes.

pub mod builder;
pub mod glyph;
pub mod surface;
pub mod rle;
pub mod fade;
pub mod console;
