//! Drives an RGB LED matrix panel over HUB75: lightness and gamma correction, a validated
//! pin assignment, a 64 x 64 frame buffer, the Binary Code Modulation encoder that turns a
//! frame into bus words (unrolled into a whole refresh cycle, or one row at a time), and
//! the refresh engine that replays those words and takes up new ones atomically.

pub mod bits;
pub mod color;
pub mod engine;
pub mod framebuffer;
pub mod hub75;
pub mod panel;
pub mod pins;
pub mod timeline;
