//! Pixel logic of two full-screen badge scenes: a synthwave landscape and a
//! laser show, rendered into an RGB565 framebuffer of 320×170 pixels, and the
//! LED patterns that go with them.

pub mod arith;
pub mod color;
pub mod font;
pub mod framebuffer;
pub mod handoff;
pub mod laser_font;
pub mod laser_leds;
pub mod laser_line;
pub mod lasers;
pub mod rng;
pub mod synthwave;
pub mod synthwave_leds;
pub mod trig;
