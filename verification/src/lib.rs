//! Driver core for WS2812-style addressable LED strips.
//!
//! The strip expects one single-wire serial bit per PWM period: a short high
//! pulse encodes a 0 bit, a long high pulse encodes a 1 bit. The modules here
//! turn a sequence of colors into the flat buffer of PWM compare values
//! ("duty ticks") that a timer/DMA peripheral streams out, and keep the
//! rotation state of a scrolling animation.

pub mod color;
pub mod driver;
pub mod encoder;
