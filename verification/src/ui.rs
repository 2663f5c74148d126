//! What is on the screen: every text with its tone, every list with what is
//! selected in it. Where it stands and how it is drawn is left to the terminal.
pub mod bars;
pub mod picker;
pub mod screen;
pub mod spans;
pub mod tables;
pub mod views;

pub use spans::{Color, Span, SpanView, Theme, Tone};
