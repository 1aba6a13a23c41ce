//! A text console over an 80 by 25 grid of character cells, laid out as the
//! VGA text buffer expects them, with line wrapping and scrolling.

pub mod buffer;
pub mod color;
pub mod writer;

pub use color::{Color, ColorCode};
pub use buffer::{Buffer, ScreenChar, BUFFER_HEIGHT, BUFFER_WIDTH};
pub use writer::{Writer, PLACEHOLDER};
