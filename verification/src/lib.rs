//! A colourful hex printer: the rules by which bytes become lines, and lines a dump.

pub mod args;
pub mod ascii_renderer;
pub mod blocks;
pub mod border_writer;
pub mod buffer_writer;
pub mod byte_to_color;
pub mod dump;
pub mod error;
pub mod faithful;
pub mod hex_formatter;
pub mod labels;
pub mod laws;
pub mod line_writer;
pub mod reading;
pub mod session;
pub mod shown;
pub mod text;
pub mod title;

pub use args::{plan, Args};
pub use buffer_writer::BufferWriter;
pub use dump::{demo, dump};
