//! A text-mode display writer: an 80 x 25 grid of glyph cells with a cursor
//! on the bottom row, line advance by scrolling, and a placeholder glyph for
//! bytes that cannot be shown.
pub mod lemmas;
pub mod vga_buffer;

pub use vga_buffer::{
    _print, Buffer, Color, ColorCode, ScreenChar, Writer, BLANK_BYTE, BUFFER_HEIGHT, BUFFER_WIDTH,
    NEWLINE, PLACEHOLDER,
};
